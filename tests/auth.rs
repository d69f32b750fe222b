use wow_srp::client::{SrpClient, SrpClientChallenge};
use wow_srp::normalized_string::NormalizedString;
use wow_srp::server::SrpVerifier;
use wow_srp::{PublicKey, GENERATOR, LARGE_SAFE_PRIME_LITTLE_ENDIAN};
use wrath_core::auth::{
    AccountRecord, AuthManager, ChallengeReply, Outbound, ProofReply, ReconnectChallengeReply, ReconnectProofReply, ServerEvent,
    SessionStatus,
};

const PASSWORD: &str = "secret";

fn account(name: &str, banned: u8) -> AccountRecord {
    let verifier = SrpVerifier::from_username_and_password(NormalizedString::new(name).unwrap(), NormalizedString::new(PASSWORD).unwrap());
    AccountRecord {
        id: 7,
        username: name.to_string(),
        v: hex::encode(verifier.password_verifier()),
        s: hex::encode(verifier.salt()),
        banned,
    }
}

/// Runs the challenge and the proof for `peer`, returning the client and the stored key text.
fn logon(m: &mut AuthManager, peer: u64, name: &str) -> (SrpClient, Vec<Outbound>, Option<(String, String)>) {
    let sends = m.handle_logon_challenge(peer, Some(account(name, 0)));
    assert_eq!(sends.len(), 1);
    assert_eq!(sends[0].peer, peer);
    let (key, salt) = match &sends[0].event {
        ServerEvent::LogonChallenge(ChallengeReply::Success { server_public_key, salt }) => (server_public_key.clone(), salt.clone()),
        other => panic!("unexpected reply {:?}", other),
    };
    assert_eq!(m.status(peer), Some(SessionStatus::ChallengeIssued(name.to_string())));
    let challenge = SrpClientChallenge::new(
        NormalizedString::new(name).unwrap(),
        NormalizedString::new(PASSWORD).unwrap(),
        GENERATOR,
        LARGE_SAFE_PRIME_LITTLE_ENDIAN,
        PublicKey::from_le_bytes(key.try_into().unwrap()).unwrap(),
        salt.try_into().unwrap(),
    );
    let outcome = m.handle_logon_proof(peer, &challenge.client_public_key().to_vec(), &challenge.client_proof().to_vec());
    let server_proof = match &outcome.sends[0].event {
        ServerEvent::LogonProof(ProofReply::Success { server_proof }) => server_proof.clone(),
        other => panic!("unexpected reply {:?}", other),
    };
    let client = challenge.verify_server_proof(server_proof.try_into().unwrap()).unwrap();
    (client, outcome.sends, outcome.session_key)
}

#[test]
fn happy_path_auth() {
    let mut m = AuthManager::new(500_000);
    m.connect(1, 0);
    let (client, sends, stored) = logon(&mut m, 1, "alice");
    assert_eq!(sends.len(), 1);
    assert_eq!(stored, Some(("alice".to_string(), hex::encode(client.session_key()))));
    assert_eq!(m.status(1), Some(SessionStatus::Authenticated("alice".to_string())));
    assert_eq!(m.authenticated_address(&"alice".to_string()), Some(1));
    let (sends, name) = m.handle_realm_list(1);
    assert!(sends.is_empty());
    assert_eq!(name, Some("alice".to_string()));
}

#[test]
fn fast_reconnect_moves_authentication() {
    let mut m = AuthManager::new(500_000);
    m.connect(1, 0);
    let (client, _, _) = logon(&mut m, 1, "alice");
    m.connect(2, 10);
    let sends = m.handle_reconnect_challenge(2, &"alice".to_string());
    assert_eq!(sends.len(), 1);
    assert_eq!(sends[0].peer, 2);
    let data = match &sends[0].event {
        ServerEvent::ReconnectChallenge(ReconnectChallengeReply::Success { challenge_data }) => challenge_data.clone(),
        other => panic!("unexpected reply {:?}", other),
    };
    assert_eq!(m.status(2), Some(SessionStatus::ReconnectPending("alice".to_string())));
    let values = client.calculate_reconnect_values(data.try_into().unwrap());
    let sends = m.handle_reconnect_proof(2, &values.challenge_data.to_vec(), &values.proof.to_vec());
    assert_eq!(
        sends,
        vec![
            Outbound { peer: 2, event: ServerEvent::ReconnectProof(ReconnectProofReply::Success) },
            Outbound { peer: 1, event: ServerEvent::Disconnect },
        ]
    );
    assert_eq!(m.authenticated_address(&"alice".to_string()), Some(2));
    assert_eq!(m.status(1), None);
    assert_eq!(m.status(2), Some(SessionStatus::Authenticated("alice".to_string())));
}

#[test]
fn reconnect_with_wrong_proof_reverts_to_connected() {
    let mut m = AuthManager::new(500_000);
    m.connect(1, 0);
    let _ = logon(&mut m, 1, "alice");
    m.connect(2, 10);
    let _ = m.handle_reconnect_challenge(2, &"alice".to_string());
    let sends = m.handle_reconnect_proof(2, &vec![0u8; 16], &vec![0u8; 20]);
    assert_eq!(sends, vec![Outbound { peer: 2, event: ServerEvent::ReconnectProof(ReconnectProofReply::FailIncorrectPassword) }]);
    assert_eq!(m.status(2), Some(SessionStatus::Connected));
    assert_eq!(m.authenticated_address(&"alice".to_string()), Some(1));
}

#[test]
fn reconnect_challenge_for_unknown_account_fails() {
    let mut m = AuthManager::new(500_000);
    m.connect(2, 0);
    let sends = m.handle_reconnect_challenge(2, &"nobody".to_string());
    assert_eq!(sends, vec![Outbound { peer: 2, event: ServerEvent::ReconnectChallenge(ReconnectChallengeReply::FailUnknown0) }]);
    assert_eq!(m.status(2), Some(SessionStatus::Connected));
}

#[test]
fn duplicate_login_disconnects_earlier_session() {
    let mut m = AuthManager::new(500_000);
    m.connect(1, 0);
    m.connect(2, 0);
    let (_, first, _) = logon(&mut m, 1, "bob");
    assert_eq!(first.len(), 1);
    let (_, second, _) = logon(&mut m, 2, "bob");
    assert_eq!(second.len(), 2);
    assert_eq!(second[1], Outbound { peer: 1, event: ServerEvent::Disconnect });
    assert_eq!(m.authenticated_address(&"bob".to_string()), Some(2));
    assert_eq!(m.status(1), None);
}

#[test]
fn ban_rejection() {
    let mut m = AuthManager::new(500_000);
    m.connect(1, 0);
    let sends = m.handle_logon_challenge(1, Some(account("carol", 1)));
    assert_eq!(sends, vec![Outbound { peer: 1, event: ServerEvent::LogonChallenge(ChallengeReply::FailBanned) }]);
    assert_eq!(m.status(1), Some(SessionStatus::Connected));
    let outcome = m.handle_logon_proof(1, &vec![1u8; 32], &vec![0u8; 20]);
    assert_eq!(
        outcome.sends,
        vec![
            Outbound { peer: 1, event: ServerEvent::LogonProof(ProofReply::FailUnknownAccount) },
            Outbound { peer: 1, event: ServerEvent::Disconnect },
        ]
    );
    assert_eq!(outcome.session_key, None);
    assert_eq!(m.status(1), None);
}

#[test]
fn ban_check_precedes_empty_verifier() {
    let mut m = AuthManager::new(500_000);
    m.connect(1, 0);
    let mut banned = account("dave", 1);
    banned.v = String::new();
    let sends = m.handle_logon_challenge(1, Some(banned));
    assert_eq!(sends, vec![Outbound { peer: 1, event: ServerEvent::LogonChallenge(ChallengeReply::FailBanned) }]);
    let mut empty = account("dave", 0);
    empty.s = String::new();
    let sends = m.handle_logon_challenge(1, Some(empty));
    assert_eq!(sends, vec![Outbound { peer: 1, event: ServerEvent::LogonChallenge(ChallengeReply::FailUnknownAccount) }]);
    assert_eq!(m.status(1), Some(SessionStatus::Connected));
}

#[test]
fn unknown_account_is_rejected() {
    let mut m = AuthManager::new(500_000);
    m.connect(1, 0);
    let sends = m.handle_logon_challenge(1, None);
    assert_eq!(sends, vec![Outbound { peer: 1, event: ServerEvent::LogonChallenge(ChallengeReply::FailUnknownAccount) }]);
}

#[test]
fn malformed_verifier_drops_connection() {
    let mut m = AuthManager::new(500_000);
    m.connect(1, 0);
    let mut acc = account("erin", 0);
    acc.v = "zz".to_string();
    let sends = m.handle_logon_challenge(1, Some(acc));
    assert_eq!(sends, vec![Outbound { peer: 1, event: ServerEvent::Disconnect }]);
    assert_eq!(m.status(1), None);
}

#[test]
fn wrong_password_returns_to_connected() {
    let mut m = AuthManager::new(500_000);
    m.connect(1, 0);
    let _ = m.handle_logon_challenge(1, Some(account("frank", 0)));
    let outcome = m.handle_logon_proof(1, &vec![1u8; 32], &vec![0u8; 20]);
    assert_eq!(outcome.sends, vec![Outbound { peer: 1, event: ServerEvent::LogonProof(ProofReply::FailIncorrectPassword) }]);
    assert_eq!(m.status(1), Some(SessionStatus::Connected));
}

#[test]
fn zero_public_key_is_refused() {
    let mut m = AuthManager::new(500_000);
    m.connect(1, 0);
    let _ = m.handle_logon_challenge(1, Some(account("gina", 0)));
    let outcome = m.handle_logon_proof(1, &vec![0u8; 32], &vec![0u8; 20]);
    assert_eq!(outcome.sends, vec![Outbound { peer: 1, event: ServerEvent::LogonProof(ProofReply::FailIncorrectPassword) }]);
    assert_eq!(m.status(1), Some(SessionStatus::Connected));
}

#[test]
fn realm_list_before_authentication_disconnects() {
    let mut m = AuthManager::new(500_000);
    m.connect(1, 0);
    let (sends, name) = m.handle_realm_list(1);
    assert_eq!(sends, vec![Outbound { peer: 1, event: ServerEvent::Disconnect }]);
    assert_eq!(name, None);
    assert_eq!(m.status(1), None);
}

#[test]
fn prune_forgets_old_sessions() {
    let mut m = AuthManager::new(500);
    m.connect(1, 0);
    m.connect(2, 400);
    m.prune(500);
    assert!(m.status(1).is_some());
    m.prune(501);
    assert_eq!(m.status(1), None);
    assert!(m.status(2).is_some());
    m.prune(901);
    assert_eq!(m.status(2), None);
}

#[test]
fn pruned_account_cannot_reconnect() {
    let mut m = AuthManager::new(500);
    m.connect(1, 0);
    let _ = logon(&mut m, 1, "hank");
    m.prune(1000);
    assert_eq!(m.authenticated_address(&"hank".to_string()), None);
    m.connect(2, 1000);
    let sends = m.handle_reconnect_challenge(2, &"hank".to_string());
    assert_eq!(sends, vec![Outbound { peer: 2, event: ServerEvent::ReconnectChallenge(ReconnectChallengeReply::FailUnknown0) }]);
}

#[test]
fn messages_from_unknown_peer_are_ignored() {
    let mut m = AuthManager::new(500);
    assert!(m.handle_logon_challenge(9, None).is_empty());
    assert!(m.handle_reconnect_proof(9, &vec![0u8; 16], &vec![0u8; 20]).is_empty());
    assert!(m.drop_peer(9).is_empty());
}
