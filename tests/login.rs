use wow_srp::normalized_string::NormalizedString;
use wow_srp::wrath_header::ProofSeed;
use wrath_core::addons::AddonEntry;
use wrath_core::login::{handle_cmsg_auth_session, AuthSessionOutcome, RealmAccount};
use wrath_core::records::ConnectionData;

fn realm_account(key: &[u8; 40]) -> RealmAccount {
    RealmAccount { id: 42, username: "ALICE".to_string(), sessionkey: hex::encode(key) }
}

fn addon_info() -> Vec<u8> {
    let mut b = 1u32.to_le_bytes().to_vec();
    b.extend_from_slice(b"Blizzard_Raid\0");
    b.push(1);
    b.extend_from_slice(&0x4C1C776Du32.to_le_bytes());
    b.extend_from_slice(&0u32.to_le_bytes());
    b
}

#[test]
fn auth_session_accepts_matching_proof() {
    let key = [7u8; 40];
    let server_seed = ProofSeed::new();
    let client_seed = ProofSeed::new();
    let client_seed_value = client_seed.seed();
    let server_seed_value = server_seed.seed();
    let (proof, _) = client_seed.into_client_header_crypto(&NormalizedString::new("ALICE").unwrap(), key, server_seed.seed());
    let mut data = ConnectionData::new();
    let outcome = handle_cmsg_auth_session(
        &mut data,
        server_seed,
        &"ALICE".to_string(),
        Some(realm_account(&key)),
        &proof.to_vec(),
        client_seed_value,
        &addon_info(),
    );
    match outcome {
        AuthSessionOutcome::Accepted { server_seed, account_id, addons, .. } => {
            assert_eq!(server_seed, server_seed_value);
            assert_eq!(account_id, 42);
            assert_eq!(
                addons,
                Ok(vec![AddonEntry { name: b"Blizzard_Raid".to_vec(), has_signature: true, crc: 0x4C1C776D, extra_crc: 0 }])
            );
        }
        _ => panic!("expected the session to be accepted"),
    }
    assert_eq!(data.account_id, Some(42));
    let again = handle_cmsg_auth_session(&mut data, ProofSeed::new(), &"ALICE".to_string(), None, &vec![0u8; 20], 0, &vec![]);
    assert!(matches!(again, AuthSessionOutcome::DuplicateLogin));
}

#[test]
fn auth_session_rejects_wrong_proof() {
    let mut data = ConnectionData::new();
    let outcome = handle_cmsg_auth_session(
        &mut data,
        ProofSeed::new(),
        &"ALICE".to_string(),
        Some(realm_account(&[7u8; 40])),
        &vec![0u8; 20],
        5,
        &addon_info(),
    );
    assert!(matches!(outcome, AuthSessionOutcome::Rejected { .. }));
    assert_eq!(data.account_id, None);
}

#[test]
fn auth_session_needs_account_and_key() {
    let mut data = ConnectionData::new();
    let outcome = handle_cmsg_auth_session(&mut data, ProofSeed::new(), &"BOB".to_string(), None, &vec![0u8; 20], 5, &vec![]);
    assert!(matches!(outcome, AuthSessionOutcome::UnknownAccount));
    let short = RealmAccount { id: 1, username: "BOB".to_string(), sessionkey: "abcd".to_string() };
    let outcome = handle_cmsg_auth_session(&mut data, ProofSeed::new(), &"BOB".to_string(), Some(short), &vec![0u8; 20], 5, &vec![]);
    assert!(matches!(outcome, AuthSessionOutcome::Malformed));
    assert_eq!(data.account_id, None);
}
