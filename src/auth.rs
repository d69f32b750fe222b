use crate::hexcode::{bytes_of_hex, hex_decode_exact, hex_encode, hex_of, is_hex_of_len};
use crate::srp::{
    account_name_ok, normalize_account_name, proof_into_server, proof_server_public_key, public_key_from_le_bytes,
    public_key_ok, server_reconnect_challenge_data, server_session_key, server_verify_reconnection, verifier_from_database,
    verifier_into_proof,
};
use crate::store::IdMap;
use vstd::prelude::*;
use wow_srp::server::{SrpProof, SrpServer};

verus! {

/// The fixed salt sent with logon and reconnect challenges for the client's checksum.
pub const CRC_SALT: [u8; 16] = [0xBA, 0xA3, 0x1E, 0x99, 0xA0, 0x0B, 0x21, 0x57, 0xFC, 0x37, 0x3F, 0xB3, 0x69, 0xCD, 0xD2, 0xF1];

/// An account as stored: the SRP6 verifier `v` and salt `s` are hex text.
pub struct AccountRecord {
    pub id: u32,
    pub username: String,
    pub v: String,
    pub s: String,
    pub banned: u8,
}

/// Answer to a logon challenge.
#[derive(Debug, PartialEq, Eq)]
pub enum ChallengeReply {
    Success { server_public_key: Vec<u8>, salt: Vec<u8> },
    FailBanned,
    FailUnknownAccount,
}

/// Answer to a logon proof.
#[derive(Debug, PartialEq, Eq)]
pub enum ProofReply {
    Success { server_proof: Vec<u8> },
    FailIncorrectPassword,
    FailUnknownAccount,
}

/// Answer to a reconnect challenge.
#[derive(Debug, PartialEq, Eq)]
pub enum ReconnectChallengeReply {
    Success { challenge_data: Vec<u8> },
    FailUnknown0,
}

/// Answer to a reconnect proof.
#[derive(Debug, PartialEq, Eq)]
pub enum ReconnectProofReply {
    Success,
    FailIncorrectPassword,
}

/// What the manager asks a connection to do.
#[derive(Debug, PartialEq, Eq)]
pub enum ServerEvent {
    LogonChallenge(ChallengeReply),
    LogonProof(ProofReply),
    ReconnectChallenge(ReconnectChallengeReply),
    ReconnectProof(ReconnectProofReply),
    Disconnect,
}

/// An event for the connection of `peer`.
#[derive(Debug, PartialEq, Eq)]
pub struct Outbound {
    pub peer: u64,
    pub event: ServerEvent,
}

/// Where a connection stands in the SRP6 handshake.
pub enum AuthState {
    Connected,
    ChallengeIssued { proof: SrpProof, username: String },
    Authenticated { server: SrpServer, username: String },
    ReconnectPending { username: String },
}

/// The state of a connection, without its SRP6 context.
pub enum AuthPhase {
    Connected,
    ChallengeIssued(Seq<char>),
    Authenticated(Seq<char>),
    ReconnectPending(Seq<char>),
}

pub open spec fn phase_of(st: AuthState) -> AuthPhase {
    match st {
        AuthState::Connected => AuthPhase::Connected,
        AuthState::ChallengeIssued { username, .. } => AuthPhase::ChallengeIssued(username@),
        AuthState::Authenticated { username, .. } => AuthPhase::Authenticated(username@),
        AuthState::ReconnectPending { username } => AuthPhase::ReconnectPending(username@),
    }
}

/// The state of a connection as callers see it.
#[derive(Clone, Debug, PartialEq, Eq)]
pub enum SessionStatus {
    Connected,
    ChallengeIssued(String),
    Authenticated(String),
    ReconnectPending(String),
}

pub open spec fn status_matches(st: SessionStatus, ph: AuthPhase) -> bool {
    match st {
        SessionStatus::Connected => ph is Connected,
        SessionStatus::ChallengeIssued(u) => ph == AuthPhase::ChallengeIssued(u@),
        SessionStatus::Authenticated(u) => ph == AuthPhase::Authenticated(u@),
        SessionStatus::ReconnectPending(u) => ph == AuthPhase::ReconnectPending(u@),
    }
}

/// One connection to the auth service.
pub struct AuthSession {
    state: AuthState,
    created_at: u64,
}

/// How a logon challenge for a stored account is decided.
pub enum ChallengeCheck {
    Banned,
    UnknownAccount,
    /// The stored name, verifier or salt cannot be used: a protocol error.
    Malformed,
    Proceed,
}

pub open spec fn challenge_check(account: Option<AccountRecord>) -> ChallengeCheck {
    match account {
        None => ChallengeCheck::UnknownAccount,
        Some(a) => if a.banned != 0 {
            ChallengeCheck::Banned
        } else if a.v@.len() == 0 || a.s@.len() == 0 {
            ChallengeCheck::UnknownAccount
        } else if !account_name_ok(a.username@) || !is_hex_of_len(a.v@, 32) || !is_hex_of_len(a.s@, 32) {
            ChallengeCheck::Malformed
        } else {
            ChallengeCheck::Proceed
        },
    }
}

/// At most one connection is authenticated for any account.
pub open spec fn unique_owner(ph: Map<u64, AuthPhase>) -> bool {
    forall|p: u64, q: u64| #[trigger] ph.contains_key(p) && #[trigger] ph.contains_key(q)
        && ph[p] is Authenticated && ph[p] == ph[q] ==> p == q
}

/// `p` is the connection authenticated for account `u`.
pub open spec fn owns(ph: Map<u64, AuthPhase>, u: Seq<char>, p: u64) -> bool {
    ph.contains_key(p) && ph[p] == AuthPhase::Authenticated(u)
}

/// The index of authenticated accounts: each account name to the address that holds it.
pub open spec fn authenticated_accounts(ph: Map<u64, AuthPhase>) -> Map<Seq<char>, u64> {
    Map::new(|u: Seq<char>| exists|p: u64| #[trigger] owns(ph, u, p), |u: Seq<char>| choose|p: u64| #[trigger] owns(ph, u, p))
}

/// `now - created > lifetime`, in milliseconds.
pub open spec fn expired(created: u64, now: u64, lifetime: u64) -> bool {
    now as int - created as int > lifetime as int
}

pub open spec fn send(peer: u64, event: ServerEvent) -> Outbound {
    Outbound { peer, event }
}

/// What a logon proof leads to: the events to send, and the account name with the
/// hex text of the new session key to store.
pub struct ProofOutcome {
    pub sends: Vec<Outbound>,
    pub session_key: Option<(String, String)>,
}

/// All the sessions of the auth service, keyed by peer address.
pub struct AuthManager {
    sessions: IdMap<AuthSession>,
    reconnect_lifetime_ms: u64,
}

/// Every name in the index belongs to a connection that is authenticated for it.
pub proof fn lemma_index_points_to_authenticated(ph: Map<u64, AuthPhase>, u: Seq<char>, addr: u64)
    requires
        authenticated_accounts(ph).contains_key(u),
        authenticated_accounts(ph)[u] == addr,
    ensures
        ph.contains_key(addr),
        ph[addr] == AuthPhase::Authenticated(u),
{
}


proof fn lemma_unique_insert_plain(ph: Map<u64, AuthPhase>, p: u64, x: AuthPhase)
    requires
        unique_owner(ph),
        !(x is Authenticated),
    ensures
        unique_owner(ph.insert(p, x)),
{
    let ph2 = ph.insert(p, x);
    assert forall|a: u64, b: u64| #[trigger] ph2.contains_key(a) && #[trigger] ph2.contains_key(b)
        && ph2[a] is Authenticated && ph2[a] == ph2[b] implies a == b by {
        if a != p && b != p {
            assert(ph.contains_key(a) && ph.contains_key(b));
        }
    }
}

proof fn lemma_unique_remove(ph: Map<u64, AuthPhase>, p: u64)
    requires
        unique_owner(ph),
    ensures
        unique_owner(ph.remove(p)),
{
    let ph2 = ph.remove(p);
    assert forall|a: u64, b: u64| #[trigger] ph2.contains_key(a) && #[trigger] ph2.contains_key(b)
        && ph2[a] is Authenticated && ph2[a] == ph2[b] implies a == b by {
        assert(ph.contains_key(a) && ph.contains_key(b));
    }
}

proof fn lemma_unique_insert_owner(ph: Map<u64, AuthPhase>, p: u64, u: Seq<char>)
    requires
        unique_owner(ph),
        !authenticated_accounts(ph).contains_key(u),
    ensures
        unique_owner(ph.insert(p, AuthPhase::Authenticated(u))),
{
    let ph2 = ph.insert(p, AuthPhase::Authenticated(u));
    assert forall|a: u64, b: u64| #[trigger] ph2.contains_key(a) && #[trigger] ph2.contains_key(b)
        && ph2[a] is Authenticated && ph2[a] == ph2[b] implies a == b by {
        if a != p && b != p {
            assert(ph.contains_key(a) && ph.contains_key(b));
        } else if a == p && b != p {
            assert(owns(ph, u, b));
        } else if a != p && b == p {
            assert(owns(ph, u, a));
        }
    }
}

proof fn lemma_no_owner_after_remove(ph: Map<u64, AuthPhase>, q: u64, u: Seq<char>)
    requires
        unique_owner(ph),
        owns(ph, u, q),
    ensures
        !authenticated_accounts(ph.remove(q)).contains_key(u),
{
    assert forall|p: u64| !#[trigger] owns(ph.remove(q), u, p) by {
        if owns(ph.remove(q), u, p) {
            assert(ph.contains_key(p) && ph.contains_key(q));
        }
    }
}

proof fn lemma_owner_is_index(ph: Map<u64, AuthPhase>, u: Seq<char>, p: u64)
    requires
        unique_owner(ph),
        owns(ph, u, p),
    ensures
        authenticated_accounts(ph).contains_key(u),
        authenticated_accounts(ph)[u] == p,
{
    let c = choose|c: u64| #[trigger] owns(ph, u, c);
    assert(ph.contains_key(c) && ph.contains_key(p));
}

impl AuthManager {
    /// At most one connection is authenticated for any account.
    pub proof fn lemma_owner_unique(&self)
        requires
            self.wf(),
        ensures
            unique_owner(self.phases()),
    {
    }

    pub closed spec fn phases(&self) -> Map<u64, AuthPhase> {
        self.sessions@.map_values(|s: AuthSession| phase_of(s.state))
    }

    pub closed spec fn created(&self) -> Map<u64, u64> {
        self.sessions@.map_values(|s: AuthSession| s.created_at)
    }

    pub closed spec fn lifetime(&self) -> u64 {
        self.reconnect_lifetime_ms
    }

    pub closed spec fn wf(&self) -> bool {
        &&& self.sessions.wf()
        &&& unique_owner(self.phases())
    }

    pub open spec fn accounts(&self) -> Map<Seq<char>, u64> {
        authenticated_accounts(self.phases())
    }

    /// No sessions; sessions live `reconnect_lifetime_ms` milliseconds.
    pub fn new(reconnect_lifetime_ms: u64) -> (r: Self)
        ensures
            r.wf(),
            r.phases() == Map::<u64, AuthPhase>::empty(),
            r.lifetime() == reconnect_lifetime_ms,
    {
        let r = AuthManager { sessions: IdMap::new(), reconnect_lifetime_ms };
        assert(r.phases() =~= Map::<u64, AuthPhase>::empty());
        r
    }

    /// Puts `s` at `peer`, replacing what was there.
    fn put(&mut self, peer: u64, s: AuthSession)
        requires
            old(self).sessions.wf(),
        ensures
            final(self).sessions.wf(),
            final(self).phases() == old(self).phases().insert(peer, phase_of(s.state)),
            final(self).created() == old(self).created().insert(peer, s.created_at),
            final(self).lifetime() == old(self).lifetime(),
    {
        let ghost ps = phase_of(s.state);
        let ghost c = s.created_at;
        self.sessions.insert(peer, s);
        assert(self.phases() =~= old(self).phases().insert(peer, ps));
        assert(self.created() =~= old(self).created().insert(peer, c));
    }

    /// Takes the session of `peer` out.
    fn take(&mut self, peer: u64) -> (r: Option<AuthSession>)
        requires
            old(self).sessions.wf(),
        ensures
            final(self).sessions.wf(),
            final(self).phases() == old(self).phases().remove(peer),
            final(self).created() == old(self).created().remove(peer),
            final(self).lifetime() == old(self).lifetime(),
            match r {
                Some(s) => old(self).phases().contains_key(peer) && phase_of(s.state) == old(self).phases()[peer]
                    && s.created_at == old(self).created()[peer],
                None => !old(self).phases().contains_key(peer),
            },
    {
        let r = self.sessions.remove(peer);
        assert(self.phases() =~= old(self).phases().remove(peer));
        assert(self.created() =~= old(self).created().remove(peer));
        r
    }

    /// A new connection from `peer` at time `now`.
    pub fn connect(&mut self, peer: u64, now: u64)
        requires
            old(self).wf(),
        ensures
            final(self).wf(),
            final(self).phases() == old(self).phases().insert(peer, AuthPhase::Connected),
            final(self).created() == old(self).created().insert(peer, now),
            final(self).lifetime() == old(self).lifetime(),
    {
        self.put(peer, AuthSession { state: AuthState::Connected, created_at: now });
    }

    /// `CMD_AUTH_LOGON_CHALLENGE` from `peer`, with the stored account of the name it gave.
    pub fn handle_logon_challenge(&mut self, peer: u64, account: Option<AccountRecord>) -> (r: Vec<Outbound>)
        requires
            old(self).wf(),
        ensures
            final(self).wf(),
            final(self).lifetime() == old(self).lifetime(),
            !old(self).phases().contains_key(peer) ==> r@.len() == 0 && final(self).phases() == old(self).phases()
                && final(self).created() == old(self).created(),
            old(self).phases().contains_key(peer) ==> match challenge_check(account) {
                ChallengeCheck::Banned => r@ == seq![send(peer, ServerEvent::LogonChallenge(ChallengeReply::FailBanned))]
                    && final(self).phases() == old(self).phases().insert(peer, AuthPhase::Connected)
                    && final(self).created() == old(self).created(),
                ChallengeCheck::UnknownAccount => r@ == seq![send(peer, ServerEvent::LogonChallenge(ChallengeReply::FailUnknownAccount))]
                    && final(self).phases() == old(self).phases().insert(peer, AuthPhase::Connected)
                    && final(self).created() == old(self).created(),
                ChallengeCheck::Malformed => r@ == seq![send(peer, ServerEvent::Disconnect)]
                    && final(self).phases() == old(self).phases().remove(peer)
                    && final(self).created() == old(self).created().remove(peer),
                ChallengeCheck::Proceed => r@.len() == 1 && r@[0].peer == peer && (match r@[0].event {
                    ServerEvent::LogonChallenge(ChallengeReply::Success { server_public_key, salt }) =>
                        server_public_key@.len() == 32 && salt@ == bytes_of_hex(account->Some_0.s@),
                    _ => false,
                }) && final(self).phases() == old(self).phases().insert(peer, AuthPhase::ChallengeIssued(account.unwrap().username@))
                    && final(self).created() == old(self).created(),
            },
    {
        let ghost ph0 = self.phases();
        let ghost cr0 = self.created();
        let session = match self.take(peer) {
            Some(s) => s,
            None => {
                proof {
                    assert(self.phases() =~= ph0);
                    assert(self.created() =~= cr0);
                }
                return Vec::new();
            },
        };
        let created_at = session.created_at;
        proof { lemma_unique_remove(ph0, peer); }
        let reply = match account {
            None => ChallengeReply::FailUnknownAccount,
            Some(acc) => {
                if acc.banned != 0 {
                    ChallengeReply::FailBanned
                } else if acc.v.as_str().is_empty() || acc.s.as_str().is_empty() {
                    ChallengeReply::FailUnknownAccount
                } else {
                    let name = normalize_account_name(acc.username.as_str());
                    let v = hex_decode_exact(acc.v.as_str(), 32);
                    let salt = hex_decode_exact(acc.s.as_str(), 32);
                    match (name, v, salt) {
                        (Some(n), Some(v), Some(salt)) => {
                            let proof = verifier_into_proof(verifier_from_database(n, &v, &salt));
                            let server_public_key = proof_server_public_key(&proof);
                            let ghost u = acc.username@;
                            self.put(peer, AuthSession { state: AuthState::ChallengeIssued { proof, username: acc.username }, created_at });
                            proof {
                                lemma_unique_insert_plain(ph0.remove(peer), peer, AuthPhase::ChallengeIssued(u));
                                assert(self.phases() =~= ph0.insert(peer, AuthPhase::ChallengeIssued(u)));
                                assert(self.created() =~= cr0);
                            }
                            return vec![Outbound {
                                peer,
                                event: ServerEvent::LogonChallenge(ChallengeReply::Success { server_public_key, salt }),
                            }];
                        },
                        _ => {
                            return vec![Outbound { peer, event: ServerEvent::Disconnect }];
                        },
                    }
                }
            },
        };
        self.put(peer, AuthSession { state: AuthState::Connected, created_at });
        proof {
            lemma_unique_insert_plain(ph0.remove(peer), peer, AuthPhase::Connected);
            assert(self.phases() =~= ph0.insert(peer, AuthPhase::Connected));
            assert(self.created() =~= cr0);
        }
        vec![Outbound { peer, event: ServerEvent::LogonChallenge(reply) }]
    }

    /// `CMD_AUTH_LOGON_PROOF` from `peer` with the client's public key and proof.
    pub fn handle_logon_proof(&mut self, peer: u64, client_public_key: &Vec<u8>, client_proof: &Vec<u8>) -> (r: ProofOutcome)
        requires
            old(self).wf(),
            client_public_key@.len() == 32,
            client_proof@.len() == 20,
        ensures
            final(self).wf(),
            final(self).lifetime() == old(self).lifetime(),
            !old(self).phases().contains_key(peer) ==> r.sends@.len() == 0 && r.session_key.is_none()
                && final(self).phases() == old(self).phases() && final(self).created() == old(self).created(),
            old(self).phases().contains_key(peer) && !(old(self).phases()[peer] is ChallengeIssued) ==> r.sends@ == seq![
                send(peer, ServerEvent::LogonProof(ProofReply::FailUnknownAccount)),
                send(peer, ServerEvent::Disconnect),
            ] && r.session_key.is_none() && final(self).phases() == old(self).phases().remove(peer)
                && final(self).created() == old(self).created().remove(peer),
            old(self).phases().contains_key(peer) && old(self).phases()[peer] is ChallengeIssued
                && !public_key_ok(client_public_key@) ==> r.sends@ == seq![
                send(peer, ServerEvent::LogonProof(ProofReply::FailIncorrectPassword)),
            ] && r.session_key.is_none() && final(self).phases() == old(self).phases().insert(peer, AuthPhase::Connected)
                && final(self).created() == old(self).created(),
            old(self).phases().contains_key(peer) && old(self).phases()[peer] is ChallengeIssued ==> {
                let u = old(self).phases()[peer]->ChallengeIssued_0;
                let ph = old(self).phases();
                ||| r.sends@ == seq![send(peer, ServerEvent::LogonProof(ProofReply::FailIncorrectPassword))]
                    && r.session_key.is_none() && final(self).phases() == ph.insert(peer, AuthPhase::Connected)
                    && final(self).created() == old(self).created()
                ||| r.sends@.len() >= 1 && r.sends@[0].peer == peer && (match r.sends@[0].event {
                        ServerEvent::LogonProof(ProofReply::Success { server_proof }) => server_proof@.len() == 20,
                        _ => false,
                    }) && public_key_ok(client_public_key@) && (match r.session_key {
                        Some((name, key)) => name@ == u && exists|k: Seq<u8>| k.len() == 40 && key@ == hex_of(k),
                        None => false,
                    }) && final(self).accounts().contains_key(u) && final(self).accounts()[u] == peer && if authenticated_accounts(ph).contains_key(u) {
                        let q = authenticated_accounts(ph)[u];
                        r.sends@.len() == 2 && r.sends@[1] == send(q, ServerEvent::Disconnect)
                            && final(self).phases() == ph.remove(q).insert(peer, AuthPhase::Authenticated(u))
                            && final(self).created() == old(self).created().remove(q)
                    } else {
                        r.sends@.len() == 1 && final(self).phases() == ph.insert(peer, AuthPhase::Authenticated(u))
                            && final(self).created() == old(self).created()
                    }
            },
    {
        let ghost ph0 = self.phases();
        let ghost cr0 = self.created();
        let session = match self.take(peer) {
            Some(s) => s,
            None => {
                proof {
                    assert(self.phases() =~= ph0);
                    assert(self.created() =~= cr0);
                }
                return ProofOutcome { sends: Vec::new(), session_key: None };
            },
        };
        let created_at = session.created_at;
        proof { lemma_unique_remove(ph0, peer); }
        let (proof, username) = match session.state {
            AuthState::ChallengeIssued { proof, username } => (proof, username),
            _ => {
                return ProofOutcome {
                    sends: vec![
                        Outbound { peer, event: ServerEvent::LogonProof(ProofReply::FailUnknownAccount) },
                        Outbound { peer, event: ServerEvent::Disconnect },
                    ],
                    session_key: None,
                };
            },
        };
        let ghost u = username@;
        let outcome = match public_key_from_le_bytes(client_public_key) {
            Some(key) => match proof_into_server(proof, key, client_proof) {
                Some((server, server_proof)) => {
                    let k = server_session_key(&server);
                    Some((server, server_proof, k))
                },
                None => None,
            },
            None => None,
        };
        let ghost key_bytes = if outcome is Some { outcome->Some_0.2@ } else { Seq::<u8>::empty() };
        let ghost ph1 = self.phases();
        let ghost cr1 = self.created();
        proof {
            assert forall|p: u64| #[trigger] owns(ph1, u, p) == owns(ph0, u, p) by {}
            lemma_unique_remove(ph0, peer);
            if authenticated_accounts(ph0).contains_key(u) {
                let q0 = authenticated_accounts(ph0)[u];
                lemma_index_points_to_authenticated(ph0, u, q0);
                assert(owns(ph1, u, q0));
                lemma_owner_is_index(ph1, u, q0);
            } else {
                assert forall|p: u64| !#[trigger] owns(ph1, u, p) by {
                    if owns(ph1, u, p) { assert(owns(ph0, u, p)); }
                }
            }
            assert(ph1.insert(peer, AuthPhase::Connected) =~= ph0.insert(peer, AuthPhase::Connected));
            assert(cr1.insert(peer, created_at) =~= cr0);
            if authenticated_accounts(ph0).contains_key(u) {
                let q = authenticated_accounts(ph0)[u];
                lemma_index_points_to_authenticated(ph0, u, q);
                assert(ph1.remove(q).insert(peer, AuthPhase::Authenticated(u)) =~= ph0.remove(q).insert(peer, AuthPhase::Authenticated(u)));
                assert(cr1.remove(q).insert(peer, created_at) =~= cr0.remove(q));
            } else {
                assert(ph1.insert(peer, AuthPhase::Authenticated(u)) =~= ph0.insert(peer, AuthPhase::Authenticated(u)));
            }
        }
        let r = self.complete_logon(peer, username, created_at, outcome);
        proof {
            if r.session_key is Some {
                assert(key_bytes.len() == 40);
            }
        }
        r
    }

    /// The end of a logon proof for `peer`, whose session was taken out, once the SRP6
    /// check has given `outcome`: the server context, the server proof and the session key
    /// on a match, `None` otherwise.
    pub fn complete_logon(&mut self, peer: u64, username: String, created_at: u64, outcome: Option<(SrpServer, Vec<u8>, Vec<u8>)>) -> (r: ProofOutcome)
        requires
            old(self).wf(),
            !old(self).phases().contains_key(peer),
        ensures
            final(self).wf(),
            final(self).lifetime() == old(self).lifetime(),
            outcome is None ==> r.sends@ == seq![send(peer, ServerEvent::LogonProof(ProofReply::FailIncorrectPassword))]
                && r.session_key is None && final(self).phases() == old(self).phases().insert(peer, AuthPhase::Connected)
                && final(self).created() == old(self).created().insert(peer, created_at),
            outcome is Some ==> {
                let ph = old(self).phases();
                let u = username@;
                &&& r.sends@.len() >= 1
                &&& r.sends@[0] == send(peer, ServerEvent::LogonProof(ProofReply::Success { server_proof: outcome->Some_0.1 }))
                &&& r.session_key is Some && r.session_key->Some_0.0@ == u && r.session_key->Some_0.1@ == hex_of(outcome->Some_0.2@)
                &&& final(self).accounts().contains_key(u) && final(self).accounts()[u] == peer
                &&& if authenticated_accounts(ph).contains_key(u) {
                    let q = authenticated_accounts(ph)[u];
                    &&& r.sends@.len() == 2 && r.sends@[1] == send(q, ServerEvent::Disconnect)
                    &&& final(self).phases() == ph.remove(q).insert(peer, AuthPhase::Authenticated(u))
                    &&& final(self).created() == old(self).created().remove(q).insert(peer, created_at)
                } else {
                    &&& r.sends@.len() == 1
                    &&& final(self).phases() == ph.insert(peer, AuthPhase::Authenticated(u))
                    &&& final(self).created() == old(self).created().insert(peer, created_at)
                }
            },
    {
        let ghost ph0 = self.phases();
        let ghost cr0 = self.created();
        let ghost u = username@;
        match outcome {
            None => {
                self.put(peer, AuthSession { state: AuthState::Connected, created_at });
                proof { lemma_unique_insert_plain(ph0, peer, AuthPhase::Connected); }
                ProofOutcome {
                    sends: vec![Outbound { peer, event: ServerEvent::LogonProof(ProofReply::FailIncorrectPassword) }],
                    session_key: None,
                }
            },
            Some((server, server_proof, k)) => {
                let key_hex = hex_encode(&k);
                let stored_name = username.clone();
                let previous = self.authenticated_address(&username);
                let mut sends: Vec<Outbound> = vec![
                    Outbound { peer, event: ServerEvent::LogonProof(ProofReply::Success { server_proof }) },
                ];
                match previous {
                    Some(q) => {
                        proof {
                            lemma_index_points_to_authenticated(ph0, u, q);
                            lemma_no_owner_after_remove(ph0, q, u);
                            lemma_unique_remove(ph0, q);
                            lemma_unique_insert_owner(ph0.remove(q), peer, u);
                        }
                        let _ = self.take(q);
                        sends.push(Outbound { peer: q, event: ServerEvent::Disconnect });
                    },
                    None => {
                        proof { lemma_unique_insert_owner(ph0, peer, u); }
                    },
                }
                self.put(peer, AuthSession { state: AuthState::Authenticated { server, username }, created_at });
                proof { lemma_owner_is_index(self.phases(), u, peer); }
                ProofOutcome { sends, session_key: Some((stored_name, key_hex)) }
            },
        }
    }

    /// `CMD_AUTH_RECONNECT_CHALLENGE` from `peer` for the account `username`.
    pub fn handle_reconnect_challenge(&mut self, peer: u64, username: &String) -> (r: Vec<Outbound>)
        requires
            old(self).wf(),
        ensures
            final(self).wf(),
            final(self).lifetime() == old(self).lifetime(),
            final(self).created() == old(self).created(),
            !old(self).phases().contains_key(peer) ==> r@.len() == 0 && final(self).phases() == old(self).phases(),
            old(self).phases().contains_key(peer) && (!old(self).accounts().contains_key(username@)
                || old(self).accounts()[username@] == peer) ==> r@ == seq![
                send(peer, ServerEvent::ReconnectChallenge(ReconnectChallengeReply::FailUnknown0)),
            ] && final(self).phases() == old(self).phases(),
            old(self).phases().contains_key(peer) && old(self).accounts().contains_key(username@)
                && old(self).accounts()[username@] != peer ==> r@.len() == 1 && r@[0].peer == peer && (match r@[0].event {
                ServerEvent::ReconnectChallenge(ReconnectChallengeReply::Success { challenge_data }) => challenge_data@.len() == 16,
                _ => false,
            }) && final(self).phases() == old(self).phases().insert(peer, AuthPhase::ReconnectPending(username@)),
    {
        if !self.sessions.contains(peer) {
            return Vec::new();
        }
        let owner = self.authenticated_address(username);
        let q = match owner {
            Some(q) => q,
            None => {
                return vec![Outbound { peer, event: ServerEvent::ReconnectChallenge(ReconnectChallengeReply::FailUnknown0) }];
            },
        };
        if q == peer {
            return vec![Outbound { peer, event: ServerEvent::ReconnectChallenge(ReconnectChallengeReply::FailUnknown0) }];
        }
        let ghost ph0 = self.phases();
        let ghost cr0 = self.created();
        proof { lemma_index_points_to_authenticated(ph0, username@, q); }
        let challenge_data = match self.sessions.get(q) {
            Some(s) => match &s.state {
                AuthState::Authenticated { server, .. } => server_reconnect_challenge_data(server),
                _ => { proof { assert(false); } Vec::new() },
            },
            None => { proof { assert(false); } Vec::new() },
        };
        let session = self.take(peer).unwrap();
        self.put(peer, AuthSession { state: AuthState::ReconnectPending { username: username.clone() }, created_at: session.created_at });
        proof {
            lemma_unique_remove(ph0, peer);
            lemma_unique_insert_plain(ph0.remove(peer), peer, AuthPhase::ReconnectPending(username@));
            assert(self.phases() =~= ph0.insert(peer, AuthPhase::ReconnectPending(username@)));
            assert(self.created() =~= cr0);
        }
        vec![Outbound { peer, event: ServerEvent::ReconnectChallenge(ReconnectChallengeReply::Success { challenge_data }) }]
    }

    /// `CMD_AUTH_RECONNECT_PROOF` from `peer`: on success the authentication moves from the
    /// stale connection to `peer`, and the stale connection is told to disconnect.
    pub fn handle_reconnect_proof(&mut self, peer: u64, proof_data: &Vec<u8>, client_proof: &Vec<u8>) -> (r: Vec<Outbound>)
        requires
            old(self).wf(),
            proof_data@.len() == 16,
            client_proof@.len() == 20,
        ensures
            final(self).wf(),
            final(self).lifetime() == old(self).lifetime(),
            !old(self).phases().contains_key(peer) ==> r@.len() == 0 && final(self).phases() == old(self).phases()
                && final(self).created() == old(self).created(),
            old(self).phases().contains_key(peer) && !(old(self).phases()[peer] is ReconnectPending) ==> r@ == seq![
                send(peer, ServerEvent::LogonProof(ProofReply::FailUnknownAccount)),
                send(peer, ServerEvent::Disconnect),
            ] && final(self).phases() == old(self).phases().remove(peer) && final(self).created() == old(self).created().remove(peer),
            old(self).phases().contains_key(peer) && old(self).phases()[peer] is ReconnectPending ==> {
                let u = old(self).phases()[peer]->ReconnectPending_0;
                let ph = old(self).phases();
                ||| r@ == seq![send(peer, ServerEvent::ReconnectProof(ReconnectProofReply::FailIncorrectPassword))]
                    && final(self).phases() == ph.insert(peer, AuthPhase::Connected) && final(self).created() == old(self).created()
                ||| authenticated_accounts(ph).contains_key(u) && {
                    let q = authenticated_accounts(ph)[u];
                    &&& r@ == seq![
                        send(peer, ServerEvent::ReconnectProof(ReconnectProofReply::Success)),
                        send(q, ServerEvent::Disconnect),
                    ]
                    &&& final(self).phases() == ph.remove(q).insert(peer, AuthPhase::Authenticated(u))
                    &&& final(self).created() == old(self).created().remove(q)
                    &&& final(self).accounts()[u] == peer
                }
            },
    {
        let ghost ph0 = self.phases();
        let ghost cr0 = self.created();
        let session = match self.take(peer) {
            Some(s) => s,
            None => {
                proof {
                    assert(self.phases() =~= ph0);
                    assert(self.created() =~= cr0);
                }
                return Vec::new();
            },
        };
        let created_at = session.created_at;
        proof { lemma_unique_remove(ph0, peer); }
        let username = match session.state {
            AuthState::ReconnectPending { username } => username,
            _ => {
                return vec![
                    Outbound { peer, event: ServerEvent::LogonProof(ProofReply::FailUnknownAccount) },
                    Outbound { peer, event: ServerEvent::Disconnect },
                ];
            },
        };
        let ghost u = username@;
        let ghost ph1 = self.phases();
        let owner = self.authenticated_address(&username);
        let fail = vec![Outbound { peer, event: ServerEvent::ReconnectProof(ReconnectProofReply::FailIncorrectPassword) }];
        let q = match owner {
            Some(q) => q,
            None => {
                self.put(peer, AuthSession { state: AuthState::Connected, created_at });
                proof {
                    lemma_unique_insert_plain(ph1, peer, AuthPhase::Connected);
                    assert(self.phases() =~= ph0.insert(peer, AuthPhase::Connected));
                    assert(self.created() =~= cr0);
                }
                return fail;
            },
        };
        proof {
            lemma_index_points_to_authenticated(ph1, u, q);
            assert(ph0.contains_key(q) && ph0[q] == ph1[q]);
            lemma_owner_is_index(ph0, u, q);
        }
        let stale = self.take(q).unwrap();
        let ghost ph2 = self.phases();
        let (mut server, stale_name) = match stale.state {
            AuthState::Authenticated { server, username } => (server, username),
            _ => {
                proof { assert(false); }
                return fail;
            },
        };
        let verified = server_verify_reconnection(&mut server, proof_data, client_proof);
        proof {
            lemma_no_owner_after_remove(ph1, q, u);
            lemma_unique_remove(ph1, q);
            assert(ph2.insert(peer, AuthPhase::Authenticated(u)) =~= ph0.remove(q).insert(peer, AuthPhase::Authenticated(u)));
            assert(self.created().insert(peer, created_at) =~= cr0.remove(q));
            assert(ph2.insert(q, AuthPhase::Authenticated(u)).insert(peer, AuthPhase::Connected) =~= ph0.insert(peer, AuthPhase::Connected));
            assert(self.created().insert(q, stale.created_at).insert(peer, created_at) =~= cr0);
        }
        self.complete_reconnect(peer, username, created_at, q, server, stale_name, stale.created_at, verified)
    }

    /// The end of a reconnect proof for `peer`, once the stale session of `q` that owned the
    /// account was taken out and its SRP6 context gave `verified`: on a match the context
    /// moves to `peer` and `q` is told to disconnect; otherwise `q` is put back and `peer`
    /// returns to `Connected`.
    pub fn complete_reconnect(
        &mut self,
        peer: u64,
        username: String,
        created_at: u64,
        q: u64,
        server: SrpServer,
        stale_name: String,
        stale_created: u64,
        verified: bool,
    ) -> (r: Vec<Outbound>)
        requires
            old(self).wf(),
            !old(self).phases().contains_key(peer),
            !old(self).phases().contains_key(q),
            q != peer,
            stale_name@ == username@,
            !old(self).accounts().contains_key(username@),
        ensures
            final(self).wf(),
            final(self).lifetime() == old(self).lifetime(),
            verified ==> r@ == seq![
                send(peer, ServerEvent::ReconnectProof(ReconnectProofReply::Success)),
                send(q, ServerEvent::Disconnect),
            ] && final(self).phases() == old(self).phases().insert(peer, AuthPhase::Authenticated(username@))
                && final(self).created() == old(self).created().insert(peer, created_at)
                && final(self).accounts()[username@] == peer,
            !verified ==> r@ == seq![send(peer, ServerEvent::ReconnectProof(ReconnectProofReply::FailIncorrectPassword))]
                && final(self).phases() == old(self).phases().insert(q, AuthPhase::Authenticated(username@)).insert(
                peer,
                AuthPhase::Connected,
            ) && final(self).created() == old(self).created().insert(q, stale_created).insert(peer, created_at),
    {
        let ghost ph0 = self.phases();
        let ghost u = username@;
        if verified {
            self.put(peer, AuthSession { state: AuthState::Authenticated { server, username }, created_at });
            proof {
                lemma_unique_insert_owner(ph0, peer, u);
                lemma_owner_is_index(self.phases(), u, peer);
            }
            vec![
                Outbound { peer, event: ServerEvent::ReconnectProof(ReconnectProofReply::Success) },
                Outbound { peer: q, event: ServerEvent::Disconnect },
            ]
        } else {
            self.put(q, AuthSession { state: AuthState::Authenticated { server, username: stale_name }, created_at: stale_created });
            proof { lemma_unique_insert_owner(ph0, q, u); }
            let ghost ph1 = self.phases();
            self.put(peer, AuthSession { state: AuthState::Connected, created_at });
            proof { lemma_unique_insert_plain(ph1, peer, AuthPhase::Connected); }
            vec![Outbound { peer, event: ServerEvent::ReconnectProof(ReconnectProofReply::FailIncorrectPassword) }]
        }
    }

    /// `CMD_REALM_LIST` from `peer`: allowed only once authenticated, when it hands back the
    /// account name whose realms are to be listed; otherwise the connection is dropped.
    pub fn handle_realm_list(&mut self, peer: u64) -> (r: (Vec<Outbound>, Option<String>))
        requires
            old(self).wf(),
        ensures
            final(self).wf(),
            final(self).lifetime() == old(self).lifetime(),
            !old(self).phases().contains_key(peer) ==> r.0@.len() == 0 && r.1.is_none()
                && final(self).phases() == old(self).phases() && final(self).created() == old(self).created(),
            old(self).phases().contains_key(peer) && old(self).phases()[peer] is Authenticated ==> r.0@.len() == 0
                && r.1.is_some() && r.1.unwrap()@ == old(self).phases()[peer]->Authenticated_0
                && final(self).phases() == old(self).phases() && final(self).created() == old(self).created(),
            old(self).phases().contains_key(peer) && !(old(self).phases()[peer] is Authenticated) ==> r.0@ == seq![
                send(peer, ServerEvent::Disconnect),
            ] && r.1.is_none() && final(self).phases() == old(self).phases().remove(peer)
                && final(self).created() == old(self).created().remove(peer),
    {
        let name = match self.sessions.get(peer) {
            None => { return (Vec::new(), None); },
            Some(s) => match &s.state {
                AuthState::Authenticated { username, .. } => Some(username.clone()),
                _ => None,
            },
        };
        match name {
            Some(n) => (Vec::new(), Some(n)),
            None => (self.drop_peer(peer), None),
        }
    }

    /// Drops the connection of `peer` after a protocol error, telling it to disconnect.
    pub fn drop_peer(&mut self, peer: u64) -> (r: Vec<Outbound>)
        requires
            old(self).wf(),
        ensures
            final(self).wf(),
            final(self).lifetime() == old(self).lifetime(),
            final(self).phases() == old(self).phases().remove(peer),
            final(self).created() == old(self).created().remove(peer),
            old(self).phases().contains_key(peer) ==> r@ == seq![send(peer, ServerEvent::Disconnect)],
            !old(self).phases().contains_key(peer) ==> r@.len() == 0,
    {
        let ghost ph0 = self.phases();
        proof { lemma_unique_remove(ph0, peer); }
        match self.take(peer) {
            Some(_) => vec![Outbound { peer, event: ServerEvent::Disconnect }],
            None => Vec::new(),
        }
    }

    /// Forgets every session older than the reconnect lifetime at time `now`, and with it
    /// its place in the index of authenticated accounts.
    pub fn prune(&mut self, now: u64)
        requires
            old(self).wf(),
        ensures
            final(self).wf(),
            final(self).lifetime() == old(self).lifetime(),
            forall|p: u64| #[trigger] final(self).phases().contains_key(p) <==> old(self).phases().contains_key(p)
                && !expired(old(self).created()[p], now, old(self).lifetime()),
            forall|p: u64| #[trigger] final(self).phases().contains_key(p) ==> final(self).phases()[p] == old(self).phases()[p]
                && final(self).created()[p] == old(self).created()[p],
            forall|u: Seq<char>| #[trigger] final(self).accounts().contains_key(u) ==> old(self).accounts().contains_key(u)
                && final(self).accounts()[u] == old(self).accounts()[u],
            forall|u: Seq<char>| #[trigger] old(self).accounts().contains_key(u) && final(self).phases().contains_key(old(self).accounts()[u])
                ==> final(self).accounts().contains_key(u) && final(self).accounts()[u] == old(self).accounts()[u],
    {
        let keys = self.sessions.keys();
        let ghost ph0 = self.phases();
        let ghost cr0 = self.created();
        let mut i: usize = 0;
        while i < keys.len()
            invariant
                self.wf(),
                self.lifetime() == old(self).lifetime(),
                i <= keys@.len(),
                keys@.no_duplicates(),
                forall|k: u64| keys@.contains(k) <==> ph0.contains_key(k),
                ph0 == old(self).phases(),
                cr0 == old(self).created(),
                forall|p: u64| #[trigger] self.phases().contains_key(p) <==> ph0.contains_key(p)
                    && !(keys@.subrange(0, i as int).contains(p) && expired(cr0[p], now, self.lifetime())),
                forall|p: u64| #[trigger] self.phases().contains_key(p) ==> self.phases()[p] == ph0[p] && self.created()[p] == cr0[p],
            decreases keys@.len() - i,
        {
            let k = keys[i];
            proof { assert(keys@.contains(k)); }
            let old_enough = match self.sessions.get(k) {
                Some(s) => now > s.created_at && now - s.created_at > self.reconnect_lifetime_ms,
                None => false,
            };
            let ghost phb = self.phases();
            if old_enough {
                proof { lemma_unique_remove(phb, k); }
                let _ = self.take(k);
            }
            proof {
                let s0 = keys@.subrange(0, i as int);
                let s1 = keys@.subrange(0, i + 1);
                assert(s1 == s0.push(k));
                assert forall|p: u64| #[trigger] self.phases().contains_key(p) <==> ph0.contains_key(p)
                    && !(s1.contains(p) && expired(cr0[p], now, self.lifetime())) by {
                    if s1.contains(p) && p != k {
                        let j = choose|j: int| 0 <= j < s1.len() && s1[j] == p;
                        assert(s0[j] == p);
                    }
                    if s0.contains(p) {
                        let j = choose|j: int| 0 <= j < s0.len() && s0[j] == p;
                        assert(s1[j] == p);
                    }
                    if p == k {
                        assert(s1[i as int] == p);
                        if !old_enough && phb.contains_key(k) {
                            assert(!s0.contains(k)) by {
                                if s0.contains(k) {
                                    let j = choose|j: int| 0 <= j < s0.len() && s0[j] == k;
                                    assert(keys@[j] == keys@[i as int]);
                                }
                            }
                        }
                    }
                }
            }
            i = i + 1;
        }
        proof {
            assert(keys@.subrange(0, keys@.len() as int) == keys@);
            let ph1 = self.phases();
            assert forall|u: Seq<char>| #[trigger] authenticated_accounts(ph1).contains_key(u) implies authenticated_accounts(ph0).contains_key(u)
                && authenticated_accounts(ph1)[u] == authenticated_accounts(ph0)[u] by {
                let p = authenticated_accounts(ph1)[u];
                lemma_index_points_to_authenticated(ph1, u, p);
                assert(owns(ph0, u, p));
                lemma_owner_is_index(ph0, u, p);
            }
            assert forall|u: Seq<char>| #[trigger] authenticated_accounts(ph0).contains_key(u) && ph1.contains_key(authenticated_accounts(ph0)[u])
                implies authenticated_accounts(ph1).contains_key(u) && authenticated_accounts(ph1)[u] == authenticated_accounts(ph0)[u] by {
                let p = authenticated_accounts(ph0)[u];
                lemma_index_points_to_authenticated(ph0, u, p);
                assert(owns(ph1, u, p));
                lemma_owner_is_index(ph1, u, p);
            }
        }
    }

    /// Where the connection of `peer` stands, if there is one.
    pub fn status(&self, peer: u64) -> (r: Option<SessionStatus>)
        requires
            self.wf(),
        ensures
            match r {
                Some(st) => self.phases().contains_key(peer) && status_matches(st, self.phases()[peer]),
                None => !self.phases().contains_key(peer),
            },
    {
        match self.sessions.get(peer) {
            Some(s) => Some(match &s.state {
                AuthState::Connected => SessionStatus::Connected,
                AuthState::ChallengeIssued { username, .. } => SessionStatus::ChallengeIssued(username.clone()),
                AuthState::Authenticated { username, .. } => SessionStatus::Authenticated(username.clone()),
                AuthState::ReconnectPending { username } => SessionStatus::ReconnectPending(username.clone()),
            }),
            None => None,
        }
    }

    /// The connection authenticated for `username`, if any.
    pub fn authenticated_address(&self, username: &String) -> (r: Option<u64>)
        requires
            self.wf(),
        ensures
            match r {
                Some(p) => self.accounts().contains_key(username@) && self.accounts()[username@] == p,
                None => !self.accounts().contains_key(username@),
            },
    {
        let keys = self.sessions.keys();
        let mut i: usize = 0;
        while i < keys.len()
            invariant
                self.wf(),
                i <= keys@.len(),
                forall|k: u64| keys@.contains(k) <==> self.sessions@.contains_key(k),
                forall|j: int| 0 <= j < i ==> !owns(self.phases(), username@, #[trigger] keys@[j]),
            decreases keys@.len() - i,
        {
            let k = keys[i];
            proof { assert(keys@.contains(k)); }
            match self.sessions.get(k) {
                Some(s) => {
                    match &s.state {
                        AuthState::Authenticated { username: u, .. } => {
                            if *u == *username {
                                proof {
                                    assert(owns(self.phases(), username@, k));
                                    let c = choose|p: u64| #[trigger] owns(self.phases(), username@, p);
                                    assert(c == k);
                                }
                                return Some(k);
                            }
                        },
                        _ => {},
                    }
                },
                None => {},
            }
            i = i + 1;
        }
        proof {
            assert forall|p: u64| !#[trigger] owns(self.phases(), username@, p) by {
                if owns(self.phases(), username@, p) {
                    assert(keys@.contains(p));
                    let j = choose|j: int| 0 <= j < keys@.len() && keys@[j] == p;
                }
            }
        }
        None
    }
}

} // verus!
