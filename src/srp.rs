use vstd::prelude::*;
use wow_srp::normalized_string::NormalizedString;
use wow_srp::server::{SrpProof, SrpServer, SrpVerifier};
use wow_srp::wrath_header::{ProofSeed, ServerCrypto};
use wow_srp::PublicKey;

verus! {

#[verifier::external_type_specification]
#[verifier::external_body]
pub struct ExNormalizedString(NormalizedString);

#[verifier::external_type_specification]
#[verifier::external_body]
pub struct ExSrpVerifier(SrpVerifier);

#[verifier::external_type_specification]
#[verifier::external_body]
pub struct ExSrpProof(SrpProof);

#[verifier::external_type_specification]
#[verifier::external_body]
pub struct ExSrpServer(SrpServer);

#[verifier::external_type_specification]
#[verifier::external_body]
pub struct ExPublicKey(PublicKey);

#[verifier::external_type_specification]
#[verifier::external_body]
pub struct ExProofSeed(ProofSeed);

#[verifier::external_type_specification]
#[verifier::external_body]
pub struct ExServerCrypto(ServerCrypto);

/// An account name that the SRP6 routines accept: one to sixteen printable ASCII characters.
pub open spec fn account_name_ok(s: Seq<char>) -> bool {
    1 <= s.len() <= 16 && forall|i: int| 0 <= i < s.len() ==> ' ' <= #[trigger] s[i] && s[i] <= '~'
}

/// The large safe prime of the SRP6 exchange, least significant byte first.
pub open spec fn large_safe_prime_le() -> Seq<u8> {
    seq![
        0xb7u8, 0x9b, 0x3e, 0x2a, 0x87, 0x82, 0x3c, 0xab, 0x8f, 0x5e, 0xbf, 0xbf, 0x8e, 0xb1, 0x01, 0x08,
        0x53, 0x50, 0x06, 0x29, 0x8b, 0x5b, 0xad, 0xbd, 0x5b, 0x53, 0xe1, 0x89, 0x5e, 0x64, 0x4b, 0x89,
    ]
}

/// A client public key is refused when each of its bytes is zero or equal to the
/// prime's byte at that place.
pub open spec fn public_key_ok(b: Seq<u8>) -> bool {
    exists|i: int| 0 <= i < 32 && #[trigger] b[i] != large_safe_prime_le()[i] && b[i] != 0
}

/// Whether `NormalizedString::new` accepts `s`.
pub fn account_name_acceptable(s: &str) -> (r: bool)
    ensures
        r == account_name_ok(s@),
{
    let n = s.unicode_len();
    if n < 1 || n > 16 {
        return false;
    }
    let mut i: usize = 0;
    while i < n
        invariant
            n == s@.len(),
            i <= n,
            forall|j: int| 0 <= j < i ==> ' ' <= #[trigger] s@[j] && s@[j] <= '~',
        decreases n - i,
    {
        let c = s.get_char(i);
        if !(' ' <= c && c <= '~') {
            return false;
        }
        i = i + 1;
    }
    true
}

/// Relies on `NormalizedString::new`: it accepts one to sixteen bytes of ASCII without control characters.
#[verifier::external_body]
pub(crate) fn normalize_account_name(s: &str) -> (r: Option<NormalizedString>)
    ensures
        r.is_some() <==> account_name_ok(s@),
{
    NormalizedString::new(s).ok()
}

/// Relies on `SrpVerifier::from_database_values`, which takes the stored verifier and salt.
#[verifier::external_body]
pub(crate) fn verifier_from_database(name: NormalizedString, v: &Vec<u8>, s: &Vec<u8>) -> (r: SrpVerifier)
    requires
        v@.len() == 32,
        s@.len() == 32,
{
    SrpVerifier::from_database_values(name, v.as_slice().try_into().unwrap(), s.as_slice().try_into().unwrap())
}

/// Relies on `SrpVerifier::into_proof`, which draws the server's private key.
#[verifier::external_body]
pub(crate) fn verifier_into_proof(v: SrpVerifier) -> (r: SrpProof) {
    v.into_proof()
}

/// Relies on `SrpProof::server_public_key`: always 32 bytes.
#[verifier::external_body]
pub(crate) fn proof_server_public_key(p: &SrpProof) -> (r: Vec<u8>)
    ensures
        r@.len() == 32,
{
    p.server_public_key().to_vec()
}

/// Relies on `PublicKey::from_le_bytes` and the key check it makes.
#[verifier::external_body]
pub(crate) fn public_key_from_le_bytes(b: &Vec<u8>) -> (r: Option<PublicKey>)
    requires
        b@.len() == 32,
    ensures
        r.is_some() <==> public_key_ok(b@),
{
    PublicKey::from_le_bytes(b.as_slice().try_into().unwrap()).ok()
}

/// Relies on `SrpProof::into_server`: on a matching client proof, the server context
/// and the 20-byte server proof.
#[verifier::external_body]
pub(crate) fn proof_into_server(p: SrpProof, key: PublicKey, client_proof: &Vec<u8>) -> (r: Option<(SrpServer, Vec<u8>)>)
    requires
        client_proof@.len() == 20,
    ensures
        r matches Some(x) ==> x.1@.len() == 20,
{
    p.into_server(key, client_proof.as_slice().try_into().unwrap()).ok().map(|(s, m)| (s, m.to_vec()))
}

/// Relies on `SrpServer::session_key`: always 40 bytes.
#[verifier::external_body]
pub(crate) fn server_session_key(s: &SrpServer) -> (r: Vec<u8>)
    ensures
        r@.len() == 40,
{
    s.session_key().to_vec()
}

/// Relies on `SrpServer::reconnect_challenge_data`: always 16 bytes.
#[verifier::external_body]
pub(crate) fn server_reconnect_challenge_data(s: &SrpServer) -> (r: Vec<u8>)
    ensures
        r@.len() == 16,
{
    s.reconnect_challenge_data().to_vec()
}

/// Named result of the world-session proof check of `ProofSeed::into_server_header_crypto`:
/// whether `client_proof` is the proof made from the account name, the session key and
/// the two seeds.
pub uninterp spec fn world_proof_ok(name: Seq<char>, session_key: Seq<u8>, server_seed: u32, client_seed: u32, client_proof: Seq<u8>) -> bool;

/// Relies on `ProofSeed::seed` (the server seed), `NormalizedString::new` (which accepts
/// the name, see `normalize_account_name`) and `ProofSeed::into_server_header_crypto`: the
/// header ciphers of a world connection exactly when the client's proof matches, which
/// depends on the arguments and the seed alone.
#[verifier::external_body]
pub(crate) fn seed_into_server_crypto(seed: ProofSeed, username: &str, session_key: &Vec<u8>, client_proof: &Vec<u8>, client_seed: u32) -> (r: (u32, Option<ServerCrypto>))
    requires
        account_name_ok(username@),
        session_key@.len() == 40,
        client_proof@.len() == 20,
    ensures
        r.1.is_some() <==> world_proof_ok(username@, session_key@, r.0, client_seed, client_proof@),
{
    let server_seed = seed.seed();
    let name = NormalizedString::new(username).unwrap();
    let key = session_key.as_slice().try_into().unwrap();
    (server_seed, seed.into_server_header_crypto(&name, key, client_proof.as_slice().try_into().unwrap(), client_seed).ok())
}

/// Relies on `SrpServer::verify_reconnection_attempt`, which also draws fresh challenge data.
#[verifier::external_body]
pub(crate) fn server_verify_reconnection(s: &mut SrpServer, client_data: &Vec<u8>, client_proof: &Vec<u8>) -> (r: bool)
    requires
        client_data@.len() == 16,
        client_proof@.len() == 20,
{
    s.verify_reconnection_attempt(client_data.as_slice().try_into().unwrap(), client_proof.as_slice().try_into().unwrap())
}

} // verus!
