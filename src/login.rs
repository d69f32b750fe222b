use crate::addons::{addons_result_ok, parse_addon_info, AddonEntry, AddonError};
use crate::hexcode::{bytes_of_hex, hex_decode_exact, is_hex_of_len};
use crate::records::ConnectionData;
use crate::srp::{account_name_acceptable, account_name_ok, seed_into_server_crypto, world_proof_ok};
use vstd::prelude::*;
use wow_srp::wrath_header::{ProofSeed, ServerCrypto};

verus! {

/// The stored account that a world connection logs in with: the session key is the hex
/// text that the auth service stored.
pub struct RealmAccount {
    pub id: u32,
    pub username: String,
    pub sessionkey: String,
}

/// What the answer to `CMSG_AUTH_SESSION` is.
pub enum AuthSessionOutcome {
    /// The connection had already logged in: it is dropped.
    DuplicateLogin,
    UnknownAccount,
    /// The stored session key is not forty bytes of hex text, or the name cannot be used.
    Malformed,
    /// The proof did not match the server seed `server_seed`: `AuthReject`, a pause, and
    /// the connection is dropped.
    Rejected { server_seed: u32 },
    /// `AuthOk`: the header ciphers to install, and the addon list that the client sent.
    Accepted { server_seed: u32, account_id: u32, crypto: ServerCrypto, addons: Result<Vec<AddonEntry>, AddonError> },
}

/// The server seed that a proof was checked against.
pub open spec fn checked_seed(r: AuthSessionOutcome) -> u32 {
    match r {
        AuthSessionOutcome::Rejected { server_seed } => server_seed,
        AuthSessionOutcome::Accepted { server_seed, .. } => server_seed,
        _ => 0,
    }
}

/// `CMSG_AUTH_SESSION` on a world connection: the client names its account and proves
/// that it holds the session key of its logon.
pub fn handle_cmsg_auth_session(
    data: &mut ConnectionData,
    seed: ProofSeed,
    username: &String,
    account: Option<RealmAccount>,
    client_proof: &Vec<u8>,
    client_seed: u32,
    addon_info: &Vec<u8>,
) -> (r: AuthSessionOutcome)
    requires
        client_proof@.len() == 20,
    ensures
        old(data).account_id is Some ==> r is DuplicateLogin && *final(data) == *old(data),
        old(data).account_id is None && account is None ==> r is UnknownAccount && *final(data) == *old(data),
        old(data).account_id is None && account is Some && (!is_hex_of_len(account->Some_0.sessionkey@, 40)
            || !account_name_ok(username@)) ==> r is Malformed && *final(data) == *old(data),
        old(data).account_id is None && account is Some && is_hex_of_len(account->Some_0.sessionkey@, 40) && account_name_ok(
            username@,
        ) ==> (r is Rejected || r is Accepted) && (r is Accepted <==> world_proof_ok(
            username@,
            bytes_of_hex(account->Some_0.sessionkey@),
            checked_seed(r),
            client_seed,
            client_proof@,
        )),
        r is Rejected ==> *final(data) == *old(data),
        match r {
            AuthSessionOutcome::Accepted { account_id, addons, .. } => account is Some && account_id == account->Some_0.id
                && final(data).account_id == Some(account_id) && addons_result_ok(addon_info@, addons),
            _ => true,
        },
{
    if data.account_id.is_some() {
        return AuthSessionOutcome::DuplicateLogin;
    }
    let account = match account {
        Some(a) => a,
        None => { return AuthSessionOutcome::UnknownAccount; },
    };
    let key = match hex_decode_exact(account.sessionkey.as_str(), 40) {
        Some(k) => k,
        None => { return AuthSessionOutcome::Malformed; },
    };
    if !account_name_acceptable(username.as_str()) {
        return AuthSessionOutcome::Malformed;
    }
    let (server_seed, crypto) = seed_into_server_crypto(seed, username.as_str(), &key, client_proof, client_seed);
    match crypto {
        Some(crypto) => {
            data.account_id = Some(account.id);
            AuthSessionOutcome::Accepted { server_seed, account_id: account.id, crypto, addons: parse_addon_info(addon_info) }
        },
        None => AuthSessionOutcome::Rejected { server_seed },
    }
}

} // verus!
