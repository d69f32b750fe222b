use crate::character::{Character, CharacterManager, LogoutState};
use crate::teleport::{TeleportMessage, TeleportationState};
use crate::instances::InstanceManager;
use crate::map::manager_wf;
use crate::store::IdMap;
use vstd::prelude::*;

verus! {

/// Where a client of the realm service stands.
#[derive(Clone, Copy, Debug, PartialEq, Eq, Structural)]
pub enum ClientState {
    PreLogin,
    CharacterSelection,
    /// The socket closed; the client stays one tick to release what it held in the world.
    DisconnectPendingCleanup,
    Disconnected,
}

/// A client of the realm service.
#[derive(Clone, Copy, Debug, PartialEq, Eq, Structural)]
pub struct Client {
    pub id: u64,
    pub account_id: u32,
    pub state: ClientState,
    pub active_character: Option<u64>,
}

/// Why a lookup of a client failed.
#[derive(Clone, Copy, Debug, PartialEq, Eq, Structural)]
pub enum ClientError {
    UnknownClient,
    NotAuthenticated,
    NoActiveCharacter,
}

impl Client {
    /// A client that has just completed the realm handshake.
    pub fn new(id: u64, account_id: u32) -> (r: Self)
        ensures
            r == (Client { id, account_id, state: ClientState::CharacterSelection, active_character: None }),
    {
        Client { id, account_id, state: ClientState::CharacterSelection, active_character: None }
    }

    pub fn is_authenticated(&self) -> (r: bool)
        ensures
            r == (self.state != ClientState::PreLogin),
    {
        self.state != ClientState::PreLogin
    }

    pub fn get_active_character(&self) -> (r: Option<u64>)
        ensures
            r == self.active_character,
    {
        self.active_character
    }

    /// Cleanup is done: the client is gone for good and plays nobody.
    pub fn disconnected_post_cleanup(&mut self)
        ensures
            *final(self) == (Client { state: ClientState::Disconnected, active_character: None, ..*old(self) }),
    {
        self.state = ClientState::Disconnected;
        self.active_character = None;
    }
}

/// Named result of `str::to_uppercase`.
pub uninterp spec fn upper_of(s: Seq<char>) -> Seq<char>;

/// Named result of `str::trim`.
pub uninterp spec fn trim_of(s: Seq<char>) -> Seq<char>;

/// Relies on `str::to_uppercase`: the result depends on the characters alone.
#[verifier::external_body]
fn to_upper(s: &str) -> (r: String)
    ensures
        r@ == upper_of(s@),
{
    s.to_uppercase()
}

/// Relies on `str::trim`: the result depends on the characters alone.
#[verifier::external_body]
fn trimmed(s: &str) -> (r: &str)
    ensures
        r@ == trim_of(s@),
{
    s.trim()
}

/// The form in which character names are compared: upper case, then trimmed.
pub open spec fn name_key(s: Seq<char>) -> Seq<char> {
    trim_of(upper_of(s))
}

/// Whether two names are the same name, compared by `name_key`.
pub fn names_match(a: &str, b: &str) -> (r: bool)
    ensures
        r == (name_key(a@) == name_key(b@)),
{
    let ua = to_upper(a);
    let ub = to_upper(b);
    let ta = trimmed(ua.as_str());
    let tb = trimmed(ub.as_str());
    let r = str_equal(ta, tb);
    r
}

/// Character-by-character equality of two strings.
pub fn str_equal(a: &str, b: &str) -> (r: bool)
    ensures
        r == (a@ == b@),
{
    let n = a.unicode_len();
    if n != b.unicode_len() {
        return false;
    }
    let mut i: usize = 0;
    while i < n
        invariant
            n == a@.len(),
            n == b@.len(),
            i <= n,
            forall|j: int| 0 <= j < i ==> a@[j] == b@[j],
        decreases n - i,
    {
        if a.get_char(i) != b.get_char(i) {
            return false;
        }
        i = i + 1;
    }
    assert(a@ =~= b@);
    true
}

/// The character `g`, if stored, is queued to leave its map, if that map exists.
pub open spec fn removal_queued(maps: Map<u64, crate::map::MapManager>, chars: Map<u64, Character>, g: u64) -> bool {
    chars.contains_key(g) && maps.contains_key(chars[g].map as u64) ==> maps[chars[g].map as u64].remove_queue().contains(g)
}

/// Each map's queue of leaving characters only grew.
pub open spec fn removals_grow(m0: Map<u64, crate::map::MapManager>, m1: Map<u64, crate::map::MapManager>) -> bool {
    &&& m1.dom() == m0.dom()
    &&& forall|k: u64, x: u64| #[trigger] m0.contains_key(k) && #[trigger] m0[k].remove_queue().contains(x) ==> m1[k].remove_queue().contains(x)
}

/// Some client plays character `g`.
pub open spec fn plays(clients: Map<u64, Client>, g: u64) -> bool {
    exists|a: u64| clients.contains_key(a) && clients[a].active_character == Some(g)
}

/// One of the clients at `addrs` plays character `g`.
pub open spec fn plays_among(clients: Map<u64, Client>, addrs: Seq<u64>, g: u64) -> bool {
    exists|j: int| 0 <= j < addrs.len() && clients.contains_key(addrs[j]) && clients[addrs[j]].active_character == Some(g)
}

/// `c1` is `c0` after its own teleport step: a queued teleport started, anything else as it was.
pub open spec fn teleport_stepped(c0: Character, c1: Character) -> bool {
    &&& c1.same_but_place(&c0)
    &&& c1.position == c0.position
    &&& c1.tutorial_flags == c0.tutorial_flags
    &&& c1.time_sync_counter == c0.time_sync_counter
    &&& match c0.teleport {
        TeleportationState::Queued(d) => c1.teleport == TeleportationState::Executing(d),
        _ => c1.teleport == c0.teleport,
    }
}

/// All the clients of the realm service, by peer address.
pub struct ClientManager {
    clients: IdMap<Client>,
}

impl ClientManager {
    pub closed spec fn clients(&self) -> Map<u64, Client> {
        self.clients@
    }

    pub closed spec fn wf(&self) -> bool {
        self.clients.wf()
    }

    pub fn new() -> (r: Self)
        ensures
            r.wf(),
            r.clients() == Map::<u64, Client>::empty(),
    {
        ClientManager { clients: IdMap::new() }
    }

    /// A client completed the handshake for account `account_id`.
    pub fn connected(&mut self, addr: u64, account_id: u32)
        requires
            old(self).wf(),
        ensures
            final(self).wf(),
            final(self).clients() == old(self).clients().insert(addr, Client {
                id: addr,
                account_id,
                state: ClientState::CharacterSelection,
                active_character: None,
            }),
    {
        self.clients.insert(addr, Client::new(addr, account_id));
    }

    /// The socket of `addr` closed: cleanup waits for the next tick.
    pub fn disconnected(&mut self, addr: u64) -> (r: bool)
        requires
            old(self).wf(),
        ensures
            final(self).wf(),
            r == old(self).clients().contains_key(addr),
            r ==> final(self).clients() == old(self).clients().insert(addr, Client {
                state: ClientState::DisconnectPendingCleanup,
                ..old(self).clients()[addr]
            }),
            !r ==> final(self).clients() == old(self).clients(),
    {
        match self.clients.remove(addr) {
            Some(c) => {
                self.clients.insert(addr, Client { state: ClientState::DisconnectPendingCleanup, ..c });
                assert(self.clients() =~= old(self).clients().insert(addr, Client {
                    state: ClientState::DisconnectPendingCleanup,
                    ..old(self).clients()[addr]
                }));
                true
            },
            None => {
                assert(self.clients() =~= old(self).clients());
                false
            },
        }
    }

    pub fn remove_client(&mut self, addr: u64) -> (r: Option<Client>)
        requires
            old(self).wf(),
        ensures
            final(self).wf(),
            final(self).clients() == old(self).clients().remove(addr),
            r == (if old(self).clients().contains_key(addr) { Some(old(self).clients()[addr]) } else { None }),
    {
        self.clients.remove(addr)
    }

    pub fn get_client(&self, addr: u64) -> (r: Result<Client, ClientError>)
        requires
            self.wf(),
        ensures
            self.clients().contains_key(addr) ==> r == Ok::<Client, ClientError>(self.clients()[addr]),
            !self.clients().contains_key(addr) ==> r == Err::<Client, ClientError>(ClientError::UnknownClient),
    {
        match self.clients.get(addr) {
            Some(c) => Ok(*c),
            None => Err(ClientError::UnknownClient),
        }
    }

    pub fn get_authenticated_client(&self, addr: u64) -> (r: Result<Client, ClientError>)
        requires
            self.wf(),
        ensures
            !self.clients().contains_key(addr) ==> r == Err::<Client, ClientError>(ClientError::UnknownClient),
            self.clients().contains_key(addr) && self.clients()[addr].state == ClientState::PreLogin ==> r == Err::<
                Client,
                ClientError,
            >(ClientError::NotAuthenticated),
            self.clients().contains_key(addr) && self.clients()[addr].state != ClientState::PreLogin ==> r == Ok::<
                Client,
                ClientError,
            >(self.clients()[addr]),
    {
        let c = self.get_client(addr)?;
        if !c.is_authenticated() {
            return Err(ClientError::NotAuthenticated);
        }
        Ok(c)
    }

    /// The character that the authenticated client `addr` plays.
    pub fn get_character_from_client(&self, addr: u64) -> (r: Result<u64, ClientError>)
        requires
            self.wf(),
        ensures
            !self.clients().contains_key(addr) ==> r == Err::<u64, ClientError>(ClientError::UnknownClient),
            self.clients().contains_key(addr) && self.clients()[addr].state == ClientState::PreLogin ==> r == Err::<u64, ClientError>(
                ClientError::NotAuthenticated,
            ),
            self.clients().contains_key(addr) && self.clients()[addr].state != ClientState::PreLogin ==> match self.clients()[addr].active_character {
                Some(g) => r == Ok::<u64, ClientError>(g),
                None => r == Err::<u64, ClientError>(ClientError::NoActiveCharacter),
            },
    {
        let c = self.get_authenticated_client(addr)?;
        match c.active_character {
            Some(g) => Ok(g),
            None => Err(ClientError::NoActiveCharacter),
        }
    }

    pub fn set_active_character(&mut self, addr: u64, guid: u64) -> (r: bool)
        requires
            old(self).wf(),
        ensures
            final(self).wf(),
            r == old(self).clients().contains_key(addr),
            r ==> final(self).clients() == old(self).clients().insert(addr, Client {
                active_character: Some(guid),
                ..old(self).clients()[addr]
            }),
            !r ==> final(self).clients() == old(self).clients(),
    {
        match self.clients.remove(addr) {
            Some(c) => {
                self.clients.insert(addr, Client { active_character: Some(guid), ..c });
                true
            },
            None => {
                assert(self.clients() =~= old(self).clients());
                false
            },
        }
    }

    /// Puts the active character of client `addr` into the world: it joins its map at the
    /// next tick.
    pub fn login_active_character(&self, addr: u64, world: &mut InstanceManager, chars: &CharacterManager) -> (r: Result<u64, ClientError>)
        requires
            self.wf(),
            old(world).wf(),
            manager_wf(chars),
        ensures
            final(world).wf(),
            r is Err ==> final(world).world_maps() == old(world).world_maps(),
            r matches Ok(g) ==> self.get_character_from_client_spec(addr) == Some(g) && chars@.contains_key(g)
                && final(world).world_maps().contains_key(chars@[g].map as u64)
                && final(world).world_maps()[chars@[g].map as u64].add_queue().last() == g,
            r is Err <==> self.get_character_from_client_spec(addr) is None || !chars@.contains_key(self.get_character_from_client_spec(addr)->Some_0),
    {
        let g = self.get_character_from_client(addr)?;
        match chars.get(g) {
            Some(c) => {
                world.push_character(c.map, c.instance_id, g);
                Ok(g)
            },
            None => Err(ClientError::NoActiveCharacter),
        }
    }

    /// The character that client `addr` plays, when it is authenticated.
    pub open spec fn get_character_from_client_spec(&self, addr: u64) -> Option<u64> {
        if self.clients().contains_key(addr) && self.clients()[addr].state != ClientState::PreLogin {
            self.clients()[addr].active_character
        } else {
            None
        }
    }

    /// The address of the client that plays character `guid`.
    pub fn find_client_from_active_character_guid(&self, guid: u64) -> (r: Result<u64, ClientError>)
        requires
            self.wf(),
        ensures
            r matches Ok(a) ==> self.clients().contains_key(a) && self.clients()[a].active_character == Some(guid),
            r is Err ==> r == Err::<u64, ClientError>(ClientError::UnknownClient) && forall|a: u64| #[trigger] self.clients().contains_key(a)
                ==> self.clients()[a].active_character != Some(guid),
    {
        let keys = self.clients.keys();
        let mut i: usize = 0;
        while i < keys.len()
            invariant
                self.wf(),
                i <= keys@.len(),
                forall|k: u64| keys@.contains(k) <==> self.clients().contains_key(k),
                forall|j: int| 0 <= j < i ==> self.clients()[#[trigger] keys@[j]].active_character != Some(guid),
            decreases keys@.len() - i,
        {
            let k = keys[i];
            proof { assert(keys@.contains(k)); }
            if let Some(c) = self.clients.get(k) {
                if c.active_character == Some(guid) {
                    return Ok(k);
                }
            }
            i = i + 1;
        }
        proof {
            assert forall|a: u64| #[trigger] self.clients().contains_key(a) implies self.clients()[a].active_character != Some(guid) by {
                assert(keys@.contains(a));
                let j = choose|j: int| 0 <= j < keys@.len() && keys@[j] == a;
            }
        }
        Err(ClientError::UnknownClient)
    }

    /// The address of the client whose active character has the name `name`, compared
    /// without regard to case and to surrounding white space.
    pub fn find_client_from_active_character_name(&self, name: &str, chars: &CharacterManager) -> (r: Result<u64, ClientError>)
        requires
            self.wf(),
            manager_wf(chars),
        ensures
            r matches Ok(a) ==> self.clients().contains_key(a) && self.clients()[a].active_character is Some && {
                let g = self.clients()[a].active_character->Some_0;
                chars@.contains_key(g) && name_key(chars@[g].name@) == name_key(name@)
            },
            r is Err ==> r == Err::<u64, ClientError>(ClientError::UnknownClient) && forall|a: u64| #[trigger] self.clients().contains_key(a)
                && self.clients()[a].active_character is Some && chars@.contains_key(self.clients()[a].active_character->Some_0)
                ==> name_key(chars@[self.clients()[a].active_character->Some_0].name@) != name_key(name@),
    {
        let keys = self.clients.keys();
        let mut i: usize = 0;
        while i < keys.len()
            invariant
                self.wf(),
                manager_wf(chars),
                i <= keys@.len(),
                forall|k: u64| keys@.contains(k) <==> self.clients().contains_key(k),
                forall|j: int| 0 <= j < i && self.clients()[#[trigger] keys@[j]].active_character is Some && chars@.contains_key(
                    self.clients()[keys@[j]].active_character->Some_0,
                ) ==> name_key(chars@[self.clients()[keys@[j]].active_character->Some_0].name@) != name_key(name@),
            decreases keys@.len() - i,
        {
            let k = keys[i];
            proof { assert(keys@.contains(k)); }
            if let Some(c) = self.clients.get(k) {
                if let Some(g) = c.active_character {
                    if let Some(ch) = chars.get(g) {
                        if names_match(ch.name.as_str(), name) {
                            return Ok(k);
                        }
                    }
                }
            }
            i = i + 1;
        }
        proof {
            assert forall|a: u64| #[trigger] self.clients().contains_key(a) && self.clients()[a].active_character is Some
                && chars@.contains_key(self.clients()[a].active_character->Some_0) implies name_key(
                chars@[self.clients()[a].active_character->Some_0].name@,
            ) != name_key(name@) by {
                assert(keys@.contains(a));
                let j = choose|j: int| 0 <= j < keys@.len() && keys@[j] == a;
            }
        }
        Err(ClientError::UnknownClient)
    }

    /// A movement report from client `addr`: the character moves and the observers to
    /// send the report to come back. A client without an active character gets a state
    /// error and stays as it is.
    pub fn handle_movement(&self, world: &InstanceManager, chars: &mut CharacterManager, addr: u64, p: crate::character::Position) -> (r: Result<
        Option<Vec<u64>>,
        ClientError,
    >)
        requires
            self.wf(),
            world.wf(),
            manager_wf(old(chars)),
        ensures
            manager_wf(final(chars)),
            final(chars)@.dom() == old(chars)@.dom(),
            r is Err ==> final(chars)@ == old(chars)@,
            r is Err <==> (!self.clients().contains_key(addr) || self.clients()[addr].state == ClientState::PreLogin
                || self.clients()[addr].active_character is None),
            r matches Ok(x) ==> {
                let g = self.clients()[addr].active_character->Some_0;
                &&& forall|k: u64| k != g && #[trigger] old(chars)@.contains_key(k) ==> final(chars)@[k] == old(chars)@[k]
                &&& x is Some ==> old(chars)@.contains_key(g) && old(chars)@[g].teleport == crate::teleport::TeleportationState::Idle
                    && final(chars)@[g].position == Some(p) && !x->Some_0@.contains(g) && (if world.world_maps().contains_key(
                    old(chars)@[g].map as u64,
                ) {
                    x->Some_0@ == old(chars)@[g].in_range@
                } else {
                    x->Some_0@.len() == 0
                })
                &&& old(chars)@.contains_key(g) && old(chars)@[g].teleport == crate::teleport::TeleportationState::Idle
                    && p.in_world() ==> x is Some
            },
    {
        let g = self.get_character_from_client(addr)?;
        let ghost c0 = chars@;
        match chars.remove(g) {
            Some(mut c) => {
                let on_a_map = world.has_map(c.map);
                let r = c.handle_movement(p);
                chars.insert(g, c);
                assert(chars@.dom() =~= c0.dom());
                match r {
                    Some(v) => {
                        if on_a_map {
                            Ok(Some(v))
                        } else {
                            Ok(Some(Vec::new()))
                        }
                    },
                    None => Ok(None),
                }
            },
            None => {
                assert(chars@ =~= c0);
                Ok(None)
            },
        }
    }

    /// Every client's tick: a character whose logout finished with a return to character
    /// selection is let go.
    pub fn tick_clients(&mut self, chars: &CharacterManager)
        requires
            old(self).wf(),
            manager_wf(chars),
        ensures
            final(self).wf(),
            final(self).clients().dom() == old(self).clients().dom(),
            forall|a: u64| #[trigger] old(self).clients().contains_key(a) ==> {
                let c = old(self).clients()[a];
                if c.active_character is Some && chars@.contains_key(c.active_character->Some_0)
                    && chars@[c.active_character->Some_0].logout == LogoutState::ReturnToCharSelect {
                    final(self).clients()[a] == (Client { active_character: None, state: ClientState::CharacterSelection, ..c })
                } else {
                    final(self).clients()[a] == c
                }
            },
    {
        let keys = self.clients.keys();
        let ghost c0 = self.clients();
        let mut i: usize = 0;
        while i < keys.len()
            invariant
                self.wf(),
                manager_wf(chars),
                i <= keys@.len(),
                keys@.no_duplicates(),
                forall|k: u64| keys@.contains(k) <==> c0.contains_key(k),
                self.clients().dom() == c0.dom(),
                forall|a: u64| #[trigger] c0.contains_key(a) ==> {
                    let c = c0[a];
                    if keys@.subrange(0, i as int).contains(a) && c.active_character is Some && chars@.contains_key(
                        c.active_character->Some_0,
                    ) && chars@[c.active_character->Some_0].logout == LogoutState::ReturnToCharSelect {
                        self.clients()[a] == (Client { active_character: None, state: ClientState::CharacterSelection, ..c })
                    } else {
                        self.clients()[a] == c
                    }
                },
                c0 == old(self).clients(),
            decreases keys@.len() - i,
        {
            let k = keys[i];
            proof { assert(keys@.contains(k)); }
            let ghost before = self.clients();
            let back = match self.clients.get(k) {
                Some(c) => match c.active_character {
                    Some(g) => match chars.get(g) {
                        Some(ch) => ch.logout == LogoutState::ReturnToCharSelect,
                        None => false,
                    },
                    None => false,
                },
                None => false,
            };
            if back {
                let c = self.clients.remove(k).unwrap();
                self.clients.insert(k, Client { active_character: None, state: ClientState::CharacterSelection, ..c });
            }
            proof {
                let s0 = keys@.subrange(0, i as int);
                let s1 = keys@.subrange(0, i + 1);
                assert(s1 == s0.push(k));
                assert(!s0.contains(k)) by {
                    if s0.contains(k) {
                        let j = choose|j: int| 0 <= j < s0.len() && s0[j] == k;
                        assert(keys@[j] == keys@[i as int]);
                    }
                }
                assert(self.clients().dom() =~= c0.dom());
                assert forall|a: u64| #[trigger] c0.contains_key(a) && a != k implies s1.contains(a) == s0.contains(a) by {
                    if s1.contains(a) {
                        let j = choose|j: int| 0 <= j < s1.len() && s1[j] == a;
                        assert(s0[j] == a);
                    }
                    if s0.contains(a) {
                        let j = choose|j: int| 0 <= j < s0.len() && s0[j] == a;
                        assert(s1[j] == a);
                    }
                }
                assert(s1[i as int] == k);
                assert(before[k] == c0[k]);
            }
            i = i + 1;
        }
        assert(keys@.subrange(0, keys@.len() as int) == keys@);
    }

    /// Every active character's own teleport step: a queued teleport starts, and the
    /// messages that tell each client about it come back with the client's address.
    pub fn tick_teleports(&self, chars: &mut CharacterManager) -> (r: Vec<(u64, TeleportMessage)>)
        requires
            self.wf(),
            manager_wf(old(chars)),
        ensures
            manager_wf(final(chars)),
            final(chars)@.dom() == old(chars)@.dom(),
            forall|g: u64| #[trigger] old(chars)@.contains_key(g) && !plays(self.clients(), g) ==> final(chars)@[g] == old(chars)@[g],
            forall|g: u64| #[trigger] old(chars)@.contains_key(g) && plays(self.clients(), g) ==> teleport_stepped(old(chars)@[g], final(chars)@[g]),
            forall|i: int| 0 <= i < r@.len() ==> self.clients().contains_key(#[trigger] r@[i].0),
    {
        let keys = self.clients.keys();
        let ghost c0 = chars@;
        let mut out: Vec<(u64, TeleportMessage)> = Vec::new();
        let mut i: usize = 0;
        while i < keys.len()
            invariant
                self.wf(),
                i <= keys@.len(),
                forall|k: u64| keys@.contains(k) <==> self.clients().contains_key(k),
                manager_wf(chars),
                chars@.dom() == c0.dom(),
                c0 == old(chars)@,
                forall|g: u64| #[trigger] c0.contains_key(g) && !plays_among(self.clients(), keys@.subrange(0, i as int), g)
                    ==> chars@[g] == c0[g],
                forall|g: u64| #[trigger] c0.contains_key(g) && plays_among(self.clients(), keys@.subrange(0, i as int), g)
                    ==> teleport_stepped(c0[g], chars@[g]),
                forall|j: int| 0 <= j < out@.len() ==> self.clients().contains_key(#[trigger] out@[j].0),
            decreases keys@.len() - i,
        {
            let k = keys[i];
            proof { assert(keys@.contains(k)); }
            let active = match self.clients.get(k) {
                Some(c) => c.active_character,
                None => None,
            };
            let ghost before = chars@;
            let ghost s0 = keys@.subrange(0, i as int);
            let ghost s1 = keys@.subrange(0, i + 1);
            proof {
                assert(s1 == s0.push(k));
                assert(s1[i as int] == k);
                assert forall|g: u64| plays_among(self.clients(), s0, g) implies plays_among(self.clients(), s1, g) by {
                    let j = choose|j: int| 0 <= j < s0.len() && self.clients().contains_key(s0[j]) && self.clients()[s0[j]].active_character == Some(g);
                    assert(s1[j] == s0[j]);
                }
                assert forall|g: u64| plays_among(self.clients(), s1, g) && !(active == Some(g)) implies plays_among(self.clients(), s0, g) by {
                    let j = choose|j: int| 0 <= j < s1.len() && self.clients().contains_key(s1[j]) && self.clients()[s1[j]].active_character == Some(g);
                    if j == i {
                    } else {
                        assert(s0[j] == s1[j]);
                    }
                }
            }
            if let Some(g) = active {
                proof { assert(plays_among(self.clients(), s1, g)); }
                if let Some(mut c) = chars.remove(g) {
                    let msgs = c.tick_teleport();
                    chars.insert(g, c);
                    let mut m: usize = 0;
                    while m < msgs.len()
                        invariant
                            m <= msgs@.len(),
                            self.clients().contains_key(k),
                            forall|j: int| 0 <= j < out@.len() ==> self.clients().contains_key(#[trigger] out@[j].0),
                        decreases msgs@.len() - m,
                    {
                        out.push((k, msgs[m]));
                        m = m + 1;
                    }
                    proof {
                        assert(chars@.dom() =~= c0.dom());
                        if plays_among(self.clients(), s0, g) {
                            assert(teleport_stepped(c0[g], before[g]));
                        } else {
                            assert(before[g] == c0[g]);
                        }
                    }
                } else {
                    proof { assert(chars@ =~= before); }
                }
            }
            i = i + 1;
        }
        proof {
            assert(keys@.subrange(0, keys@.len() as int) == keys@);
            assert forall|g: u64| plays(self.clients(), g) <==> plays_among(self.clients(), keys@, g) by {
                if plays(self.clients(), g) {
                    let a = choose|a: u64| self.clients().contains_key(a) && self.clients()[a].active_character == Some(g);
                    assert(keys@.contains(a));
                    let j = choose|j: int| 0 <= j < keys@.len() && keys@[j] == a;
                }
            }
        }
        out
    }

    /// The clients' part of an engine tick, after the pending connection events were
    /// handled: closed connections are cleaned up, then every client ticks.
    pub fn tick(&mut self, world: &mut InstanceManager, chars: &mut CharacterManager) -> (r: Vec<(u64, TeleportMessage)>)
        requires
            old(self).wf(),
            old(world).wf(),
            manager_wf(old(chars)),
        ensures
            final(self).wf(),
            final(world).wf(),
            manager_wf(final(chars)),
            final(chars)@.dom() == old(chars)@.dom(),
            forall|a: u64| #[trigger] final(self).clients().contains_key(a) <==> old(self).clients().contains_key(a)
                && old(self).clients()[a].state != ClientState::Disconnected,
            forall|a: u64| #[trigger] final(self).clients().contains_key(a) && old(self).clients()[a].state
                == ClientState::DisconnectPendingCleanup ==> final(self).clients()[a] == (Client {
                active_character: None,
                state: ClientState::Disconnected,
                ..old(self).clients()[a]
            }),
            removals_grow(old(world).world_maps(), final(world).world_maps()),
            forall|a: u64| #[trigger] old(self).clients().contains_key(a) && old(self).clients()[a].state == ClientState::DisconnectPendingCleanup
                && old(self).clients()[a].active_character is Some ==> removal_queued(
                final(world).world_maps(),
                old(chars)@,
                old(self).clients()[a].active_character->Some_0,
            ),
            forall|g: u64| #[trigger] old(chars)@.contains_key(g) && plays(final(self).clients(), g) ==> teleport_stepped(
                old(chars)@[g],
                final(chars)@[g],
            ),
            forall|g: u64| #[trigger] old(chars)@.contains_key(g) && !plays(final(self).clients(), g) ==> final(chars)@[g] == old(chars)@[g],
    {
        self.cleanup_disconnected_clients(world, chars);
        let ghost mid = self.clients();
        self.tick_clients(chars);
        proof {
            assert forall|a: u64| #[trigger] self.clients().contains_key(a) && old(self).clients()[a].state
                == ClientState::DisconnectPendingCleanup implies self.clients()[a] == (Client {
                active_character: None,
                state: ClientState::Disconnected,
                ..old(self).clients()[a]
            }) by {
                assert(mid.contains_key(a));
            }
        }
        self.tick_teleports(chars)
    }

    /// Two-staged cleanup of closed connections: a client waiting for cleanup releases its
    /// character's place in the world and becomes disconnected; a disconnected client is
    /// removed.
    pub fn cleanup_disconnected_clients(&mut self, world: &mut InstanceManager, chars: &CharacterManager)
        requires
            old(self).wf(),
            old(world).wf(),
            manager_wf(chars),
        ensures
            final(self).wf(),
            final(world).wf(),
            forall|a: u64| #[trigger] final(self).clients().contains_key(a) <==> old(self).clients().contains_key(a)
                && old(self).clients()[a].state != ClientState::Disconnected,
            forall|a: u64| #[trigger] final(self).clients().contains_key(a) ==> {
                let c = old(self).clients()[a];
                if c.state == ClientState::DisconnectPendingCleanup {
                    final(self).clients()[a] == (Client { active_character: None, state: ClientState::Disconnected, ..c })
                } else {
                    final(self).clients()[a] == c
                }
            },
            removals_grow(old(world).world_maps(), final(world).world_maps()),
            forall|a: u64| #[trigger] old(self).clients().contains_key(a) && old(self).clients()[a].state == ClientState::DisconnectPendingCleanup
                && old(self).clients()[a].active_character is Some ==> removal_queued(
                final(world).world_maps(),
                chars@,
                old(self).clients()[a].active_character->Some_0,
            ),
    {
        let keys = self.clients.keys();
        let ghost c0 = self.clients();
        let mut i: usize = 0;
        while i < keys.len()
            invariant
                self.wf(),
                world.wf(),
                manager_wf(chars),
                i <= keys@.len(),
                keys@.no_duplicates(),
                forall|k: u64| keys@.contains(k) <==> c0.contains_key(k),
                forall|a: u64| #[trigger] self.clients().contains_key(a) <==> c0.contains_key(a) && !(keys@.subrange(0, i as int).contains(a)
                    && c0[a].state == ClientState::Disconnected),
                forall|a: u64| #[trigger] self.clients().contains_key(a) ==> {
                    let c = c0[a];
                    if keys@.subrange(0, i as int).contains(a) && c.state == ClientState::DisconnectPendingCleanup {
                        self.clients()[a] == (Client { active_character: None, state: ClientState::Disconnected, ..c })
                    } else {
                        self.clients()[a] == c
                    }
                },
                c0 == old(self).clients(),
                removals_grow(old(world).world_maps(), world.world_maps()),
                forall|a: u64| #[trigger] c0.contains_key(a) && keys@.subrange(0, i as int).contains(a) && c0[a].state
                    == ClientState::DisconnectPendingCleanup && c0[a].active_character is Some ==> removal_queued(
                    world.world_maps(),
                    chars@,
                    c0[a].active_character->Some_0,
                ),
            decreases keys@.len() - i,
        {
            let k = keys[i];
            proof { assert(keys@.contains(k)); }
            let ghost before = self.clients();
            let current = self.clients.get(k);
            let state = match current {
                Some(c) => Some((c.state, c.active_character)),
                None => None,
            };
            let ghost wb = world.world_maps();
            match state {
                Some((ClientState::DisconnectPendingCleanup, active)) => {
                    world.handle_client_disconnected(active, chars);
                    proof {
                        let wa = world.world_maps();
                        assert forall|kk: u64, x: u64| #[trigger] wb.contains_key(kk) && #[trigger] wb[kk].remove_queue().contains(x)
                            implies wa[kk].remove_queue().contains(x) by {
                            if active is Some && chars@.contains_key(active->Some_0) && kk == chars@[active->Some_0].map as u64 {
                                let g = active->Some_0;
                                let j = choose|j: int| 0 <= j < wb[kk].remove_queue().len() && wb[kk].remove_queue()[j] == x;
                                assert(wa[kk].remove_queue()[j] == x);
                            }
                        }
                        if active is Some && chars@.contains_key(active->Some_0) && wa.contains_key(chars@[active->Some_0].map as u64) {
                            let g = active->Some_0;
                            let q = wa[chars@[g].map as u64].remove_queue();
                            assert(q[q.len() - 1] == g);
                        }
                    }
                    let c = self.clients.remove(k).unwrap();
                    self.clients.insert(k, Client { active_character: None, state: ClientState::Disconnected, ..c });
                },
                Some((ClientState::Disconnected, _)) => {
                    let _ = self.clients.remove(k);
                },
                _ => {},
            }
            proof {
                let s0 = keys@.subrange(0, i as int);
                let s1 = keys@.subrange(0, i + 1);
                assert(s1 == s0.push(k));
                assert(!s0.contains(k)) by {
                    if s0.contains(k) {
                        let j = choose|j: int| 0 <= j < s0.len() && s0[j] == k;
                        assert(keys@[j] == keys@[i as int]);
                    }
                }
                assert forall|a: u64| #[trigger] c0.contains_key(a) && a != k implies s1.contains(a) == s0.contains(a) by {
                    if s1.contains(a) {
                        let j = choose|j: int| 0 <= j < s1.len() && s1[j] == a;
                        assert(s0[j] == a);
                    }
                    if s0.contains(a) {
                        let j = choose|j: int| 0 <= j < s0.len() && s0[j] == a;
                        assert(s1[j] == a);
                    }
                }
                assert(s1[i as int] == k);
                if before.contains_key(k) {
                    assert(before[k] == c0[k]);
                }
                let wa = world.world_maps();
                assert forall|kk: u64, x: u64| #[trigger] old(world).world_maps().contains_key(kk) && #[trigger] old(world).world_maps()[kk].remove_queue().contains(x)
                    implies wa[kk].remove_queue().contains(x) by {
                    assert(wb[kk].remove_queue().contains(x));
                }
                assert forall|a: u64| #[trigger] c0.contains_key(a) && s1.contains(a) && c0[a].state == ClientState::DisconnectPendingCleanup
                    && c0[a].active_character is Some implies removal_queued(wa, chars@, c0[a].active_character->Some_0) by {
                    let g = c0[a].active_character->Some_0;
                    if a != k {
                        assert(s0.contains(a));
                        if chars@.contains_key(g) && wa.contains_key(chars@[g].map as u64) {
                            assert(wb[chars@[g].map as u64].remove_queue().contains(g));
                        }
                    }
                }
            }
            i = i + 1;
        }
        assert(keys@.subrange(0, keys@.len() as int) == keys@);
    }
}

} // verus!
