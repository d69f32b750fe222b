use crate::character::{Character, CharacterManager};
use crate::map::{frame, manager_wf, same_places, MapManager};
use crate::store::IdMap;
use crate::teleport::{TeleportationDistance, TeleportationState};
use vstd::prelude::*;

verus! {

/// The maps of the world: shared world maps by map id, and private copies by instance id.
pub struct InstanceManager {
    world_maps: IdMap<MapManager>,
    instances: IdMap<MapManager>,
}

/// A map right after its tick: nothing queued, and its index holds exactly its placed characters.
pub open spec fn map_ticked(m: MapManager, chars: Map<u64, Character>) -> bool {
    &&& m.add_queue().len() == 0
    &&& m.remove_queue().len() == 0
    &&& m.index_matches(chars)
}

pub open spec fn maps_wf(m: Map<u64, MapManager>) -> bool {
    forall|k: u64| #[trigger] m.contains_key(k) ==> m[k].wf()
}

impl InstanceManager {
    pub closed spec fn world_maps(&self) -> Map<u64, MapManager> {
        self.world_maps@
    }

    pub closed spec fn instances(&self) -> Map<u64, MapManager> {
        self.instances@
    }

    pub closed spec fn wf(&self) -> bool {
        &&& self.world_maps.wf()
        &&& self.instances.wf()
        &&& maps_wf(self.world_maps@)
        &&& maps_wf(self.instances@)
    }

    pub fn new() -> (r: Self)
        ensures
            r.wf(),
            r.world_maps() == Map::<u64, MapManager>::empty(),
            r.instances() == Map::<u64, MapManager>::empty(),
    {
        InstanceManager { world_maps: IdMap::new(), instances: IdMap::new() }
    }

    /// Whether `map` is played in private copies. No map is, until static map data says so.
    pub fn is_instance(&self, map: u32) -> (r: bool)
        ensures
            r == false,
    {
        false
    }

    /// Queues `guid` to join map `map`, creating the map when it does not exist yet.
    pub fn push_character(&mut self, map: u32, instance_id: u32, guid: u64)
        requires
            old(self).wf(),
        ensures
            final(self).wf(),
            final(self).instances() == old(self).instances(),
            final(self).world_maps().dom() == old(self).world_maps().dom().insert(map as u64),
            forall|k: u64| k != map && #[trigger] old(self).world_maps().contains_key(k) ==> final(self).world_maps()[k]
                == old(self).world_maps()[k],
            old(self).world_maps().contains_key(map as u64) ==> final(self).world_maps()[map as u64].add_queue()
                == old(self).world_maps()[map as u64].add_queue().push(guid) && final(self).world_maps()[map as u64].on_map()
                == old(self).world_maps()[map as u64].on_map(),
            !old(self).world_maps().contains_key(map as u64) ==> final(self).world_maps()[map as u64].add_queue() == seq![guid]
                && final(self).world_maps()[map as u64].on_map().len() == 0,
    {
        let mut m = match self.world_maps.remove(map as u64) {
            Some(m) => m,
            None => MapManager::new(map),
        };
        m.push_character(guid);
        self.world_maps.insert(map as u64, m);
        assert(self.world_maps().dom() =~= old(self).world_maps().dom().insert(map as u64));
    }

    /// Queues `guid` to leave map `map`, if that map exists.
    pub fn queue_removal(&mut self, map: u32, guid: u64) -> (r: bool)
        requires
            old(self).wf(),
        ensures
            final(self).wf(),
            final(self).instances() == old(self).instances(),
            r == old(self).world_maps().contains_key(map as u64),
            final(self).world_maps().dom() == old(self).world_maps().dom(),
            forall|k: u64| k != map && #[trigger] old(self).world_maps().contains_key(k) ==> final(self).world_maps()[k]
                == old(self).world_maps()[k],
            r ==> final(self).world_maps()[map as u64].remove_queue() == old(self).world_maps()[map as u64].remove_queue().push(
                guid,
            ) && final(self).world_maps()[map as u64].add_queue() == old(self).world_maps()[map as u64].add_queue(),
    {
        match self.world_maps.remove(map as u64) {
            Some(mut m) => {
                m.remove_object_by_guid(guid);
                self.world_maps.insert(map as u64, m);
                assert(self.world_maps().dom() =~= old(self).world_maps().dom());
                true
            },
            None => {
                assert(self.world_maps() =~= old(self).world_maps());
                false
            },
        }
    }

    /// Whether world map `map` exists.
    pub fn has_map(&self, map: u32) -> (r: bool)
        requires
            self.wf(),
        ensures
            r == self.world_maps().contains_key(map as u64),
    {
        self.world_maps.contains(map as u64)
    }

    /// Whether map `map` exists and has `guid` on it.
    pub fn is_on_map(&self, map: u32, guid: u64) -> (r: bool)
        requires
            self.wf(),
        ensures
            r == (self.world_maps().contains_key(map as u64) && self.world_maps()[map as u64].on_map().contains(guid)),
    {
        match self.world_maps.get(map as u64) {
            Some(m) => m.find_character(guid),
            None => false,
        }
    }

    /// Shuts down every map that has nobody on it and nobody on the way, then ticks the
    /// remaining ones.
    pub fn tick(&mut self, chars: &mut CharacterManager)
        requires
            old(self).wf(),
            manager_wf(old(chars)),
        ensures
            final(self).wf(),
            manager_wf(final(chars)),
            same_places(old(chars)@, final(chars)@),
            forall|k: u64| #[trigger] old(chars)@.contains_key(k) ==> frame(old(chars)@[k], final(chars)@[k]),
            forall|k: u64| #[trigger] final(self).world_maps().contains_key(k) ==> old(self).world_maps().contains_key(k)
                && !(old(self).world_maps()[k].on_map().len() == 0 && old(self).world_maps()[k].add_queue().len() == 0),
            forall|k: u64| #[trigger] old(self).world_maps().contains_key(k) && !(old(self).world_maps()[k].on_map().len() == 0
                && old(self).world_maps()[k].add_queue().len() == 0) ==> final(self).world_maps().contains_key(k),
            forall|k: u64| #[trigger] final(self).world_maps().contains_key(k) ==> map_ticked(final(self).world_maps()[k], final(chars)@),
    {
        Self::cleanup(&mut self.world_maps);
        Self::cleanup(&mut self.instances);
        Self::tick_maps(&mut self.world_maps, chars);
        let ghost maps1 = self.world_maps@;
        let ghost chars1 = chars@;
        Self::tick_maps(&mut self.instances, chars);
        proof {
            assert forall|k: u64| #[trigger] self.world_maps().contains_key(k) implies map_ticked(self.world_maps()[k], chars@) by {
                assert(map_ticked(maps1[k], chars1));
                maps1[k].lemma_index_same_places(chars1, chars@);
            }
        }
    }

    fn cleanup(maps: &mut IdMap<MapManager>)
        requires
            old(maps).wf(),
            maps_wf(old(maps)@),
        ensures
            final(maps).wf(),
            maps_wf(final(maps)@),
            forall|k: u64| #[trigger] final(maps)@.contains_key(k) <==> old(maps)@.contains_key(k) && !(old(maps)@[k].on_map().len()
                == 0 && old(maps)@[k].add_queue().len() == 0),
            forall|k: u64| #[trigger] final(maps)@.contains_key(k) ==> final(maps)@[k] == old(maps)@[k],
    {
        let keys = maps.keys();
        let mut i: usize = 0;
        while i < keys.len()
            invariant
                i <= keys@.len(),
                keys@.no_duplicates(),
                forall|k: u64| keys@.contains(k) <==> old(maps)@.contains_key(k),
                maps.wf(),
                maps_wf(maps@),
                forall|k: u64| #[trigger] maps@.contains_key(k) <==> old(maps)@.contains_key(k) && !(keys@.subrange(0, i as int).contains(k)
                    && old(maps)@[k].on_map().len() == 0 && old(maps)@[k].add_queue().len() == 0),
                forall|k: u64| #[trigger] maps@.contains_key(k) ==> maps@[k] == old(maps)@[k],
            decreases keys@.len() - i,
        {
            let k = keys[i];
            proof { assert(keys@.contains(k)); }
            let idle = match maps.get(k) {
                Some(m) => m.should_shutdown() && m.arrivals() == 0,
                None => false,
            };
            let ghost before = maps@;
            if idle {
                let _ = maps.remove(k);
            }
            proof {
                let s0 = keys@.subrange(0, i as int);
                let s1 = keys@.subrange(0, i + 1);
                assert(s1 == s0.push(k));
                assert forall|x: u64| #[trigger] maps@.contains_key(x) <==> old(maps)@.contains_key(x) && !(s1.contains(x)
                    && old(maps)@[x].on_map().len() == 0 && old(maps)@[x].add_queue().len() == 0) by {
                    if s1.contains(x) && x != k {
                        let j = choose|j: int| 0 <= j < s1.len() && s1[j] == x;
                        assert(s0[j] == x);
                    }
                    if s0.contains(x) {
                        let j = choose|j: int| 0 <= j < s0.len() && s0[j] == x;
                        assert(s1[j] == x);
                    }
                    if x == k {
                        assert(s1[i as int] == x);
                        if !idle && before.contains_key(k) {
                            assert(!s0.contains(k)) by {
                                if s0.contains(k) {
                                    let j = choose|j: int| 0 <= j < s0.len() && s0[j] == k;
                                    assert(keys@[j] == keys@[i as int]);
                                }
                            }
                        }
                    }
                }
            }
            i = i + 1;
        }
        assert(keys@.subrange(0, keys@.len() as int) == keys@);
    }

    fn tick_maps(maps: &mut IdMap<MapManager>, chars: &mut CharacterManager)
        requires
            old(maps).wf(),
            maps_wf(old(maps)@),
            manager_wf(old(chars)),
        ensures
            final(maps).wf(),
            maps_wf(final(maps)@),
            final(maps)@.dom() == old(maps)@.dom(),
            manager_wf(final(chars)),
            same_places(old(chars)@, final(chars)@),
            forall|k: u64| #[trigger] old(chars)@.contains_key(k) ==> frame(old(chars)@[k], final(chars)@[k]),
            forall|k: u64| #[trigger] final(maps)@.contains_key(k) ==> map_ticked(final(maps)@[k], final(chars)@),
    {
        let keys = maps.keys();
        let mut i: usize = 0;
        while i < keys.len()
            invariant
                i <= keys@.len(),
                keys@.no_duplicates(),
                forall|k: u64| #[trigger] maps@.contains_key(k) && keys@.subrange(0, i as int).contains(k) ==> map_ticked(maps@[k], chars@),
                forall|k: u64| keys@.contains(k) <==> old(maps)@.contains_key(k),
                maps.wf(),
                maps_wf(maps@),
                maps@.dom() == old(maps)@.dom(),
                manager_wf(chars),
                same_places(old(chars)@, chars@),
                forall|k: u64| #[trigger] old(chars)@.contains_key(k) ==> frame(old(chars)@[k], chars@[k]),
            decreases keys@.len() - i,
        {
            let k = keys[i];
            proof { assert(keys@.contains(k)); }
            let ghost maps0 = maps@;
            let ghost chars0 = chars@;
            if let Some(mut m) = maps.remove(k) {
                m.tick(chars);
                maps.insert(k, m);
                assert(maps@.dom() =~= old(maps)@.dom());
            }
            proof {
                let s0 = keys@.subrange(0, i as int);
                let s1 = keys@.subrange(0, i + 1);
                assert(s1 == s0.push(k));
                assert forall|x: u64| #[trigger] maps@.contains_key(x) && s1.contains(x) implies map_ticked(maps@[x], chars@) by {
                    if x != k {
                        let j = choose|j: int| 0 <= j < s1.len() && s1[j] == x;
                        assert(s0[j] == x);
                        assert(s0.contains(x));
                        assert(map_ticked(maps0[x], chars0));
                        maps0[x].lemma_index_same_places(chars0, chars@);
                    }
                }
            }
            i = i + 1;
        }
        assert(keys@.subrange(0, keys@.len() as int) == keys@);
    }

    /// The character `guid` of a client that went away leaves its map.
    pub fn handle_client_disconnected(&mut self, active_character: Option<u64>, chars: &CharacterManager)
        requires
            old(self).wf(),
            manager_wf(chars),
        ensures
            final(self).wf(),
            final(self).instances() == old(self).instances(),
            final(self).world_maps().dom() == old(self).world_maps().dom(),
            forall|k: u64| #[trigger] old(self).world_maps().contains_key(k) && !(active_character is Some && chars@.contains_key(
                active_character->Some_0,
            ) && k == chars@[active_character->Some_0].map as u64) ==> final(self).world_maps()[k] == old(self).world_maps()[k],
            forall|g: u64| active_character == Some(g) && chars@.contains_key(g) && #[trigger] old(self).world_maps().contains_key(
                chars@[g].map as u64,
            ) ==> final(self).world_maps()[chars@[g].map as u64].remove_queue() == old(self).world_maps()[chars@[g].map as u64].remove_queue().push(g),
    {
        if let Some(g) = active_character {
            if let Some(c) = chars.get(g) {
                let _ = self.queue_removal(c.map, g);
            }
        }
    }
}

/// The simulated world.
pub struct World {
    instance_manager: InstanceManager,
}

impl World {
    pub closed spec fn maps(&self) -> InstanceManager {
        self.instance_manager
    }

    pub fn new() -> (r: Self)
        ensures
            r.maps().wf(),
            r.maps().world_maps() == Map::<u64, MapManager>::empty(),
    {
        World { instance_manager: InstanceManager::new() }
    }

    pub fn get_instance_manager(&self) -> (r: &InstanceManager)
        ensures
            *r == self.maps(),
    {
        &self.instance_manager
    }

    /// One step of every map.
    pub fn tick(&mut self, chars: &mut CharacterManager)
        requires
            old(self).maps().wf(),
            manager_wf(old(chars)),
        ensures
            final(self).maps().wf(),
            manager_wf(final(chars)),
            same_places(old(chars)@, final(chars)@),
            forall|k: u64| #[trigger] final(self).maps().world_maps().contains_key(k) <==> old(self).maps().world_maps().contains_key(k)
                && !(old(self).maps().world_maps()[k].on_map().len() == 0 && old(self).maps().world_maps()[k].add_queue().len() == 0),
            forall|k: u64| #[trigger] final(self).maps().world_maps().contains_key(k) ==> map_ticked(
                final(self).maps().world_maps()[k],
                final(chars)@,
            ),
    {
        self.instance_manager.tick(chars);
    }
}

/// The client acknowledged a far teleport of character `guid`: it leaves its old map,
/// moves to the destination with its time-sync counter reset, and joins the new map.
/// An acknowledgement that no far teleport waits for is ignored.
pub fn handle_worldport_ack(world: &mut InstanceManager, chars: &mut CharacterManager, guid: u64) -> (r: bool)
    requires
        old(world).wf(),
        manager_wf(old(chars)),
    ensures
        final(world).wf(),
        manager_wf(final(chars)),
        final(chars)@.dom() == old(chars)@.dom(),
        forall|k: u64| k != guid && #[trigger] old(chars)@.contains_key(k) ==> final(chars)@[k] == old(chars)@[k],
        final(world).instances() == old(world).instances(),
        r <==> old(chars)@.contains_key(guid) && old(chars)@[guid].teleport is Executing && old(chars)@[guid].teleport->Executing_0 is Far,
        !r ==> final(chars)@ == old(chars)@ && final(world).world_maps() == old(world).world_maps(),
        r ==> {
            let c0 = old(chars)@[guid];
            let c1 = final(chars)@[guid];
            let d = c0.teleport->Executing_0;
            &&& c1.map == d->Far_map
            &&& c1.position == Some(d->Far_position)
            &&& c1.time_sync_counter == 0
            &&& c1.teleport == TeleportationState::Idle
            &&& final(world).world_maps().contains_key(d->Far_map as u64)
            &&& final(world).world_maps()[d->Far_map as u64].add_queue().last() == guid
            &&& old(world).world_maps().contains_key(c0.map as u64) && c0.map != d->Far_map ==> final(world).world_maps()[c0.map as u64].remove_queue().last() == guid
        },
{
    let ghost c0 = chars@;
    let mut c = match chars.remove(guid) {
        Some(c) => c,
        None => {
            proof { assert(chars@ =~= c0); }
            return false;
        },
    };
    let (map, position) = match c.teleport {
        TeleportationState::Executing(TeleportationDistance::Far { map, position, .. }) => (map, position),
        _ => {
            chars.insert(guid, c);
            proof { assert(chars@ =~= c0); }
            return false;
        },
    };
    let old_map = c.map;
    let _ = world.queue_removal(old_map, guid);
    c.map = map;
    c.position = Some(position);
    c.time_sync_counter = 0;
    c.teleport = TeleportationState::Idle;
    let instance_id = c.instance_id;
    chars.insert(guid, c);
    world.push_character(map, instance_id, guid);
    proof { assert(chars@.dom() =~= c0.dom()); }
    true
}

} // verus!
