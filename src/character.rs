use crate::inventory::{item_guid, Inventory, InventoryError, Item, BACKPACK_END, BACKPACK_START, EQUIPMENT_SLOTS_END};
use crate::spatial::{in_world, WORLD_LIMIT};
use crate::store::IdMap;
use crate::teleport::{teleport_messages, AreaTriggerError, AreaTriggerOutcome, AreaTriggerPurpose, TeleportationDistance, TeleportMessage, TeleportationState};
use crate::updates::{UpdateBlock, UpdateMask};
use vstd::prelude::*;

verus! {

/// The player field holding the low half of the object id in inventory slot 0; each slot
/// takes two fields, low half first.
pub const PLAYER_FIELD_INV_SLOT_HEAD: usize = 324;

/// The player field holding the item entry shown in equipment slot 0; each slot takes two
/// fields, entry first.
pub const PLAYER_VISIBLE_ITEM_ENTRY_HEAD: usize = 283;

/// The character id that inventory object ids carry: the low 32 bits of the object id.
pub open spec fn character_id(guid: u64) -> u32 {
    (guid % 0x1_0000_0000) as u32
}

/// A place in the world, in whole world units; the orientation in thousandths of a radian.
#[derive(Clone, Copy, Debug, PartialEq, Eq, Structural)]
pub struct Position {
    pub x: i64,
    pub y: i64,
    pub z: i64,
    pub orientation: i64,
}

impl Position {
    pub open spec fn in_world(&self) -> bool {
        in_world(self.x as int, self.y as int)
    }
}

/// Where a character is in leaving the game.
#[derive(Clone, Copy, Debug, PartialEq, Eq, Structural)]
pub enum LogoutState {
    Idle,
    /// Logging out once the clock reaches this many milliseconds.
    Pending(u64),
    Executing,
    ReturnToCharSelect,
}

/// A character that is in the game.
pub struct Character {
    pub guid: u64,
    pub name: String,
    pub map: u32,
    pub instance_id: u32,
    /// `None` until the character is spawned into a map.
    pub position: Option<Position>,
    pub update_mask: UpdateMask,
    /// The characters that this one currently sees.
    pub in_range: Vec<u64>,
    /// The characters that left its view since the last out-of-range block.
    pub recently_removed: Vec<u64>,
    /// Object updates waiting to be sent to this character's client.
    pub pending_updates: Vec<UpdateBlock>,
    pub teleport: TeleportationState,
    pub logout: LogoutState,
    pub time_sync_counter: u32,
    /// 256 tutorial flags, eight words of 32 bits.
    pub tutorial_flags: [u32; 8],
    pub inventory: Inventory,
}

impl Character {
    pub open spec fn wf(&self) -> bool {
        &&& self.update_mask.wf()
        &&& self.in_range@.no_duplicates()
        &&& !self.in_range@.contains(self.guid)
        &&& self.teleport.in_world()
        &&& self.inventory.wf()
        &&& self.inventory.guids_ok(character_id(self.guid))
        &&& match self.position {
            Some(p) => p.in_world(),
            None => true,
        }
    }

    /// A fresh character, not yet spawned, with nothing to send.
    pub fn new(guid: u64, name: String, map: u32, instance_id: u32) -> (r: Self)
        ensures
            r.wf(),
            r.guid == guid,
            r.name@ == name@,
            r.map == map,
            r.instance_id == instance_id,
            r.position.is_none(),
            r.update_mask.clean(),
            r.in_range@.len() == 0,
            r.recently_removed@.len() == 0,
            r.pending_updates@.len() == 0,
            r.teleport == TeleportationState::Idle,
            r.logout == LogoutState::Idle,
            r.time_sync_counter == 0,
            r.tutorial_flags@ == seq![0u32; 8],
    {
        Character {
            guid,
            name,
            map,
            instance_id,
            position: None,
            update_mask: UpdateMask::new(),
            in_range: Vec::new(),
            recently_removed: Vec::new(),
            pending_updates: Vec::new(),
            teleport: TeleportationState::Idle,
            logout: LogoutState::Idle,
            time_sync_counter: 0,
            tutorial_flags: [0u32; 8],
            inventory: Inventory::new(),
        }
    }

    /// The parts that no teleport, movement or tutorial step changes.
    pub open spec fn same_but_place(&self, other: &Character) -> bool {
        &&& other.guid == self.guid
        &&& other.name == self.name
        &&& other.map == self.map
        &&& other.instance_id == self.instance_id
        &&& other.update_mask == self.update_mask
        &&& other.in_range == self.in_range
        &&& other.recently_removed == self.recently_removed
        &&& other.pending_updates == self.pending_updates
        &&& other.logout == self.logout
        &&& other.inventory == self.inventory
    }

    /// Asks for a teleport; refused, with nothing changed, when the destination lies
    /// outside the world.
    pub fn teleport_to(&mut self, destination: TeleportationDistance) -> (r: bool)
        requires
            old(self).wf(),
        ensures
            final(self).wf(),
            final(self).same_but_place(old(self)),
            final(self).position == old(self).position,
            final(self).tutorial_flags == old(self).tutorial_flags,
            final(self).time_sync_counter == old(self).time_sync_counter,
            r == destination.in_world(),
            r ==> final(self).teleport == TeleportationState::Queued(destination),
            !r ==> final(self).teleport == old(self).teleport,
    {
        let p = match destination {
            TeleportationDistance::Near(p) => p,
            TeleportationDistance::Far { position, .. } => position,
        };
        if -WORLD_LIMIT <= p.x && p.x <= WORLD_LIMIT && -WORLD_LIMIT <= p.y && p.y <= WORLD_LIMIT {
            self.teleport = TeleportationState::Queued(destination);
            true
        } else {
            false
        }
    }

    /// Puts `item` (or nothing) into inventory cell `slot`, hands back what was there, and
    /// marks the player fields that show the cell: its object id, and for equipment the
    /// item entry that others see.
    pub fn set_item(&mut self, slot: u8, item: Option<Item>) -> (r: Result<Option<Item>, InventoryError>)
        requires
            old(self).wf(),
        ensures
            final(self).wf(),
            final(self).same_but_inventory(old(self)),
            final(self).position == old(self).position,
            final(self).teleport == old(self).teleport,
            !(slot <= EQUIPMENT_SLOTS_END) && !(BACKPACK_START <= slot <= BACKPACK_END) ==> r == Err::<Option<Item>, InventoryError>(
                InventoryError::NotAnInventorySlot,
            ) && final(self).inventory.equipped.cells() == old(self).inventory.equipped.cells()
                && final(self).inventory.bag.cells() == old(self).inventory.bag.cells() && final(self).update_mask == old(self).update_mask,
            slot <= EQUIPMENT_SLOTS_END ==> r == Ok::<Option<Item>, InventoryError>(old(self).inventory.equipped.cells()[slot as int]),
            BACKPACK_START <= slot <= BACKPACK_END ==> r == Ok::<Option<Item>, InventoryError>(old(self).inventory.bag.cells()[slot - BACKPACK_START]),
            r is Ok ==> {
                let low = final(self).update_mask.field(PLAYER_FIELD_INV_SLOT_HEAD + 2 * slot);
                let high = final(self).update_mask.field(PLAYER_FIELD_INV_SLOT_HEAD + 2 * slot + 1);
                &&& final(self).update_mask.is_dirty(PLAYER_FIELD_INV_SLOT_HEAD + 2 * slot)
                &&& final(self).update_mask.is_dirty(PLAYER_FIELD_INV_SLOT_HEAD + 2 * slot + 1)
                &&& match item {
                    Some(it) => low as int + high as int * 0x1_0000_0000 == item_guid(character_id(old(self).guid), slot) as int
                        && (slot <= EQUIPMENT_SLOTS_END ==> final(self).update_mask.field(PLAYER_VISIBLE_ITEM_ENTRY_HEAD + 2 * slot) == it.entry)
                        && (slot <= EQUIPMENT_SLOTS_END ==> final(self).inventory.equipped.cells()[slot as int] == Some(
                            Item { object_guid: item_guid(character_id(old(self).guid), slot), ..it },
                        ))
                        && (BACKPACK_START <= slot <= BACKPACK_END ==> final(self).inventory.bag.cells()[slot - BACKPACK_START] == Some(
                            Item { object_guid: item_guid(character_id(old(self).guid), slot), ..it },
                        )),
                    None => low == 0 && high == 0 && (slot <= EQUIPMENT_SLOTS_END ==> final(self).update_mask.field(
                        PLAYER_VISIBLE_ITEM_ENTRY_HEAD + 2 * slot,
                    ) == 0),
                }
            },
    {
        let cid = (self.guid % 0x1_0000_0000) as u32;
        let r = self.inventory.set_item(cid, slot, item);
        if r.is_ok() {
            let (low, high) = match item {
                Some(_) => (slot as u32, cid),
                None => (0u32, 0u32),
            };
            let f = PLAYER_FIELD_INV_SLOT_HEAD + 2 * (slot as usize);
            self.update_mask.set_field(f, low);
            self.update_mask.set_field(f + 1, high);
            if slot <= EQUIPMENT_SLOTS_END {
                let entry = match item {
                    Some(it) => it.entry,
                    None => 0,
                };
                self.update_mask.set_field(PLAYER_VISIBLE_ITEM_ENTRY_HEAD + 2 * (slot as usize), entry);
            }
        }
        r
    }

    /// The parts that an inventory change keeps.
    pub open spec fn same_but_inventory(&self, other: &Character) -> bool {
        &&& other.guid == self.guid
        &&& other.name == self.name
        &&& other.map == self.map
        &&& other.instance_id == self.instance_id
        &&& other.in_range == self.in_range
        &&& other.recently_removed == self.recently_removed
        &&& other.pending_updates == self.pending_updates
        &&& other.logout == self.logout
        &&& other.tutorial_flags == self.tutorial_flags
        &&& other.time_sync_counter == self.time_sync_counter
    }

    /// The character stepped into an area trigger with the given purpose (`None` when the
    /// server does not know the trigger).
    pub fn handle_area_trigger(&mut self, purpose: Option<AreaTriggerPurpose>) -> (r: Result<AreaTriggerOutcome, AreaTriggerError>)
        requires
            old(self).wf(),
        ensures
            final(self).wf(),
            final(self).same_but_place(old(self)),
            final(self).position == old(self).position,
            match purpose {
                None => r == Err::<AreaTriggerOutcome, AreaTriggerError>(AreaTriggerError::UnknownTrigger)
                    && final(self).teleport == old(self).teleport,
                Some(AreaTriggerPurpose::Teleport { map, position, area }) => if position.in_world() {
                    r == Ok::<AreaTriggerOutcome, AreaTriggerError>(AreaTriggerOutcome::TeleportQueued) && final(self).teleport
                        == TeleportationState::Queued(TeleportationDistance::Far { map, position, area })
                } else {
                    r == Err::<AreaTriggerOutcome, AreaTriggerError>(AreaTriggerError::DestinationOutsideWorld)
                        && final(self).teleport == old(self).teleport
                },
                Some(AreaTriggerPurpose::RestedArea) => r == Ok::<AreaTriggerOutcome, AreaTriggerError>(
                    AreaTriggerOutcome::EnteredRestedArea,
                ) && final(self).teleport == old(self).teleport,
                Some(AreaTriggerPurpose::Other) => r == Ok::<AreaTriggerOutcome, AreaTriggerError>(AreaTriggerOutcome::Nothing)
                    && final(self).teleport == old(self).teleport,
            },
    {
        match purpose {
            None => Err(AreaTriggerError::UnknownTrigger),
            Some(AreaTriggerPurpose::Teleport { map, position, area }) => {
                if self.teleport_to(TeleportationDistance::Far { map, position, area }) {
                    Ok(AreaTriggerOutcome::TeleportQueued)
                } else {
                    Err(AreaTriggerError::DestinationOutsideWorld)
                }
            },
            Some(AreaTriggerPurpose::RestedArea) => Ok(AreaTriggerOutcome::EnteredRestedArea),
            Some(AreaTriggerPurpose::Other) => Ok(AreaTriggerOutcome::Nothing),
        }
    }

    /// The character's own tick: a queued teleport starts, with the messages that tell
    /// the client about it.
    pub fn tick_teleport(&mut self) -> (r: Vec<TeleportMessage>)
        requires
            old(self).wf(),
        ensures
            final(self).wf(),
            final(self).same_but_place(old(self)),
            final(self).position == old(self).position,
            final(self).tutorial_flags == old(self).tutorial_flags,
            final(self).time_sync_counter == old(self).time_sync_counter,
            match old(self).teleport {
                TeleportationState::Queued(d) => final(self).teleport == TeleportationState::Executing(d) && r@ == teleport_messages(
                    old(self).guid,
                    d,
                ),
                _ => final(self).teleport == old(self).teleport && r@.len() == 0,
            },
    {
        match self.teleport {
            TeleportationState::Queued(d) => {
                self.teleport = TeleportationState::Executing(d);
                match d {
                    TeleportationDistance::Near(p) => vec![TeleportMessage::MoveTeleportAck { guid: self.guid, position: p }],
                    TeleportationDistance::Far { map, position, .. } => vec![
                        TeleportMessage::TransferPending { map },
                        TeleportMessage::NewWorld { map, position },
                    ],
                }
            },
            _ => Vec::new(),
        }
    }

    /// The client acknowledged a near teleport: the character is put at the destination.
    /// An acknowledgement that no near teleport waits for is ignored.
    pub fn handle_teleport_ack(&mut self) -> (r: bool)
        requires
            old(self).wf(),
        ensures
            final(self).wf(),
            final(self).same_but_place(old(self)),
            final(self).tutorial_flags == old(self).tutorial_flags,
            final(self).time_sync_counter == old(self).time_sync_counter,
            match old(self).teleport {
                TeleportationState::Executing(TeleportationDistance::Near(p)) => r && final(self).position == Some(p)
                    && final(self).teleport == TeleportationState::Idle,
                _ => !r && final(self).position == old(self).position && final(self).teleport == old(self).teleport,
            },
    {
        match self.teleport {
            TeleportationState::Executing(TeleportationDistance::Near(p)) => {
                self.position = Some(p);
                self.teleport = TeleportationState::Idle;
                true
            },
            _ => false,
        }
    }

    /// A movement report from the client. It is dropped while a teleport is under way, or
    /// when it leaves the world; otherwise the character moves there and the report goes
    /// to everyone who sees it.
    pub fn handle_movement(&mut self, p: Position) -> (r: Option<Vec<u64>>)
        requires
            old(self).wf(),
        ensures
            final(self).wf(),
            final(self).same_but_place(old(self)),
            final(self).teleport == old(self).teleport,
            final(self).tutorial_flags == old(self).tutorial_flags,
            final(self).time_sync_counter == old(self).time_sync_counter,
            old(self).teleport != TeleportationState::Idle || !p.in_world() ==> r is None && final(self).position == old(self).position,
            old(self).teleport == TeleportationState::Idle && p.in_world() ==> r.is_some() && r.unwrap()@ == old(self).in_range@
                && final(self).position == Some(p),
    {
        if self.teleport != TeleportationState::Idle {
            return None;
        }
        if !(-WORLD_LIMIT <= p.x && p.x <= WORLD_LIMIT && -WORLD_LIMIT <= p.y && p.y <= WORLD_LIMIT) {
            return None;
        }
        self.position = Some(p);
        Some(self.recipients_in_range(false))
    }

    /// The characters that a message about this one goes to: everyone who sees it, and
    /// itself last when asked.
    pub fn recipients_in_range(&self, include_self: bool) -> (r: Vec<u64>)
        ensures
            include_self ==> r@ == self.in_range@.push(self.guid),
            !include_self ==> r@ == self.in_range@,
            !include_self && self.wf() ==> !r@.contains(self.guid),
    {
        let mut r: Vec<u64> = Vec::new();
        let mut i: usize = 0;
        while i < self.in_range.len()
            invariant
                i <= self.in_range@.len(),
                r@ == self.in_range@.subrange(0, i as int),
            decreases self.in_range@.len() - i,
        {
            r.push(self.in_range[i]);
            i = i + 1;
        }
        assert(self.in_range@.subrange(0, self.in_range@.len() as int) == self.in_range@);
        if include_self {
            r.push(self.guid);
        }
        r
    }

    /// Whether the time-sync counter that the client reports is the expected one.
    pub fn time_sync_matches(&self, reported: u32) -> (r: bool)
        ensures
            r == (reported == self.time_sync_counter),
    {
        reported == self.time_sync_counter
    }

    /// The client names the unit it moves; only the character itself is expected, and the
    /// answer says whether it was.
    pub fn set_active_mover(&self, mover: u64) -> (r: bool)
        ensures
            r == (mover == self.guid),
    {
        mover == self.guid
    }

    /// Marks tutorial `index` as seen.
    pub fn set_tutorial_flag(&mut self, index: u32)
        requires
            index < 256,
        ensures
            final(self).tutorial_flags@ == old(self).tutorial_flags@.update(
                index as int / 32,
                old(self).tutorial_flags@[index as int / 32] | (1u32 << (index % 32)),
            ),
            final(self).same_but_place(old(self)),
            final(self).position == old(self).position,
            final(self).teleport == old(self).teleport,
    {
        let w = (index / 32) as usize;
        let bit: u32 = 1u32 << (index % 32);
        let v = self.tutorial_flags[w] | bit;
        self.tutorial_flags[w] = v;
    }

    /// Marks every tutorial as not seen.
    pub fn reset_tutorial_flags(&mut self)
        ensures
            final(self).tutorial_flags@ == seq![0u32; 8],
            final(self).same_but_place(old(self)),
            final(self).position == old(self).position,
            final(self).teleport == old(self).teleport,
    {
        self.tutorial_flags = [0u32; 8];
    }

    /// Whether tutorial `index` was seen.
    pub fn tutorial_flag(&self, index: u32) -> (r: bool)
        requires
            index < 256,
        ensures
            r == ((self.tutorial_flags@[index as int / 32] >> (index % 32)) & 1u32 == 1u32),
    {
        (self.tutorial_flags[(index / 32) as usize] >> (index % 32)) & 1u32 == 1u32
    }

    pub fn set_position(&mut self, p: Position)
        requires
            p.in_world(),
            old(self).wf(),
        ensures
            final(self).wf(),
            final(self).position == Some(p),
            final(self).guid == old(self).guid,
    {
        self.position = Some(p);
    }

    /// Hands out the object updates waiting for this character's client and empties the queue.
    pub fn take_pending_updates(&mut self) -> (r: Vec<UpdateBlock>)
        ensures
            r@ == old(self).pending_updates@,
            final(self).pending_updates@.len() == 0,
            final(self).guid == old(self).guid,
            final(self).in_range == old(self).in_range,
            final(self).position == old(self).position,
    {
        let mut out: Vec<UpdateBlock> = Vec::new();
        std::mem::swap(&mut out, &mut self.pending_updates);
        out
    }

    pub fn is_in_range(&self, guid: u64) -> (r: bool)
        ensures
            r == self.in_range@.contains(guid),
    {
        vec_contains(&self.in_range, guid)
    }
}

/// Whether `v` holds `x`.
pub fn vec_contains(v: &Vec<u64>, x: u64) -> (r: bool)
    ensures
        r == v@.contains(x),
{
    let mut i: usize = 0;
    while i < v.len()
        invariant
            i <= v@.len(),
            forall|j: int| 0 <= j < i ==> v@[j] != x,
        decreases v@.len() - i,
    {
        if v[i] == x {
            return true;
        }
        i = i + 1;
    }
    false
}

/// The live characters, by object id.
pub type CharacterManager = IdMap<Character>;

/// A character that should be in the store is not.
#[derive(Clone, Copy, Debug, PartialEq, Eq, Structural)]
pub struct CharacterNotFound {
    pub guid: u64,
}

impl IdMap<Character> {
    /// Stores `c` under its own id, replacing a character with the same id.
    pub fn add_character(&mut self, c: Character)
        requires
            old(self).wf(),
        ensures
            final(self).wf(),
            final(self)@ == old(self)@.insert(c.guid, c),
    {
        let g = c.guid;
        self.insert(g, c);
    }

    pub fn find_character(&self, guid: u64) -> (r: Option<&Character>)
        requires
            self.wf(),
        ensures
            match r {
                Some(c) => self@.contains_key(guid) && *c == self@[guid],
                None => !self@.contains_key(guid),
            },
    {
        self.get(guid)
    }

    pub fn get_character(&self, guid: u64) -> (r: Result<&Character, CharacterNotFound>)
        requires
            self.wf(),
        ensures
            match r {
                Ok(c) => self@.contains_key(guid) && *c == self@[guid],
                Err(e) => !self@.contains_key(guid) && e.guid == guid,
            },
    {
        match self.get(guid) {
            Some(c) => Ok(c),
            None => Err(CharacterNotFound { guid }),
        }
    }

    pub fn remove_character(&mut self, guid: u64)
        requires
            old(self).wf(),
        ensures
            final(self).wf(),
            final(self)@ == old(self)@.remove(guid),
    {
        let _ = self.remove(guid);
    }
}

/// Every character is well formed and stored under its own id.
pub open spec fn characters_wf(m: Map<u64, Character>) -> bool {
    forall|g: u64| #[trigger] m.contains_key(g) ==> m[g].wf() && m[g].guid == g
}

} // verus!
