use vstd::prelude::*;

verus! {

/// The container id of the character's own backpack.
pub const INVENTORY_SLOT_BAG_0: u8 = 255;

/// Equipment cells are slots `0..=EQUIPMENT_SLOTS_END`.
pub const EQUIPMENT_SLOTS_END: u8 = 18;

/// The sixteen backpack cells are slots `BACKPACK_START..=BACKPACK_END`.
pub const BACKPACK_START: u8 = 23;

pub const BACKPACK_END: u8 = 38;

/// An item instance that sits in an inventory cell.
#[derive(Clone, Copy, Debug, PartialEq, Eq, Structural)]
pub struct Item {
    pub object_guid: u64,
    pub entry: u32,
    pub owner: u64,
    pub container: u64,
    pub stack: u32,
    pub durability: u32,
    pub max_durability: u32,
}

/// The object id of the item in cell `slot` of character `character_id`: the character id
/// in the high 32 bits and the slot in the low ones.
pub open spec fn item_guid(character_id: u32, slot: u8) -> u64 {
    (character_id as int * 0x1_0000_0000 + slot as int) as u64
}

/// `((character_id as u64) << 32) | slot`.
pub fn item_guid_for(character_id: u32, slot: u8) -> (r: u64)
    ensures
        r == item_guid(character_id, slot),
{
    let c = character_id as u64;
    let s = slot as u64;
    let r = (c << 32u64) | s;
    assert(r == c * 0x1_0000_0000 + s) by (bit_vector)
        requires
            r == (c << 32u64) | s,
            c < 0x1_0000_0000,
            s < 256,
    ;
    r
}

/// Every item in `cells`, whose first cell is slot `first`, carries the object id of its cell.
pub open spec fn cells_carry_guids(cells: Seq<Option<Item>>, character_id: u32, first: int) -> bool {
    forall|i: int| 0 <= i < cells.len() && #[trigger] cells[i] is Some ==> cells[i]->Some_0.object_guid
        == item_guid(character_id, (first + i) as u8)
}

/// Why an inventory operation could not be done.
#[derive(Clone, Copy, Debug, PartialEq, Eq, Structural)]
pub enum InventoryError {
    NotAnInventorySlot,
    EmptySlot,
    NoCompatibleSlot,
    NotTheBackpack,
}

/// The equipment cells of a character, slots `0..=18`.
pub struct EquipmentInventory {
    items: Vec<Option<Item>>,
}

/// The backpack cells of a character, slots `23..=38`.
pub struct BagInventory {
    items: Vec<Option<Item>>,
}

fn empty_cells(n: usize) -> (r: Vec<Option<Item>>)
    ensures
        r@.len() == n,
        forall|i: int| 0 <= i < n ==> r@[i] is None,
{
    let mut r: Vec<Option<Item>> = Vec::new();
    let mut i: usize = 0;
    while i < n
        invariant
            i <= n,
            r@.len() == i,
            forall|j: int| 0 <= j < i ==> r@[j] is None,
        decreases n - i,
    {
        r.push(None);
        i = i + 1;
    }
    r
}

impl EquipmentInventory {
    pub closed spec fn cells(&self) -> Seq<Option<Item>> {
        self.items@
    }

    pub open spec fn wf(&self) -> bool {
        self.cells().len() == EQUIPMENT_SLOTS_END + 1
    }

    pub fn new() -> (r: Self)
        ensures
            r.wf(),
            forall|i: int| 0 <= i < r.cells().len() ==> r.cells()[i] is None,
    {
        EquipmentInventory { items: empty_cells((EQUIPMENT_SLOTS_END + 1) as usize) }
    }

    pub fn get_item(&self, slot: u8) -> (r: Option<Item>)
        requires
            self.wf(),
        ensures
            slot <= EQUIPMENT_SLOTS_END ==> r == self.cells()[slot as int],
            slot > EQUIPMENT_SLOTS_END ==> r is None,
    {
        if slot <= EQUIPMENT_SLOTS_END {
            self.items[slot as usize]
        } else {
            None
        }
    }

    /// Empties the cell and hands back what was in it.
    pub fn take_item(&mut self, slot: u8) -> (r: Option<Item>)
        requires
            old(self).wf(),
            slot <= EQUIPMENT_SLOTS_END,
        ensures
            final(self).wf(),
            r == old(self).cells()[slot as int],
            final(self).cells() == old(self).cells().update(slot as int, None),
    {
        let r = self.items[slot as usize];
        self.items.set(slot as usize, None);
        r
    }

    fn put(&mut self, slot: u8, item: Option<Item>)
        requires
            old(self).wf(),
            slot <= EQUIPMENT_SLOTS_END,
        ensures
            final(self).wf(),
            final(self).cells() == old(self).cells().update(slot as int, item),
    {
        self.items.set(slot as usize, item);
    }
}

impl BagInventory {
    pub closed spec fn cells(&self) -> Seq<Option<Item>> {
        self.items@
    }

    pub open spec fn wf(&self) -> bool {
        self.cells().len() == 16
    }

    pub fn new() -> (r: Self)
        ensures
            r.wf(),
            forall|i: int| 0 <= i < r.cells().len() ==> r.cells()[i] is None,
    {
        BagInventory { items: empty_cells(16) }
    }

    /// The cell index of a backpack slot.
    pub fn to_index(slot: u8) -> (r: usize)
        requires
            BACKPACK_START <= slot <= BACKPACK_END,
        ensures
            r == slot - BACKPACK_START,
            r < 16,
    {
        (slot - BACKPACK_START) as usize
    }

    pub fn get_item(&self, slot: u8) -> (r: Option<Item>)
        requires
            self.wf(),
        ensures
            BACKPACK_START <= slot <= BACKPACK_END ==> r == self.cells()[slot - BACKPACK_START],
            !(BACKPACK_START <= slot <= BACKPACK_END) ==> r is None,
    {
        if BACKPACK_START <= slot && slot <= BACKPACK_END {
            self.items[Self::to_index(slot)]
        } else {
            None
        }
    }

    /// Empties the cell and hands back what was in it.
    pub fn take_item(&mut self, slot: u8) -> (r: Option<Item>)
        requires
            old(self).wf(),
            BACKPACK_START <= slot <= BACKPACK_END,
        ensures
            final(self).wf(),
            r == old(self).cells()[slot - BACKPACK_START],
            final(self).cells() == old(self).cells().update(slot - BACKPACK_START, None),
    {
        let i = Self::to_index(slot);
        let r = self.items[i];
        self.items.set(i, None);
        r
    }

    fn put(&mut self, slot: u8, item: Option<Item>)
        requires
            old(self).wf(),
            BACKPACK_START <= slot <= BACKPACK_END,
        ensures
            final(self).wf(),
            final(self).cells() == old(self).cells().update(slot - BACKPACK_START, item),
    {
        self.items.set(Self::to_index(slot), item);
    }
}

/// The equipment and backpack of one character.
pub struct Inventory {
    pub equipped: EquipmentInventory,
    pub bag: BagInventory,
}

impl Inventory {
    pub open spec fn wf(&self) -> bool {
        self.equipped.wf() && self.bag.wf()
    }

    /// Every item carries the object id of the cell it is in.
    pub open spec fn guids_ok(&self, character_id: u32) -> bool {
        &&& cells_carry_guids(self.equipped.cells(), character_id, 0)
        &&& cells_carry_guids(self.bag.cells(), character_id, BACKPACK_START as int)
    }

    pub fn new() -> (r: Self)
        ensures
            r.wf(),
            forall|c: u32| r.guids_ok(c),
    {
        Inventory { equipped: EquipmentInventory::new(), bag: BagInventory::new() }
    }

    /// Puts `item` (or nothing) into the equipment or backpack cell `slot`, giving it the
    /// object id of that cell, and hands back what was there.
    pub fn set_item(&mut self, character_id: u32, slot: u8, item: Option<Item>) -> (r: Result<Option<Item>, InventoryError>)
        requires
            old(self).wf(),
            old(self).guids_ok(character_id),
        ensures
            final(self).wf(),
            final(self).guids_ok(character_id),
            slot <= EQUIPMENT_SLOTS_END ==> r == Ok::<Option<Item>, InventoryError>(old(self).equipped.cells()[slot as int])
                && final(self).equipped.cells() == old(self).equipped.cells().update(slot as int, match item {
                    Some(it) => Some(Item { object_guid: item_guid(character_id, slot), ..it }),
                    None => None,
                }) && final(self).bag.cells() == old(self).bag.cells(),
            BACKPACK_START <= slot <= BACKPACK_END ==> r == Ok::<Option<Item>, InventoryError>(old(self).bag.cells()[slot - BACKPACK_START])
                && final(self).bag.cells() == old(self).bag.cells().update(slot - BACKPACK_START, match item {
                    Some(it) => Some(Item { object_guid: item_guid(character_id, slot), ..it }),
                    None => None,
                }) && final(self).equipped.cells() == old(self).equipped.cells(),
            !(slot <= EQUIPMENT_SLOTS_END) && !(BACKPACK_START <= slot <= BACKPACK_END) ==> r == Err::<Option<Item>, InventoryError>(
                InventoryError::NotAnInventorySlot) && final(self).equipped.cells() == old(self).equipped.cells()
                && final(self).bag.cells() == old(self).bag.cells(),
    {
        let placed = match item {
            Some(it) => Some(Item { object_guid: item_guid_for(character_id, slot), ..it }),
            None => None,
        };
        if slot <= EQUIPMENT_SLOTS_END {
            let previous = self.equipped.take_item(slot);
            self.equipped.put(slot, placed);
            proof {
                let cells = self.equipped.cells();
                assert forall|i: int| 0 <= i < cells.len() && #[trigger] cells[i] is Some implies cells[i]->Some_0.object_guid
                    == item_guid(character_id, (0 + i) as u8) by {
                    if i != slot as int {
                        assert(old(self).equipped.cells()[i] == cells[i]);
                    }
                }
            }
            Ok(previous)
        } else if BACKPACK_START <= slot && slot <= BACKPACK_END {
            let previous = self.bag.take_item(slot);
            self.bag.put(slot, placed);
            proof {
                let cells = self.bag.cells();
                assert forall|i: int| 0 <= i < cells.len() && #[trigger] cells[i] is Some implies cells[i]->Some_0.object_guid
                    == item_guid(character_id, (BACKPACK_START + i) as u8) by {
                    if i != slot - BACKPACK_START {
                        assert(old(self).bag.cells()[i] == cells[i]);
                    }
                }
            }
            Ok(previous)
        } else {
            Err(InventoryError::NotAnInventorySlot)
        }
    }

    /// Puts `item` into the first empty cell among `possible_slots`, giving it that cell's
    /// object id, and hands back the slot.
    pub fn try_insert_item(&mut self, character_id: u32, item: Item, possible_slots: &Vec<u8>) -> (r: Result<u8, InventoryError>)
        requires
            old(self).wf(),
            old(self).guids_ok(character_id),
            forall|i: int| 0 <= i < possible_slots@.len() ==> #[trigger] possible_slots@[i] <= EQUIPMENT_SLOTS_END,
        ensures
            final(self).wf(),
            final(self).guids_ok(character_id),
            final(self).bag.cells() == old(self).bag.cells(),
            match r {
                Ok(slot) => exists|k: int| 0 <= k < possible_slots@.len() && possible_slots@[k] == slot
                    && (forall|j: int| 0 <= j < k ==> old(self).equipped.cells()[#[trigger] possible_slots@[j] as int] is Some)
                    && old(self).equipped.cells()[slot as int] is None && final(self).equipped.cells() == old(self).equipped.cells().update(
                    slot as int,
                    Some(Item { object_guid: item_guid(character_id, slot), ..item }),
                ),
                Err(e) => e == InventoryError::NoCompatibleSlot && final(self).equipped.cells() == old(self).equipped.cells()
                    && forall|j: int| 0 <= j < possible_slots@.len() ==> old(self).equipped.cells()[#[trigger] possible_slots@[j] as int] is Some,
            },
    {
        let mut k: usize = 0;
        while k < possible_slots.len()
            invariant
                k <= possible_slots@.len(),
                self.wf(),
                self.guids_ok(character_id),
                self.equipped.cells() == old(self).equipped.cells(),
                self.bag.cells() == old(self).bag.cells(),
                forall|i: int| 0 <= i < possible_slots@.len() ==> #[trigger] possible_slots@[i] <= EQUIPMENT_SLOTS_END,
                forall|j: int| 0 <= j < k ==> old(self).equipped.cells()[#[trigger] possible_slots@[j] as int] is Some,
            decreases possible_slots@.len() - k,
        {
            let slot = possible_slots[k];
            if self.equipped.get_item(slot).is_none() {
                let _ = self.set_item(character_id, slot, Some(item));
                return Ok(slot);
            }
            k = k + 1;
        }
        Err(InventoryError::NoCompatibleSlot)
    }

    /// The equipment cells in slot order.
    pub fn get_all_equipment(&self) -> (r: Vec<Option<Item>>)
        requires
            self.wf(),
        ensures
            r@ == self.equipped.cells(),
    {
        let mut r: Vec<Option<Item>> = Vec::new();
        let mut slot: u8 = 0;
        while slot <= EQUIPMENT_SLOTS_END
            invariant
                self.wf(),
                slot <= EQUIPMENT_SLOTS_END + 1,
                r@ == self.equipped.cells().subrange(0, slot as int),
            decreases EQUIPMENT_SLOTS_END + 1 - slot,
        {
            r.push(self.equipped.get_item(slot));
            slot = slot + 1;
        }
        assert(self.equipped.cells().subrange(0, self.equipped.cells().len() as int) == self.equipped.cells());
        r
    }

    /// Creates one of item `item_id` in the first empty backpack cell, if there is one, and
    /// hands back that cell's slot.
    pub fn try_add_item_to_backpack(&mut self, character_id: u32, item_id: u32) -> (r: Option<u8>)
        requires
            old(self).wf(),
            old(self).guids_ok(character_id),
        ensures
            final(self).wf(),
            final(self).guids_ok(character_id),
            final(self).equipped.cells() == old(self).equipped.cells(),
            match r {
                Some(slot) => BACKPACK_START <= slot <= BACKPACK_END
                    && old(self).bag.cells()[slot - BACKPACK_START] is None
                    && (forall|j: int| 0 <= j < slot - BACKPACK_START ==> old(self).bag.cells()[j] is Some)
                    && final(self).bag.cells() == old(self).bag.cells().update(slot - BACKPACK_START, Some(Item {
                        object_guid: item_guid(character_id, slot),
                        entry: item_id,
                        owner: character_id as u64,
                        container: character_id as u64,
                        stack: 1,
                        durability: 100,
                        max_durability: 100,
                    })),
                None => (forall|j: int| 0 <= j < 16 ==> old(self).bag.cells()[j] is Some) && final(self).bag.cells()
                    == old(self).bag.cells(),
            },
    {
        let mut slot: u8 = BACKPACK_START;
        while slot <= BACKPACK_END
            invariant
                BACKPACK_START <= slot <= BACKPACK_END + 1,
                self.wf(),
                self.equipped.cells() == old(self).equipped.cells(),
                self.bag.cells() == old(self).bag.cells(),
                self.guids_ok(character_id),
                forall|j: int| 0 <= j < slot - BACKPACK_START ==> old(self).bag.cells()[j] is Some,
            decreases BACKPACK_END + 1 - slot,
        {
            if self.bag.get_item(slot).is_none() {
                let item = Item {
                    object_guid: 0,
                    entry: item_id,
                    owner: character_id as u64,
                    container: character_id as u64,
                    stack: 1,
                    durability: 100,
                    max_durability: 100,
                };
                let _ = self.set_item(character_id, slot, Some(item));
                return Some(slot);
            }
            slot = slot + 1;
        }
        None
    }

    /// Moves the item in backpack cell `bag_slot` to the first empty cell among
    /// `possible_slots`, or to the first of them when none is empty, and hands back the
    /// item that was there.
    pub fn auto_equip_item_from_bag(&mut self, character_id: u32, bag_slot: u8, possible_slots: &Vec<u8>) -> (r: Result<
        Option<Item>,
        InventoryError,
    >)
        requires
            old(self).wf(),
            old(self).guids_ok(character_id),
            forall|i: int| 0 <= i < possible_slots@.len() ==> #[trigger] possible_slots@[i] <= EQUIPMENT_SLOTS_END,
        ensures
            final(self).wf(),
            final(self).guids_ok(character_id),
            r is Err ==> final(self).equipped.cells() == old(self).equipped.cells() && final(self).bag.cells() == old(self).bag.cells(),
            !(BACKPACK_START <= bag_slot <= BACKPACK_END) ==> r == Err::<Option<Item>, InventoryError>(InventoryError::NotAnInventorySlot),
            BACKPACK_START <= bag_slot <= BACKPACK_END && old(self).bag.cells()[bag_slot - BACKPACK_START] is None ==> r == Err::<
                Option<Item>,
                InventoryError,
            >(InventoryError::EmptySlot),
            BACKPACK_START <= bag_slot <= BACKPACK_END && old(self).bag.cells()[bag_slot - BACKPACK_START] is Some
                && possible_slots@.len() == 0 ==> r == Err::<Option<Item>, InventoryError>(InventoryError::NoCompatibleSlot),
            BACKPACK_START <= bag_slot <= BACKPACK_END && old(self).bag.cells()[bag_slot - BACKPACK_START] is Some
                && possible_slots@.len() > 0 ==> r is Ok && final(self).bag.cells()[bag_slot - BACKPACK_START] is None && exists|k: int|
                0 <= k < possible_slots@.len() && #[trigger] final(self).equipped.cells()[possible_slots@[k] as int] == Some(Item {
                    object_guid: item_guid(character_id, possible_slots@[k]),
                    ..old(self).bag.cells()[bag_slot - BACKPACK_START]->Some_0
                }) && r == Ok::<Option<Item>, InventoryError>(old(self).equipped.cells()[possible_slots@[k] as int])
                && final(self).equipped.cells() == old(self).equipped.cells().update(possible_slots@[k] as int, final(self).equipped.cells()[possible_slots@[k] as int])
                && (forall|j: int| 0 <= j < k ==> old(self).equipped.cells()[#[trigger] possible_slots@[j] as int] is Some)
                && (old(self).equipped.cells()[possible_slots@[k] as int] is None || (k == 0 && forall|j: int|
                    0 <= j < possible_slots@.len() ==> old(self).equipped.cells()[#[trigger] possible_slots@[j] as int] is Some)),
    {
        if !(BACKPACK_START <= bag_slot && bag_slot <= BACKPACK_END) {
            return Err(InventoryError::NotAnInventorySlot);
        }
        if self.bag.get_item(bag_slot).is_none() {
            return Err(InventoryError::EmptySlot);
        }
        if possible_slots.len() == 0 {
            return Err(InventoryError::NoCompatibleSlot);
        }
        let item = self.bag.take_item(bag_slot);
        proof {
            let cells = self.bag.cells();
            assert forall|i: int| 0 <= i < cells.len() && #[trigger] cells[i] is Some implies cells[i]->Some_0.object_guid
                == item_guid(character_id, (BACKPACK_START + i) as u8) by {
                assert(old(self).bag.cells()[i] == cells[i]);
            }
        }
        let ghost snapshot_eq = self.equipped.cells();
        let ghost snapshot_bag = self.bag.cells();
        let mut found: usize = 0;
        let mut k: usize = 0;
        let mut free = false;
        while k < possible_slots.len()
            invariant
                self.wf(),
                self.guids_ok(character_id),
                self.equipped.cells() == snapshot_eq,
                self.bag.cells() == snapshot_bag,
                k <= possible_slots@.len(),
                possible_slots@.len() > 0,
                forall|i: int| 0 <= i < possible_slots@.len() ==> #[trigger] possible_slots@[i] <= EQUIPMENT_SLOTS_END,
                forall|j: int| 0 <= j < k ==> snapshot_eq[#[trigger] possible_slots@[j] as int] is Some,
                !free ==> found == 0,
                free ==> found == k && k < possible_slots@.len() && snapshot_eq[possible_slots@[k as int] as int] is None,
            ensures
                free || k == possible_slots@.len(),
                !free ==> found == 0,
                free ==> found == k && k < possible_slots@.len() && snapshot_eq[possible_slots@[k as int] as int] is None,
                forall|j: int| 0 <= j < k ==> snapshot_eq[#[trigger] possible_slots@[j] as int] is Some,
                self.equipped.cells() == snapshot_eq,
                self.bag.cells() == snapshot_bag,
                self.wf(),
                self.guids_ok(character_id),
            decreases possible_slots@.len() - k,
        {
            if self.equipped.get_item(possible_slots[k]).is_none() {
                found = k;
                free = true;
                break;
            }
            k = k + 1;
        }
        proof {
            if !free {
                assert(k == possible_slots@.len());
            }
        }
        let target = possible_slots[found];
        let ghost eq_before = self.equipped.cells();
        let r = self.set_item(character_id, target, item);
        proof {
            assert(snapshot_eq == old(self).equipped.cells());
            assert(self.equipped.cells()[possible_slots@[found as int] as int] == Some(Item {
                object_guid: item_guid(character_id, possible_slots@[found as int]),
                ..old(self).bag.cells()[bag_slot - BACKPACK_START]->Some_0
            }));
            assert(eq_before == old(self).equipped.cells());
            assert(r == Ok::<Option<Item>, InventoryError>(old(self).equipped.cells()[possible_slots@[found as int] as int]));
            assert(forall|j: int| 0 <= j < found ==> old(self).equipped.cells()[#[trigger] possible_slots@[j] as int] is Some);
        }
        Ok(r.unwrap())
    }
}

} // verus!
