use vstd::prelude::*;

verus! {

/// Number of fields in the player object schema.
pub const PLAYER_FIELD_COUNT: usize = 1178;

/// One object update, as it is sent inside an update-object envelope.
#[derive(Clone, Debug, PartialEq, Eq)]
pub enum UpdateBlock {
    /// The full image of an object: its non-default fields, in schema order.
    Create { guid: u64, fields: Vec<(u16, u32)> },
    /// The changed fields of an object, in schema order.
    Values { guid: u64, fields: Vec<(u16, u32)> },
    /// The object left the observer's view.
    Destroy { guid: u64, target_died: bool },
    /// The objects that left the observer's view since the last such block.
    OutOfRange { guids: Vec<u64> },
}

/// The field values of an object together with the set of fields changed since
/// they were last sent.
pub struct UpdateMask {
    values: Vec<u32>,
    dirty: Vec<bool>,
}

/// `fields` lists, in strictly increasing index order, exactly the indices
/// `i < n` for which `pick(i)` holds, each with `val(i)`.
pub open spec fn lists_fields(fields: Seq<(u16, u32)>, n: int, pick: spec_fn(int) -> bool, val: spec_fn(int) -> u32) -> bool {
    &&& forall|k: int| 0 <= k < fields.len() ==> {
        &&& 0 <= #[trigger] fields[k].0 < n
        &&& pick(fields[k].0 as int)
        &&& fields[k].1 == val(fields[k].0 as int)
    }
    &&& forall|k: int, l: int| 0 <= k < l < fields.len() ==> fields[k].0 < fields[l].0
    &&& forall|i: int| 0 <= i < n && #[trigger] pick(i) ==> exists|k: int| 0 <= k < fields.len() && #[trigger] fields[k].0 == i
}

impl UpdateMask {
    pub closed spec fn wf(&self) -> bool {
        self.values@.len() == PLAYER_FIELD_COUNT && self.dirty@.len() == PLAYER_FIELD_COUNT
    }

    /// The value of field `i`.
    pub closed spec fn field(&self, i: int) -> u32 {
        self.values@[i]
    }

    /// Field `i` changed since it was last sent.
    pub closed spec fn is_dirty(&self, i: int) -> bool {
        self.dirty@[i]
    }

    pub open spec fn clean(&self) -> bool {
        forall|i: int| 0 <= i < PLAYER_FIELD_COUNT ==> !#[trigger] self.is_dirty(i)
    }

    /// A mask with every field zero and nothing changed.
    pub fn new() -> (r: Self)
        ensures
            r.wf(),
            r.clean(),
            forall|i: int| 0 <= i < PLAYER_FIELD_COUNT ==> #[trigger] r.field(i) == 0,
    {
        let mut values: Vec<u32> = Vec::new();
        let mut dirty: Vec<bool> = Vec::new();
        let mut i: usize = 0;
        while i < PLAYER_FIELD_COUNT
            invariant
                i <= PLAYER_FIELD_COUNT,
                values@.len() == i,
                dirty@.len() == i,
                forall|j: int| 0 <= j < i ==> values@[j] == 0 && !dirty@[j],
            decreases PLAYER_FIELD_COUNT - i,
        {
            values.push(0);
            dirty.push(false);
            i = i + 1;
        }
        UpdateMask { values, dirty }
    }

    pub fn get_field(&self, i: usize) -> (r: u32)
        requires
            self.wf(),
            i < PLAYER_FIELD_COUNT,
        ensures
            r == self.field(i as int),
    {
        self.values[i]
    }

    /// Sets field `i` and marks it changed.
    pub fn set_field(&mut self, i: usize, v: u32)
        requires
            old(self).wf(),
            i < PLAYER_FIELD_COUNT,
        ensures
            final(self).wf(),
            final(self).field(i as int) == v,
            final(self).is_dirty(i as int),
            forall|j: int| 0 <= j < PLAYER_FIELD_COUNT && j != i ==> final(self).field(j) == old(self).field(j)
                && final(self).is_dirty(j) == old(self).is_dirty(j),
    {
        self.values.set(i, v);
        self.dirty.set(i, true);
    }

    pub fn has_any_dirty_fields(&self) -> (r: bool)
        requires
            self.wf(),
        ensures
            r == !self.clean(),
    {
        let mut i: usize = 0;
        while i < PLAYER_FIELD_COUNT
            invariant
                self.wf(),
                i <= PLAYER_FIELD_COUNT,
                forall|j: int| 0 <= j < i ==> !self.is_dirty(j),
            decreases PLAYER_FIELD_COUNT - i,
        {
            if self.dirty[i] {
                assert(self.is_dirty(i as int));
                return true;
            }
            i = i + 1;
        }
        false
    }

    /// The changed fields with their values, in schema order.
    pub fn dirty_fields(&self) -> (r: Vec<(u16, u32)>)
        requires
            self.wf(),
        ensures
            lists_fields(r@, PLAYER_FIELD_COUNT as int, |i: int| self.is_dirty(i), |i: int| self.field(i)),
    {
        let mut r: Vec<(u16, u32)> = Vec::new();
        let mut i: usize = 0;
        while i < PLAYER_FIELD_COUNT
            invariant
                self.wf(),
                i <= PLAYER_FIELD_COUNT,
                lists_fields(r@, i as int, |i: int| self.is_dirty(i), |i: int| self.field(i)),
            decreases PLAYER_FIELD_COUNT - i,
        {
            let ghost r0 = r@;
            if self.dirty[i] {
                r.push((i as u16, self.values[i]));
                assert(r@[r0.len() as int].0 == i);
                assert(forall|k: int| 0 <= k < r0.len() ==> r@[k] == r0[k]);
            }
            i = i + 1;
        }
        r
    }

    /// The fields that differ from zero with their values, in schema order.
    pub fn nonzero_fields(&self) -> (r: Vec<(u16, u32)>)
        requires
            self.wf(),
        ensures
            lists_fields(r@, PLAYER_FIELD_COUNT as int, |i: int| self.field(i) != 0, |i: int| self.field(i)),
    {
        let mut r: Vec<(u16, u32)> = Vec::new();
        let mut i: usize = 0;
        while i < PLAYER_FIELD_COUNT
            invariant
                self.wf(),
                i <= PLAYER_FIELD_COUNT,
                lists_fields(r@, i as int, |i: int| self.field(i) != 0, |i: int| self.field(i)),
            decreases PLAYER_FIELD_COUNT - i,
        {
            let ghost r0 = r@;
            if self.values[i] != 0 {
                r.push((i as u16, self.values[i]));
                assert(r@[r0.len() as int].0 == i);
                assert(forall|k: int| 0 <= k < r0.len() ==> r@[k] == r0[k]);
            }
            i = i + 1;
        }
        r
    }

    /// Forgets which fields changed; the values stay.
    pub fn clear_dirty(&mut self)
        requires
            old(self).wf(),
        ensures
            final(self).wf(),
            final(self).clean(),
            forall|j: int| 0 <= j < PLAYER_FIELD_COUNT ==> #[trigger] final(self).field(j) == old(self).field(j),
    {
        let mut dirty: Vec<bool> = Vec::new();
        let mut i: usize = 0;
        while i < PLAYER_FIELD_COUNT
            invariant
                i <= PLAYER_FIELD_COUNT,
                dirty@.len() == i,
                forall|j: int| 0 <= j < i ==> !dirty@[j],
            decreases PLAYER_FIELD_COUNT - i,
        {
            dirty.push(false);
            i = i + 1;
        }
        self.dirty = dirty;
    }
}

/// The create block that shows `guid`, whose fields are `mask`, to an observer.
pub fn build_create_block(guid: u64, mask: &UpdateMask) -> (r: UpdateBlock)
    requires
        mask.wf(),
    ensures
        match r {
            UpdateBlock::Create { guid: g, fields } => g == guid && lists_fields(
                fields@,
                PLAYER_FIELD_COUNT as int,
                |i: int| mask.field(i) != 0,
                |i: int| mask.field(i),
            ),
            _ => false,
        },
{
    UpdateBlock::Create { guid, fields: mask.nonzero_fields() }
}

/// The values block of `guid`: its changed fields, in schema order.
pub fn build_values_block(guid: u64, mask: &UpdateMask) -> (r: UpdateBlock)
    requires
        mask.wf(),
    ensures
        match r {
            UpdateBlock::Values { guid: g, fields } => g == guid && lists_fields(
                fields@,
                PLAYER_FIELD_COUNT as int,
                |i: int| mask.is_dirty(i),
                |i: int| mask.field(i),
            ),
            _ => false,
        },
{
    UpdateBlock::Values { guid, fields: mask.dirty_fields() }
}

} // verus!
