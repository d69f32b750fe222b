use crate::character::{vec_contains, Character, CharacterManager, characters_wf};
use crate::spatial::{dist2, spatial_entries, SpatialIndex, within_distance, WORLD_LIMIT};
use crate::updates::{build_create_block, build_values_block, lists_fields, UpdateBlock, UpdateMask, PLAYER_FIELD_COUNT};
use vstd::prelude::*;

verus! {

/// Characters see each other up to this distance in the XY plane.
pub const VISIBILITY_RANGE: i64 = 5000;

/// The square of the visibility range.
pub const VISIBILITY_RANGE_SQUARED: i64 = 25000000;

/// The store is well formed and every character in it is.
pub open spec fn manager_wf(chars: &CharacterManager) -> bool {
    chars.wf() && characters_wf(chars@)
}

/// The parts of a character that a map tick never changes.
pub open spec fn frame(c0: Character, c1: Character) -> bool {
    &&& c1.guid == c0.guid
    &&& c1.name == c0.name
    &&& c1.map == c0.map
    &&& c1.instance_id == c0.instance_id
    &&& c1.position == c0.position
    &&& c1.teleport == c0.teleport
    &&& c1.logout == c0.logout
    &&& c1.time_sync_counter == c0.time_sync_counter
    &&& c1.tutorial_flags == c0.tutorial_flags
    &&& c1.inventory == c0.inventory
}

/// Only the queue of pending updates differs.
pub open spec fn only_queue_changed(c0: Character, c1: Character) -> bool {
    &&& frame(c0, c1)
    &&& c1.update_mask == c0.update_mask
    &&& c1.in_range == c0.in_range
    &&& c1.recently_removed == c0.recently_removed
}

pub open spec fn close_enough(p: crate::character::Position, q: crate::character::Position) -> bool {
    dist2(p.x as int, p.y as int, q.x as int, q.y as int) <= VISIBILITY_RANGE_SQUARED
}

/// `a` should see `b`: both are placed, `b` is on the map, and they are in range.
pub open spec fn visible(chars: Map<u64, Character>, on_map: Seq<u64>, a: u64, b: u64) -> bool {
    &&& a != b
    &&& on_map.contains(b)
    &&& chars.contains_key(a)
    &&& chars.contains_key(b)
    &&& chars[a].position.is_some()
    &&& chars[b].position.is_some()
    &&& close_enough(chars[a].position.unwrap(), chars[b].position.unwrap())
}

/// The interest set of `a` holds exactly the characters it should see.
pub open spec fn interest_exact(chars: Map<u64, Character>, on_map: Seq<u64>, a: u64) -> bool {
    forall|b: u64| #[trigger] chars[a].in_range@.contains(b) <==> visible(chars, on_map, a, b)
}

/// Nothing is left to send about `a`, and it sees what it should.
pub open spec fn settled_char(chars: Map<u64, Character>, on_map: Seq<u64>, a: u64) -> bool {
    &&& chars[a].update_mask.clean()
    &&& chars[a].recently_removed@.len() == 0
    &&& (chars[a].position.is_some() ==> interest_exact(chars, on_map, a))
}

/// `e` is the entry that the index should hold for the character `e.2`.
pub open spec fn index_entry(chars: Map<u64, Character>, on_map: Seq<u64>, e: (i64, i64, u64)) -> bool {
    &&& on_map.contains(e.2)
    &&& chars.contains_key(e.2)
    &&& chars[e.2].position.is_some()
    &&& chars[e.2].position.unwrap().x == e.0
    &&& chars[e.2].position.unwrap().y == e.1
}

/// `b` is the create block of `g`.
pub open spec fn is_create_of(b: UpdateBlock, g: u64) -> bool {
    b matches UpdateBlock::Create { guid, .. } && guid == g
}

/// The queue `q` holds a create block of `g`.
pub open spec fn has_create(q: Seq<UpdateBlock>, g: u64) -> bool {
    exists|i: int| 0 <= i < q.len() && #[trigger] is_create_of(q[i], g)
}

/// Every block of `q0` is still in `q1`.
pub open spec fn grows(q0: Seq<UpdateBlock>, q1: Seq<UpdateBlock>) -> bool {
    forall|x: UpdateBlock| #[trigger] q0.contains(x) ==> q1.contains(x)
}

/// `b` is the values block of `g` for the changed fields of `mask`.
pub open spec fn is_values_of(b: UpdateBlock, g: u64, mask: UpdateMask) -> bool {
    b matches UpdateBlock::Values { guid, fields } && guid == g && lists_fields(
        fields@,
        PLAYER_FIELD_COUNT as int,
        |i: int| mask.is_dirty(i),
        |i: int| mask.field(i),
    )
}

/// The queue `q` holds the values block of `g` for `mask`.
pub open spec fn has_values(q: Seq<UpdateBlock>, g: u64, mask: UpdateMask) -> bool {
    exists|i: int| 0 <= i < q.len() && #[trigger] is_values_of(q[i], g, mask)
}

proof fn lemma_has_values_grows(q0: Seq<UpdateBlock>, q1: Seq<UpdateBlock>, g: u64, mask: UpdateMask)
    requires
        grows(q0, q1),
        has_values(q0, g, mask),
    ensures
        has_values(q1, g, mask),
{
    let i = choose|i: int| 0 <= i < q0.len() && #[trigger] is_values_of(q0[i], g, mask);
    assert(q0.contains(q0[i]));
    let j = choose|j: int| 0 <= j < q1.len() && q1[j] == q0[i];
    assert(is_values_of(q1[j], g, mask));
}

/// The values block of `a` for `mask` is in its own queue and in the queue of everyone
/// who sees it.
pub open spec fn values_sent(chars: Map<u64, Character>, a: u64, mask: UpdateMask) -> bool {
    &&& has_values(chars[a].pending_updates@, a, mask)
    &&& forall|o: u64| #[trigger] chars[a].in_range@.contains(o) && chars.contains_key(o) ==> has_values(
        chars[o].pending_updates@,
        a,
        mask,
    )
}

proof fn lemma_values_sent_grows(c0: Map<u64, Character>, c1: Map<u64, Character>, a: u64, mask: UpdateMask)
    requires
        values_sent(c0, a, mask),
        c1.dom() == c0.dom(),
        c0.contains_key(a),
        c1[a].in_range == c0[a].in_range,
        forall|k: u64| #[trigger] c0.contains_key(k) ==> grows(c0[k].pending_updates@, c1[k].pending_updates@),
    ensures
        values_sent(c1, a, mask),
{
    lemma_has_values_grows(c0[a].pending_updates@, c1[a].pending_updates@, a, mask);
    assert forall|o: u64| #[trigger] c1[a].in_range@.contains(o) && c1.contains_key(o) implies has_values(c1[o].pending_updates@, a, mask) by {
        assert(c0[a].in_range@.contains(o));
        lemma_has_values_grows(c0[o].pending_updates@, c1[o].pending_updates@, a, mask);
    }
}

proof fn lemma_push_grows(q: Seq<UpdateBlock>, v: UpdateBlock)
    ensures
        grows(q, q.push(v)),
        q.push(v).contains(v),
{
    assert(q.push(v)[q.len() as int] == v);
    assert forall|x: UpdateBlock| #[trigger] q.contains(x) implies q.push(v).contains(x) by {
        let i = choose|i: int| 0 <= i < q.len() && q[i] == x;
        assert(q.push(v)[i] == x);
    }
}

proof fn lemma_has_create_grows(q0: Seq<UpdateBlock>, q1: Seq<UpdateBlock>, g: u64)
    requires
        grows(q0, q1),
        has_create(q0, g),
    ensures
        has_create(q1, g),
{
    let i = choose|i: int| 0 <= i < q0.len() && #[trigger] is_create_of(q0[i], g);
    assert(q0.contains(q0[i]));
    let j = choose|j: int| 0 <= j < q1.len() && q1[j] == q0[i];
    assert(is_create_of(q1[j], g));
}

proof fn lemma_dist2_symmetric(ax: int, ay: int, bx: int, by: int)
    ensures
        dist2(ax, ay, bx, by) == dist2(bx, by, ax, ay),
{
    assert((ax - bx) * (ax - bx) == (bx - ax) * (bx - ax)) by (nonlinear_arith);
    assert((ay - by) * (ay - by) == (by - ay) * (by - ay)) by (nonlinear_arith);
}

/// Appends `block` to the queue of `g`, if `g` is in the store.
fn push_update(chars: &mut CharacterManager, g: u64, block: UpdateBlock)
    requires
        manager_wf(old(chars)),
    ensures
        manager_wf(final(chars)),
        final(chars)@.dom() == old(chars)@.dom(),
        forall|k: u64| k != g && #[trigger] old(chars)@.contains_key(k) ==> final(chars)@[k] == old(chars)@[k],
        old(chars)@.contains_key(g) ==> only_queue_changed(old(chars)@[g], final(chars)@[g])
            && final(chars)@[g].pending_updates@ == old(chars)@[g].pending_updates@.push(block),
        forall|k: u64| #[trigger] old(chars)@.contains_key(k) ==> grows(old(chars)@[k].pending_updates@, final(chars)@[k].pending_updates@),
{
    proof {
        if old(chars)@.contains_key(g) {
            lemma_push_grows(old(chars)@[g].pending_updates@, block);
        }
    }
    if let Some(mut c) = chars.remove(g) {
        c.pending_updates.push(block);
        chars.insert(g, c);
        assert(final(chars)@.dom() =~= old(chars)@.dom());
    }
}

/// Positions and ids of two states of the store agree.
pub open spec fn same_places(c0: Map<u64, Character>, c1: Map<u64, Character>) -> bool {
    &&& c1.dom() == c0.dom()
    &&& forall|k: u64| #[trigger] c0.contains_key(k) ==> c1[k].position == c0[k].position
}

proof fn lemma_exact_preserved(c0: Map<u64, Character>, c1: Map<u64, Character>, on_map: Seq<u64>, k: u64)
    requires
        same_places(c0, c1),
        c0.contains_key(k),
        c1[k].in_range == c0[k].in_range,
        interest_exact(c0, on_map, k),
    ensures
        interest_exact(c1, on_map, k),
{
    assert forall|b: u64| #[trigger] c1[k].in_range@.contains(b) <==> visible(c1, on_map, k, b) by {
        assert(c0[k].in_range@.contains(b) <==> visible(c0, on_map, k, b));
        if c0.contains_key(b) {
            assert(c1[b].position == c0[b].position);
        }
    }
}

proof fn lemma_settled_preserved(c0: Map<u64, Character>, c1: Map<u64, Character>, on_map: Seq<u64>, k: u64)
    requires
        same_places(c0, c1),
        c0.contains_key(k),
        c0[k].position.is_some() ==> c1[k].in_range == c0[k].in_range,
        c1[k].update_mask == c0[k].update_mask,
        c1[k].recently_removed == c0[k].recently_removed,
        settled_char(c0, on_map, k),
    ensures
        settled_char(c1, on_map, k),
{
    if c1[k].position.is_some() {
        lemma_exact_preserved(c0, c1, on_map, k);
    }
}

/// `v` without `x`, in the same order.
fn vec_without(v: &Vec<u64>, x: u64) -> (r: Vec<u64>)
    ensures
        forall|y: u64| #[trigger] r@.contains(y) <==> v@.contains(y) && y != x,
        v@.no_duplicates() ==> r@.no_duplicates(),
        !v@.contains(x) ==> r@ == v@,
{
    let mut r: Vec<u64> = Vec::new();
    let mut i: usize = 0;
    while i < v.len()
        invariant
            i <= v@.len(),
            forall|y: u64| #[trigger] r@.contains(y) <==> v@.subrange(0, i as int).contains(y) && y != x,
            v@.no_duplicates() ==> r@.no_duplicates(),
            !v@.contains(x) ==> r@ == v@.subrange(0, i as int),
        decreases v@.len() - i,
    {
        let ghost r0 = r@;
        let ghost sub0 = v@.subrange(0, i as int);
        let ghost sub1 = v@.subrange(0, i + 1);
        assert(sub1 == sub0.push(v@[i as int]));
        if v[i] != x {
            proof {
                if v@.no_duplicates() {
                    assert(!sub0.contains(v@[i as int])) by {
                        if sub0.contains(v@[i as int]) {
                            let j = choose|j: int| 0 <= j < i && sub0[j] == v@[i as int];
                            assert(v@[j] == v@[i as int]);
                        }
                    }
                }
            }
            r.push(v[i]);
            assert(r@ == r0.push(v@[i as int]));
            proof {
                assert forall|y: u64| #[trigger] r@.contains(y) <==> sub1.contains(y) && y != x by {
                    if r@.contains(y) {
                        let j = choose|j: int| 0 <= j < r@.len() && r@[j] == y;
                        if j < r0.len() {
                            assert(r0[j] == y);
                            assert(r0.contains(y));
                            let m = choose|m: int| 0 <= m < i && sub0[m] == y;
                            assert(sub1[m] == y);
                        } else {
                            assert(sub1[i as int] == y);
                        }
                    }
                    if sub1.contains(y) && y != x {
                        let m = choose|m: int| 0 <= m < i + 1 && sub1[m] == y;
                        if m < i {
                            assert(sub0[m] == y);
                            assert(r0.contains(y));
                            let j = choose|j: int| 0 <= j < r0.len() && r0[j] == y;
                            assert(r@[j] == y);
                        } else {
                            assert(r@[r0.len() as int] == y);
                        }
                    }
                }
                if v@.no_duplicates() {
                    assert(!r0.contains(v@[i as int]));
                }
            }
        } else {
            assert(v@.contains(x));
            proof {
                assert forall|y: u64| #[trigger] r@.contains(y) <==> sub1.contains(y) && y != x by {
                    if sub1.contains(y) && y != x {
                        let m = choose|m: int| 0 <= m < i + 1 && sub1[m] == y;
                        assert(m < i);
                        assert(sub0[m] == y);
                    }
                    if r@.contains(y) {
                        let m = choose|m: int| 0 <= m < i && sub0[m] == y;
                        assert(sub1[m] == y);
                    }
                }
            }
        }
        i = i + 1;
    }
    assert(v@.subrange(0, v@.len() as int) == v@);
    r
}

/// Appends the values block of `a` to its own queue and to the queue of everyone
/// who sees it, then forgets which fields changed.
fn flush_values(chars: &mut CharacterManager, a: u64)
    requires
        manager_wf(old(chars)),
    ensures
        manager_wf(final(chars)),
        same_places(old(chars)@, final(chars)@),
        forall|k: u64| k != a && #[trigger] old(chars)@.contains_key(k) ==> only_queue_changed(old(chars)@[k], final(chars)@[k]),
        old(chars)@.contains_key(a) ==> frame(old(chars)@[a], final(chars)@[a]) && final(chars)@[a].in_range
            == old(chars)@[a].in_range && final(chars)@[a].recently_removed == old(chars)@[a].recently_removed
            && final(chars)@[a].update_mask.clean(),
        old(chars)@.contains_key(a) && old(chars)@[a].update_mask.clean() ==> final(chars)@ == old(chars)@,
        forall|k: u64| #[trigger] old(chars)@.contains_key(k) ==> grows(old(chars)@[k].pending_updates@, final(chars)@[k].pending_updates@),
        old(chars)@.contains_key(a) && !old(chars)@[a].update_mask.clean() ==> has_values(
            final(chars)@[a].pending_updates@,
            a,
            old(chars)@[a].update_mask,
        ) && forall|o: u64| #[trigger] old(chars)@[a].in_range@.contains(o) && old(chars)@.contains_key(o) ==> has_values(
            final(chars)@[o].pending_updates@,
            a,
            old(chars)@[a].update_mask,
        ),
{
    let ghost c0 = chars@;
    let mut ca = match chars.remove(a) {
        Some(c) => c,
        None => {
            proof { assert(chars@ =~= c0); }
            return;
        },
    };
    if !ca.update_mask.has_any_dirty_fields() {
        chars.insert(a, ca);
        proof { assert(chars@ =~= c0); }
        return;
    }
    let ghost mask0 = ca.update_mask;
    let ghost q0 = ca.pending_updates@;
    let own_block = build_values_block(a, &ca.update_mask);
    ca.pending_updates.push(own_block);
    proof {
        lemma_push_grows(q0, own_block);
        assert(is_values_of(ca.pending_updates@[q0.len() as int], a, mask0));
    }
    let mut i: usize = 0;
    while i < ca.in_range.len()
        invariant
            ca.update_mask == mask0,
            mask0 == c0[a].update_mask,
            has_values(ca.pending_updates@, a, mask0),
            grows(c0[a].pending_updates@, ca.pending_updates@),
            forall|k: u64| #[trigger] chars@.contains_key(k) ==> grows(c0[k].pending_updates@, chars@[k].pending_updates@),
            forall|j: int| 0 <= j < i && #[trigger] chars@.contains_key(ca.in_range@[j]) ==> has_values(
                chars@[ca.in_range@[j]].pending_updates@,
                a,
                mask0,
            ),
            ca.wf(),
            frame(c0[a], ca),
            ca.in_range == c0[a].in_range,
            ca.recently_removed == c0[a].recently_removed,
            c0.contains_key(a),
            c0[a].wf(),
            c0[a].guid == a,
            i <= ca.in_range@.len(),
            manager_wf(chars),
            chars@.dom() == c0.remove(a).dom(),
            forall|k: u64| #[trigger] chars@.contains_key(k) ==> only_queue_changed(c0[k], chars@[k]),
        decreases ca.in_range@.len() - i,
    {
        let o = ca.in_range[i];
        let ghost before = chars@;
        let block = build_values_block(a, &ca.update_mask);
        push_update(chars, o, block);
        proof {
            if before.contains_key(o) {
                assert(is_values_of(chars@[o].pending_updates@[before[o].pending_updates@.len() as int], a, mask0));
            }
            assert forall|j: int| 0 <= j < i + 1 && #[trigger] chars@.contains_key(ca.in_range@[j]) implies has_values(
                chars@[ca.in_range@[j]].pending_updates@,
                a,
                mask0,
            ) by {
                if j < i && ca.in_range@[j] != o {
                    lemma_has_values_grows(before[ca.in_range@[j]].pending_updates@, chars@[ca.in_range@[j]].pending_updates@, a, mask0);
                }
            }
        }
        i = i + 1;
    }
    ca.update_mask.clear_dirty();
    chars.insert(a, ca);
    proof {
        assert(chars@.dom() =~= c0.dom());
        assert forall|o: u64| #[trigger] c0[a].in_range@.contains(o) && c0.contains_key(o) implies has_values(
            chars@[o].pending_updates@,
            a,
            mask0,
        ) by {
            if o != a {
                let j = choose|j: int| 0 <= j < c0[a].in_range@.len() && c0[a].in_range@[j] == o;
                assert(ca.in_range@[j] == o);
            }
        }
    }
}

/// Appends one out-of-range block listing the characters that recently left the view
/// of `a`, and empties that list.
fn flush_out_of_range(chars: &mut CharacterManager, a: u64)
    requires
        manager_wf(old(chars)),
    ensures
        manager_wf(final(chars)),
        same_places(old(chars)@, final(chars)@),
        forall|k: u64| k != a && #[trigger] old(chars)@.contains_key(k) ==> final(chars)@[k] == old(chars)@[k],
        old(chars)@.contains_key(a) ==> frame(old(chars)@[a], final(chars)@[a]) && final(chars)@[a].in_range
            == old(chars)@[a].in_range && final(chars)@[a].update_mask == old(chars)@[a].update_mask
            && final(chars)@[a].recently_removed@.len() == 0,
        old(chars)@.contains_key(a) && old(chars)@[a].recently_removed@.len() == 0 ==> final(chars)@ == old(chars)@,
        old(chars)@.contains_key(a) && old(chars)@[a].recently_removed@.len() > 0 ==> final(chars)@[a].pending_updates@
            == old(chars)@[a].pending_updates@.push(UpdateBlock::OutOfRange { guids: old(chars)@[a].recently_removed }),
        forall|k: u64| #[trigger] old(chars)@.contains_key(k) ==> grows(old(chars)@[k].pending_updates@, final(chars)@[k].pending_updates@),
{
    let ghost c0 = chars@;
    let mut ca = match chars.remove(a) {
        Some(c) => c,
        None => {
            proof { assert(chars@ =~= c0); }
            return;
        },
    };
    if ca.recently_removed.len() == 0 {
        chars.insert(a, ca);
        proof { assert(chars@ =~= c0); }
        return;
    }
    let mut guids: Vec<u64> = Vec::new();
    std::mem::swap(&mut guids, &mut ca.recently_removed);
    let ghost q0 = ca.pending_updates@;
    let ghost blk = UpdateBlock::OutOfRange { guids };
    ca.pending_updates.push(UpdateBlock::OutOfRange { guids });
    proof { lemma_push_grows(q0, blk); }
    chars.insert(a, ca);
    proof { assert(chars@.dom() =~= c0.dom()); }
}

/// Drops `g` from the interest set of `o`, with a destroy block for `o` when asked.
fn drop_from_interest(chars: &mut CharacterManager, o: u64, g: u64, destroy: bool)
    requires
        manager_wf(old(chars)),
    ensures
        manager_wf(final(chars)),
        same_places(old(chars)@, final(chars)@),
        forall|k: u64| k != o && #[trigger] old(chars)@.contains_key(k) ==> final(chars)@[k] == old(chars)@[k],
        old(chars)@.contains_key(o) ==> frame(old(chars)@[o], final(chars)@[o]) && final(chars)@[o].update_mask
            == old(chars)@[o].update_mask && final(chars)@[o].recently_removed == old(chars)@[o].recently_removed
            && !final(chars)@[o].in_range@.contains(g),
        forall|k: u64| #[trigger] old(chars)@.contains_key(k) ==> grows(old(chars)@[k].pending_updates@, final(chars)@[k].pending_updates@),
        destroy && old(chars)@.contains_key(o) ==> final(chars)@[o].pending_updates@.contains(UpdateBlock::Destroy { guid: g, target_died: false }),
        interest_shrinks(old(chars)@, final(chars)@),
        forall|y: u64| y != g && old(chars)@.contains_key(o) && #[trigger] old(chars)@[o].in_range@.contains(y)
            ==> final(chars)@[o].in_range@.contains(y),
{
    let ghost c0 = chars@;
    if let Some(mut co) = chars.remove(o) {
        if destroy {
            let ghost q0 = co.pending_updates@;
            co.pending_updates.push(UpdateBlock::Destroy { guid: g, target_died: false });
            proof { lemma_push_grows(q0, UpdateBlock::Destroy { guid: g, target_died: false }); }
        }
        co.in_range = vec_without(&co.in_range, g);
        chars.insert(o, co);
        proof { assert(chars@.dom() =~= c0.dom()); }
    } else {
        proof { assert(chars@ =~= c0); }
    }
}

/// No interest set gained a member.
pub open spec fn interest_shrinks(c0: Map<u64, Character>, c1: Map<u64, Character>) -> bool {
    forall|k: u64, y: u64| #[trigger] c0.contains_key(k) && #[trigger] c1[k].in_range@.contains(y) ==> c0[k].in_range@.contains(y)
}

/// The characters' fixed parts, masks and recent removals are as before.
pub open spec fn keeps_masks(c0: Map<u64, Character>, c1: Map<u64, Character>) -> bool {
    &&& same_places(c0, c1)
    &&& forall|k: u64| #[trigger] c0.contains_key(k) ==> frame(c0[k], c1[k]) && c1[k].update_mask == c0[k].update_mask
        && c1[k].recently_removed == c0[k].recently_removed
}

/// What a tick of map `m0` over characters `c0` leaves behind in `m1` and `c1`: nothing
/// queued, every character on the map settled, and when everything was settled already,
/// no new update block anywhere.
pub open spec fn ticked(m0: MapManager, c0: Map<u64, Character>, m1: MapManager, c1: Map<u64, Character>) -> bool {
    &&& m1.settled(c1)
    &&& m1.index_matches(c1)
    &&& c1.dom() == c0.dom()
    &&& m0.settled(c0) ==> forall|k: u64| #[trigger] c0.contains_key(k) ==> c1[k].pending_updates@ == c0[k].pending_updates@
}

/// A tick that directly follows another tick adds no update block to any queue: once the
/// out-of-range and values blocks of a tick are out, an idle tick sends nothing.
pub proof fn lemma_idle_tick_sends_nothing(
    m0: MapManager,
    c0: Map<u64, Character>,
    m1: MapManager,
    c1: Map<u64, Character>,
    m2: MapManager,
    c2: Map<u64, Character>,
)
    requires
        ticked(m0, c0, m1, c1),
        ticked(m1, c1, m2, c2),
    ensures
        forall|k: u64| #[trigger] c1.contains_key(k) ==> c2[k].pending_updates@ == c1[k].pending_updates@,
{
}

/// Two characters on a map that both see exactly what they should see each other
/// or neither sees the other.
pub proof fn lemma_interest_symmetric(chars: Map<u64, Character>, on_map: Seq<u64>, a: u64, b: u64)
    requires
        on_map.contains(a),
        on_map.contains(b),
        chars.contains_key(a),
        chars.contains_key(b),
        settled_char(chars, on_map, a),
        settled_char(chars, on_map, b),
        chars[a].position.is_some(),
        chars[b].position.is_some(),
    ensures
        chars[a].in_range@.contains(b) <==> chars[b].in_range@.contains(a),
        close_enough(chars[a].position.unwrap(), chars[b].position.unwrap()) && a != b ==> chars[a].in_range@.contains(b),
{
    let pa = chars[a].position.unwrap();
    let pb = chars[b].position.unwrap();
    lemma_dist2_symmetric(pa.x as int, pa.y as int, pb.x as int, pb.y as int);
    assert(chars[a].in_range@.contains(b) <==> visible(chars, on_map, a, b));
    assert(chars[b].in_range@.contains(a) <==> visible(chars, on_map, b, a));
}

/// A map of the world: the characters on it, the index used to find neighbours,
/// and the characters waiting to join or to leave.
pub struct MapManager {
    id: u32,
    characters_on_map: Vec<u64>,
    index: SpatialIndex,
    add_queue: Vec<u64>,
    remove_queue: Vec<u64>,
}

impl MapManager {
    pub closed spec fn map_id(&self) -> u32 {
        self.id
    }

    pub fn id(&self) -> (r: u32)
        ensures
            r == self.map_id(),
    {
        self.id
    }

    pub closed spec fn on_map(&self) -> Seq<u64> {
        self.characters_on_map@
    }

    pub closed spec fn index_entries(&self) -> Set<(i64, i64, u64)> {
        spatial_entries(self.index)
    }

    pub closed spec fn add_queue(&self) -> Seq<u64> {
        self.add_queue@
    }

    pub closed spec fn remove_queue(&self) -> Seq<u64> {
        self.remove_queue@
    }

    pub closed spec fn wf(&self) -> bool {
        self.characters_on_map@.no_duplicates()
    }

    /// The index holds exactly one entry for each placed character on the map, at its position.
    pub open spec fn index_matches(&self, chars: Map<u64, Character>) -> bool {
        forall|e: (i64, i64, u64)| #[trigger] self.index_entries().contains(e) <==> index_entry(chars, self.on_map(), e)
    }

    /// Nothing is queued, and every character on the map is settled.
    pub open spec fn settled(&self, chars: Map<u64, Character>) -> bool {
        &&& self.add_queue().len() == 0
        &&& self.remove_queue().len() == 0
        &&& forall|a: u64| #[trigger] self.on_map().contains(a) && chars.contains_key(a) ==> settled_char(chars, self.on_map(), a)
    }

    /// An empty map.
    pub fn new(id: u32) -> (r: Self)
        ensures
            r.wf(),
            r.map_id() == id,
            r.on_map().len() == 0,
            r.add_queue().len() == 0,
            r.remove_queue().len() == 0,
            r.index_entries() == Set::<(i64, i64, u64)>::empty(),
    {
        let items: Vec<(i64, i64, u64)> = Vec::new();
        let index = SpatialIndex::bulk_load(items);
        proof { assert(items@.to_set() =~= Set::<(i64, i64, u64)>::empty()); }
        MapManager { id, characters_on_map: Vec::new(), index, add_queue: Vec::new(), remove_queue: Vec::new() }
    }

    /// A map with nobody on it may be shut down.
    pub fn should_shutdown(&self) -> (r: bool)
        ensures
            r == (self.on_map().len() == 0),
    {
        self.characters_on_map.len() == 0
    }

    /// How many characters wait to join the map.
    pub fn arrivals(&self) -> (r: usize)
        ensures
            r == self.add_queue().len(),
    {
        self.add_queue.len()
    }

    pub fn find_character(&self, guid: u64) -> (r: bool)
        ensures
            r == self.on_map().contains(guid),
    {
        vec_contains(&self.characters_on_map, guid)
    }

    /// Brings the interest set of `a` up to date with the index: characters that left
    /// its range are dropped with a destroy block, characters that entered it are
    /// added on both sides with a create block for each.
    fn update_interest(&self, chars: &mut CharacterManager, a: u64)
        requires
            manager_wf(old(chars)),
            self.index_matches(old(chars)@),
            old(chars)@.contains_key(a),
            old(chars)@[a].position.is_some(),
            self.on_map().contains(a),
        ensures
            manager_wf(final(chars)),
            final(chars)@.dom() == old(chars)@.dom(),
            forall|k: u64| #[trigger] old(chars)@.contains_key(k) ==> frame(old(chars)@[k], final(chars)@[k])
                && final(chars)@[k].update_mask == old(chars)@[k].update_mask,
            forall|k: u64| k != a && #[trigger] old(chars)@.contains_key(k) ==> final(chars)@[k].recently_removed
                == old(chars)@[k].recently_removed,
            forall|k: u64| k != a && #[trigger] old(chars)@.contains_key(k) && old(chars)@[k].position.is_some()
                && interest_exact(old(chars)@, self.on_map(), k) ==> final(chars)@[k].in_range == old(chars)@[k].in_range,
            forall|k: u64| k != a && #[trigger] old(chars)@.contains_key(k) && !self.on_map().contains(k)
                ==> final(chars)@[k].in_range == old(chars)@[k].in_range,
            forall|k: u64| k != a && #[trigger] old(chars)@.contains_key(k) && old(chars)@[k].position is None
                ==> final(chars)@[k].in_range == old(chars)@[k].in_range,
            forall|k: u64, y: u64| k != a && #[trigger] old(chars)@.contains_key(k) && #[trigger] final(chars)@[k].in_range@.contains(y)
                ==> old(chars)@[k].in_range@.contains(y) || y == a,
            forall|k: u64, y: u64| k != a && #[trigger] old(chars)@.contains_key(k) && #[trigger] old(chars)@[k].in_range@.contains(y)
                ==> final(chars)@[k].in_range@.contains(y),
            interest_exact(final(chars)@, self.on_map(), a),
            interest_exact(old(chars)@, self.on_map(), a) ==> final(chars)@[a].recently_removed
                == old(chars)@[a].recently_removed && forall|k: u64| #[trigger] old(chars)@.contains_key(k)
                ==> final(chars)@[k].pending_updates@ == old(chars)@[k].pending_updates@,
            forall|k: u64| #[trigger] old(chars)@.contains_key(k) ==> grows(old(chars)@[k].pending_updates@, final(chars)@[k].pending_updates@),
            forall|b: u64| #[trigger] visible(old(chars)@, self.on_map(), a, b) && !old(chars)@[a].in_range@.contains(b)
                ==> has_create(final(chars)@[a].pending_updates@, b) && has_create(final(chars)@[b].pending_updates@, a),
            forall|b: u64| #[trigger] old(chars)@[a].in_range@.contains(b) && !visible(old(chars)@, self.on_map(), a, b)
                ==> final(chars)@[a].pending_updates@.contains(UpdateBlock::Destroy { guid: b, target_died: false }),
    {
        let ghost c0 = chars@;
        let ghost on_map = self.on_map();
        let mut ca = match chars.remove(a) {
            Some(c) => c,
            None => { return; },
        };
        let pa = match ca.position {
            Some(p) => p,
            None => { chars.insert(a, ca); return; },
        };
        proof {
            assert forall|e: (i64, i64, u64)| #[trigger] spatial_entries(self.index).contains(e) implies crate::spatial::in_world(e.0 as int, e.1 as int) by {
                assert(self.index_entries().contains(e));
                assert(c0[e.2].wf());
            }
        }
        let w = self.index.locate_within_distance(pa.x, pa.y, VISIBILITY_RANGE_SQUARED);
        proof {
            assert forall|b: u64| #[trigger] w@.contains(b) <==> (on_map.contains(b) && c0.contains_key(b) && c0[b].position.is_some()
                && close_enough(c0[a].position.unwrap(), c0[b].position.unwrap())) by {
                if w@.contains(b) {
                    let (ex, ey) = choose|ex: i64, ey: i64| #[trigger] spatial_entries(self.index).contains((ex, ey, b))
                        && dist2(ex as int, ey as int, pa.x as int, pa.y as int) <= VISIBILITY_RANGE_SQUARED;
                    assert(self.index_entries().contains((ex, ey, b)));
                    lemma_dist2_symmetric(ex as int, ey as int, pa.x as int, pa.y as int);
                }
                if on_map.contains(b) && c0.contains_key(b) && c0[b].position.is_some()
                    && close_enough(c0[a].position.unwrap(), c0[b].position.unwrap()) {
                    let pb = c0[b].position.unwrap();
                    assert(index_entry(c0, on_map, (pb.x, pb.y, b)));
                    assert(self.index_entries().contains((pb.x, pb.y, b)));
                    lemma_dist2_symmetric(pb.x as int, pb.y as int, pa.x as int, pa.y as int);
                }
            }
        }
        let ghost ca0 = ca;
        let mut kept: Vec<u64> = Vec::new();
        let mut i: usize = 0;
        while i < ca.in_range.len()
            invariant
                ca.wf(),
                frame(ca0, ca),
                ca.update_mask == ca0.update_mask,
                ca.in_range == ca0.in_range,
                ca.position == Some(pa),
                i <= ca.in_range@.len(),
                forall|b: u64| #[trigger] w@.contains(b) <==> (on_map.contains(b) && c0.contains_key(b) && c0[b].position.is_some()
                    && close_enough(c0[a].position.unwrap(), c0[b].position.unwrap())),
                c0.contains_key(a),
                c0[a].position == Some(pa),
                on_map == self.on_map(),
                on_map.contains(a),
                ca0 == c0[a],
                manager_wf(chars),
                chars@ == c0.remove(a),
                kept@.no_duplicates(),
                forall|x: u64| #[trigger] kept@.contains(x) ==> visible(c0, on_map, a, x),
                forall|j: int| 0 <= j < i && visible(c0, on_map, a, #[trigger] ca.in_range@[j]) ==> kept@.contains(ca.in_range@[j]),
                forall|x: u64| #[trigger] kept@.contains(x) ==> ca.in_range@.subrange(0, i as int).contains(x),
                interest_exact(c0, on_map, a) ==> kept@ == ca.in_range@.subrange(0, i as int)
                    && ca.pending_updates@ == ca0.pending_updates@ && ca.recently_removed == ca0.recently_removed,
                grows(ca0.pending_updates@, ca.pending_updates@),
                forall|x: u64| #[trigger] kept@.contains(x) ==> ca0.in_range@.contains(x),
                forall|j: int| 0 <= j < i && !visible(c0, on_map, a, #[trigger] ca.in_range@[j]) ==> ca.pending_updates@.contains(
                    UpdateBlock::Destroy { guid: ca.in_range@[j], target_died: false },
                ),
            decreases ca.in_range@.len() - i,
        {
            let b = ca.in_range[i];
            if b != a && vec_contains(&w, b) && chars.contains(b) {
                proof {
                    assert(visible(c0, on_map, a, b));
                    assert(!kept@.contains(b)) by {
                        if kept@.contains(b) {
                            let j = choose|j: int| 0 <= j < i && ca.in_range@.subrange(0, i as int)[j] == b;
                            assert(ca.in_range@[j] == ca.in_range@[i as int]);
                        }
                    }
                }
                let ghost k0 = kept@;
                kept.push(b);
                proof {
                    assert(ca0.in_range@[i as int] == b);
                    assert forall|x: u64| #[trigger] kept@.contains(x) implies ca0.in_range@.contains(x) by {
                        let q = choose|q: int| 0 <= q < kept@.len() && kept@[q] == x;
                        if q < kept@.len() - 1 {
                            assert(k0[q] == x);
                            assert(k0.contains(x));
                        }
                    }
                    assert forall|x: u64| #[trigger] kept@.contains(x) implies ca.in_range@.subrange(0, i + 1).contains(x) by {
                        let j = choose|j: int| 0 <= j < kept@.len() && kept@[j] == x;
                        if j < kept@.len() - 1 {
                            assert(k0[j] == x);
                            assert(k0.contains(x));
                            let m = choose|m: int| 0 <= m < i && ca.in_range@.subrange(0, i as int)[m] == x;
                            assert(ca.in_range@.subrange(0, i + 1)[m] == x);
                        } else {
                            assert(ca.in_range@.subrange(0, i + 1)[i as int] == x);
                        }
                    }
                    assert(ca.in_range@.subrange(0, i + 1) == ca.in_range@.subrange(0, i as int).push(b));
                    assert forall|x: u64| #[trigger] kept@.contains(x) implies visible(c0, on_map, a, x) by {
                        let q = choose|q: int| 0 <= q < kept@.len() && kept@[q] == x;
                        if q < kept@.len() - 1 {
                            assert(k0[q] == x);
                            assert(k0.contains(x));
                        } else {
                            assert(kept@[q] == b);
                            assert(w@.contains(b));
                        }
                    }
                    assert forall|m: int| 0 <= m < i + 1 && visible(c0, on_map, a, #[trigger] ca.in_range@[m]) implies kept@.contains(ca.in_range@[m]) by {
                        if m < i {
                            let q = choose|q: int| 0 <= q < k0.len() && k0[q] == ca.in_range@[m];
                            assert(kept@[q] == ca.in_range@[m]);
                        } else {
                            assert(kept@[k0.len() as int] == b);
                        }
                    }
                }
            } else {
                proof {
                    if interest_exact(c0, on_map, a) {
                        assert(c0[a].in_range@.contains(b));
                        assert(false);
                    }
                }
                let ghost q0 = ca.pending_updates@;
                ca.pending_updates.push(UpdateBlock::Destroy { guid: b, target_died: false });
                proof { lemma_push_grows(q0, UpdateBlock::Destroy { guid: b, target_died: false }); }
                ca.recently_removed.push(b);
                proof {
                    assert forall|x: u64| #[trigger] kept@.contains(x) implies ca.in_range@.subrange(0, i + 1).contains(x) by {
                        let m = choose|m: int| 0 <= m < i && ca.in_range@.subrange(0, i as int)[m] == x;
                        assert(ca.in_range@.subrange(0, i + 1)[m] == x);
                    }
                }
            }
            i = i + 1;
        }
        proof {
            assert(ca.in_range@.subrange(0, ca.in_range@.len() as int) == ca.in_range@);
            assert forall|x: u64| #[trigger] ca0.in_range@.contains(x) && !visible(c0, on_map, a, x) implies ca.pending_updates@.contains(
                UpdateBlock::Destroy { guid: x, target_died: false },
            ) by {
                let jj = choose|jj: int| 0 <= jj < ca0.in_range@.len() && ca0.in_range@[jj] == x;
                assert(ca.in_range@[jj] == x);
            }
        }
        let mut j: usize = 0;
        while j < w.len()
            invariant
                ca.wf(),
                frame(ca0, ca),
                ca.update_mask == ca0.update_mask,
                ca.in_range == ca0.in_range,
                ca.position == Some(pa),
                j <= w@.len(),
                forall|b: u64| #[trigger] w@.contains(b) <==> (on_map.contains(b) && c0.contains_key(b) && c0[b].position.is_some()
                    && close_enough(c0[a].position.unwrap(), c0[b].position.unwrap())),
                c0.contains_key(a),
                c0[a].position == Some(pa),
                on_map == self.on_map(),
                on_map.contains(a),
                ca0 == c0[a],
                manager_wf(chars),
                chars@.dom() == c0.remove(a).dom(),
                forall|k: u64| #[trigger] chars@.contains_key(k) ==> frame(c0[k], chars@[k])
                    && chars@[k].update_mask == c0[k].update_mask && chars@[k].recently_removed == c0[k].recently_removed,
                forall|k: u64| #[trigger] chars@.contains_key(k) && c0[k].position.is_some()
                    && interest_exact(c0, on_map, k) ==> chars@[k].in_range == c0[k].in_range,
                forall|k: u64| #[trigger] chars@.contains_key(k) && !on_map.contains(k) ==> chars@[k].in_range == c0[k].in_range,
                forall|k: u64| #[trigger] chars@.contains_key(k) && c0[k].position is None ==> chars@[k].in_range == c0[k].in_range,
                forall|k: u64, y: u64| #[trigger] chars@.contains_key(k) && #[trigger] chars@[k].in_range@.contains(y)
                    ==> c0[k].in_range@.contains(y) || y == a,
                forall|k: u64, y: u64| #[trigger] chars@.contains_key(k) && #[trigger] c0[k].in_range@.contains(y)
                    ==> chars@[k].in_range@.contains(y),
                kept@.no_duplicates(),
                forall|x: u64| #[trigger] kept@.contains(x) ==> visible(c0, on_map, a, x),
                forall|x: u64| visible(c0, on_map, a, x) && (#[trigger] ca0.in_range@.contains(x)) ==> kept@.contains(x),
                forall|m: int| 0 <= m < j && visible(c0, on_map, a, #[trigger] w@[m]) ==> kept@.contains(w@[m]),
                interest_exact(c0, on_map, a) ==> kept@ == ca0.in_range@ && ca.pending_updates@ == ca0.pending_updates@
                    && ca.recently_removed == ca0.recently_removed && forall|k: u64| #[trigger] chars@.contains_key(k)
                    ==> chars@[k].pending_updates@ == c0[k].pending_updates@,
                grows(ca0.pending_updates@, ca.pending_updates@),
                forall|k: u64| #[trigger] chars@.contains_key(k) ==> grows(c0[k].pending_updates@, chars@[k].pending_updates@),
                forall|x: u64| #[trigger] ca0.in_range@.contains(x) && !visible(c0, on_map, a, x) ==> ca.pending_updates@.contains(
                    UpdateBlock::Destroy { guid: x, target_died: false },
                ),
                forall|x: u64| #[trigger] kept@.contains(x) && !ca0.in_range@.contains(x) ==> has_create(ca.pending_updates@, x)
                    && chars@.contains_key(x) && has_create(chars@[x].pending_updates@, a),
            decreases w@.len() - j,
        {
            let b = w[j];
            proof { assert(w@.contains(b)); }
            if b != a && !vec_contains(&kept, b) && chars.contains(b) {
                proof {
                    assert(visible(c0, on_map, a, b));
                    if interest_exact(c0, on_map, a) {
                        assert(c0[a].in_range@.contains(b));
                    }
                }
                let ghost chars_before = chars@;
                let ghost qa = ca.pending_updates@;
                let mut cb = chars.remove(b).unwrap();
                let create_b = build_create_block(b, &cb.update_mask);
                ca.pending_updates.push(create_b);
                proof {
                    lemma_push_grows(qa, create_b);
                    assert(is_create_of(ca.pending_updates@[qa.len() as int], b));
                }
                proof {
                    if c0[b].position.is_some() && interest_exact(c0, on_map, b) {
                        lemma_dist2_symmetric(pa.x as int, pa.y as int, c0[b].position.unwrap().x as int, c0[b].position.unwrap().y as int);
                        assert(visible(c0, on_map, b, a));
                        assert(c0[b].in_range@.contains(a));
                    }
                }
                let ghost rb = cb.in_range@;
                if !vec_contains(&cb.in_range, a) {
                    cb.in_range.push(a);
                }
                proof {
                    assert forall|y: u64| #[trigger] rb.contains(y) implies cb.in_range@.contains(y) by {
                        if cb.in_range@ != rb {
                            let q = choose|q: int| 0 <= q < rb.len() && rb[q] == y;
                            assert(cb.in_range@[q] == rb[q]);
                        }
                    }
                    assert forall|y: u64| #[trigger] cb.in_range@.contains(y) implies rb.contains(y) || y == a by {
                        if cb.in_range@ != rb {
                            let q = choose|q: int| 0 <= q < cb.in_range@.len() && cb.in_range@[q] == y;
                            if q < rb.len() {
                                assert(cb.in_range@[q] == rb[q]);
                            }
                        }
                    }
                }
                let ghost qb = cb.pending_updates@;
                let create_a = build_create_block(a, &ca.update_mask);
                cb.pending_updates.push(create_a);
                proof {
                    lemma_push_grows(qb, create_a);
                    assert(is_create_of(cb.pending_updates@[qb.len() as int], a));
                }
                chars.insert(b, cb);
                let ghost k0 = kept@;
                kept.push(b);
                proof {
                    assert(chars@.dom() =~= c0.remove(a).dom());
                    assert forall|x: u64| #[trigger] kept@.contains(x) && !ca0.in_range@.contains(x) implies has_create(ca.pending_updates@, x)
                        && chars@.contains_key(x) && has_create(chars@[x].pending_updates@, a) by {
                        if x == b {
                        } else {
                            let q = choose|q: int| 0 <= q < kept@.len() && kept@[q] == x;
                            assert(k0[q] == x);
                            assert(k0.contains(x));
                            lemma_has_create_grows(qa, ca.pending_updates@, x);
                            lemma_has_create_grows(chars_before[x].pending_updates@, chars@[x].pending_updates@, a);
                        }
                    }
                    assert forall|x: u64| #[trigger] kept@.contains(x) implies visible(c0, on_map, a, x) by {
                        let q = choose|q: int| 0 <= q < kept@.len() && kept@[q] == x;
                        if q < kept@.len() - 1 {
                            assert(k0[q] == x);
                            assert(k0.contains(x));
                        } else {
                            assert(kept@[q] == b);
                            assert(w@.contains(b));
                        }
                    }
                    assert forall|x: u64| visible(c0, on_map, a, x) && (#[trigger] ca0.in_range@.contains(x)) implies kept@.contains(x) by {
                        let q = choose|q: int| 0 <= q < k0.len() && k0[q] == x;
                        assert(kept@[q] == x);
                    }
                    assert forall|m: int| 0 <= m < j + 1 && visible(c0, on_map, a, #[trigger] w@[m]) implies kept@.contains(w@[m]) by {
                        if m < j {
                            let q = choose|q: int| 0 <= q < k0.len() && k0[q] == w@[m];
                            assert(kept@[q] == w@[m]);
                        } else {
                            assert(kept@[kept@.len() - 1] == b);
                        }
                    }
                }
            } else {
                proof {
                    if visible(c0, on_map, a, b) && b != a && chars@.contains_key(b) {
                        assert(kept@.contains(b));
                    }
                    if visible(c0, on_map, a, b) {
                        assert(chars@.contains_key(b));
                    }
                }
            }
            j = j + 1;
        }
        ca.in_range = kept;
        let ghost chars_last = chars@;
        chars.insert(a, ca);
        proof {
            let c1 = chars@;
            assert forall|b: u64| #[trigger] visible(c0, on_map, a, b) && !c0[a].in_range@.contains(b) implies has_create(
                c1[a].pending_updates@,
                b,
            ) && has_create(c1[b].pending_updates@, a) by {
                assert(w@.contains(b));
                let m = choose|m: int| 0 <= m < w@.len() && w@[m] == b;
                assert(visible(c0, on_map, a, w@[m]));
                assert(kept@.contains(b));
            }
            assert(c1.dom() =~= c0.dom());
            assert forall|b: u64| #[trigger] c1[a].in_range@.contains(b) <==> visible(c1, on_map, a, b) by {
                if visible(c0, on_map, a, b) {
                    assert(w@.contains(b));
                    let m = choose|m: int| 0 <= m < w@.len() && w@[m] == b;
                    assert(visible(c0, on_map, a, w@[m]));
                }
                assert(visible(c1, on_map, a, b) == visible(c0, on_map, a, b));
            }
            assert forall|k: u64| k != a && #[trigger] c0.contains_key(k) && c0[k].position.is_some()
                && interest_exact(c0, on_map, k) implies interest_exact(c1, on_map, k) by {
                assert forall|b: u64| #[trigger] c1[k].in_range@.contains(b) <==> visible(c1, on_map, k, b) by {
                    assert(visible(c1, on_map, k, b) == visible(c0, on_map, k, b));
                }
            }
        }
    }

    /// Takes `g` off the map: everyone on the map who saw it gets a destroy block and
    /// forgets it, and its own interest set is emptied.
    fn remove_one(&mut self, chars: &mut CharacterManager, g: u64)
        requires
            old(self).wf(),
            manager_wf(old(chars)),
        ensures
            final(self).wf(),
            manager_wf(final(chars)),
            keeps_masks(old(chars)@, final(chars)@),
            forall|x: u64| #[trigger] final(self).on_map().contains(x) <==> old(self).on_map().contains(x) && x != g,
            final(self).add_queue() == old(self).add_queue(),
            final(self).remove_queue() == old(self).remove_queue(),
            final(self).map_id() == old(self).map_id(),
            forall|k: u64| #[trigger] old(chars)@.contains_key(k) ==> grows(old(chars)@[k].pending_updates@, final(chars)@[k].pending_updates@),
            old(self).on_map().contains(g) && old(chars)@.contains_key(g) ==> final(chars)@[g].in_range@.len() == 0,
            forall|o: u64| old(self).on_map().contains(g) && old(chars)@.contains_key(g) && #[trigger] old(chars)@[g].in_range@.contains(o)
                && final(self).on_map().contains(o) && old(chars)@.contains_key(o) ==> final(chars)@[o].pending_updates@.contains(
                UpdateBlock::Destroy { guid: g, target_died: false },
            ) && !final(chars)@[o].in_range@.contains(g),
            interest_shrinks(old(chars)@, final(chars)@),
            forall|k: u64, y: u64| k != g && y != g && #[trigger] old(chars)@.contains_key(k) && #[trigger] old(chars)@[k].in_range@.contains(y)
                ==> final(chars)@[k].in_range@.contains(y),
    {
        let ghost c0 = chars@;
        if !vec_contains(&self.characters_on_map, g) {
            return;
        }
        self.characters_on_map = vec_without(&self.characters_on_map, g);
        match chars.remove(g) {
            Some(mut cg) => {
                let mut i: usize = 0;
                while i < cg.in_range.len()
                    invariant
                        i <= cg.in_range@.len(),
                        manager_wf(chars),
                        chars@.dom() == c0.remove(g).dom(),
                        forall|k: u64| #[trigger] chars@.contains_key(k) ==> frame(c0[k], chars@[k])
                            && chars@[k].update_mask == c0[k].update_mask
                            && chars@[k].recently_removed == c0[k].recently_removed,
                        forall|k: u64| #[trigger] chars@.contains_key(k) ==> grows(c0[k].pending_updates@, chars@[k].pending_updates@),
                        cg.in_range == c0[g].in_range,
                        c0.contains_key(g),
                        c0[g].wf(),
                        c0[g].guid == g,
                        forall|k: u64, y: u64| #[trigger] chars@.contains_key(k) && #[trigger] chars@[k].in_range@.contains(y)
                            ==> c0[k].in_range@.contains(y),
                        forall|k: u64, y: u64| k != g && y != g && #[trigger] c0.contains_key(k) && #[trigger] c0[k].in_range@.contains(y)
                            ==> chars@[k].in_range@.contains(y),
                        forall|j: int| 0 <= j < i && self.on_map().contains(#[trigger] cg.in_range@[j]) && chars@.contains_key(cg.in_range@[j])
                            ==> chars@[cg.in_range@[j]].pending_updates@.contains(UpdateBlock::Destroy { guid: g, target_died: false })
                            && !chars@[cg.in_range@[j]].in_range@.contains(g),
                    decreases cg.in_range@.len() - i,
                {
                    let o = cg.in_range[i];
                    let ghost before = chars@;
                    if vec_contains(&self.characters_on_map, o) {
                        drop_from_interest(chars, o, g, true);
                    }
                    proof {
                        assert forall|j: int| 0 <= j < i + 1 && self.on_map().contains(#[trigger] cg.in_range@[j]) && chars@.contains_key(cg.in_range@[j])
                            implies chars@[cg.in_range@[j]].pending_updates@.contains(UpdateBlock::Destroy { guid: g, target_died: false })
                            && !chars@[cg.in_range@[j]].in_range@.contains(g) by {
                            if j < i {
                                assert(cg.in_range@[j] != o) by {
                                    assert(cg.in_range@.no_duplicates());
                                }
                            }
                        }
                    }
                    i = i + 1;
                }
                let ghost rng = cg.in_range@;
                let ghost after = chars@;
                cg.in_range = Vec::new();
                chars.insert(g, cg);
                proof {
                    assert(chars@.dom() =~= c0.dom());
                    assert forall|o: u64| #[trigger] c0[g].in_range@.contains(o) && self.on_map().contains(o) && c0.contains_key(o)
                        implies chars@[o].pending_updates@.contains(UpdateBlock::Destroy { guid: g, target_died: false })
                        && !chars@[o].in_range@.contains(g) by {
                        let j = choose|j: int| 0 <= j < c0[g].in_range@.len() && c0[g].in_range@[j] == o;
                        assert(rng[j] == o);
                        assert(o != g);
                        assert(after.contains_key(o));
                        assert(chars@[o] == after[o]);
                    }
                }
            },
            None => {
                proof { assert(chars@ =~= c0); }
                let mut i: usize = 0;
                while i < self.characters_on_map.len()
                    invariant
                        i <= self.characters_on_map@.len(),
                        manager_wf(chars),
                        keeps_masks(c0, chars@),
                        forall|k: u64| #[trigger] c0.contains_key(k) ==> grows(c0[k].pending_updates@, chars@[k].pending_updates@),
                        interest_shrinks(c0, chars@),
                        forall|k: u64, y: u64| y != g && #[trigger] c0.contains_key(k) && #[trigger] c0[k].in_range@.contains(y)
                            ==> chars@[k].in_range@.contains(y),
                    decreases self.characters_on_map@.len() - i,
                {
                    let o = self.characters_on_map[i];
                    drop_from_interest(chars, o, g, false);
                    i = i + 1;
                }
            },
        }
    }

    /// Takes every queued character off the map and empties the queue.
    fn process_remove_queue(&mut self, chars: &mut CharacterManager)
        requires
            old(self).wf(),
            manager_wf(old(chars)),
        ensures
            final(self).wf(),
            manager_wf(final(chars)),
            keeps_masks(old(chars)@, final(chars)@),
            forall|x: u64| #[trigger] final(self).on_map().contains(x) <==> old(self).on_map().contains(x)
                && !old(self).remove_queue().contains(x),
            final(self).add_queue() == old(self).add_queue(),
            final(self).remove_queue().len() == 0,
            final(self).map_id() == old(self).map_id(),
            old(self).remove_queue().len() == 0 ==> final(chars)@ == old(chars)@ && final(self).on_map() == old(self).on_map(),
            forall|k: u64| #[trigger] old(chars)@.contains_key(k) ==> grows(old(chars)@[k].pending_updates@, final(chars)@[k].pending_updates@),
            interest_shrinks(old(chars)@, final(chars)@),
            forall|k: u64, y: u64| !old(self).remove_queue().contains(k) && !old(self).remove_queue().contains(y)
                && #[trigger] old(chars)@.contains_key(k) && #[trigger] old(chars)@[k].in_range@.contains(y) ==> final(chars)@[k].in_range@.contains(y),
            forall|g: u64| #[trigger] old(self).remove_queue().contains(g) && old(self).on_map().contains(g) && old(chars)@.contains_key(g)
                ==> final(chars)@[g].in_range@.len() == 0,
    {
        let mut queue: Vec<u64> = Vec::new();
        std::mem::swap(&mut queue, &mut self.remove_queue);
        let ghost c0 = chars@;
        let ghost m0 = self.on_map();
        let mut i: usize = 0;
        while i < queue.len()
            invariant
                i <= queue@.len(),
                self.wf(),
                manager_wf(chars),
                keeps_masks(c0, chars@),
                forall|x: u64| #[trigger] self.on_map().contains(x) <==> m0.contains(x) && !queue@.subrange(0, i as int).contains(x),
                self.add_queue() == old(self).add_queue(),
                self.remove_queue().len() == 0,
                self.map_id() == old(self).map_id(),
                queue@ == old(self).remove_queue(),
                m0 == old(self).on_map(),
                c0 == old(chars)@,
                queue@.len() == 0 ==> chars@ == c0 && self.on_map() == m0,
                forall|k: u64| #[trigger] c0.contains_key(k) ==> grows(c0[k].pending_updates@, chars@[k].pending_updates@),
                interest_shrinks(c0, chars@),
                forall|k: u64, y: u64| !queue@.subrange(0, i as int).contains(k) && !queue@.subrange(0, i as int).contains(y)
                    && #[trigger] c0.contains_key(k) && #[trigger] c0[k].in_range@.contains(y) ==> chars@[k].in_range@.contains(y),
                forall|g: u64| #[trigger] queue@.subrange(0, i as int).contains(g) && m0.contains(g) && c0.contains_key(g)
                    ==> chars@[g].in_range@.len() == 0,
            decreases queue@.len() - i,
        {
            let g = queue[i];
            let ghost cb = chars@;
            let ghost onb = self.on_map();
            self.remove_one(chars, g);
            proof {
                assert forall|h: u64| #[trigger] queue@.subrange(0, i + 1).contains(h) && m0.contains(h) && c0.contains_key(h)
                    implies chars@[h].in_range@.len() == 0 by {
                    let q0 = queue@.subrange(0, i as int);
                    let q1 = queue@.subrange(0, i + 1);
                    let j = choose|j: int| 0 <= j < q1.len() && q1[j] == h;
                    if j < i {
                        assert(q0[j] == h);
                    }
                    if q0.contains(h) {
                        assert(cb[h].in_range@.len() == 0);
                        if chars@[h].in_range@.len() > 0 {
                            assert(chars@[h].in_range@.contains(chars@[h].in_range@[0]));
                        }
                    } else {
                        assert(h == g);
                        assert(onb.contains(g));
                    }
                }
                let q0 = queue@.subrange(0, i as int);
                let q1 = queue@.subrange(0, i + 1);
                assert(q1 == q0.push(g));
                assert forall|k: u64, y: u64| !q1.contains(k) && !q1.contains(y) && #[trigger] c0.contains_key(k)
                    && #[trigger] c0[k].in_range@.contains(y) implies chars@[k].in_range@.contains(y) by {
                    assert(q1[i as int] == g);
                    assert(!q0.contains(k)) by {
                        if q0.contains(k) {
                            let j = choose|j: int| 0 <= j < q0.len() && q0[j] == k;
                            assert(q1[j] == k);
                        }
                    }
                    assert(!q0.contains(y)) by {
                        if q0.contains(y) {
                            let j = choose|j: int| 0 <= j < q0.len() && q0[j] == y;
                            assert(q1[j] == y);
                        }
                    }
                    assert(cb[k].in_range@.contains(y));
                }
                assert forall|x: u64| #[trigger] self.on_map().contains(x) <==> m0.contains(x) && !q1.contains(x) by {
                    if q1.contains(x) && x != g {
                        let j = choose|j: int| 0 <= j < q1.len() && q1[j] == x;
                        assert(q0[j] == x);
                    }
                    if q0.contains(x) {
                        let j = choose|j: int| 0 <= j < q0.len() && q0[j] == x;
                        assert(q1[j] == x);
                    }
                    if x == g {
                        assert(q1[i as int] == x);
                    }
                }
            }
            i = i + 1;
        }
        proof {
            assert(queue@.subrange(0, queue@.len() as int) == queue@);
            if queue@.len() == 0 {
                assert(chars@ =~= c0);
            }
        }
    }

    /// Puts every queued character that is placed somewhere onto the map and empties the queue.
    fn process_add_queue(&mut self, chars: &CharacterManager)
        requires
            old(self).wf(),
            manager_wf(chars),
        ensures
            final(self).wf(),
            forall|x: u64| #[trigger] final(self).on_map().contains(x) <==> old(self).on_map().contains(x)
                || (old(self).add_queue().contains(x) && chars@.contains_key(x) && chars@[x].position.is_some()),
            final(self).add_queue().len() == 0,
            final(self).remove_queue() == old(self).remove_queue(),
            final(self).map_id() == old(self).map_id(),
            old(self).add_queue().len() == 0 ==> final(self).on_map() == old(self).on_map(),
    {
        let mut queue: Vec<u64> = Vec::new();
        std::mem::swap(&mut queue, &mut self.add_queue);
        let ghost m0 = self.on_map();
        let mut i: usize = 0;
        while i < queue.len()
            invariant
                i <= queue@.len(),
                self.wf(),
                manager_wf(chars),
                forall|x: u64| #[trigger] self.on_map().contains(x) <==> m0.contains(x) || (queue@.subrange(0, i as int).contains(x)
                    && chars@.contains_key(x) && chars@[x].position.is_some()),
                self.add_queue().len() == 0,
                self.remove_queue() == old(self).remove_queue(),
                self.map_id() == old(self).map_id(),
                queue@ == old(self).add_queue(),
                m0 == old(self).on_map(),
                queue@.len() == 0 ==> self.on_map() == m0,
            decreases queue@.len() - i,
        {
            let g = queue[i];
            let placed = match chars.get(g) {
                Some(c) => c.position.is_some(),
                None => false,
            };
            let ghost on0 = self.characters_on_map@;
            assert(on0 == self.on_map());
            assert(forall|x: u64| #[trigger] on0.contains(x) <==> m0.contains(x) || (queue@.subrange(0, i as int).contains(x)
                && chars@.contains_key(x) && chars@[x].position.is_some()));
            if placed && !vec_contains(&self.characters_on_map, g) {
                self.characters_on_map.push(g);
                proof {
                    assert(self.characters_on_map@ == on0.push(g));
                    assert forall|x: u64| #[trigger] self.characters_on_map@.contains(x) <==> on0.contains(x) || x == g by {
                        if self.characters_on_map@.contains(x) && x != g {
                            let j = choose|j: int| 0 <= j < self.characters_on_map@.len() && self.characters_on_map@[j] == x;
                            assert(on0[j] == x);
                        }
                        if on0.contains(x) {
                            let j = choose|j: int| 0 <= j < on0.len() && on0[j] == x;
                            assert(self.characters_on_map@[j] == x);
                        }
                        if x == g {
                            assert(self.characters_on_map@[on0.len() as int] == x);
                        }
                    }
                }
            }
            proof {
                assert(placed == (chars@.contains_key(g) && chars@[g].position.is_some()));
                assert forall|x: u64| #[trigger] self.characters_on_map@.contains(x) <==> on0.contains(x) || (x == g && placed) by {
                    if x == g && placed && !on0.contains(x) {
                        assert(self.characters_on_map@[on0.len() as int] == x);
                    }
                }
                let q0 = queue@.subrange(0, i as int);
                let q1 = queue@.subrange(0, i + 1);
                assert(q1 == q0.push(g));
                assert forall|x: u64| #[trigger] self.on_map().contains(x) <==> m0.contains(x) || (q1.contains(x)
                    && chars@.contains_key(x) && chars@[x].position.is_some()) by {
                    if q1.contains(x) && x != g {
                        let j = choose|j: int| 0 <= j < q1.len() && q1[j] == x;
                        assert(q0[j] == x);
                    }
                    if q0.contains(x) {
                        let j = choose|j: int| 0 <= j < q0.len() && q0[j] == x;
                        assert(q1[j] == x);
                    }
                    if x == g {
                        assert(q1[i as int] == x);
                    }
                }
            }
            i = i + 1;
        }
        proof {
            assert(queue@.subrange(0, queue@.len() as int) == queue@);
        }
    }

    /// Loads the index afresh from the positions of the characters on the map.
    fn rebuild_index(&mut self, chars: &CharacterManager)
        requires
            manager_wf(chars),
        ensures
            final(self).index_matches(chars@),
            final(self).on_map() == old(self).on_map(),
            final(self).add_queue() == old(self).add_queue(),
            final(self).remove_queue() == old(self).remove_queue(),
            final(self).map_id() == old(self).map_id(),
            final(self).wf() == old(self).wf(),
    {
        let mut items: Vec<(i64, i64, u64)> = Vec::new();
        let ghost on_map = self.on_map();
        let mut i: usize = 0;
        while i < self.characters_on_map.len()
            invariant
                i <= on_map.len(),
                on_map == self.characters_on_map@,
                manager_wf(chars),
                forall|j: int| 0 <= j < items@.len() ==> crate::spatial::in_world(items@[j].0 as int, items@[j].1 as int),
                forall|e: (i64, i64, u64)| #[trigger] items@.contains(e) <==> on_map.subrange(0, i as int).contains(e.2)
                    && index_entry(chars@, on_map, e),
            decreases on_map.len() - i,
        {
            let g = self.characters_on_map[i];
            let ghost it0 = items@;
            if let Some(c) = chars.get(g) {
                if let Some(p) = c.position {
                    items.push((p.x, p.y, g));
                }
            }
            proof {
                let q0 = on_map.subrange(0, i as int);
                let q1 = on_map.subrange(0, i + 1);
                assert(q1 == q0.push(g));
                assert forall|e: (i64, i64, u64)| #[trigger] items@.contains(e) <==> q1.contains(e.2) && index_entry(chars@, on_map, e) by {
                    if items@.contains(e) {
                        let j = choose|j: int| 0 <= j < items@.len() && items@[j] == e;
                        if j < it0.len() {
                            assert(it0[j] == e);
                            assert(it0.contains(e));
                            let m = choose|m: int| 0 <= m < q0.len() && q0[m] == e.2;
                            assert(q1[m] == e.2);
                        } else {
                            assert(q1[i as int] == e.2);
                            assert(on_map.contains(g));
                        }
                    }
                    if q1.contains(e.2) && index_entry(chars@, on_map, e) {
                        let m = choose|m: int| 0 <= m < q1.len() && q1[m] == e.2;
                        if m < i {
                            assert(q0[m] == e.2);
                            assert(it0.contains(e));
                            let j = choose|j: int| 0 <= j < it0.len() && it0[j] == e;
                            assert(items@[j] == e);
                        } else {
                            assert(items@[it0.len() as int] == e);
                        }
                    }
                }
            }
            i = i + 1;
        }
        proof {
            assert(on_map.subrange(0, on_map.len() as int) == on_map);
        }
        self.index = SpatialIndex::bulk_load(items);
    }

    pub proof fn lemma_index_same_places(&self, c0: Map<u64, Character>, c1: Map<u64, Character>)
        requires
            self.index_matches(c0),
            same_places(c0, c1),
        ensures
            self.index_matches(c1),
    {
        assert forall|e: (i64, i64, u64)| #[trigger] self.index_entries().contains(e) <==> index_entry(c1, self.on_map(), e) by {
            assert(self.index_entries().contains(e) <==> index_entry(c0, self.on_map(), e));
            if c0.contains_key(e.2) {
                assert(c1[e.2].position == c0[e.2].position);
            }
        }
    }

    /// One step of the world on this map: queued characters leave and join, the index is
    /// loaded afresh, and then every character on the map gets its interest set brought up
    /// to date, its changed fields sent to itself and to everyone who sees it, and the
    /// characters that left its view announced.
    pub fn tick(&mut self, chars: &mut CharacterManager)
        requires
            old(self).wf(),
            manager_wf(old(chars)),
        ensures
            final(self).wf(),
            manager_wf(final(chars)),
            same_places(old(chars)@, final(chars)@),
            forall|k: u64| #[trigger] old(chars)@.contains_key(k) ==> frame(old(chars)@[k], final(chars)@[k]),
            final(self).add_queue().len() == 0,
            final(self).remove_queue().len() == 0,
            final(self).map_id() == old(self).map_id(),
            forall|x: u64| #[trigger] final(self).on_map().contains(x) <==> (old(self).on_map().contains(x)
                && !old(self).remove_queue().contains(x)) || (old(self).add_queue().contains(x)
                && old(chars)@.contains_key(x) && old(chars)@[x].position.is_some()),
            final(self).index_matches(final(chars)@),
            forall|a: u64| #[trigger] final(self).on_map().contains(a) && final(chars)@.contains_key(a)
                ==> settled_char(final(chars)@, final(self).on_map(), a),
            final(self).settled(final(chars)@),
            ticked(*old(self), old(chars)@, *final(self), final(chars)@),
            old(self).settled(old(chars)@) ==> forall|k: u64| #[trigger] old(chars)@.contains_key(k)
                ==> final(chars)@[k].pending_updates@ == old(chars)@[k].pending_updates@,
            forall|k: u64| #[trigger] old(chars)@.contains_key(k) ==> grows(old(chars)@[k].pending_updates@, final(chars)@[k].pending_updates@),
            forall|a: u64| #[trigger] final(self).on_map().contains(a) && final(chars)@.contains_key(a) && !old(chars)@[a].update_mask.clean()
                ==> values_sent(final(chars)@, a, old(chars)@[a].update_mask),
            forall|x: u64, y: u64| #[trigger] visible(final(chars)@, final(self).on_map(), x, y) && final(self).on_map().contains(x)
                && !old(chars)@[x].in_range@.contains(y) && !old(chars)@[y].in_range@.contains(x) ==> has_create(
                final(chars)@[x].pending_updates@,
                y,
            ) && has_create(final(chars)@[y].pending_updates@, x),
            forall|x: u64, y: u64| #[trigger] final(self).on_map().contains(x) && !old(self).remove_queue().contains(x)
                && !old(self).remove_queue().contains(y) && old(chars)@.contains_key(x) && old(chars)@[x].position is Some
                && #[trigger] old(chars)@[x].in_range@.contains(y) && !visible(final(chars)@, final(self).on_map(), x, y)
                ==> final(chars)@[x].pending_updates@.contains(UpdateBlock::Destroy { guid: y, target_died: false }),
            forall|g: u64| #[trigger] old(self).remove_queue().contains(g) && old(self).on_map().contains(g) && old(chars)@.contains_key(g)
                && !final(self).on_map().contains(g) ==> final(chars)@[g].in_range@.len() == 0,
    {
        let ghost c_start = chars@;
        let ghost rq_start = self.remove_queue();
        let ghost on_start = self.on_map();
        let ghost settled0 = self.settled(chars@);
        let ghost m_start = self.on_map();
        self.process_remove_queue(chars);
        self.process_add_queue(chars);
        self.rebuild_index(chars);
        let ghost c1 = chars@;
        let ghost on_map = self.on_map();
        proof {
            if settled0 {
                assert(on_map == m_start);
                assert(c1 == c_start);
            }
        }
        let mut i: usize = 0;
        while i < self.characters_on_map.len()
            invariant
                i <= on_map.len(),
                on_map == self.on_map(),
                self.wf(),
                self.index_matches(c1),
                manager_wf(chars),
                same_places(c1, chars@),
                forall|k: u64| #[trigger] c1.contains_key(k) ==> frame(c1[k], chars@[k]),
                forall|a: u64| #[trigger] on_map.contains(a) && chars@.contains_key(a) && (on_map.subrange(0, i as int).contains(a)
                    || settled0) ==> settled_char(chars@, on_map, a),
                settled0 ==> forall|k: u64| #[trigger] c1.contains_key(k) ==> chars@[k].pending_updates@ == c1[k].pending_updates@,
                settled0 ==> c1 == c_start && on_map == m_start,
                settled0 == old(self).settled(c_start),
                forall|k: u64| #[trigger] c1.contains_key(k) ==> grows(c1[k].pending_updates@, chars@[k].pending_updates@),
                forall|k: u64| #[trigger] on_map.contains(k) && chars@.contains_key(k) && !on_map.subrange(0, i as int).contains(k)
                    ==> chars@[k].update_mask == c1[k].update_mask,
                forall|k: u64| #[trigger] on_map.contains(k) && chars@.contains_key(k) && on_map.subrange(0, i as int).contains(k)
                    && !c1[k].update_mask.clean() ==> values_sent(chars@, k, c1[k].update_mask),
                on_map.no_duplicates(),
                forall|k: u64, y: u64| #[trigger] on_map.contains(k) && chars@.contains_key(k) && !on_map.subrange(0, i as int).contains(k)
                    && #[trigger] chars@[k].in_range@.contains(y) ==> c1[k].in_range@.contains(y) || on_map.subrange(0, i as int).contains(y),
                forall|x: u64, y: u64| #[trigger] visible(c1, on_map, x, y) && on_map.contains(x) && (on_map.subrange(0, i as int).contains(x)
                    || on_map.subrange(0, i as int).contains(y)) && !c1[x].in_range@.contains(y) && !c1[y].in_range@.contains(x)
                    ==> has_create(chars@[x].pending_updates@, y) && has_create(chars@[y].pending_updates@, x),
                forall|k: u64, y: u64| #[trigger] on_map.contains(k) && chars@.contains_key(k) && !on_map.subrange(0, i as int).contains(k)
                    && #[trigger] c1[k].in_range@.contains(y) ==> chars@[k].in_range@.contains(y),
                forall|k: u64| #[trigger] c1.contains_key(k) && !on_map.contains(k) ==> chars@[k].in_range == c1[k].in_range,
                forall|x: u64, y: u64| #[trigger] on_map.subrange(0, i as int).contains(x) && c1.contains_key(x) && c1[x].position is Some
                    && #[trigger] c1[x].in_range@.contains(y) && !visible(c1, on_map, x, y) ==> chars@[x].pending_updates@.contains(
                    UpdateBlock::Destroy { guid: y, target_died: false },
                ),
            decreases on_map.len() - i,
        {
            let a = self.characters_on_map[i];
            let ghost c2 = chars@;
            let ghost sub0 = on_map.subrange(0, i as int);
            let ghost sub1 = on_map.subrange(0, i + 1);
            proof {
                assert(sub1 == sub0.push(a));
                assert(on_map[i as int] == a);
                assert(on_map.contains(a));
            }
            proof {
                self.lemma_index_same_places(c1, c2);
            }
            let placed = match chars.get(a) {
                Some(c) => c.position.is_some(),
                None => false,
            };
            if chars.contains(a) {
                proof {
                    if settled0 {
                        assert(settled_char(c2, on_map, a));
                    }
                }
                if placed {
                    self.update_interest(chars, a);
                }
                let ghost c3 = chars@;
                flush_values(chars, a);
                let ghost c4 = chars@;
                flush_out_of_range(chars, a);
                let ghost c5 = chars@;
                proof {
                    assert forall|k: u64, y: u64| #[trigger] on_map.contains(k) && c5.contains_key(k) && !sub1.contains(k)
                        && #[trigger] c1[k].in_range@.contains(y) implies c5[k].in_range@.contains(y) by {
                        assert(sub1[i as int] == a);
                        assert(!sub0.contains(k)) by {
                            if sub0.contains(k) {
                                let j = choose|j: int| 0 <= j < sub0.len() && sub0[j] == k;
                                assert(sub1[j] == k);
                            }
                        }
                        assert(c2[k].in_range@.contains(y));
                        assert(c5[k].in_range == c3[k].in_range);
                    }
                    assert forall|x: u64, y: u64| #[trigger] sub1.contains(x) && c1.contains_key(x) && c1[x].position is Some
                        && #[trigger] c1[x].in_range@.contains(y) && !visible(c1, on_map, x, y) implies c5[x].pending_updates@.contains(
                        UpdateBlock::Destroy { guid: y, target_died: false },
                    ) by {
                        let j = choose|j: int| 0 <= j < sub1.len() && sub1[j] == x;
                        if j < i {
                            assert(sub0[j] == x);
                            assert(on_map.subrange(0, i as int).contains(x));
                            assert(c2[x].pending_updates@.contains(UpdateBlock::Destroy { guid: y, target_died: false }));
                            assert(c3[x].pending_updates@.contains(UpdateBlock::Destroy { guid: y, target_died: false }));
                            assert(c4[x].pending_updates@.contains(UpdateBlock::Destroy { guid: y, target_died: false }));
                        } else {
                            assert(x == a);
                            assert(!sub0.contains(a));
                            assert(c2[a].in_range@.contains(y));
                            assert(placed);
                            assert(!visible(c2, on_map, a, y)) by {
                                if visible(c2, on_map, a, y) {
                                    assert(visible(c1, on_map, a, y));
                                }
                            }
                            assert(c3[a].pending_updates@.contains(UpdateBlock::Destroy { guid: y, target_died: false }));
                            assert(c4[a].pending_updates@.contains(UpdateBlock::Destroy { guid: y, target_died: false }));
                        }
                    }
                    assert forall|k: u64, y: u64| #[trigger] on_map.contains(k) && c5.contains_key(k) && !sub1.contains(k)
                        && #[trigger] c5[k].in_range@.contains(y) implies c1[k].in_range@.contains(y) || sub1.contains(y) by {
                        assert(sub1[i as int] == a);
                        assert(!sub0.contains(k)) by {
                            if sub0.contains(k) {
                                let j = choose|j: int| 0 <= j < sub0.len() && sub0[j] == k;
                                assert(sub1[j] == k);
                            }
                        }
                        assert(c5[k].in_range == c3[k].in_range);
                        if c3[k].in_range@.contains(y) && !c2[k].in_range@.contains(y) {
                            assert(y == a);
                        }
                        if c2[k].in_range@.contains(y) && !c1[k].in_range@.contains(y) {
                            assert(sub0.contains(y));
                            let j = choose|j: int| 0 <= j < sub0.len() && sub0[j] == y;
                            assert(sub1[j] == y);
                        }
                    }
                }
                proof {
                    assert forall|k: u64| #[trigger] c2.contains_key(k) implies grows(c2[k].pending_updates@, c5[k].pending_updates@) by {
                        assert forall|x: UpdateBlock| #[trigger] c2[k].pending_updates@.contains(x) implies c5[k].pending_updates@.contains(x) by {
                            assert(c3[k].pending_updates@.contains(x));
                            assert(c4[k].pending_updates@.contains(x));
                        }
                    }
                    assert forall|k: u64| #[trigger] c1.contains_key(k) implies grows(c1[k].pending_updates@, c5[k].pending_updates@) by {
                        assert forall|x: UpdateBlock| #[trigger] c1[k].pending_updates@.contains(x) implies c5[k].pending_updates@.contains(x) by {
                            assert(c2[k].pending_updates@.contains(x));
                        }
                    }
                    assert(!sub0.contains(a)) by {
                        if sub0.contains(a) {
                            let j = choose|j: int| 0 <= j < sub0.len() && sub0[j] == a;
                            assert(on_map[j] == on_map[i as int]);
                        }
                    }
                    assert(c2[a].update_mask == c1[a].update_mask);
                    assert forall|k: u64| #[trigger] on_map.contains(k) && c5.contains_key(k) && !sub1.contains(k)
                        implies c5[k].update_mask == c1[k].update_mask by {
                        assert(sub1[i as int] == a);
                        assert(!sub0.contains(k)) by {
                            if sub0.contains(k) {
                                let j = choose|j: int| 0 <= j < sub0.len() && sub0[j] == k;
                                assert(sub1[j] == k);
                            }
                        }
                    }
                    assert forall|x: u64, y: u64| #[trigger] visible(c1, on_map, x, y) && on_map.contains(x) && (sub1.contains(x) || sub1.contains(y))
                        && !c1[x].in_range@.contains(y) && !c1[y].in_range@.contains(x) implies has_create(c5[x].pending_updates@, y)
                        && has_create(c5[y].pending_updates@, x) by {
                        assert(sub1[i as int] == a);
                        if sub0.contains(x) || sub0.contains(y) {
                            lemma_has_create_grows(c2[x].pending_updates@, c5[x].pending_updates@, y);
                            lemma_has_create_grows(c2[y].pending_updates@, c5[y].pending_updates@, x);
                        } else {
                            assert(x == a || y == a) by {
                                if sub1.contains(x) {
                                    let j = choose|j: int| 0 <= j < sub1.len() && sub1[j] == x;
                                    if j < i { assert(sub0[j] == x); }
                                } else {
                                    let j = choose|j: int| 0 <= j < sub1.len() && sub1[j] == y;
                                    if j < i { assert(sub0[j] == y); }
                                }
                            }
                            let other = if x == a { y } else { x };
                            lemma_dist2_symmetric(
                                c1[x].position.unwrap().x as int,
                                c1[x].position.unwrap().y as int,
                                c1[y].position.unwrap().x as int,
                                c1[y].position.unwrap().y as int,
                            );
                            assert(visible(c1, on_map, a, other));
                            assert(visible(c2, on_map, a, other));
                            assert(!c2[a].in_range@.contains(other));
                            assert(placed);
                            lemma_has_create_grows(c3[x].pending_updates@, c5[x].pending_updates@, y);
                            lemma_has_create_grows(c3[y].pending_updates@, c5[y].pending_updates@, x);
                        }
                    }
                    assert forall|k: u64| #[trigger] on_map.contains(k) && c5.contains_key(k) && sub1.contains(k)
                        && !c1[k].update_mask.clean() implies values_sent(c5, k, c1[k].update_mask) by {
                        if k == a {
                            assert(values_sent(c4, a, c1[a].update_mask));
                            assert forall|kk: u64| #[trigger] c4.contains_key(kk) implies grows(c4[kk].pending_updates@, c5[kk].pending_updates@) by {}
                            lemma_values_sent_grows(c4, c5, a, c1[a].update_mask);
                        } else {
                            assert(sub0.contains(k)) by {
                                let j = choose|j: int| 0 <= j < sub1.len() && sub1[j] == k;
                                assert(sub0[j] == k);
                            }
                            assert(values_sent(c2, k, c1[k].update_mask));
                            assert(settled_char(c2, on_map, k));
                            assert(c5[k].in_range == c2[k].in_range);
                            lemma_values_sent_grows(c2, c5, k, c1[k].update_mask);
                        }
                    }
                    assert forall|k: u64| #[trigger] on_map.contains(k) && c5.contains_key(k) && (sub1.contains(k)
                        || settled0) implies settled_char(c5, on_map, k) by {
                        if k == a {
                            if settled0 {
                                assert(on_map.contains(a));
                            }
                            if c5[a].position.is_some() {
                                lemma_exact_preserved(c3, c4, on_map, a);
                                lemma_exact_preserved(c4, c5, on_map, a);
                            }
                        } else {
                            assert(sub0.contains(k) || settled0) by {
                                if sub1.contains(k) {
                                    let j = choose|j: int| 0 <= j < sub1.len() && sub1[j] == k;
                                    assert(sub0[j] == k);
                                }
                            }
                            assert(settled_char(c2, on_map, k));
                            lemma_settled_preserved(c2, c3, on_map, k);
                            lemma_settled_preserved(c3, c4, on_map, k);
                            lemma_settled_preserved(c4, c5, on_map, k);
                        }
                    }
                }
            } else {
                proof {
                    assert forall|k: u64, y: u64| #[trigger] on_map.contains(k) && chars@.contains_key(k) && !sub1.contains(k)
                        && #[trigger] c1[k].in_range@.contains(y) implies chars@[k].in_range@.contains(y) by {
                        assert(!sub0.contains(k)) by {
                            if sub0.contains(k) {
                                let j = choose|j: int| 0 <= j < sub0.len() && sub0[j] == k;
                                assert(sub1[j] == k);
                            }
                        }
                    }
                    assert forall|x: u64, y: u64| #[trigger] sub1.contains(x) && c1.contains_key(x) && c1[x].position is Some
                        && #[trigger] c1[x].in_range@.contains(y) && !visible(c1, on_map, x, y) implies chars@[x].pending_updates@.contains(
                        UpdateBlock::Destroy { guid: y, target_died: false },
                    ) by {
                        let j = choose|j: int| 0 <= j < sub1.len() && sub1[j] == x;
                        if j < i {
                            assert(sub0[j] == x);
                            assert(on_map.subrange(0, i as int).contains(x));
                        } else {
                            assert(x == a);
                            assert(!c2.contains_key(a));
                        }
                    }
                    assert forall|k: u64, y: u64| #[trigger] on_map.contains(k) && chars@.contains_key(k) && !sub1.contains(k)
                        && #[trigger] chars@[k].in_range@.contains(y) implies c1[k].in_range@.contains(y) || sub1.contains(y) by {
                        assert(!sub0.contains(k)) by {
                            if sub0.contains(k) {
                                let j = choose|j: int| 0 <= j < sub0.len() && sub0[j] == k;
                                assert(sub1[j] == k);
                            }
                        }
                        if sub0.contains(y) {
                            let j = choose|j: int| 0 <= j < sub0.len() && sub0[j] == y;
                            assert(sub1[j] == y);
                        }
                    }
                    assert forall|x: u64, y: u64| #[trigger] visible(c1, on_map, x, y) && on_map.contains(x) && (sub1.contains(x) || sub1.contains(y))
                        && !c1[x].in_range@.contains(y) && !c1[y].in_range@.contains(x) implies has_create(chars@[x].pending_updates@, y)
                        && has_create(chars@[y].pending_updates@, x) by {
                        assert(!c2.contains_key(a));
                        if sub1.contains(x) {
                            let j = choose|j: int| 0 <= j < sub1.len() && sub1[j] == x;
                            if j < i { assert(sub0[j] == x); } else { assert(x == a); }
                        } else {
                            let j = choose|j: int| 0 <= j < sub1.len() && sub1[j] == y;
                            if j < i { assert(sub0[j] == y); } else { assert(y == a); }
                        }
                    }
                    assert forall|k: u64| #[trigger] on_map.contains(k) && chars@.contains_key(k) && !sub1.contains(k)
                        implies chars@[k].update_mask == c1[k].update_mask by {
                        assert(!sub0.contains(k)) by {
                            if sub0.contains(k) {
                                let j = choose|j: int| 0 <= j < sub0.len() && sub0[j] == k;
                                assert(sub1[j] == k);
                            }
                        }
                    }
                    assert forall|k: u64| #[trigger] on_map.contains(k) && chars@.contains_key(k) && sub1.contains(k)
                        && !c1[k].update_mask.clean() implies values_sent(chars@, k, c1[k].update_mask) by {
                        let j = choose|j: int| 0 <= j < sub1.len() && sub1[j] == k;
                        if j < i {
                            assert(sub0[j] == k);
                        } else {
                            assert(k == a);
                            assert(!c2.contains_key(a));
                        }
                    }
                    assert forall|k: u64| #[trigger] on_map.contains(k) && chars@.contains_key(k) && (sub1.contains(k)
                        || settled0) implies settled_char(chars@, on_map, k) by {
                        if sub1.contains(k) {
                            let j = choose|j: int| 0 <= j < sub1.len() && sub1[j] == k;
                            if j < i {
                                assert(sub0[j] == k);
                            }
                        }
                    }
                }
            }
            i = i + 1;
        }
        proof {
            assert(on_map.subrange(0, on_map.len() as int) == on_map);
            self.lemma_index_same_places(c1, chars@);
            assert forall|g: u64| #[trigger] rq_start.contains(g) && on_start.contains(g) && c_start.contains_key(g)
                && !on_map.contains(g) implies chars@[g].in_range@.len() == 0 by {
                assert(c1[g].in_range@.len() == 0);
            }
            assert forall|x: u64, y: u64| #[trigger] on_map.contains(x) && !old(self).remove_queue().contains(x)
                && !old(self).remove_queue().contains(y) && c_start.contains_key(x) && c_start[x].position is Some
                && #[trigger] c_start[x].in_range@.contains(y) && !visible(chars@, on_map, x, y)
                implies chars@[x].pending_updates@.contains(UpdateBlock::Destroy { guid: y, target_died: false }) by {
                assert(c1[x].in_range@.contains(y));
                assert(on_map.subrange(0, on_map.len() as int).contains(x));
                assert(!visible(c1, on_map, x, y)) by {
                    if visible(c1, on_map, x, y) {
                        assert(visible(chars@, on_map, x, y));
                    }
                }
            }
            assert forall|x: u64, y: u64| #[trigger] visible(chars@, on_map, x, y) && on_map.contains(x)
                && !c_start[x].in_range@.contains(y) && !c_start[y].in_range@.contains(x) implies has_create(chars@[x].pending_updates@, y)
                && has_create(chars@[y].pending_updates@, x) by {
                assert(visible(c1, on_map, x, y));
                assert(on_map.subrange(0, on_map.len() as int).contains(x));
            }
            assert forall|k: u64| #[trigger] c_start.contains_key(k) implies grows(c_start[k].pending_updates@, chars@[k].pending_updates@) by {
                assert forall|x: UpdateBlock| #[trigger] c_start[k].pending_updates@.contains(x) implies chars@[k].pending_updates@.contains(x) by {
                    assert(c1[k].pending_updates@.contains(x));
                }
            }
        }
    }

    /// Queues `guid` to join the map at the next tick.
    pub fn push_character(&mut self, guid: u64)
        ensures
            final(self).add_queue() == old(self).add_queue().push(guid),
            final(self).remove_queue() == old(self).remove_queue(),
            final(self).on_map() == old(self).on_map(),
            final(self).index_entries() == old(self).index_entries(),
            final(self).map_id() == old(self).map_id(),
            final(self).wf() == old(self).wf(),
    {
        self.add_queue.push(guid);
    }

    /// Queues `guid` to leave the map at the next tick.
    pub fn remove_object_by_guid(&mut self, guid: u64)
        ensures
            final(self).remove_queue() == old(self).remove_queue().push(guid),
            final(self).add_queue() == old(self).add_queue(),
            final(self).on_map() == old(self).on_map(),
            final(self).index_entries() == old(self).index_entries(),
            final(self).map_id() == old(self).map_id(),
            final(self).wf() == old(self).wf(),
    {
        self.remove_queue.push(guid);
    }
}

} // verus!
