use rstar::primitives::GeomWithData;
use rstar::RTree;
use vstd::prelude::*;

verus! {

/// Coordinates of the XY plane stay within this distance of the origin (2^29), so that
/// the squared distances that the index computes in `i64` cannot overflow.
pub const WORLD_LIMIT: i64 = 536870912;

/// Squared distance of two points of the XY plane.
pub open spec fn dist2(ax: int, ay: int, bx: int, by: int) -> int {
    (ax - bx) * (ax - bx) + (ay - by) * (ay - by)
}

pub open spec fn in_world(x: int, y: int) -> bool {
    -WORLD_LIMIT <= x <= WORLD_LIMIT && -WORLD_LIMIT <= y <= WORLD_LIMIT
}

/// A two-dimensional index of ids placed at integer points, answering
/// "everything within a distance of a point".
#[verifier::external_body]
pub struct SpatialIndex {
    tree: RTree<GeomWithData<[i64; 2], u64>>,
}

/// The points and ids that an index holds.
pub uninterp spec fn spatial_entries(t: SpatialIndex) -> Set<(i64, i64, u64)>;

pub open spec fn entries_in_world(s: Set<(i64, i64, u64)>) -> bool {
    forall|e: (i64, i64, u64)| #[trigger] s.contains(e) ==> in_world(e.0 as int, e.1 as int)
}

/// `id` stands in the index at a point whose squared distance to `(x, y)` is at most `r2`.
pub open spec fn within_distance(t: SpatialIndex, x: i64, y: i64, r2: i64, id: u64) -> bool {
    exists|ex: i64, ey: i64| #[trigger] spatial_entries(t).contains((ex, ey, id))
        && dist2(ex as int, ey as int, x as int, y as int) <= r2
}

impl SpatialIndex {
    /// Relies on rstar's `RTree::bulk_load`: the tree holds exactly the elements it is given.
    #[verifier::external_body]
    pub(crate) fn bulk_load(items: Vec<(i64, i64, u64)>) -> (r: Self)
        requires
            forall|i: int| 0 <= i < items@.len() ==> in_world(items@[i].0 as int, items@[i].1 as int),
        ensures
            spatial_entries(r) == items@.to_set(),
    {
        let elements = items.into_iter().map(|(x, y, id)| GeomWithData::new([x, y], id)).collect();
        SpatialIndex { tree: RTree::bulk_load(elements) }
    }

    /// Relies on rstar's `RTree::locate_within_distance`: every element whose squared
    /// distance to the query point is at most `max_squared_radius`, and no other.
    #[verifier::external_body]
    pub(crate) fn locate_within_distance(&self, x: i64, y: i64, max_squared_radius: i64) -> (r: Vec<u64>)
        requires
            entries_in_world(spatial_entries(*self)),
            in_world(x as int, y as int),
            0 <= max_squared_radius,
        ensures
            forall|id: u64| #[trigger] r@.contains(id) <==> within_distance(*self, x, y, max_squared_radius, id),
    {
        self.tree.locate_within_distance([x, y], max_squared_radius).map(|g| g.data).collect()
    }
}

} // verus!
