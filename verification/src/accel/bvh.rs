//! The bounding volume hierarchy: a binary tree of boxes over a list of
//! bounded things, built once with the surface-area heuristic.
//!
//! Building consumes the list and hands it back reordered, so that every leaf
//! of the tree owns a contiguous range of it. What is built is stated by
//! [`spec_plan`]; the arena of nodes that holds it is read back as a [`Tree`]
//! by [`BVH::tree`].
use crate::geom::hit::{
    lemma_encloses_transitive, lemma_join_all_encloses, lemma_join_encloses,
    lemma_ray_meets_wider, lemma_union_of_pair, spec_point_extents, AxisAlignedBoundingBox,
    Bounded, BoundedHittable, Extent, Hit, Hittable,
};
use crate::math::{f_eq, spec_f_eq, Rand, Scalar, SCALE};
use crate::vec::{Coord, Point3, Ray, Vec3};
use vstd::prelude::*;

verus! {

/// The list of things that a hierarchy is built over.
pub type HittableRefs<T> = Vec<T>;

/// The number of buckets that centroids are binned into.
pub const NUM_BUCKETS: usize = 12;

/// A range of more than this many things is split by cost rather than at
/// the median.
pub const MEDIAN_LIMIT: usize = 4;

/// What building reads of one thing: its box and its centroid.
#[derive(Clone, Copy, Debug)]
pub struct Entry {
    pub lower: Point3,
    pub upper: Point3,
    pub centroid: Point3,
}

impl Entry {
    /// The box of the entry.
    pub open spec fn extent(self) -> Extent {
        Extent { lower: self.lower, upper: self.upper }
    }

    /// The entry of a bounded thing.
    pub open spec fn of<T: Bounded>(obj: T) -> Entry {
        Entry {
            lower: obj.spec_bounding_box().lower,
            upper: obj.spec_bounding_box().upper,
            centroid: obj.spec_centroid(),
        }
    }
}

/// The shape of a hierarchy. A leaf owns the range `start..end` of the
/// reordered list; a split has two subtrees and the axis it was split along.
pub enum Tree {
    Leaf { start: int, end: int, bounds: Extent },
    Split { axis: Coord, bounds: Extent, left: Box<Tree>, right: Box<Tree> },
}

impl Tree {
    /// The number of nodes of the tree, leaves and splits.
    pub open spec fn count(self) -> nat
        decreases self,
    {
        match self {
            Tree::Leaf { .. } => 1,
            Tree::Split { left, right, .. } => 1 + left.count() + right.count(),
        }
    }

    /// The bounding box of the node.
    pub open spec fn bounds(self) -> Extent {
        match self {
            Tree::Leaf { bounds, .. } => bounds,
            Tree::Split { bounds, .. } => bounds,
        }
    }

    /// Where the range of the tree begins.
    pub open spec fn first(self) -> int
        decreases self,
    {
        match self {
            Tree::Leaf { start, .. } => start,
            Tree::Split { left, .. } => left.first(),
        }
    }

    /// Where the range of the tree ends.
    pub open spec fn last(self) -> int
        decreases self,
    {
        match self {
            Tree::Leaf { end, .. } => end,
            Tree::Split { right, .. } => right.last(),
        }
    }

    /// Whether the ranges of the leaves follow one another without gap or
    /// overlap.
    pub open spec fn tiles(self) -> bool
        decreases self,
    {
        match self {
            Tree::Leaf { start, end, .. } => start <= end,
            Tree::Split { left, right, .. } => left.tiles() && right.tiles() && left.last()
                == right.first(),
        }
    }

    /// The number of leaves whose range holds the index `i`.
    pub open spec fn leaves_holding(self, i: int) -> nat
        decreases self,
    {
        match self {
            Tree::Leaf { start, end, .. } => if start <= i < end {
                1
            } else {
                0
            },
            Tree::Split { left, right, .. } => left.leaves_holding(i) + right.leaves_holding(i),
        }
    }

    /// Whether the box of every split holds the boxes of both its subtrees.
    pub open spec fn covers(self) -> bool
        decreases self,
    {
        match self {
            Tree::Leaf { .. } => true,
            Tree::Split { bounds, left, right, .. } => bounds.encloses(left.bounds())
                && bounds.encloses(right.bounds()) && left.covers() && right.covers(),
        }
    }
}

/// In a tree whose leaves tile its range, every index of the range lies in
/// exactly one leaf, and an index outside the range in none.
pub proof fn lemma_tiles_once(tree: Tree, i: int)
    requires
        tree.tiles(),
    ensures
        tree.first() <= tree.last(),
        tree.leaves_holding(i) == (if tree.first() <= i < tree.last() {
            1nat
        } else {
            0nat
        }),
    decreases tree,
{
    match tree {
        Tree::Leaf { .. } => {},
        Tree::Split { left, right, .. } => {
            lemma_tiles_once(*left, i);
            lemma_tiles_once(*right, i);
        },
    }
}

/// The entries of a list of entries paired with things.
pub open spec fn spec_entries<T>(items: Seq<(Entry, T)>) -> Seq<Entry> {
    Seq::new(items.len(), |i: int| items[i].0)
}

/// The things of a list of entries paired with things.
pub open spec fn spec_things<T>(items: Seq<(Entry, T)>) -> Seq<T> {
    Seq::new(items.len(), |i: int| items[i].1)
}

/// Each thing of a list paired with its entry.
pub open spec fn spec_paired<T: Bounded>(objs: Seq<T>) -> Seq<(Entry, T)> {
    Seq::new(objs.len(), |i: int| (Entry::of(objs[i]), objs[i]))
}

/// The boxes of the entries.
pub open spec fn spec_entry_extents(entries: Seq<Entry>) -> Seq<Extent> {
    Seq::new(entries.len(), |i: int| entries[i].extent())
}

/// The centroids of the entries.
pub open spec fn spec_entry_centroids(entries: Seq<Entry>) -> Seq<Point3> {
    Seq::new(entries.len(), |i: int| entries[i].centroid)
}

/// The union of the boxes of the entries.
pub open spec fn spec_bounds(entries: Seq<Entry>) -> Extent {
    Extent::union_of(spec_entry_extents(entries))
}

/// The box around the centroids of the entries.
pub open spec fn spec_centroid_bounds(entries: Seq<Entry>) -> Extent {
    Extent::union_of(spec_point_extents(spec_entry_centroids(entries)))
}

/// The bucket of a centroid: its offset along `axis` within the box `cb` of
/// all centroids, times the number of buckets, rounded down and clamped to
/// the buckets there are.
pub open spec fn spec_bucket(cb: Extent, axis: Coord, centroid: Point3) -> int {
    let scaled = Scalar::of(NUM_BUCKETS * SCALE).spec_mul(
        cb.point_offset(centroid).at(axis),
    ).spec_trunc();
    if scaled < 0 {
        0
    } else if scaled > NUM_BUCKETS - 1 {
        NUM_BUCKETS - 1
    } else {
        scaled
    }
}

/// Whether an entry falls on the given side of a split after bucket
/// `pivot`: on the low side with a bucket up to `pivot`, else on the high.
pub open spec fn spec_on_side(cb: Extent, axis: Coord, pivot: int, low: bool, e: Entry) -> bool {
    (spec_bucket(cb, axis, e.centroid) <= pivot) == low
}

/// The number of entries on one side of a split.
pub open spec fn spec_side_count(
    entries: Seq<Entry>,
    cb: Extent,
    axis: Coord,
    pivot: int,
    low: bool,
) -> nat
    decreases entries.len(),
{
    if entries.len() == 0 {
        0
    } else {
        spec_side_count(entries.drop_last(), cb, axis, pivot, low) + (if spec_on_side(
            cb,
            axis,
            pivot,
            low,
            entries.last(),
        ) {
            1nat
        } else {
            0nat
        })
    }
}

/// The box around the entries on one side of a split; the empty box where
/// there is none.
pub open spec fn spec_side_bounds(
    entries: Seq<Entry>,
    cb: Extent,
    axis: Coord,
    pivot: int,
    low: bool,
) -> Extent
    decreases entries.len(),
{
    if entries.len() == 0 {
        Extent::empty()
    } else {
        let rest = spec_side_bounds(entries.drop_last(), cb, axis, pivot, low);
        if spec_on_side(cb, axis, pivot, low, entries.last()) {
            rest.join(entries.last().extent())
        } else {
            rest
        }
    }
}

/// The estimated cost of splitting after bucket `pivot`:
/// `0.125 + (n_low * area_low + n_high * area_high) / area`.
#[verifier::opaque]
pub open spec fn spec_split_cost(entries: Seq<Entry>, cb: Extent, axis: Coord, pivot: int) -> Scalar {
    let n_low = Scalar::of(spec_side_count(entries, cb, axis, pivot, true) * SCALE);
    let n_high = Scalar::of(spec_side_count(entries, cb, axis, pivot, false) * SCALE);
    let area_low = spec_side_bounds(entries, cb, axis, pivot, true).surface_area();
    let area_high = spec_side_bounds(entries, cb, axis, pivot, false).surface_area();
    Scalar::of(125_000).spec_add(
        n_low.spec_mul(area_low).spec_add(n_high.spec_mul(area_high)).spec_div(
            spec_bounds(entries).surface_area(),
        ),
    )
}

/// The cheapest of the first `upto` splits; of several equally cheap, the
/// first.
#[verifier::opaque]
pub open spec fn spec_best_split(entries: Seq<Entry>, cb: Extent, axis: Coord, upto: int) -> int
    decreases upto,
{
    if upto <= 1 {
        0
    } else {
        let before = spec_best_split(entries, cb, axis, upto - 1);
        if spec_split_cost(entries, cb, axis, upto - 1)@ < spec_split_cost(
            entries,
            cb,
            axis,
            before,
        )@ {
            upto - 1
        } else {
            before
        }
    }
}

/// What is done with a range of the list.
pub enum Decision {
    /// The range becomes a leaf.
    Leaf,
    /// The range is ordered by centroid along `axis` and halved.
    Median { axis: Coord },
    /// The range is parted into the buckets up to `pivot` and those after it.
    Buckets { axis: Coord, pivot: int },
}

/// The decision for a range with the given entries: a leaf for at most one
/// entry or for centroids whose box has no volume; the median for a short
/// range; else the cheapest split, unless a leaf is at least as cheap.
pub open spec fn spec_decide(entries: Seq<Entry>) -> Decision {
    let cb = spec_centroid_bounds(entries);
    if entries.len() <= 1 || spec_f_eq(cb.volume(), Scalar::of(0)) {
        Decision::Leaf
    } else {
        let axis = cb.largest_extent_axis();
        if entries.len() <= MEDIAN_LIMIT {
            Decision::Median { axis }
        } else {
            let pivot = spec_best_split(entries, cb, axis, NUM_BUCKETS - 1);
            if spec_split_cost(entries, cb, axis, pivot)@ >= Scalar::of(entries.len() * SCALE)@ {
                Decision::Leaf
            } else {
                Decision::Buckets { axis, pivot }
            }
        }
    }
}

/// The items on one side of a split, in the order they had.
pub open spec fn spec_select<T>(
    items: Seq<(Entry, T)>,
    cb: Extent,
    axis: Coord,
    pivot: int,
    low: bool,
) -> Seq<(Entry, T)>
    decreases items.len(),
{
    if items.len() == 0 {
        Seq::empty()
    } else {
        let rest = spec_select(items.drop_last(), cb, axis, pivot, low);
        if spec_on_side(cb, axis, pivot, low, items.last().0) {
            rest.push(items.last())
        } else {
            rest
        }
    }
}

/// Where an item with centroid coordinate `key` goes into an ordered list:
/// behind the last item whose coordinate is not above `key`.
pub open spec fn spec_slot<T>(sorted: Seq<(Entry, T)>, axis: Coord, key: int) -> int
    decreases sorted.len(),
{
    if sorted.len() == 0 {
        0
    } else if sorted.last().0.centroid.at(axis)@ > key {
        spec_slot(sorted.drop_last(), axis, key)
    } else {
        sorted.len() as int
    }
}

/// The items ordered by centroid along `axis`; items with equal coordinates
/// keep their order.
pub open spec fn spec_sorted<T>(items: Seq<(Entry, T)>, axis: Coord) -> Seq<(Entry, T)>
    decreases items.len(),
{
    if items.len() == 0 {
        Seq::empty()
    } else {
        let rest = spec_sorted(items.drop_last(), axis);
        rest.insert(spec_slot(rest, axis, items.last().0.centroid.at(axis)@), items.last())
    }
}

/// The hierarchy over `items`, whose first item will stand at index `start`
/// of the reordered list, together with the items in their new order.
///
/// A split into two parts one of which is empty is not made: the range
/// becomes a leaf.
pub open spec fn spec_plan<T>(items: Seq<(Entry, T)>, start: int) -> (Tree, Seq<(Entry, T)>)
    decreases items.len(), 1int,
{
    let entries = spec_entries(items);
    let bounds = spec_bounds(entries);
    match spec_decide(entries) {
        Decision::Leaf => (Tree::Leaf { start, end: start + items.len(), bounds }, items),
        Decision::Median { axis } => {
            let sorted = spec_sorted(items, axis);
            let mid = items.len() as int / 2;
            spec_plan_halves(sorted.take(mid), sorted.skip(mid), axis, bounds, start, items.len())
        },
        Decision::Buckets { axis, pivot } => {
            let cb = spec_centroid_bounds(entries);
            spec_plan_halves(
                spec_select(items, cb, axis, pivot, true),
                spec_select(items, cb, axis, pivot, false),
                axis,
                bounds,
                start,
                items.len(),
            )
        },
    }
}

/// The hierarchy over the two parts of a range of `len` items: a split, or
/// a leaf with the given bounds where one part is empty.
pub open spec fn spec_plan_halves<T>(
    low: Seq<(Entry, T)>,
    high: Seq<(Entry, T)>,
    axis: Coord,
    bounds: Extent,
    start: int,
    len: nat,
) -> (Tree, Seq<(Entry, T)>)
    decreases len, 0int,
{
    if 0 < low.len() < len && 0 < high.len() < len {
        let (left, left_items) = spec_plan(low, start);
        let (right, right_items) = spec_plan(high, start + low.len());
        (
            Tree::Split {
                axis,
                bounds: left.bounds().join(right.bounds()),
                left: Box::new(left),
                right: Box::new(right),
            },
            left_items + right_items,
        )
    } else {
        (Tree::Leaf { start, end: start + low.len() + high.len(), bounds }, low + high)
    }
}

/// The plan of a range tiles it, starting at `start`; the box of each of
/// its splits holds the boxes of both subtrees; and it keeps every item.
pub proof fn lemma_plan_shape<T>(items: Seq<(Entry, T)>, start: int)
    ensures
        spec_plan(items, start).0.tiles(),
        spec_plan(items, start).0.covers(),
        spec_plan(items, start).0.first() == start,
        spec_plan(items, start).0.last() == start + items.len(),
        spec_plan(items, start).1.len() == items.len(),
    decreases items.len(), 1int,
{
    let entries = spec_entries(items);
    let bounds = spec_bounds(entries);
    match spec_decide(entries) {
        Decision::Leaf => {},
        Decision::Median { axis } => {
            let sorted = spec_sorted(items, axis);
            lemma_sorted_len(items, axis);
            let mid = items.len() as int / 2;
            lemma_halves_shape(sorted.take(mid), sorted.skip(mid), axis, bounds, start, items.len());
        },
        Decision::Buckets { axis, pivot } => {
            let cb = spec_centroid_bounds(entries);
            lemma_select_len(items, cb, axis, pivot);
            lemma_halves_shape(
                spec_select(items, cb, axis, pivot, true),
                spec_select(items, cb, axis, pivot, false),
                axis,
                bounds,
                start,
                items.len(),
            );
        },
    }
}

/// The shape of what [`spec_plan_halves`] plans for two parts that make up a
/// range of `len` items.
pub proof fn lemma_halves_shape<T>(
    low: Seq<(Entry, T)>,
    high: Seq<(Entry, T)>,
    axis: Coord,
    bounds: Extent,
    start: int,
    len: nat,
)
    requires
        low.len() + high.len() == len,
    ensures
        spec_plan_halves(low, high, axis, bounds, start, len).0.tiles(),
        spec_plan_halves(low, high, axis, bounds, start, len).0.covers(),
        spec_plan_halves(low, high, axis, bounds, start, len).0.first() == start,
        spec_plan_halves(low, high, axis, bounds, start, len).0.last() == start + len,
        spec_plan_halves(low, high, axis, bounds, start, len).1.len() == len,
    decreases len, 0int,
{
    if 0 < low.len() < len && 0 < high.len() < len {
        lemma_plan_shape(low, start);
        lemma_plan_shape(high, start + low.len());
        let left = spec_plan(low, start).0;
        let right = spec_plan(high, start + low.len()).0;
        lemma_join_encloses(left.bounds(), right.bounds());
    }
}

/// Ordering a list keeps its length.
pub proof fn lemma_sorted_len<T>(items: Seq<(Entry, T)>, axis: Coord)
    ensures
        spec_sorted(items, axis).len() == items.len(),
    decreases items.len(),
{
    if items.len() > 0 {
        lemma_sorted_len(items.drop_last(), axis);
        let rest = spec_sorted(items.drop_last(), axis);
        lemma_slot_range(rest, axis, items.last().0.centroid.at(axis)@);
    }
}

/// The slot of a key lies within the list, its end included.
pub proof fn lemma_slot_range<T>(sorted: Seq<(Entry, T)>, axis: Coord, key: int)
    ensures
        0 <= spec_slot(sorted, axis, key) <= sorted.len(),
    decreases sorted.len(),
{
    if sorted.len() > 0 {
        lemma_slot_range(sorted.drop_last(), axis, key);
    }
}

/// Every item of a list is on exactly one side of a split.
pub proof fn lemma_select_len<T>(items: Seq<(Entry, T)>, cb: Extent, axis: Coord, pivot: int)
    ensures
        spec_select(items, cb, axis, pivot, true).len() + spec_select(
            items,
            cb,
            axis,
            pivot,
            false,
        ).len() == items.len(),
    decreases items.len(),
{
    if items.len() > 0 {
        lemma_select_len(items.drop_last(), cb, axis, pivot);
    }
}

/// Ordering a list keeps its things, each as often as it occurred.
pub proof fn lemma_sorted_keeps<T>(items: Seq<(Entry, T)>, axis: Coord)
    ensures
        spec_things(spec_sorted(items, axis)).to_multiset() == spec_things(items).to_multiset(),
    decreases items.len(),
{
    if items.len() == 0 {
        assert(spec_things(spec_sorted(items, axis)) =~= spec_things(items));
    } else {
        let front = items.drop_last();
        let rest = spec_sorted(front, axis);
        let slot = spec_slot(rest, axis, items.last().0.centroid.at(axis)@);
        lemma_sorted_keeps(front, axis);
        lemma_slot_range(rest, axis, items.last().0.centroid.at(axis)@);
        assert(spec_things(rest.insert(slot, items.last())) =~= spec_things(rest).insert(
            slot,
            items.last().1,
        ));
        assert(spec_things(items) =~= spec_things(front).push(items.last().1));
        vstd::seq_lib::to_multiset_insert(spec_things(rest), slot, items.last().1);
        vstd::seq_lib::to_multiset_build(spec_things(front), items.last().1);
    }
}

/// The two sides of a split hold the things of the list between them, each
/// as often as it occurred.
pub proof fn lemma_select_keeps<T>(items: Seq<(Entry, T)>, cb: Extent, axis: Coord, pivot: int)
    ensures
        spec_things(spec_select(items, cb, axis, pivot, true)).to_multiset().add(
            spec_things(spec_select(items, cb, axis, pivot, false)).to_multiset(),
        ) == spec_things(items).to_multiset(),
    decreases items.len(),
{
    broadcast use vstd::multiset::group_multiset_axioms;

    let low = spec_select(items, cb, axis, pivot, true);
    let high = spec_select(items, cb, axis, pivot, false);
    if items.len() == 0 {
        assert(spec_things(low) =~= Seq::<T>::empty());
        assert(spec_things(high) =~= Seq::<T>::empty());
        assert(spec_things(items) =~= Seq::<T>::empty());
        assert(Seq::<T>::empty() + Seq::<T>::empty() =~= Seq::<T>::empty());
        vstd::seq_lib::lemma_multiset_commutative(Seq::<T>::empty(), Seq::<T>::empty());
    } else {
        let front = items.drop_last();
        let last = items.last();
        let low_front = spec_select(front, cb, axis, pivot, true);
        let high_front = spec_select(front, cb, axis, pivot, false);
        lemma_select_keeps(front, cb, axis, pivot);
        assert(spec_things(items) =~= spec_things(front).push(last.1));
        vstd::seq_lib::to_multiset_build(spec_things(front), last.1);
        if spec_on_side(cb, axis, pivot, true, last.0) {
            assert(low == low_front.push(last));
            assert(high == high_front);
            assert(spec_things(low) =~= spec_things(low_front).push(last.1));
            vstd::seq_lib::to_multiset_build(spec_things(low_front), last.1);
        } else {
            assert(spec_on_side(cb, axis, pivot, false, last.0));
            assert(high == high_front.push(last));
            assert(low == low_front);
            assert(spec_things(high) =~= spec_things(high_front).push(last.1));
            vstd::seq_lib::to_multiset_build(spec_things(high_front), last.1);
        }
        assert(spec_things(low).to_multiset().add(spec_things(high).to_multiset())
            =~= spec_things(items).to_multiset());
    }
}

/// The plan of a range keeps the things of the range, each as often as it
/// occurred: the new order is a rearrangement of the old.
pub proof fn lemma_plan_keeps<T>(items: Seq<(Entry, T)>, start: int)
    ensures
        spec_things(spec_plan(items, start).1).to_multiset() == spec_things(items).to_multiset(),
    decreases items.len(), 1int,
{
    let entries = spec_entries(items);
    let bounds = spec_bounds(entries);
    match spec_decide(entries) {
        Decision::Leaf => {},
        Decision::Median { axis } => {
            let sorted = spec_sorted(items, axis);
            lemma_sorted_len(items, axis);
            lemma_sorted_keeps(items, axis);
            let mid = items.len() as int / 2;
            lemma_halves_keep(sorted.take(mid), sorted.skip(mid), axis, bounds, start, items.len());
            assert(spec_things(sorted) =~= spec_things(sorted.take(mid)) + spec_things(
                sorted.skip(mid),
            ));
            vstd::seq_lib::lemma_multiset_commutative(
                spec_things(sorted.take(mid)),
                spec_things(sorted.skip(mid)),
            );
        },
        Decision::Buckets { axis, pivot } => {
            let cb = spec_centroid_bounds(entries);
            lemma_select_len(items, cb, axis, pivot);
            lemma_select_keeps(items, cb, axis, pivot);
            lemma_halves_keep(
                spec_select(items, cb, axis, pivot, true),
                spec_select(items, cb, axis, pivot, false),
                axis,
                bounds,
                start,
                items.len(),
            );
        },
    }
}

/// What [`spec_plan_halves`] plans for two parts keeps the things of both.
pub proof fn lemma_halves_keep<T>(
    low: Seq<(Entry, T)>,
    high: Seq<(Entry, T)>,
    axis: Coord,
    bounds: Extent,
    start: int,
    len: nat,
)
    requires
        low.len() + high.len() == len,
    ensures
        spec_things(spec_plan_halves(low, high, axis, bounds, start, len).1).to_multiset()
            == spec_things(low).to_multiset().add(spec_things(high).to_multiset()),
    decreases len, 0int,
{
    if 0 < low.len() < len && 0 < high.len() < len {
        lemma_plan_keeps(low, start);
        lemma_plan_keeps(high, start + low.len());
        lemma_plan_shape(low, start);
        lemma_plan_shape(high, start + low.len());
        let left_items = spec_plan(low, start).1;
        let right_items = spec_plan(high, start + low.len()).1;
        assert(spec_things(left_items + right_items) =~= spec_things(left_items) + spec_things(
            right_items,
        ));
        vstd::seq_lib::lemma_multiset_commutative(
            spec_things(left_items),
            spec_things(right_items),
        );
    } else {
        assert(spec_things(low + high) =~= spec_things(low) + spec_things(high));
        vstd::seq_lib::lemma_multiset_commutative(spec_things(low), spec_things(high));
    }
}

/// The plan of a range of at least one item has at most twice as many nodes
/// as items, less one; that of an empty range has one.
pub proof fn lemma_plan_count<T>(items: Seq<(Entry, T)>, start: int)
    ensures
        spec_plan(items, start).0.count() >= 1,
        items.len() >= 1 ==> spec_plan(items, start).0.count() <= 2 * items.len() - 1,
        items.len() == 0 ==> spec_plan(items, start).0.count() == 1,
    decreases items.len(), 1int,
{
    let entries = spec_entries(items);
    let bounds = spec_bounds(entries);
    match spec_decide(entries) {
        Decision::Leaf => {},
        Decision::Median { axis } => {
            let sorted = spec_sorted(items, axis);
            lemma_sorted_len(items, axis);
            let mid = items.len() as int / 2;
            lemma_halves_count(sorted.take(mid), sorted.skip(mid), axis, bounds, start, items.len());
        },
        Decision::Buckets { axis, pivot } => {
            let cb = spec_centroid_bounds(entries);
            lemma_select_len(items, cb, axis, pivot);
            lemma_halves_count(
                spec_select(items, cb, axis, pivot, true),
                spec_select(items, cb, axis, pivot, false),
                axis,
                bounds,
                start,
                items.len(),
            );
        },
    }
}

/// The number of nodes of what [`spec_plan_halves`] plans for two parts
/// that make up a range of `len` items.
pub proof fn lemma_halves_count<T>(
    low: Seq<(Entry, T)>,
    high: Seq<(Entry, T)>,
    axis: Coord,
    bounds: Extent,
    start: int,
    len: nat,
)
    requires
        low.len() + high.len() == len,
    ensures
        spec_plan_halves(low, high, axis, bounds, start, len).0.count() >= 1,
        len >= 1 ==> spec_plan_halves(low, high, axis, bounds, start, len).0.count() <= 2 * len
            - 1,
        len == 0 ==> spec_plan_halves(low, high, axis, bounds, start, len).0.count() == 1,
    decreases len, 0int,
{
    if 0 < low.len() < len && 0 < high.len() < len {
        lemma_plan_count(low, start);
        lemma_plan_count(high, start + low.len());
    }
}

/// Whether every item of a list meets `p`.
pub open spec fn spec_all<T>(items: Seq<(Entry, T)>, p: spec_fn((Entry, T)) -> bool) -> bool {
    forall|k: int| 0 <= k < items.len() ==> p(#[trigger] items[k])
}

/// Ordering a list brings in no item that was not there.
pub proof fn lemma_sorted_all<T>(
    items: Seq<(Entry, T)>,
    axis: Coord,
    p: spec_fn((Entry, T)) -> bool,
)
    requires
        spec_all(items, p),
    ensures
        spec_all(spec_sorted(items, axis), p),
    decreases items.len(),
{
    if items.len() > 0 {
        let front = items.drop_last();
        assert(spec_all(front, p)) by {
            assert forall|k: int| 0 <= k < front.len() implies p(#[trigger] front[k]) by {
                assert(front[k] == items[k]);
            }
        }
        lemma_sorted_all(front, axis, p);
        let rest = spec_sorted(front, axis);
        let slot = spec_slot(rest, axis, items.last().0.centroid.at(axis)@);
        lemma_slot_range(rest, axis, items.last().0.centroid.at(axis)@);
        let grown = rest.insert(slot, items.last());
        assert forall|k: int| 0 <= k < grown.len() implies p(#[trigger] grown[k]) by {
            if k < slot {
                assert(grown[k] == rest[k]);
            } else if k == slot {
                assert(grown[k] == items.last());
                assert(items.last() == items[items.len() - 1]);
            } else {
                assert(grown[k] == rest[k - 1]);
            }
        }
    }
}

/// A side of a split holds no item that was not in the list.
pub proof fn lemma_select_all<T>(
    items: Seq<(Entry, T)>,
    cb: Extent,
    axis: Coord,
    pivot: int,
    low: bool,
    p: spec_fn((Entry, T)) -> bool,
)
    requires
        spec_all(items, p),
    ensures
        spec_all(spec_select(items, cb, axis, pivot, low), p),
    decreases items.len(),
{
    if items.len() > 0 {
        let front = items.drop_last();
        assert(spec_all(front, p)) by {
            assert forall|k: int| 0 <= k < front.len() implies p(#[trigger] front[k]) by {
                assert(front[k] == items[k]);
            }
        }
        lemma_select_all(front, cb, axis, pivot, low, p);
        assert(items.last() == items[items.len() - 1]);
    }
}

/// The plan of a range brings in no item that was not in the range.
pub proof fn lemma_plan_all<T>(items: Seq<(Entry, T)>, start: int, p: spec_fn((Entry, T)) -> bool)
    requires
        spec_all(items, p),
    ensures
        spec_all(spec_plan(items, start).1, p),
    decreases items.len(), 1int,
{
    let entries = spec_entries(items);
    let bounds = spec_bounds(entries);
    match spec_decide(entries) {
        Decision::Leaf => {},
        Decision::Median { axis } => {
            let sorted = spec_sorted(items, axis);
            lemma_sorted_len(items, axis);
            lemma_sorted_all(items, axis, p);
            let mid = items.len() as int / 2;
            assert(spec_all(sorted.take(mid), p));
            assert(spec_all(sorted.skip(mid), p));
            lemma_halves_all(sorted.take(mid), sorted.skip(mid), axis, bounds, start, items.len(), p);
        },
        Decision::Buckets { axis, pivot } => {
            let cb = spec_centroid_bounds(entries);
            lemma_select_len(items, cb, axis, pivot);
            lemma_select_all(items, cb, axis, pivot, true, p);
            lemma_select_all(items, cb, axis, pivot, false, p);
            lemma_halves_all(
                spec_select(items, cb, axis, pivot, true),
                spec_select(items, cb, axis, pivot, false),
                axis,
                bounds,
                start,
                items.len(),
                p,
            );
        },
    }
}

/// What [`spec_plan_halves`] plans for two parts brings in no item that
/// was in neither.
pub proof fn lemma_halves_all<T>(
    low: Seq<(Entry, T)>,
    high: Seq<(Entry, T)>,
    axis: Coord,
    bounds: Extent,
    start: int,
    len: nat,
    p: spec_fn((Entry, T)) -> bool,
)
    requires
        low.len() + high.len() == len,
        spec_all(low, p),
        spec_all(high, p),
    ensures
        spec_all(spec_plan_halves(low, high, axis, bounds, start, len).1, p),
    decreases len, 0int,
{
    if 0 < low.len() < len && 0 < high.len() < len {
        lemma_plan_all(low, start, p);
        lemma_plan_all(high, start + low.len(), p);
    }
}

/// Whether the box of every leaf of the tree holds the boxes of the items
/// of its range, and the box of every split those of both its subtrees.
/// The item at index `i` of the reordered list is `out[i - base]`.
pub open spec fn spec_holds<T>(tree: Tree, out: Seq<(Entry, T)>, base: int) -> bool
    decreases tree,
{
    match tree {
        Tree::Leaf { start, end, bounds } => forall|j: int|
            0 <= j < out.len() && start <= j + base < end ==> bounds.encloses(
                (#[trigger] out[j]).0.extent(),
            ),
        Tree::Split { bounds, left, right, .. } => bounds.encloses(left.bounds())
            && bounds.encloses(right.bounds()) && spec_holds(*left, out, base) && spec_holds(
            *right,
            out,
            base,
        ),
    }
}

/// Whether the item at place `j` of `sub`, whose first item has index
/// `from`, is the item with the same index in `out`, whose first item has
/// index `base`.
pub open spec fn spec_same<T>(
    sub: Seq<(Entry, T)>,
    from: int,
    out: Seq<(Entry, T)>,
    base: int,
    j: int,
) -> bool {
    0 <= j + from - base < out.len() && out[j + from - base] == sub[j]
}

/// A tree that holds the items of one list holds those of another that
/// has the same items over the range of the tree.
proof fn lemma_holds_moved<T>(
    tree: Tree,
    sub: Seq<(Entry, T)>,
    from: int,
    out: Seq<(Entry, T)>,
    base: int,
)
    requires
        tree.tiles(),
        spec_holds(tree, sub, from),
        from <= tree.first(),
        tree.last() <= from + sub.len(),
        forall|j: int|
            0 <= j < sub.len() && tree.first() <= j + from < tree.last() ==> #[trigger] spec_same(
                sub,
                from,
                out,
                base,
                j,
            ),
    ensures
        spec_holds(tree, out, base),
    decreases tree,
{
    lemma_tiles_once(tree, 0);
    match tree {
        Tree::Leaf { start, end, bounds } => {
            assert forall|k: int| 0 <= k < out.len() && start <= k + base < end implies bounds.encloses(
                (#[trigger] out[k]).0.extent(),
            ) by {
                let j = k + base - from;
                assert(spec_same(sub, from, out, base, j));
            }
        },
        Tree::Split { left, right, .. } => {
            lemma_tiles_once(*left, 0);
            lemma_tiles_once(*right, 0);
            assert(tree.first() == left.first() && tree.last() == right.last());
            assert forall|j: int|
                0 <= j < sub.len() && left.first() <= j + from < left.last() implies #[trigger] spec_same(
                sub,
                from,
                out,
                base,
                j,
            ) by {
                assert(tree.first() <= j + from < tree.last());
            }
            assert forall|j: int|
                0 <= j < sub.len() && right.first() <= j + from < right.last() implies #[trigger] spec_same(
                sub,
                from,
                out,
                base,
                j,
            ) by {
                assert(tree.first() <= j + from < tree.last());
            }
            lemma_holds_moved(*left, sub, from, out, base);
            lemma_holds_moved(*right, sub, from, out, base);
        },
    }
}

/// The box of the entries of a list holds the box of each of them.
proof fn lemma_bounds_hold<T>(items: Seq<(Entry, T)>, k: int)
    requires
        0 <= k < items.len(),
    ensures
        spec_bounds(spec_entries(items)).encloses(items[k].0.extent()),
{
    let extents = spec_entry_extents(spec_entries(items));
    lemma_join_all_encloses(extents, k);
}

/// The plan of a range holds its items: the box of every leaf holds the
/// boxes of the items that it owns, and the box of every split those of its
/// subtrees.
pub proof fn lemma_plan_holds<T>(items: Seq<(Entry, T)>, start: int)
    ensures
        spec_holds(spec_plan(items, start).0, spec_plan(items, start).1, start),
    decreases items.len(), 1int,
{
    let entries = spec_entries(items);
    let bounds = spec_bounds(entries);
    let p = |it: (Entry, T)| bounds.encloses(it.0.extent());
    assert(spec_all(items, p)) by {
        assert forall|k: int| 0 <= k < items.len() implies p(#[trigger] items[k]) by {
            lemma_bounds_hold(items, k);
        }
    }
    match spec_decide(entries) {
        Decision::Leaf => {},
        Decision::Median { axis } => {
            let sorted = spec_sorted(items, axis);
            lemma_sorted_len(items, axis);
            lemma_sorted_all(items, axis, p);
            let mid = items.len() as int / 2;
            assert(spec_all(sorted.take(mid), p));
            assert(spec_all(sorted.skip(mid), p));
            lemma_halves_hold(sorted.take(mid), sorted.skip(mid), axis, bounds, start, items.len());
        },
        Decision::Buckets { axis, pivot } => {
            let cb = spec_centroid_bounds(entries);
            lemma_select_len(items, cb, axis, pivot);
            lemma_select_all(items, cb, axis, pivot, true, p);
            lemma_select_all(items, cb, axis, pivot, false, p);
            lemma_halves_hold(
                spec_select(items, cb, axis, pivot, true),
                spec_select(items, cb, axis, pivot, false),
                axis,
                bounds,
                start,
                items.len(),
            );
        },
    }
}

/// What [`spec_plan_halves`] plans for two parts, all of whose boxes lie in
/// `bounds`, holds its items.
pub proof fn lemma_halves_hold<T>(
    low: Seq<(Entry, T)>,
    high: Seq<(Entry, T)>,
    axis: Coord,
    bounds: Extent,
    start: int,
    len: nat,
)
    requires
        low.len() + high.len() == len,
        spec_all(low, |it: (Entry, T)| bounds.encloses(it.0.extent())),
        spec_all(high, |it: (Entry, T)| bounds.encloses(it.0.extent())),
    ensures
        spec_holds(
            spec_plan_halves(low, high, axis, bounds, start, len).0,
            spec_plan_halves(low, high, axis, bounds, start, len).1,
            start,
        ),
    decreases len, 0int,
{
    if 0 < low.len() < len && 0 < high.len() < len {
        lemma_plan_holds(low, start);
        lemma_plan_holds(high, start + low.len());
        lemma_plan_shape(low, start);
        lemma_plan_shape(high, start + low.len());
        let (left, left_items) = spec_plan(low, start);
        let (right, right_items) = spec_plan(high, start + low.len());
        let out = left_items + right_items;
        lemma_join_encloses(left.bounds(), right.bounds());
        assert forall|j: int|
            0 <= j < left_items.len() && left.first() <= j + start < left.last() implies #[trigger] spec_same(
            left_items,
            start,
            out,
            start,
            j,
        ) by {
            assert(out[j] == left_items[j]);
        }
        assert forall|j: int|
            0 <= j < right_items.len() && right.first() <= j + (start + low.len())
                < right.last() implies #[trigger] spec_same(
            right_items,
            start + low.len(),
            out,
            start,
            j,
        ) by {
            assert(out[j + low.len()] == right_items[j]);
        }
        lemma_holds_moved(left, left_items, start, out, start);
        lemma_holds_moved(right, right_items, start + low.len(), out, start);
    } else {
        let out = low + high;
        let p = |it: (Entry, T)| bounds.encloses(it.0.extent());
        assert forall|j: int| 0 <= j < out.len() implies bounds.encloses(
            (#[trigger] out[j]).0.extent(),
        ) by {
            if j < low.len() {
                assert(out[j] == low[j]);
                assert(p(low[j]));
            } else {
                assert(out[j] == high[j - low.len()]);
                assert(p(high[j - low.len()]));
            }
        }
    }
}

/// The box of a tree that holds its items holds the box of every item of
/// its range.
proof fn lemma_holds_bounds<T>(tree: Tree, out: Seq<(Entry, T)>, base: int, j: int)
    requires
        tree.tiles(),
        spec_holds(tree, out, base),
        tree.first() <= j + base < tree.last(),
        0 <= j < out.len(),
    ensures
        tree.bounds().encloses(out[j].0.extent()),
    decreases tree,
{
    match tree {
        Tree::Leaf { .. } => {},
        Tree::Split { left, right, .. } => {
            lemma_tiles_once(*left, 0);
            lemma_tiles_once(*right, 0);
            if j + base < left.last() {
                lemma_holds_bounds(*left, out, base, j);
                lemma_encloses_transitive(tree.bounds(), left.bounds(), out[j].0.extent());
            } else {
                lemma_holds_bounds(*right, out, base, j);
                lemma_encloses_transitive(tree.bounds(), right.bounds(), out[j].0.extent());
            }
        },
    }
}

/// A node of the hierarchy: a leaf with the range of things it owns, or an
/// interior node with its two children and the axis they were parted along.
#[derive(Clone, Copy, Debug)]
pub struct BVHNode {
    bounding_box: AxisAlignedBoundingBox,
    object_indices: Option<(usize, usize)>,
    children_indices: Option<(usize, usize)>,
    split_axis: Option<Coord>,
}

impl BVHNode {
    /// Whether the node may stand at index `k` of an arena over `limit`
    /// things: the children of an interior node stand before it, and the range
    /// of a leaf lies within the list.
    pub closed spec fn ok(self, k: int, limit: int) -> bool {
        match self.children_indices {
            Some((l, r)) => l < k && r < k,
            None => match self.object_indices {
                Some((s, e)) => s <= e <= limit,
                None => false,
            },
        }
    }

    /// The bounding box of the node.
    pub closed spec fn bounds(self) -> Extent {
        self.bounding_box@
    }

    /// The range of things that a leaf owns; none for an interior node.
    pub closed spec fn spec_object_indices(self) -> Option<(usize, usize)> {
        self.object_indices
    }

    /// The two children of an interior node; none for a leaf.
    pub closed spec fn spec_children_indices(self) -> Option<(usize, usize)> {
        self.children_indices
    }

    /// The axis along which the things of an interior node were parted.
    pub closed spec fn spec_split_axis(self) -> Option<Coord> {
        self.split_axis
    }

    /// The axis-aligned box that bounds it.
    pub fn bounding_box(&self) -> (b: &AxisAlignedBoundingBox)
        ensures
            b@ == self.bounds(),
    {
        &self.bounding_box
    }

    /// The range of things that a leaf owns; none for an interior node.
    pub fn object_indices(&self) -> (range: Option<(usize, usize)>)
        ensures
            range == self.spec_object_indices(),
    {
        self.object_indices
    }

    /// The places of the two children of an interior node; none for a leaf.
    pub fn children_indices(&self) -> (children: Option<(usize, usize)>)
        ensures
            children == self.spec_children_indices(),
    {
        self.children_indices
    }

    /// The axis along which an interior node parts its things; none for a leaf.
    pub fn split_axis(&self) -> (axis: Option<Coord>)
        ensures
            axis == self.spec_split_axis(),
    {
        self.split_axis
    }
}

/// Whether every node of the arena may stand where it stands.
pub open spec fn spec_arena_ok(nodes: Seq<BVHNode>, limit: int) -> bool {
    forall|k: int| 0 <= k < nodes.len() ==> (#[trigger] nodes[k]).ok(k, limit)
}

/// The tree below node `k` of the arena.
pub closed spec fn spec_subtree(nodes: Seq<BVHNode>, k: int) -> Tree
    decreases k,
{
    if 0 <= k < nodes.len() {
        let node = nodes[k];
        match node.children_indices {
            Some((l, r)) => if l < k && r < k {
                Tree::Split {
                    axis: match node.split_axis {
                        Some(axis) => axis,
                        None => Coord::X,
                    },
                    bounds: node.bounding_box@,
                    left: Box::new(spec_subtree(nodes, l as int)),
                    right: Box::new(spec_subtree(nodes, r as int)),
                }
            } else {
                Tree::Leaf { start: 0, end: 0, bounds: node.bounding_box@ }
            },
            None => match node.object_indices {
                Some((s, e)) => Tree::Leaf { start: s as int, end: e as int, bounds: node.bounding_box@ },
                None => Tree::Leaf { start: 0, end: 0, bounds: node.bounding_box@ },
            },
        }
    } else {
        Tree::Leaf { start: 0, end: 0, bounds: Extent::empty() }
    }
}

/// The tree below a node depends on the nodes up to that node alone.
proof fn lemma_subtree_prefix(a: Seq<BVHNode>, b: Seq<BVHNode>, k: int)
    requires
        0 <= k < a.len() <= b.len(),
        forall|i: int| 0 <= i <= k ==> a[i] == b[i],
    ensures
        spec_subtree(a, k) == spec_subtree(b, k),
    decreases k,
{
    match a[k].children_indices {
        Some((l, r)) => {
            if l < k && r < k {
                lemma_subtree_prefix(a, b, l as int);
                lemma_subtree_prefix(a, b, r as int);
            }
        },
        None => {},
    }
}

/// The list in the opposite order.
fn reversed<A>(v: Vec<A>) -> (r: Vec<A>)
    ensures
        r@ == v@.reverse(),
{
    let mut v = v;
    let ghost orig = v@;
    let mut r: Vec<A> = Vec::new();
    while v.len() > 0
        invariant
            v@ == orig.take(v.len() as int),
            r.len() + v.len() == orig.len(),
            forall|j: int| 0 <= j < r.len() ==> r[j] == orig[orig.len() - 1 - j],
        decreases v.len(),
    {
        let last = v.pop();
        match last {
            Some(x) => {
                r.push(x);
            },
            None => {},
        }
    }
    assert(r@ =~= orig.reverse());
    r
}

/// The union of the boxes of the items.
fn bounds_of<T>(items: &Vec<(Entry, T)>) -> (b: AxisAlignedBoundingBox)
    ensures
        b@ == spec_bounds(spec_entries(items@)),
{
    if items.len() == 0 {
        return AxisAlignedBoundingBox::new(Point3::o(), Point3::o());
    }
    let ghost extents = spec_entry_extents(spec_entries(items@));
    let mut all: AxisAlignedBoundingBox = AxisAlignedBoundingBox::empty();
    let mut i: usize = 0;
    while i < items.len()
        invariant
            i <= items.len(),
            extents == spec_entry_extents(spec_entries(items@)),
            all@ == Extent::join_all(extents.take(i as int)),
        decreases items.len() - i,
    {
        assert(extents.take(i + 1).drop_last() =~= extents.take(i as int));
        let entry: Entry = items[i].0;
        let next: AxisAlignedBoundingBox = AxisAlignedBoundingBox::new(entry.upper, entry.lower);
        all = all.join(&next);
        i += 1;
    }
    assert(extents.take(i as int) =~= extents);
    all
}

/// The box around the centroids of the items.
fn centroid_bounds_of<T>(items: &Vec<(Entry, T)>) -> (b: AxisAlignedBoundingBox)
    ensures
        b@ == spec_centroid_bounds(spec_entries(items@)),
{
    if items.len() == 0 {
        return AxisAlignedBoundingBox::new(Point3::o(), Point3::o());
    }
    let ghost extents = spec_point_extents(spec_entry_centroids(spec_entries(items@)));
    let mut all: AxisAlignedBoundingBox = AxisAlignedBoundingBox::empty();
    let mut i: usize = 0;
    while i < items.len()
        invariant
            i <= items.len(),
            extents == spec_point_extents(spec_entry_centroids(spec_entries(items@))),
            all@ == Extent::join_all(extents.take(i as int)),
        decreases items.len() - i,
    {
        assert(extents.take(i + 1).drop_last() =~= extents.take(i as int));
        let entry: Entry = items[i].0;
        let next: AxisAlignedBoundingBox = AxisAlignedBoundingBox::new(
            entry.centroid,
            entry.centroid,
        );
        all = all.join(&next);
        i += 1;
    }
    assert(extents.take(i as int) =~= extents);
    all
}

/// The bucket of a centroid within the box `cb` of all centroids.
fn bucket(cb: &AxisAlignedBoundingBox, axis: Coord, centroid: &Point3) -> (b: usize)
    ensures
        b == spec_bucket(cb@, axis, *centroid),
        b < NUM_BUCKETS,
{
    let offset: Scalar = cb.point_offset(centroid).get(axis);
    let scaled: i64 = Scalar::from_count(NUM_BUCKETS).mul(offset).trunc();
    if scaled < 0 {
        0
    } else if scaled > 11 {
        NUM_BUCKETS - 1
    } else {
        scaled as usize
    }
}

/// The number of items on one side of a split, and the box around them.
fn side_stats<T>(
    items: &Vec<(Entry, T)>,
    cb: &AxisAlignedBoundingBox,
    axis: Coord,
    pivot: usize,
    low: bool,
) -> (stats: (usize, AxisAlignedBoundingBox))
    ensures
        stats.0 == spec_side_count(spec_entries(items@), cb@, axis, pivot as int, low),
        stats.1@ == spec_side_bounds(spec_entries(items@), cb@, axis, pivot as int, low),
{
    let ghost entries = spec_entries(items@);
    let mut count: usize = 0;
    let mut all: AxisAlignedBoundingBox = AxisAlignedBoundingBox::empty();
    let mut i: usize = 0;
    while i < items.len()
        invariant
            i <= items.len(),
            entries == spec_entries(items@),
            count <= i,
            count == spec_side_count(entries.take(i as int), cb@, axis, pivot as int, low),
            all@ == spec_side_bounds(entries.take(i as int), cb@, axis, pivot as int, low),
        decreases items.len() - i,
    {
        assert(entries.take(i + 1).drop_last() =~= entries.take(i as int));
        let entry: Entry = items[i].0;
        if (bucket(cb, axis, &entry.centroid) <= pivot) == low {
            count += 1;
            let next: AxisAlignedBoundingBox = AxisAlignedBoundingBox::new(
                entry.upper,
                entry.lower,
            );
            all = all.join(&next);
        }
        i += 1;
    }
    assert(entries.take(i as int) =~= entries);
    (count, all)
}

/// The estimated cost of splitting after bucket `pivot`, where `area` is the
/// surface area of the box around all items.
fn split_cost<T>(
    items: &Vec<(Entry, T)>,
    cb: &AxisAlignedBoundingBox,
    axis: Coord,
    pivot: usize,
    area: Scalar,
) -> (cost: Scalar)
    requires
        area == spec_bounds(spec_entries(items@)).surface_area(),
    ensures
        cost == spec_split_cost(spec_entries(items@), cb@, axis, pivot as int),
{
    reveal(spec_split_cost);
    let (n_low, box_low) = side_stats(items, cb, axis, pivot, true);
    let (n_high, box_high) = side_stats(items, cb, axis, pivot, false);
    let weighted: Scalar = Scalar::from_count(n_low).mul(box_low.surface_area()).add(
        Scalar::from_count(n_high).mul(box_high.surface_area()),
    );
    Scalar::from_raw(125_000).add(weighted.div(area))
}

/// The cheapest split and its cost.
fn best_split<T>(items: &Vec<(Entry, T)>, cb: &AxisAlignedBoundingBox, axis: Coord, area: Scalar) -> (best: (
    usize,
    Scalar,
))
    requires
        area == spec_bounds(spec_entries(items@)).surface_area(),
    ensures
        best.0 == spec_best_split(spec_entries(items@), cb@, axis, NUM_BUCKETS - 1),
        best.1 == spec_split_cost(spec_entries(items@), cb@, axis, best.0 as int),
{
    let mut pivot: usize = 0;
    let mut cost: Scalar = split_cost(items, cb, axis, 0, area);
    let mut i: usize = 1;
    assert(spec_best_split(spec_entries(items@), cb@, axis, 1) == 0) by {
        reveal_with_fuel(spec_best_split, 1);
    }
    while i < NUM_BUCKETS - 1
        invariant
            1 <= i <= NUM_BUCKETS - 1,
            area == spec_bounds(spec_entries(items@)).surface_area(),
            pivot < i,
            pivot == spec_best_split(spec_entries(items@), cb@, axis, i as int),
            cost == spec_split_cost(spec_entries(items@), cb@, axis, pivot as int),
        decreases NUM_BUCKETS - 1 - i,
    {
        let next: Scalar = split_cost(items, cb, axis, i, area);
        assert(spec_best_split(spec_entries(items@), cb@, axis, i + 1) == (if next@ < cost@ {
            i as int
        } else {
            pivot as int
        })) by {
            reveal_with_fuel(spec_best_split, 1);
        }
        if next.raw < cost.raw {
            pivot = i;
            cost = next;
        }
        i += 1;
    }
    (pivot, cost)
}

/// Parts the items into those in the buckets up to `pivot` and those after
/// it, each part in the order it had.
fn partition<T>(items: Vec<(Entry, T)>, cb: &AxisAlignedBoundingBox, axis: Coord, pivot: usize) -> (parts: (
    Vec<(Entry, T)>,
    Vec<(Entry, T)>,
))
    ensures
        parts.0@ == spec_select(items@, cb@, axis, pivot as int, true),
        parts.1@ == spec_select(items@, cb@, axis, pivot as int, false),
        parts.0.len() + parts.1.len() == items.len(),
{
    let ghost orig = items@;
    assert(orig.len() == items.len());
    let mut rest: Vec<(Entry, T)> = reversed(items);
    let mut low: Vec<(Entry, T)> = Vec::new();
    let mut high: Vec<(Entry, T)> = Vec::new();
    let mut i: usize = 0;
    while rest.len() > 0
        invariant
            i + rest.len() == orig.len() <= usize::MAX,
            forall|j: int| 0 <= j < rest.len() ==> rest[j] == orig[orig.len() - 1 - j],
            low@ == spec_select(orig.take(i as int), cb@, axis, pivot as int, true),
            high@ == spec_select(orig.take(i as int), cb@, axis, pivot as int, false),
            low.len() + high.len() == i,
        decreases rest.len(),
    {
        assert(orig.take(i + 1).drop_last() =~= orig.take(i as int));
        let next = rest.pop();
        match next {
            Some(item) => {
                if bucket(cb, axis, &item.0.centroid) <= pivot {
                    low.push(item);
                } else {
                    high.push(item);
                }
            },
            None => {},
        }
        i += 1;
    }
    assert(orig.take(i as int) =~= orig);
    (low, high)
}

/// Where an item with centroid coordinate `key` goes into the ordered list.
fn slot<T>(sorted: &Vec<(Entry, T)>, axis: Coord, key: i64) -> (p: usize)
    ensures
        p == spec_slot(sorted@, axis, key as int),
        p <= sorted.len(),
{
    let mut p: usize = sorted.len();
    assert(sorted@.take(p as int) =~= sorted@);
    while p > 0 && sorted[p - 1].0.centroid.get(axis).raw > key
        invariant
            p <= sorted.len(),
            spec_slot(sorted@, axis, key as int) == spec_slot(sorted@.take(p as int), axis, key as int),
        decreases p,
    {
        assert(sorted@.take(p as int).drop_last() =~= sorted@.take(p - 1));
        p -= 1;
    }
    p
}

/// Orders the items by centroid along `axis`; items with equal coordinates
/// keep their order.
pub(crate) fn sort<T>(items: Vec<(Entry, T)>, axis: Coord) -> (sorted: Vec<(Entry, T)>)
    ensures
        sorted@ == spec_sorted(items@, axis),
        sorted.len() == items.len(),
{
    let ghost orig = items@;
    assert(orig.len() == items.len());
    let mut rest: Vec<(Entry, T)> = reversed(items);
    let mut sorted: Vec<(Entry, T)> = Vec::new();
    let mut i: usize = 0;
    while rest.len() > 0
        invariant
            i + rest.len() == orig.len() <= usize::MAX,
            forall|j: int| 0 <= j < rest.len() ==> rest[j] == orig[orig.len() - 1 - j],
            sorted@ == spec_sorted(orig.take(i as int), axis),
            sorted.len() == i,
        decreases rest.len(),
    {
        assert(orig.take(i + 1).drop_last() =~= orig.take(i as int));
        let next = rest.pop();
        match next {
            Some(item) => {
                let p: usize = slot(&sorted, axis, item.0.centroid.get(axis).raw);
                sorted.insert(p, item);
            },
            None => {},
        }
        i += 1;
    }
    assert(orig.take(i as int) =~= orig);
    sorted
}

/// What building a range leaves behind: the arena grown by the nodes of the
/// planned tree, the last of which is node `k`, its root; and the list grown
/// by the things of the range in their planned order.
#[verifier::opaque]
pub open spec fn spec_built<T>(
    nodes_before: Seq<BVHNode>,
    out_before: Seq<T>,
    nodes_after: Seq<BVHNode>,
    out_after: Seq<T>,
    k: int,
    plan: (Tree, Seq<(Entry, T)>),
) -> bool {
    &&& nodes_after.len() == nodes_before.len() + plan.0.count()
    &&& nodes_after.len() > nodes_before.len()
    &&& k == nodes_after.len() - 1
    &&& nodes_after.take(nodes_before.len() as int) == nodes_before
    &&& spec_arena_ok(nodes_after, out_after.len() as int)
    &&& spec_subtree(nodes_after, k) == plan.0
    &&& out_after == out_before + spec_things(plan.1)
}

/// What follows from a range having been built.
proof fn lemma_built_facts<T>(
    nodes_before: Seq<BVHNode>,
    out_before: Seq<T>,
    nodes_after: Seq<BVHNode>,
    out_after: Seq<T>,
    k: int,
    items: Seq<(Entry, T)>,
    start: int,
)
    requires
        spec_built(nodes_before, out_before, nodes_after, out_after, k, spec_plan(items, start)),
    ensures
        nodes_after.len() > nodes_before.len(),
        nodes_after.len() == nodes_before.len() + spec_plan(items, start).0.count(),
        k == nodes_after.len() - 1,
        spec_arena_ok(nodes_after, out_after.len() as int),
        out_after.len() == out_before.len() + items.len(),
        spec_subtree(nodes_after, k) == spec_plan(items, start).0,
        out_after == out_before + spec_things(spec_plan(items, start).1),
{
    reveal(spec_built);
    lemma_plan_shape(items, start);
}

/// Two ranges built one after the other, with an interior node over their
/// roots, are the range of both built as one split.
proof fn lemma_built_split<T>(
    n0: Seq<BVHNode>,
    o0: Seq<T>,
    n1: Seq<BVHNode>,
    o1: Seq<T>,
    n2: Seq<BVHNode>,
    o2: Seq<T>,
    n3: Seq<BVHNode>,
    left: int,
    right: int,
    k: int,
    low: Seq<(Entry, T)>,
    high: Seq<(Entry, T)>,
    axis: Coord,
    bounds: Extent,
    len: nat,
)
    requires
        0 < low.len() < len,
        0 < high.len() < len,
        spec_built(n0, o0, n1, o1, left, spec_plan(low, o0.len() as int)),
        spec_built(n1, o1, n2, o2, right, spec_plan(high, o1.len() as int)),
        n3.len() == n2.len() + 1,
        k == n2.len(),
        n3.take(n2.len() as int) == n2,
        spec_arena_ok(n3, o2.len() as int),
        spec_subtree(n3, k) == (Tree::Split {
            axis,
            bounds: spec_subtree(n2, left).bounds().join(spec_subtree(n2, right).bounds()),
            left: Box::new(spec_subtree(n2, left)),
            right: Box::new(spec_subtree(n2, right)),
        }),
    ensures
        spec_built(
            n0,
            o0,
            n3,
            o2,
            k,
            spec_plan_halves(low, high, axis, bounds, o0.len() as int, len),
        ),
{
    let start = o0.len() as int;
    lemma_built_facts(n0, o0, n1, o1, left, low, start);
    lemma_built_facts(n1, o1, n2, o2, right, high, o1.len() as int);
    reveal(spec_built);
    assert(n2.take(n1.len() as int) == n1);
    assert forall|i: int| 0 <= i <= left implies n1[i] == n2[i] by {
        assert(n2.take(n1.len() as int)[i] == n2[i]);
    }
    lemma_subtree_prefix(n1, n2, left);
    assert(n3.take(n0.len() as int) =~= n0) by {
        assert(n1.take(n0.len() as int) == n0);
        assert forall|i: int| 0 <= i < n0.len() implies n3[i] == n0[i] by {
            assert(n3.take(n2.len() as int)[i] == n3[i]);
            assert(n2.take(n1.len() as int)[i] == n2[i]);
            assert(n1.take(n0.len() as int)[i] == n1[i]);
        }
    }
    let left_items = spec_plan(low, start).1;
    let right_items = spec_plan(high, start + low.len()).1;
    assert(o2 =~= o0 + spec_things(left_items + right_items));
}

/// Appends a leaf that owns `items`, whose things go to the end of `out`.
fn add_leaf_node<T>(
    nodes: &mut Vec<BVHNode>,
    out: &mut Vec<T>,
    items: Vec<(Entry, T)>,
    bounding_box: AxisAlignedBoundingBox,
) -> (k: usize)
    requires
        old(out).len() + items.len() <= usize::MAX,
        spec_arena_ok(old(nodes)@, old(out).len() as int),
    ensures
        spec_built(
            old(nodes)@,
            old(out)@,
            final(nodes)@,
            final(out)@,
            k as int,
            (
                Tree::Leaf {
                    start: old(out).len() as int,
                    end: old(out).len() + items.len(),
                    bounds: bounding_box@,
                },
                items@,
            ),
        ),
{
    let ghost orig = items@;
    let ghost out_before = out@;
    let start: usize = out.len();
    let end: usize = start + items.len();
    let mut rest: Vec<(Entry, T)> = reversed(items);
    let mut i: usize = 0;
    while rest.len() > 0
        invariant
            i + rest.len() == orig.len(),
            start + orig.len() == end,
            forall|j: int| 0 <= j < rest.len() ==> rest[j] == orig[orig.len() - 1 - j],
            out@ == out_before + spec_things(orig.take(i as int)),
        decreases rest.len(),
    {
        let next = rest.pop();
        match next {
            Some(item) => {
                out.push(item.1);
            },
            None => {},
        }
        assert(out@ =~= out_before + spec_things(orig.take(i + 1)));
        i += 1;
    }
    assert(orig.take(i as int) =~= orig);
    let ghost before = nodes@;
    nodes.push(
        BVHNode {
            bounding_box,
            split_axis: None,
            object_indices: Some((start, end)),
            children_indices: None,
        },
    );
    proof {
        assert(nodes@.take(before.len() as int) =~= before);
        reveal(spec_built);
    }
    nodes.len() - 1
}

/// Appends an interior node over two nodes of the arena, whose box is the
/// union of theirs.
fn add_interior_node(
    nodes: &mut Vec<BVHNode>,
    split_axis: Coord,
    children_indices: (usize, usize),
    Ghost(limit): Ghost<int>,
) -> (k: usize)
    requires
        children_indices.0 < old(nodes).len(),
        children_indices.1 < old(nodes).len(),
        spec_arena_ok(old(nodes)@, limit),
    ensures
        final(nodes).len() == old(nodes).len() + 1,
        k == old(nodes).len(),
        final(nodes)@.take(old(nodes).len() as int) == old(nodes)@,
        spec_arena_ok(final(nodes)@, limit),
        spec_subtree(final(nodes)@, k as int) == (Tree::Split {
            axis: split_axis,
            bounds: spec_subtree(old(nodes)@, children_indices.0 as int).bounds().join(
                spec_subtree(old(nodes)@, children_indices.1 as int).bounds(),
            ),
            left: Box::new(spec_subtree(old(nodes)@, children_indices.0 as int)),
            right: Box::new(spec_subtree(old(nodes)@, children_indices.1 as int)),
        }),
{
    let ghost before = nodes@;
    let left_box: AxisAlignedBoundingBox = nodes[children_indices.0].bounding_box;
    let right_box: AxisAlignedBoundingBox = nodes[children_indices.1].bounding_box;
    let mut boxes: Vec<&AxisAlignedBoundingBox> = Vec::new();
    boxes.push(&left_box);
    boxes.push(&right_box);
    let bounds: AxisAlignedBoundingBox = AxisAlignedBoundingBox::union(boxes);
    proof {
        lemma_union_of_pair(left_box@, right_box@);
        assert(crate::geom::hit::spec_extents(boxes@) =~= seq![left_box@, right_box@]);
    }
    nodes.push(
        BVHNode {
            split_axis: Some(split_axis),
            children_indices: Some(children_indices),
            object_indices: None,
            bounding_box: bounds,
        },
    );
    proof {
        assert(nodes@.take(before.len() as int) =~= before);
        lemma_subtree_prefix(before, nodes@, children_indices.0 as int);
        lemma_subtree_prefix(before, nodes@, children_indices.1 as int);
    }
    nodes.len() - 1
}

/// Builds the hierarchy over `items` at the end of the arena and returns the
/// index of its root; the things of `items` go to the end of `out` in the
/// order of the leaves.
fn build<T>(nodes: &mut Vec<BVHNode>, out: &mut Vec<T>, items: Vec<(Entry, T)>) -> (k: usize)
    requires
        old(out).len() + items.len() <= usize::MAX,
        spec_arena_ok(old(nodes)@, old(out).len() as int),
    ensures
        spec_built(
            old(nodes)@,
            old(out)@,
            final(nodes)@,
            final(out)@,
            k as int,
            spec_plan(items@, old(out).len() as int),
        ),
    decreases items.len(), 1int,
{
    let num_objs: usize = items.len();
    let ghost entries = spec_entries(items@);
    let ghost start = out.len() as int;
    let bounds: AxisAlignedBoundingBox = bounds_of(&items);
    if num_objs <= 1 {
        assert(spec_plan(items@, start) == (
            Tree::Leaf { start, end: start + items.len(), bounds: bounds@ },
            items@,
        ));
        return add_leaf_node(nodes, out, items, bounds);
    }
    let centroids_bounds: AxisAlignedBoundingBox = centroid_bounds_of(&items);
    if f_eq(centroids_bounds.volume(), Scalar::zero()) {
        assert(spec_plan(items@, start) == (
            Tree::Leaf { start, end: start + items.len(), bounds: bounds@ },
            items@,
        ));
        return add_leaf_node(nodes, out, items, bounds);
    }
    let split_axis: Coord = centroids_bounds.largest_extent_axis();
    if num_objs <= MEDIAN_LIMIT {
        assert(spec_decide(entries) == Decision::Median { axis: split_axis });
        let ghost sorted = spec_sorted(items@, split_axis);
        let ghost mid = items.len() as int / 2;
        assert(spec_plan(items@, start) == spec_plan_halves(
            sorted.take(mid),
            sorted.skip(mid),
            split_axis,
            bounds@,
            start,
            items.len() as nat,
        ));
        let mut low: Vec<(Entry, T)> = sort(items, split_axis);
        let high: Vec<(Entry, T)> = low.split_off(num_objs / 2);
        build_halves(nodes, out, low, high, split_axis, bounds, num_objs)
    } else {
        let (pivot, min_cost) = best_split(
            &items,
            &centroids_bounds,
            split_axis,
            bounds.surface_area(),
        );
        let leaf_cost: Scalar = Scalar::from_count(num_objs);
        if min_cost.raw >= leaf_cost.raw {
            assert(spec_decide(entries) == Decision::Leaf);
            assert(spec_plan(items@, start) == (
                Tree::Leaf { start, end: start + items.len(), bounds: bounds@ },
                items@,
            ));
            add_leaf_node(nodes, out, items, bounds)
        } else {
            assert(spec_decide(entries) == Decision::Buckets {
                axis: split_axis,
                pivot: pivot as int,
            });
            assert(spec_plan(items@, start) == spec_plan_halves(
                spec_select(items@, centroids_bounds@, split_axis, pivot as int, true),
                spec_select(items@, centroids_bounds@, split_axis, pivot as int, false),
                split_axis,
                bounds@,
                start,
                items.len() as nat,
            ));
            let (low, high) = partition(items, &centroids_bounds, split_axis, pivot);
            build_halves(nodes, out, low, high, split_axis, bounds, num_objs)
        }
    }
}

/// Builds the two subtrees over the parts of a range of `len` items and the
/// interior node above them; where one part is empty, a leaf over the other.
fn build_halves<T>(
    nodes: &mut Vec<BVHNode>,
    out: &mut Vec<T>,
    low: Vec<(Entry, T)>,
    high: Vec<(Entry, T)>,
    split_axis: Coord,
    bounds: AxisAlignedBoundingBox,
    len: usize,
) -> (k: usize)
    requires
        low.len() + high.len() == len,
        old(out).len() + len <= usize::MAX,
        spec_arena_ok(old(nodes)@, old(out).len() as int),
    ensures
        spec_built(
            old(nodes)@,
            old(out)@,
            final(nodes)@,
            final(out)@,
            k as int,
            spec_plan_halves(low@, high@, split_axis, bounds@, old(out).len() as int, len as nat),
        ),
    decreases len, 0int,
{
    let ghost low_items = low@;
    let ghost high_items = high@;
    if low.len() == 0 || high.len() == 0 {
        let mut all: Vec<(Entry, T)> = low;
        let mut rest: Vec<(Entry, T)> = high;
        all.append(&mut rest);
        return add_leaf_node(nodes, out, all, bounds);
    }
    let ghost start = out.len() as int;
    let ghost n0 = nodes@;
    let ghost o0 = out@;
    let left_child_index: usize = build(nodes, out, low);
    let ghost n1 = nodes@;
    let ghost o1 = out@;
    proof {
        lemma_built_facts(n0, o0, n1, o1, left_child_index as int, low_items, start);
    }
    let right_child_index: usize = build(nodes, out, high);
    let ghost n2 = nodes@;
    let ghost o2 = out@;
    proof {
        lemma_built_facts(n1, o1, n2, o2, right_child_index as int, high_items, o1.len() as int);
    }
    let k: usize = add_interior_node(
        nodes,
        split_axis,
        (left_child_index, right_child_index),
        Ghost(out.len() as int),
    );
    proof {
        lemma_built_split(
            n0,
            o0,
            n1,
            o1,
            n2,
            o2,
            nodes@,
            left_child_index as int,
            right_child_index as int,
            k as int,
            low_items,
            high_items,
            split_axis,
            bounds@,
            len as nat,
        );
    }
    k
}

/// A bounding volume hierarchy over a list of things.
pub struct BVH<T> {
    nodes: Vec<BVHNode>,
    root: usize,
    objects: HittableRefs<T>,
}

impl<T> BVH<T> {
    #[verifier::type_invariant]
    spec fn well_formed(self) -> bool {
        &&& self.nodes.len() > 0
        &&& self.root == self.nodes.len() - 1
        &&& spec_arena_ok(self.nodes@, self.objects.len() as int)
    }

    /// The shape of the hierarchy.
    pub closed spec fn tree(&self) -> Tree {
        spec_subtree(self.nodes@, self.root as int)
    }

    /// The things of the hierarchy, in the order of its leaves.
    pub closed spec fn spec_objects(&self) -> Seq<T> {
        self.objects@
    }

    /// The things, in the order in which the leaves own them.
    pub fn objects(&self) -> (objects: &HittableRefs<T>)
        ensures
            objects@ == self.spec_objects(),
    {
        &self.objects
    }
}

impl<T: Bounded> BVH<T> {
    /// Builds the hierarchy over `objects`.
    ///
    /// The tree is the one that [`spec_plan`] plans for the things paired
    /// with their boxes and centroids, and the things are kept in the order
    /// that it plans. The leaves of the tree tile the list: every index lies
    /// in exactly one leaf. The box of every interior node holds the boxes
    /// of both its children.
    pub fn new(objects: HittableRefs<T>) -> (bvh: BVH<T>)
        ensures
            bvh.tree() == spec_plan(spec_paired(objects@), 0).0,
            bvh.spec_objects() == spec_things(spec_plan(spec_paired(objects@), 0).1),
            bvh.spec_objects().len() == objects.len(),
            bvh.spec_objects().to_multiset() == objects@.to_multiset(),
            bvh.spec_nodes().len() == bvh.tree().count(),
            objects.len() >= 1 ==> bvh.spec_nodes().len() <= 2 * objects.len() - 1,
            bvh.tree().tiles(),
            bvh.tree().covers(),
            bvh.tree().first() == 0,
            bvh.tree().last() == objects.len(),
            forall|i: int| 0 <= i < objects.len() ==> bvh.tree().leaves_holding(i) == 1,
    {
        let ghost orig = objects@;
        assert(orig.len() == objects.len());
        let mut rest: Vec<T> = reversed(objects);
        let mut items: Vec<(Entry, T)> = Vec::new();
        let mut i: usize = 0;
        while rest.len() > 0
            invariant
                i + rest.len() == orig.len() <= usize::MAX,
                forall|j: int| 0 <= j < rest.len() ==> rest[j] == orig[orig.len() - 1 - j],
                items.len() == i,
                forall|j: int| 0 <= j < i ==> items[j] == (Entry::of(orig[j]), orig[j]),
            decreases rest.len(),
        {
            let next = rest.pop();
            match next {
                Some(obj) => {
                    let bounding_box: AxisAlignedBoundingBox = obj.bounding_box();
                    let centroid: Point3 = obj.centroid();
                    items.push(
                        (
                            Entry {
                                lower: bounding_box.bbl_corner(),
                                upper: bounding_box.ftr_corner(),
                                centroid,
                            },
                            obj,
                        ),
                    );
                },
                None => {},
            }
            i += 1;
        }
        assert(items@ =~= spec_paired(orig));
        let mut nodes: Vec<BVHNode> = Vec::new();
        let mut ordered: Vec<T> = Vec::new();
        let root: usize = build(&mut nodes, &mut ordered, items);
        proof {
            lemma_built_facts(
                Seq::<BVHNode>::empty(),
                Seq::<T>::empty(),
                nodes@,
                ordered@,
                root as int,
                spec_paired(orig),
                0,
            );
            lemma_plan_shape(spec_paired(orig), 0);
            lemma_plan_count(spec_paired(orig), 0);
            lemma_plan_keeps(spec_paired(orig), 0);
            assert(spec_things(spec_paired(orig)) =~= orig);
            assert(ordered@ =~= spec_things(spec_plan(spec_paired(orig), 0).1));
            assert forall|i: int| 0 <= i < orig.len() implies spec_plan(
                spec_paired(orig),
                0,
            ).0.leaves_holding(i) == 1 by {
                lemma_tiles_once(spec_plan(spec_paired(orig), 0).0, i);
            }
        }
        BVH { nodes, root, objects: ordered }
    }
}

/// What a traversal carries from node to node: the upper end of the window,
/// which is the parameter of the nearest hit so far once there is one, and
/// that hit.
pub type Nearest = (Scalar, Option<Hit>);

/// Whether none of the things depends on chance when it is asked for a hit.
pub open spec fn spec_all_deterministic<T: Hittable>(objects: Seq<T>) -> bool {
    forall|i: int| 0 <= i < objects.len() ==> (#[trigger] objects[i]).is_deterministic()
}

/// Whether one of the things may give the hit `h` for `ray` in a window
/// that begins at `t_min`.
pub open spec fn spec_given<T: Hittable>(objects: Seq<T>, ray: Ray, t_min: Scalar, h: Hit) -> bool {
    exists|i: int, upper: Scalar|
        0 <= i < objects.len() && #[trigger] objects[i].hits(ray, t_min, upper, Some(h))
}

/// Whether none of the things can give a hit for `ray` in the window
/// `(t_min, t_max)`.
pub open spec fn spec_nothing<T: Hittable>(
    objects: Seq<T>,
    ray: Ray,
    t_min: Scalar,
    t_max: Scalar,
) -> bool {
    forall|i: int, found: Option<Hit>|
        0 <= i < objects.len() && #[trigger] objects[i].hits(ray, t_min, t_max, found)
            ==> found is None
}

/// Asks the things `from..to` in turn for a hit inside the window, whose
/// upper end drops to each hit that is found.
pub open spec fn spec_scan<T: Hittable>(
    objects: Seq<T>,
    from: int,
    to: int,
    ray: Ray,
    t_min: Scalar,
    state: Nearest,
) -> Nearest
    decreases to - from,
{
    if from >= to || from < 0 || from >= objects.len() {
        state
    } else {
        match objects[from].spec_is_hit(ray, t_min, state.0) {
            Some(hit) => spec_scan(objects, from + 1, to, ray, t_min, (hit.t, Some(hit))),
            None => spec_scan(objects, from + 1, to, ray, t_min, state),
        }
    }
}

/// Whether the ray can meet anything in the box within the window that is
/// left: the slab test gives an interval, and that interval overlaps the
/// window.
pub open spec fn spec_enters(
    bounds: Extent,
    ray: Ray,
    inv: Vec3,
    t_min: Scalar,
    t_max: Scalar,
) -> bool {
    match bounds.ray_intersects(ray.origin, inv, t_min, t_max) {
        None => false,
        Some((lo, hi)) => !(t_max@ < lo@ || hi@ < t_min@),
    }
}

/// Traverses a tree: a subtree whose box the ray does not enter is passed
/// over; a leaf is scanned; of a split the left subtree is traversed before
/// the right, with the window as the left has left it.
pub open spec fn spec_visit<T: Hittable>(
    tree: Tree,
    objects: Seq<T>,
    ray: Ray,
    inv: Vec3,
    t_min: Scalar,
    state: Nearest,
) -> Nearest
    decreases tree,
{
    if !spec_enters(tree.bounds(), ray, inv, t_min, state.0) {
        state
    } else {
        match tree {
            Tree::Leaf { start, end, .. } => spec_scan(objects, start, end, ray, t_min, state),
            Tree::Split { left, right, .. } => spec_visit(
                *right,
                objects,
                ray,
                inv,
                t_min,
                spec_visit(*left, objects, ray, inv, t_min, state),
            ),
        }
    }
}

/// A hit cut to a window that ends at `upper`: the hit where it lies before
/// `upper`, else none.
pub open spec fn spec_cut(nearest: Option<Hit>, upper: Scalar) -> Option<Hit> {
    match nearest {
        Some(h) => if h.t@ < upper@ {
            Some(h)
        } else {
            None
        },
        None => None,
    }
}

/// Whether every thing answers for `ray` as a thing with one nearest hit
/// does: in a window that ends at `upper` it gives the hit that it gives in
/// the window without end where that lies before `upper`, and none else;
/// and every hit lies behind `t_min`.
pub open spec fn spec_lawful<T: Hittable>(objects: Seq<T>, ray: Ray, t_min: Scalar) -> bool {
    &&& forall|i: int, upper: Scalar|
        0 <= i < objects.len() ==> #[trigger] objects[i].spec_is_hit(ray, t_min, upper)
            == spec_cut(objects[i].spec_is_hit(ray, t_min, Scalar::of(i64::MAX as int)), upper)
    &&& forall|i: int, upper: Scalar|
        0 <= i < objects.len() ==> ((#[trigger] objects[i].spec_is_hit(ray, t_min, upper))
            matches Some(h) ==> t_min@ < h.t@)
}

/// Whether no box of the tree hides a hit from `ray`: wherever a thing of
/// the range of a node gives a hit in a window, the ray enters the box of
/// the node in that window.
pub open spec fn spec_sound<T: Hittable>(
    tree: Tree,
    objects: Seq<T>,
    ray: Ray,
    inv: Vec3,
    t_min: Scalar,
) -> bool
    decreases tree,
{
    &&& forall|i: int, upper: Scalar|
        tree.first() <= i < tree.last() && 0 <= i < objects.len() && (
        #[trigger] objects[i].spec_is_hit(ray, t_min, upper)) is Some ==> spec_enters(
            tree.bounds(),
            ray,
            inv,
            t_min,
            upper,
        )
    &&& match tree {
        Tree::Leaf { .. } => true,
        Tree::Split { left, right, .. } => spec_sound(*left, objects, ray, inv, t_min)
            && spec_sound(*right, objects, ray, inv, t_min),
    }
}

/// Whether `state` holds the nearest hit of the first `k` things in the
/// window `(t_min, t_max)`: none where none of them gives a hit there; else
/// a hit that one of them gives there, before which none of them gives a
/// hit, with the window cut to it.
pub open spec fn spec_best<T: Hittable>(
    objects: Seq<T>,
    ray: Ray,
    t_min: Scalar,
    t_max: Scalar,
    k: int,
    state: Nearest,
) -> bool {
    match state.1 {
        None => state.0 == t_max && forall|i: int|
            0 <= i < k ==> (#[trigger] objects[i].spec_is_hit(ray, t_min, t_max)) is None,
        Some(h) => state.0 == h.t && (exists|i: int|
            0 <= i < k && #[trigger] objects[i].spec_is_hit(ray, t_min, t_max) == Some(h))
            && forall|i: int|
            0 <= i < k ==> (#[trigger] objects[i].spec_is_hit(ray, t_min, h.t)) is None,
    }
}

/// A state that holds the nearest hit of the first `k` things holds it of
/// one more where that thing gives no hit in what is left of the window.
proof fn lemma_best_passes<T: Hittable>(
    objects: Seq<T>,
    ray: Ray,
    t_min: Scalar,
    t_max: Scalar,
    from: int,
    to: int,
    state: Nearest,
)
    requires
        0 <= from <= to <= objects.len(),
        spec_best(objects, ray, t_min, t_max, from, state),
        forall|i: int|
            from <= i < to ==> (#[trigger] objects[i].spec_is_hit(ray, t_min, state.0)) is None,
    ensures
        spec_best(objects, ray, t_min, t_max, to, state),
{
    match state.1 {
        None => {},
        Some(h) => {
            let w = choose|i: int|
                0 <= i < from && #[trigger] objects[i].spec_is_hit(ray, t_min, t_max) == Some(h);
            assert(0 <= w < to && objects[w].spec_is_hit(ray, t_min, t_max) == Some(h));
        },
    }
}

/// A state that holds the nearest hit of the first `from` things holds
/// that of one more after that thing has been asked.
proof fn lemma_best_step<T: Hittable>(
    objects: Seq<T>,
    ray: Ray,
    t_min: Scalar,
    t_max: Scalar,
    from: int,
    state: Nearest,
)
    requires
        0 <= from < objects.len(),
        spec_lawful(objects, ray, t_min),
        spec_best(objects, ray, t_min, t_max, from, state),
    ensures
        spec_best(
            objects,
            ray,
            t_min,
            t_max,
            from + 1,
            match objects[from].spec_is_hit(ray, t_min, state.0) {
                Some(hit) => (hit.t, Some(hit)),
                None => state,
            },
        ),
{
    let far = Scalar::of(i64::MAX as int);
    let found = objects[from].spec_is_hit(ray, t_min, state.0);
    assert(found == spec_cut(objects[from].spec_is_hit(ray, t_min, far), state.0));
    match found {
        None => {
            lemma_best_passes(objects, ray, t_min, t_max, from, from + 1, state);
        },
        Some(hit) => {
            assert(hit.t@ < state.0@);
            // The window that is left ends no later than the one asked for.
            assert(state.0@ <= t_max@) by {
                match state.1 {
                    None => {},
                    Some(h) => {
                        let w = choose|i: int|
                            0 <= i < from && #[trigger] objects[i].spec_is_hit(ray, t_min, t_max)
                                == Some(h);
                        assert(objects[w].spec_is_hit(ray, t_min, t_max) == spec_cut(
                            objects[w].spec_is_hit(ray, t_min, far),
                            t_max,
                        ));
                    },
                }
            }
            assert(objects[from].spec_is_hit(ray, t_min, t_max) == spec_cut(
                objects[from].spec_is_hit(ray, t_min, far),
                t_max,
            ));
            assert(objects[from].spec_is_hit(ray, t_min, t_max) == Some(hit));
            assert forall|i: int| 0 <= i < from + 1 implies (#[trigger] objects[i].spec_is_hit(
                ray,
                t_min,
                hit.t,
            )) is None by {
                assert(objects[i].spec_is_hit(ray, t_min, hit.t) == spec_cut(
                    objects[i].spec_is_hit(ray, t_min, far),
                    hit.t,
                ));
                if i < from {
                    match state.1 {
                        None => {
                            assert(objects[i].spec_is_hit(ray, t_min, t_max) is None);
                            assert(objects[i].spec_is_hit(ray, t_min, t_max) == spec_cut(
                                objects[i].spec_is_hit(ray, t_min, far),
                                t_max,
                            ));
                        },
                        Some(h) => {
                            assert(objects[i].spec_is_hit(ray, t_min, h.t) is None);
                            assert(objects[i].spec_is_hit(ray, t_min, h.t) == spec_cut(
                                objects[i].spec_is_hit(ray, t_min, far),
                                h.t,
                            ));
                        },
                    }
                }
            }
        },
    }
}

/// Asking the things `from..to` in turn keeps the nearest hit.
proof fn lemma_scan_best<T: Hittable>(
    objects: Seq<T>,
    from: int,
    to: int,
    ray: Ray,
    t_min: Scalar,
    t_max: Scalar,
    state: Nearest,
)
    requires
        0 <= from <= to <= objects.len(),
        spec_lawful(objects, ray, t_min),
        spec_best(objects, ray, t_min, t_max, from, state),
    ensures
        spec_best(objects, ray, t_min, t_max, to, spec_scan(objects, from, to, ray, t_min, state)),
    decreases to - from,
{
    if from < to {
        lemma_best_step(objects, ray, t_min, t_max, from, state);
        let next = match objects[from].spec_is_hit(ray, t_min, state.0) {
            Some(hit) => (hit.t, Some(hit)),
            None => state,
        };
        lemma_scan_best(objects, from + 1, to, ray, t_min, t_max, next);
    }
}

/// Traversing a tree none of whose boxes hides a hit keeps the nearest
/// hit.
proof fn lemma_visit_best<T: Hittable>(
    tree: Tree,
    objects: Seq<T>,
    ray: Ray,
    inv: Vec3,
    t_min: Scalar,
    t_max: Scalar,
    state: Nearest,
)
    requires
        tree.tiles(),
        0 <= tree.first(),
        tree.last() <= objects.len(),
        spec_lawful(objects, ray, t_min),
        spec_sound(tree, objects, ray, inv, t_min),
        spec_best(objects, ray, t_min, t_max, tree.first(), state),
    ensures
        spec_best(
            objects,
            ray,
            t_min,
            t_max,
            tree.last(),
            spec_visit(tree, objects, ray, inv, t_min, state),
        ),
    decreases tree,
{
    lemma_tiles_once(tree, 0);
    if !spec_enters(tree.bounds(), ray, inv, t_min, state.0) {
        lemma_best_passes(objects, ray, t_min, t_max, tree.first(), tree.last(), state);
    } else {
        match tree {
            Tree::Leaf { start, end, .. } => {
                lemma_scan_best(objects, start, end, ray, t_min, t_max, state);
            },
            Tree::Split { left, right, .. } => {
                lemma_tiles_once(*left, 0);
                lemma_tiles_once(*right, 0);
                lemma_visit_best(*left, objects, ray, inv, t_min, t_max, state);
                lemma_visit_best(
                    *right,
                    objects,
                    ray,
                    inv,
                    t_min,
                    t_max,
                    spec_visit(*left, objects, ray, inv, t_min, state),
                );
            },
        }
    }
}

/// Whether the hits of every thing lie in its own box: wherever a thing
/// gives a hit in a window, the ray enters the box of the thing in that
/// window.
pub open spec fn spec_boxed<T: BoundedHittable>(
    objects: Seq<T>,
    ray: Ray,
    inv: Vec3,
    t_min: Scalar,
) -> bool {
    forall|i: int, upper: Scalar|
        0 <= i < objects.len() && (#[trigger] objects[i].spec_is_hit(ray, t_min, upper)) is Some
            ==> spec_enters(objects[i].spec_bounding_box(), ray, inv, t_min, upper)
}

/// Whether an item is a thing with its own entry.
pub open spec fn spec_own<T: Bounded>(item: (Entry, T)) -> bool {
    item.0 == Entry::of(item.1)
}

/// A ray that enters a box in a window enters every box that encloses it.
pub proof fn lemma_enters_wider(
    inner: Extent,
    outer: Extent,
    ray: Ray,
    inv: Vec3,
    t_min: Scalar,
    upper: Scalar,
)
    requires
        outer.encloses(inner),
        spec_enters(inner, ray, inv, t_min, upper),
    ensures
        spec_enters(outer, ray, inv, t_min, upper),
{
    lemma_ray_meets_wider(inner, outer, ray.origin, inv, t_min, upper);
}

/// No box of a tree that holds its items hides a hit from a ray, where the
/// hits of every thing lie in its own box.
proof fn lemma_sound<T: BoundedHittable>(
    tree: Tree,
    out: Seq<(Entry, T)>,
    ray: Ray,
    inv: Vec3,
    t_min: Scalar,
)
    requires
        tree.tiles(),
        0 <= tree.first(),
        tree.last() <= out.len(),
        spec_holds(tree, out, 0),
        spec_all(out, |it: (Entry, T)| spec_own(it)),
        spec_boxed(spec_things(out), ray, inv, t_min),
    ensures
        spec_sound(tree, spec_things(out), ray, inv, t_min),
    decreases tree,
{
    let objects = spec_things(out);
    lemma_tiles_once(tree, 0);
    assert forall|i: int, upper: Scalar|
        tree.first() <= i < tree.last() && 0 <= i < objects.len() && (
        #[trigger] objects[i].spec_is_hit(ray, t_min, upper)) is Some implies spec_enters(
        tree.bounds(),
        ray,
        inv,
        t_min,
        upper,
    ) by {
        lemma_holds_bounds(tree, out, 0, i);
        assert(spec_own(out[i]));
        assert(objects[i] == out[i].1);
        assert(out[i].0.extent() == objects[i].spec_bounding_box());
        lemma_enters_wider(objects[i].spec_bounding_box(), tree.bounds(), ray, inv, t_min, upper);
    }
    match tree {
        Tree::Leaf { .. } => {},
        Tree::Split { left, right, .. } => {
            lemma_tiles_once(*left, 0);
            lemma_tiles_once(*right, 0);
            lemma_sound(*left, out, ray, inv, t_min);
            lemma_sound(*right, out, ray, inv, t_min);
        },
    }
}

/// The hierarchy over a list of things finds the nearest hit of them all,
/// as asking every thing in turn would: where every thing answers as a
/// thing with one nearest hit does, and the hits of every thing lie in its
/// own box, the traversal of the planned tree reports nothing just where no
/// thing gives a hit in the window, and else a hit that one of the things
/// gives in the window and before which no thing gives one.
pub proof fn lemma_plan_finds_nearest<T: BoundedHittable>(
    given: Seq<T>,
    ray: Ray,
    inv: Vec3,
    t_min: Scalar,
    t_max: Scalar,
)
    requires
        spec_lawful(spec_things(spec_plan(spec_paired(given), 0).1), ray, t_min),
        spec_boxed(spec_things(spec_plan(spec_paired(given), 0).1), ray, inv, t_min),
    ensures
        ({
            let plan = spec_plan(spec_paired(given), 0);
            let objects = spec_things(plan.1);
            let hit = spec_visit(plan.0, objects, ray, inv, t_min, (t_max, None)).1;
            &&& hit is None <==> forall|i: int|
                0 <= i < objects.len() ==> (#[trigger] objects[i].spec_is_hit(ray, t_min, t_max))
                    is None
            &&& hit matches Some(h) ==> (exists|i: int|
                0 <= i < objects.len() && #[trigger] objects[i].spec_is_hit(ray, t_min, t_max)
                    == Some(h)) && forall|i: int|
                0 <= i < objects.len() ==> (#[trigger] objects[i].spec_is_hit(ray, t_min, h.t))
                    is None
            &&& hit matches Some(h) ==> t_min@ < h.t@ < t_max@
        }),
{
    let items = spec_paired(given);
    let plan = spec_plan(items, 0);
    lemma_plan_shape(items, 0);
    lemma_plan_holds(items, 0);
    let own = |it: (Entry, T)| spec_own(it);
    assert(spec_all(items, own));
    lemma_plan_all(items, 0, own);
    lemma_sound(plan.0, plan.1, ray, inv, t_min);
    lemma_nearest_of_all(plan.0, spec_things(plan.1), ray, inv, t_min, t_max);
}

/// The hierarchy finds the nearest hit of all its things, as asking every
/// thing in turn would: where every thing answers as a thing with one
/// nearest hit does and no box of the tree hides a hit from the ray, the
/// hierarchy reports nothing just where no thing gives a hit in the window,
/// and else a hit that one of the things gives in the window and before
/// which no thing gives one.
pub proof fn lemma_nearest_of_all<T: Hittable>(
    tree: Tree,
    objects: Seq<T>,
    ray: Ray,
    inv: Vec3,
    t_min: Scalar,
    t_max: Scalar,
)
    requires
        tree.tiles(),
        tree.first() == 0,
        tree.last() == objects.len(),
        spec_lawful(objects, ray, t_min),
        spec_sound(tree, objects, ray, inv, t_min),
    ensures
        ({
            let hit = spec_visit(tree, objects, ray, inv, t_min, (t_max, None)).1;
            &&& hit is None <==> forall|i: int|
                0 <= i < objects.len() ==> (#[trigger] objects[i].spec_is_hit(ray, t_min, t_max))
                    is None
            &&& hit matches Some(h) ==> (exists|i: int|
                0 <= i < objects.len() && #[trigger] objects[i].spec_is_hit(ray, t_min, t_max)
                    == Some(h)) && forall|i: int|
                0 <= i < objects.len() ==> (#[trigger] objects[i].spec_is_hit(ray, t_min, h.t))
                    is None
            &&& hit matches Some(h) ==> t_min@ < h.t@ < t_max@
        }),
{
    let start: Nearest = (t_max, None);
    lemma_visit_best(tree, objects, ray, inv, t_min, t_max, start);
    let after = spec_visit(tree, objects, ray, inv, t_min, start);
    assert(spec_best(objects, ray, t_min, t_max, objects.len() as int, after));
    match after.1 {
        None => {},
        Some(h) => {
            let w = choose|i: int|
                0 <= i < objects.len() && #[trigger] objects[i].spec_is_hit(ray, t_min, t_max)
                    == Some(h);
            assert(objects[w].spec_is_hit(ray, t_min, t_max) is Some);
            assert(objects[w].spec_is_hit(ray, t_min, t_max) == spec_cut(
                objects[w].spec_is_hit(ray, t_min, Scalar::of(i64::MAX as int)),
                t_max,
            ));
        },
    }
}

/// Traverses the subtrees below the nodes of a stack, the top of which is
/// its last entry, from the top down.
spec fn spec_drain<T: Hittable>(
    nodes: Seq<BVHNode>,
    objects: Seq<T>,
    stack: Seq<usize>,
    ray: Ray,
    inv: Vec3,
    t_min: Scalar,
    state: Nearest,
) -> Nearest
    decreases stack.len(),
{
    if stack.len() == 0 {
        state
    } else {
        spec_drain(
            nodes,
            objects,
            stack.drop_last(),
            ray,
            inv,
            t_min,
            spec_visit(spec_subtree(nodes, stack.last() as int), objects, ray, inv, t_min, state),
        )
    }
}

/// The number of nodes of the subtree below node `k`.
spec fn spec_weight(nodes: Seq<BVHNode>, k: int) -> nat
    decreases k,
{
    if 0 <= k < nodes.len() {
        match nodes[k].children_indices {
            Some((l, r)) => if l < k && r < k {
                1 + spec_weight(nodes, l as int) + spec_weight(nodes, r as int)
            } else {
                1
            },
            None => 1,
        }
    } else {
        1
    }
}

/// The number of nodes that a stack stands for.
spec fn spec_stack_weight(nodes: Seq<BVHNode>, stack: Seq<usize>) -> nat
    decreases stack.len(),
{
    if stack.len() == 0 {
        0
    } else {
        spec_stack_weight(nodes, stack.drop_last()) + spec_weight(nodes, stack.last() as int)
    }
}

impl<T> BVH<T> {
    /// The nodes of the arena; every child stands before its parent, and the
    /// root stands last.
    pub closed spec fn spec_nodes(&self) -> Seq<BVHNode> {
        self.nodes@
    }

    /// The index of the root of the hierarchy in the arena.
    pub fn root(&self) -> (root: usize)
        ensures
            root + 1 == self.spec_nodes().len(),
    {
        proof {
            use_type_invariant(self);
        }
        self.root
    }

    /// The node at `index` of the arena, if there is one.
    pub fn get_node(&self, index: usize) -> (node: Option<&BVHNode>)
        ensures
            index < self.spec_nodes().len() ==> node == Some(&self.spec_nodes()[index as int]),
            index >= self.spec_nodes().len() ==> node is None,
    {
        if index < self.nodes.len() {
            Some(&self.nodes[index])
        } else {
            None
        }
    }
}

impl<T: Hittable> BVH<T> {
    /// Whether the hit that the hierarchy reports depends on the ray and the
    /// window alone: none of its things depends on chance.
    pub open spec fn is_deterministic(&self) -> bool {
        spec_all_deterministic(self.spec_objects())
    }

    /// The nearest hit that a traversal of the tree finds in the window.
    pub open spec fn spec_is_hit(&self, ray: Ray, t_min: Scalar, t_max: Scalar) -> Option<Hit> {
        spec_visit(
            self.tree(),
            self.spec_objects(),
            ray,
            ray.spec_dir_inverse(),
            t_min,
            (t_max, None),
        ).1
    }

    /// Whether `hit` is one of the outcomes that `is_hit` may have: a hit
    /// is one that a thing of the hierarchy may give; there is none where
    /// none of the things can give one in the window; and where none of the
    /// things depends on chance, the outcome is that of
    /// [`BVH::spec_is_hit`].
    pub open spec fn hits(&self, ray: Ray, t_min: Scalar, t_max: Scalar, hit: Option<Hit>) -> bool {
        &&& self.is_deterministic() ==> hit == self.spec_is_hit(ray, t_min, t_max)
        &&& hit matches Some(h) ==> spec_given(self.spec_objects(), ray, t_min, h)
        &&& spec_nothing(self.spec_objects(), ray, t_min, t_max) ==> hit is None
    }

    /// The hierarchy finds the nearest hit of all its things, as asking
    /// every thing in turn would: for a hierarchy whose leaves tile its
    /// list, things that answer as things with one nearest hit do, and a
    /// tree none of whose boxes hides a hit from the ray, the hierarchy
    /// reports nothing just where no thing gives a hit in the window, and
    /// else a hit that one of the things gives in the window and before
    /// which no thing gives one.
    pub proof fn lemma_finds_nearest(&self, ray: Ray, t_min: Scalar, t_max: Scalar)
        requires
            self.tree().tiles(),
            self.tree().first() == 0,
            self.tree().last() == self.spec_objects().len(),
            spec_lawful(self.spec_objects(), ray, t_min),
            spec_sound(self.tree(), self.spec_objects(), ray, ray.spec_dir_inverse(), t_min),
        ensures
            self.spec_is_hit(ray, t_min, t_max) is None <==> forall|i: int|
                0 <= i < self.spec_objects().len() ==> (#[trigger] self.spec_objects()[i].spec_is_hit(
                    ray,
                    t_min,
                    t_max,
                )) is None,
            self.spec_is_hit(ray, t_min, t_max) matches Some(h) ==> (exists|i: int|
                0 <= i < self.spec_objects().len() && #[trigger] self.spec_objects()[i].spec_is_hit(
                    ray,
                    t_min,
                    t_max,
                ) == Some(h)) && forall|i: int|
                0 <= i < self.spec_objects().len() ==> (#[trigger] self.spec_objects()[i].spec_is_hit(
                    ray,
                    t_min,
                    h.t,
                )) is None,
            self.spec_is_hit(ray, t_min, t_max) matches Some(h) ==> t_min@ < h.t@ < t_max@,
    {
        lemma_nearest_of_all(
            self.tree(),
            self.spec_objects(),
            ray,
            ray.spec_dir_inverse(),
            t_min,
            t_max,
        );
    }

    /// Asks the things `from..to` in turn for a hit.
    fn scan(&self, from: usize, to: usize, ray: &Ray, t_min: Scalar, state: Nearest, rand: &mut Rand) -> (after:
        Nearest)
        requires
            from <= to <= self.objects.len(),
        ensures
            self.is_deterministic() ==> after == spec_scan(
                self.objects@,
                from as int,
                to as int,
                *ray,
                t_min,
                state,
            ),
            after.1 == state.1 || (after.1 matches Some(h) && spec_given(
                self.objects@,
                *ray,
                t_min,
                h,
            )),
            spec_nothing(self.objects@, *ray, t_min, state.0) && state.1 is None ==> after
                == state,
    {
        let mut closest_t: Scalar = state.0;
        let mut hit: Option<Hit> = state.1;
        let mut i: usize = from;
        while i < to
            invariant
                from <= i <= to <= self.objects.len(),
                self.is_deterministic() ==> spec_scan(
                    self.objects@,
                    from as int,
                    to as int,
                    *ray,
                    t_min,
                    state,
                ) == spec_scan(self.objects@, i as int, to as int, *ray, t_min, (closest_t, hit)),
                hit == state.1 || (hit matches Some(h) && spec_given(self.objects@, *ray, t_min, h)),
                spec_nothing(self.objects@, *ray, t_min, state.0) && state.1 is None ==> closest_t
                    == state.0 && hit is None,
            decreases to - i,
        {
            let found: Option<Hit> = self.objects[i].is_hit(ray, t_min, closest_t, rand);
            proof {
                if self.is_deterministic() {
                    self.objects@[i as int].lemma_hits_alone(*ray, t_min, closest_t, found);
                }
            }
            match found {
                Some(obj_hit) => {
                    closest_t = obj_hit.t;
                    hit = Some(obj_hit);
                },
                None => {},
            }
            i += 1;
        }
        (closest_t, hit)
    }

    /// The nearest hit of `ray` on the things of the hierarchy inside the
    /// window `(t_min, t_max)`: the one that [`BVH::spec_is_hit`] finds,
    /// where none of the things depends on chance.
    pub fn is_hit(&self, ray: &Ray, t_min: Scalar, t_max: Scalar, rand: &mut Rand) -> (hit: Option<
        Hit,
    >)
        ensures
            self.hits(*ray, t_min, t_max, hit),
    {
        proof {
            use_type_invariant(self);
        }
        let inv: Vec3 = ray.dir_inverse();
        let mut state: Nearest = (t_max, None);
        let mut node_stack: Vec<usize> = Vec::new();
        node_stack.push(self.root);
        let ghost answer = spec_visit(self.tree(), self.objects@, *ray, inv, t_min, (t_max, None));
        proof {
            assert(node_stack@.drop_last() =~= Seq::<usize>::empty());
            reveal_with_fuel(spec_drain, 2);
            reveal_with_fuel(spec_stack_weight, 2);
        }
        while node_stack.len() > 0
            invariant
                self.nodes.len() > 0,
                spec_arena_ok(self.nodes@, self.objects.len() as int),
                forall|j: int| 0 <= j < node_stack.len() ==> node_stack[j] < self.nodes.len(),
                self.is_deterministic() ==> spec_drain(
                    self.nodes@,
                    self.objects@,
                    node_stack@,
                    *ray,
                    inv,
                    t_min,
                    state,
                ) == answer,
                state.1 matches Some(h) ==> spec_given(self.objects@, *ray, t_min, h),
                spec_nothing(self.objects@, *ray, t_min, t_max) ==> state == (t_max, None::<Hit>),
            decreases spec_stack_weight(self.nodes@, node_stack@),
        {
            let ghost before = node_stack@;
            let ghost rest = node_stack@.drop_last();
            let top = node_stack.pop();
            let k: usize = match top {
                Some(k) => k,
                None => 0,
            };
            assert(node_stack@ == rest);
            let node: BVHNode = self.nodes[k];
            assert(node.ok(k as int, self.objects.len() as int));
            let ghost subtree = spec_subtree(self.nodes@, k as int);
            assert(subtree.bounds() == node.bounding_box@);
            let window = node.bounding_box.ray_intersects(ray, &inv, t_min, state.0);
            let enters: bool = match window {
                Some((node_t_min, node_t_max)) => !(state.0.raw < node_t_min.raw || node_t_max.raw
                    < t_min.raw),
                None => false,
            };
            assert(enters == spec_enters(subtree.bounds(), *ray, inv, t_min, state.0));
            if enters {
                match node.children_indices {
                    Some(children) => {
                        node_stack.push(children.1);
                        node_stack.push(children.0);
                        proof {
                            let pushed = node_stack@;
                            assert(pushed.drop_last() =~= rest.push(children.1));
                            assert(pushed.drop_last().drop_last() =~= rest);
                            assert(pushed.last() == children.0);
                            assert(pushed.drop_last().last() == children.1);
                            reveal_with_fuel(spec_drain, 3);
                            reveal_with_fuel(spec_stack_weight, 3);
                        }
                    },
                    None => {
                        match node.object_indices {
                            Some((obj_start, obj_end)) => {
                                state = self.scan(obj_start, obj_end, ray, t_min, state, rand);
                            },
                            None => {},
                        }
                    },
                }
            }
        }
        state.1
    }
}

impl<T: BoundedHittable> BVH<T> {
    /// The hierarchy built over `given` finds the nearest hit of all its
    /// things, as asking every thing in turn would: where every thing
    /// answers as a thing with one nearest hit does, and the hits of every
    /// thing lie in its own box, the hierarchy reports nothing just where no
    /// thing gives a hit in the window, and else a hit that one of the things
    /// gives in the window and before which no thing gives one.
    pub proof fn lemma_built_finds_nearest(
        &self,
        given: Seq<T>,
        ray: Ray,
        t_min: Scalar,
        t_max: Scalar,
    )
        requires
            self.tree() == spec_plan(spec_paired(given), 0).0,
            self.spec_objects() == spec_things(spec_plan(spec_paired(given), 0).1),
            spec_lawful(self.spec_objects(), ray, t_min),
            spec_boxed(self.spec_objects(), ray, ray.spec_dir_inverse(), t_min),
        ensures
            self.spec_is_hit(ray, t_min, t_max) is None <==> forall|i: int|
                0 <= i < self.spec_objects().len() ==> (#[trigger] self.spec_objects()[i].spec_is_hit(
                    ray,
                    t_min,
                    t_max,
                )) is None,
            self.spec_is_hit(ray, t_min, t_max) matches Some(h) ==> (exists|i: int|
                0 <= i < self.spec_objects().len() && #[trigger] self.spec_objects()[i].spec_is_hit(
                    ray,
                    t_min,
                    t_max,
                ) == Some(h)) && forall|i: int|
                0 <= i < self.spec_objects().len() ==> (#[trigger] self.spec_objects()[i].spec_is_hit(
                    ray,
                    t_min,
                    h.t,
                )) is None,
            self.spec_is_hit(ray, t_min, t_max) matches Some(h) ==> t_min@ < h.t@ < t_max@,
    {
        lemma_plan_finds_nearest(given, ray, ray.spec_dir_inverse(), t_min, t_max);
    }
}

} // verus!
