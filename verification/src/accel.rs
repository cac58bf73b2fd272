//! Acceleration structures for ray queries: the bounding volume hierarchy,
//! and a k-d tree over copies of the things of a scene.
use crate::accel::bvh::{sort, spec_scan, spec_sorted, Entry, Nearest};
use crate::geom::hit::{
    spec_bounds_of, AxisAlignedBoundingBox, Bounded, BoundedHittable, Extent, Hit, Hittable,
};
use crate::math::{f_leq, spec_f_leq, Rand, Scalar};
use crate::vec::{Coord, Point3, Ray};
use vstd::prelude::*;

pub mod bvh;

verus! {

/// A list of more than this many things is parted, unless it lies too deep.
pub const MAX_HITTABLE_COUNT: usize = 4;

/// A list that lies deeper than this is not parted.
pub const MAX_DEPTH: u32 = 10;

/// The shape of a k-d tree: a leaf with the things it holds, or a node over
/// at most two subtrees. Either has the box around all things below it.
pub enum KdTree<T> {
    Leaf { bounds: Extent, hittables: Seq<T> },
    Split { bounds: Extent, left: Option<Box<KdTree<T>>>, right: Option<Box<KdTree<T>>> },
}

impl<T> KdTree<T> {
    /// The bounding box of the node.
    pub open spec fn bounds(self) -> Extent {
        match self {
            KdTree::Leaf { bounds, .. } => bounds,
            KdTree::Split { bounds, .. } => bounds,
        }
    }
}

/// The axis that follows `coord`: the first after the third.
pub open spec fn spec_cycle_coord(coord: Coord) -> Coord {
    match coord {
        Coord::X => Coord::Y,
        Coord::Y => Coord::Z,
        Coord::Z => Coord::X,
    }
}

/// The middle of the box of a thing.
pub open spec fn spec_middle<T: Bounded>(obj: T) -> Point3 {
    obj.spec_bounding_box().center()
}

/// Each thing paired with its box and the middle of it.
pub open spec fn spec_with_middles<T: Bounded>(objs: Seq<T>) -> Seq<(Entry, T)> {
    Seq::new(
        objs.len(),
        |i: int|
            (
                Entry {
                    lower: objs[i].spec_bounding_box().lower,
                    upper: objs[i].spec_bounding_box().upper,
                    centroid: spec_middle(objs[i]),
                },
                objs[i],
            ),
    )
}

/// The thing in the middle of the list once it is ordered by the middles of
/// the boxes along `coord`.
pub open spec fn spec_median<T: Bounded>(objs: Seq<T>, coord: Coord) -> T {
    spec_sorted(spec_with_middles(objs), coord)[objs.len() as int / 2].1
}

/// Whether a thing lies on the given side of `split` along `coord`: on the
/// low side where its middle is below the split or equal to it to within
/// the threshold, on the high side where its middle is above the split.
pub open spec fn spec_lies<T: Bounded>(obj: T, coord: Coord, split: Scalar, low: bool) -> bool {
    if low {
        spec_f_leq(spec_middle(obj).at(coord), split)
    } else {
        spec_middle(obj).at(coord)@ > split@
    }
}

/// The things of the list that lie on the given side, in their order.
pub open spec fn spec_side<T: Bounded>(objs: Seq<T>, coord: Coord, split: Scalar, low: bool) -> Seq<
    T,
>
    decreases objs.len(),
{
    if objs.len() == 0 {
        Seq::empty()
    } else {
        let before = spec_side(objs.drop_last(), coord, split, low);
        if spec_lies(objs.last(), coord, split, low) {
            before.push(objs.last())
        } else {
            before
        }
    }
}

/// The list `into` after every thing of `from`, in turn, has been added to
/// it whose box meets the box around what the list holds by then.
pub open spec fn spec_spill<T: Bounded>(from: Seq<T>, into: Seq<T>) -> Seq<T>
    decreases from.len(),
{
    if from.len() == 0 {
        into
    } else {
        let before = spec_spill(from.drop_last(), into);
        if from.last().spec_bounding_box().intersects(Extent::union_of(spec_bounds_of(before))) {
            before.push(from.last())
        } else {
            before
        }
    }
}

/// The two lists that a list is parted into along `coord`. The thing that
/// stands in the middle of the list is left out. The others go to the side
/// that they lie on of the median, the thing in the middle once the list is
/// ordered; things of either side whose box meets the box around the other
/// side are added to that side as well; and the median is added to the low
/// side.
pub open spec fn spec_parts<T: Bounded>(objs: Seq<T>, coord: Coord) -> (Seq<T>, Seq<T>) {
    let median = spec_median(objs, coord);
    let split = spec_middle(median).at(coord);
    let local = objs.remove(objs.len() as int / 2);
    let left = spec_side(local, coord, split, true);
    let right = spec_spill(left, spec_side(local, coord, split, false));
    (spec_spill(right, left).push(median), right)
}

/// The tree over a list of things that is parted along `coord` first and
/// lies `depth` deep: none for no things, a leaf for few things or at great
/// depth, else a node over the trees of the two parts, which are parted
/// along the next axis.
pub open spec fn spec_kd_plan<T: Bounded>(objs: Seq<T>, coord: Coord, depth: nat) -> Option<
    KdTree<T>,
>
    decreases MAX_DEPTH + 1 - depth,
{
    let bounds = Extent::union_of(spec_bounds_of(objs));
    if objs.len() == 0 {
        None
    } else if objs.len() <= MAX_HITTABLE_COUNT || depth > MAX_DEPTH {
        Some(KdTree::Leaf { bounds, hittables: objs })
    } else {
        let parts = spec_parts(objs, coord);
        Some(
            KdTree::Split {
                bounds,
                left: spec_boxed(spec_kd_plan(parts.0, spec_cycle_coord(coord), depth + 1)),
                right: spec_boxed(spec_kd_plan(parts.1, spec_cycle_coord(coord), depth + 1)),
            },
        )
    }
}

/// A tree in a box, if there is one.
pub open spec fn spec_boxed<T>(tree: Option<KdTree<T>>) -> Option<Box<KdTree<T>>> {
    match tree {
        Some(t) => Some(Box::new(t)),
        None => None,
    }
}

/// Whether nothing in the tree depends on chance when it is asked for a hit.
pub open spec fn spec_kd_deterministic<T: Hittable>(tree: KdTree<T>) -> bool
    decreases tree,
{
    match tree {
        KdTree::Leaf { hittables, .. } => forall|i: int|
            0 <= i < hittables.len() ==> (#[trigger] hittables[i]).is_deterministic(),
        KdTree::Split { left, right, .. } => (match left {
            Some(t) => spec_kd_deterministic(*t),
            None => true,
        }) && (match right {
            Some(t) => spec_kd_deterministic(*t),
            None => true,
        }),
    }
}

/// The hit that a search of the tree finds in the window: none where the
/// ray misses the box of the tree; in a leaf the nearest hit on its things;
/// else what the low subtree finds, or, where that finds nothing, what the
/// high subtree finds.
pub open spec fn spec_kd_hit<T: Hittable>(
    tree: KdTree<T>,
    ray: Ray,
    t_min: Scalar,
    t_max: Scalar,
) -> Option<Hit>
    decreases tree,
{
    if tree.bounds().ray_intersects(ray.origin, ray.spec_dir_inverse(), t_min, t_max) is None {
        None
    } else {
        match tree {
            KdTree::Leaf { hittables, .. } => spec_scan(
                hittables,
                0,
                hittables.len() as int,
                ray,
                t_min,
                (t_max, None),
            ).1,
            KdTree::Split { left, right, .. } => {
                let low = match left {
                    Some(t) => spec_kd_hit(*t, ray, t_min, t_max),
                    None => None,
                };
                if low is Some {
                    low
                } else {
                    match right {
                        Some(t) => spec_kd_hit(*t, ray, t_min, t_max),
                        None => None,
                    }
                }
            },
        }
    }
}

/// A node of the arena with its place in it.
pub struct KDTreeNode<T> {
    node_index: usize,
    node_data: KDTreeNodeData<T>,
}

impl<T> KDTreeNode<T> {
    /// What the node holds.
    pub closed spec fn data(self) -> KDTreeNodeData<T> {
        self.node_data
    }
}

/// What a node holds: its box, its children, and, in a leaf, its things.
pub struct KDTreeNodeData<T> {
    bounding_box: AxisAlignedBoundingBox,
    children: (Option<usize>, Option<usize>),
    hittables: Option<Vec<T>>,
}

impl<T> KDTreeNodeData<T> {
    /// The bounding box of the node.
    pub closed spec fn bounds(self) -> Extent {
        self.bounding_box@
    }

    /// The places of the two children in the arena, where there are any.
    pub closed spec fn spec_children(self) -> (Option<usize>, Option<usize>) {
        self.children
    }

    /// The things that a leaf holds; none for an interior node.
    pub closed spec fn spec_hittables(self) -> Option<Seq<T>> {
        match self.hittables {
            Some(things) => Some(things@),
            None => None,
        }
    }

    /// The axis-aligned box that bounds it.
    pub fn bounding_box(&self) -> (b: &AxisAlignedBoundingBox)
        ensures
            b@ == self.bounds(),
    {
        &self.bounding_box
    }

    /// The places of the two children in the arena, where there are any.
    pub fn children(&self) -> (c: (Option<usize>, Option<usize>))
        ensures
            c == self.spec_children(),
    {
        self.children
    }

    /// The things that a leaf holds; none for an interior node.
    pub fn hittables(&self) -> (things: Option<&Vec<T>>)
        ensures
            match things {
                Some(v) => self.spec_hittables() == Some(v@),
                None => self.spec_hittables() is None,
            },
    {
        match &self.hittables {
            Some(things) => Some(things),
            None => None,
        }
    }
}

/// The tree below node `k` of an arena.
pub closed spec fn spec_kd_subtree<T>(nodes: Seq<KDTreeNode<T>>, k: int) -> KdTree<T>
    decreases k,
{
    if 0 <= k < nodes.len() {
        let data = nodes[k].node_data;
        match data.hittables {
            Some(things) => KdTree::Leaf { bounds: data.bounding_box@, hittables: things@ },
            None => KdTree::Split {
                bounds: data.bounding_box@,
                left: match data.children.0 {
                    Some(l) => if l < k {
                        Some(Box::new(spec_kd_subtree(nodes, l as int)))
                    } else {
                        None
                    },
                    None => None,
                },
                right: match data.children.1 {
                    Some(r) => if r < k {
                        Some(Box::new(spec_kd_subtree(nodes, r as int)))
                    } else {
                        None
                    },
                    None => None,
                },
            },
        }
    } else {
        KdTree::Leaf { bounds: Extent::empty(), hittables: Seq::empty() }
    }
}

/// The tree below a node depends on the nodes up to that node alone.
proof fn lemma_kd_subtree_prefix<T>(a: Seq<KDTreeNode<T>>, b: Seq<KDTreeNode<T>>, k: int)
    requires
        0 <= k < a.len() <= b.len(),
        forall|i: int| 0 <= i <= k ==> a[i] == b[i],
    ensures
        spec_kd_subtree(a, k) == spec_kd_subtree(b, k),
    decreases k,
{
    let data = a[k].node_data;
    match data.children.0 {
        Some(l) => {
            if l < k {
                lemma_kd_subtree_prefix(a, b, l as int);
            }
        },
        None => {},
    }
    match data.children.1 {
        Some(r) => {
            if r < k {
                lemma_kd_subtree_prefix(a, b, r as int);
            }
        },
        None => {},
    }
}

/// Whether the children of every node of the arena stand before it.
pub closed spec fn spec_kd_ok<T>(nodes: Seq<KDTreeNode<T>>) -> bool {
    forall|k: int|
        0 <= k < nodes.len() ==> {
            let children = (#[trigger] nodes[k]).node_data.children;
            &&& children.0 matches Some(l) ==> l < k
            &&& children.1 matches Some(r) ==> r < k
        }
}

/// What parting a list or building a tree leaves of an arena: the arena
/// grown by the nodes of the tree, the last of which is node `k`, its
/// root; or the arena as it was where there is no tree.
pub open spec fn spec_kd_built<T>(
    before: Seq<KDTreeNode<T>>,
    after: Seq<KDTreeNode<T>>,
    root: Option<usize>,
    plan: Option<KdTree<T>>,
) -> bool {
    &&& spec_kd_ok(after)
    &&& after.len() >= before.len()
    &&& after.take(before.len() as int) == before
    &&& match root {
        None => plan is None && after == before,
        Some(k) => k == after.len() - 1 && after.len() > before.len() && plan == Some(
            spec_kd_subtree(after, k as int),
        ),
    }
}

/// A copy of the list.
fn copy_of<T: Copy>(things: &Vec<T>) -> (copy: Vec<T>)
    ensures
        copy@ == things@,
{
    let mut copy: Vec<T> = Vec::new();
    let mut i: usize = 0;
    while i < things.len()
        invariant
            i <= things.len(),
            copy@ == things@.take(i as int),
        decreases things.len() - i,
    {
        copy.push(things[i]);
        assert(copy@ =~= things@.take(i + 1));
        i += 1;
    }
    assert(things@.take(i as int) =~= things@);
    copy
}

/// The things of the list that lie on the given side of `split`.
fn side<T: BoundedHittable + Copy>(objs: &Vec<T>, coord: Coord, split: Scalar, low: bool) -> (found:
    Vec<T>)
    ensures
        found@ == spec_side(objs@, coord, split, low),
{
    let mut found: Vec<T> = Vec::new();
    let mut i: usize = 0;
    while i < objs.len()
        invariant
            i <= objs.len(),
            found@ == spec_side(objs@.take(i as int), coord, split, low),
        decreases objs.len() - i,
    {
        assert(objs@.take(i + 1).drop_last() =~= objs@.take(i as int));
        let middle: Scalar = objs[i].bounding_box().center().get(coord);
        let lies: bool = if low {
            f_leq(middle, split)
        } else {
            middle.raw > split.raw
        };
        if lies {
            found.push(objs[i]);
        }
        i += 1;
    }
    assert(objs@.take(i as int) =~= objs@);
    found
}

/// Adds to `into` every thing of `from` whose box meets the box around what
/// `into` holds by then.
fn spill<T: BoundedHittable + Copy>(from: &Vec<T>, into: Vec<T>) -> (grown: Vec<T>)
    ensures
        grown@ == spec_spill(from@, into@),
{
    let ghost start = into@;
    let mut grown: Vec<T> = into;
    let mut i: usize = 0;
    while i < from.len()
        invariant
            i <= from.len(),
            grown@ == spec_spill(from@.take(i as int), start),
        decreases from.len() - i,
    {
        assert(from@.take(i + 1).drop_last() =~= from@.take(i as int));
        let around: AxisAlignedBoundingBox = AxisAlignedBoundingBox::union_from_objs(&grown);
        if from[i].bounding_box().box_intersects(around) {
            grown.push(from[i]);
        }
        i += 1;
    }
    assert(from@.take(i as int) =~= from@);
    grown
}

/// An arena of the nodes of k-d trees. The root of the tree that was built
/// last is its last node.
pub struct KDTreeMemoryArena<T> {
    nodes: Vec<KDTreeNode<T>>,
}

impl<T> KDTreeMemoryArena<T> {
    #[verifier::type_invariant]
    spec fn children_first(self) -> bool {
        spec_kd_ok(self.nodes@)
    }

    /// The nodes of the arena.
    pub closed spec fn spec_nodes(self) -> Seq<KDTreeNode<T>> {
        self.nodes@
    }
}

impl<T: BoundedHittable + Copy> KDTreeMemoryArena<T> {

    /// The tree whose root is the last node of the arena, if the arena has
    /// a node.
    pub open spec fn tree(self) -> Option<KdTree<T>> {
        if self.spec_nodes().len() == 0 {
            None
        } else {
            Some(spec_kd_subtree(self.spec_nodes(), self.spec_nodes().len() - 1))
        }
    }

    /// Whether what `is_hit` returns depends on the ray and the window alone, and
    /// not on chance.
    pub open spec fn is_deterministic(&self) -> bool {
        match self.tree() {
            Some(tree) => spec_kd_deterministic(tree),
            None => true,
        }
    }

    /// What `is_hit` returns where it does not depend on chance.
    pub open spec fn spec_is_hit(&self, ray: Ray, t_min: Scalar, t_max: Scalar) -> Option<Hit> {
        match self.tree() {
            Some(tree) => spec_kd_hit(tree, ray, t_min, t_max),
            None => None,
        }
    }

    /// The arena with the tree over the given things, which is parted along
    /// the third axis first.
    pub fn new(hittables: &Vec<T>) -> (arena: KDTreeMemoryArena<T>)
        ensures
            arena.tree() == spec_kd_plan(hittables@, Coord::Z, 0),
    {
        let mut nodes: Vec<KDTreeNode<T>> = Vec::new();
        let local_hittables: Vec<T> = copy_of(hittables);
        let root = KDTreeMemoryArena::construct_tree_helper(
            &mut nodes,
            local_hittables,
            Coord::Z,
            0,
        );
        KDTreeMemoryArena { nodes }
    }

    /// Builds the tree over the given things behind the nodes that the arena
    /// holds; it is the tree of the arena from then on. Without things the
    /// arena stays as it is.
    pub fn construct_tree(self, hittables: &Vec<T>) -> (arena: KDTreeMemoryArena<T>)
        ensures
            hittables.len() > 0 ==> arena.tree() == spec_kd_plan(hittables@, Coord::Z, 0),
            hittables.len() == 0 ==> arena.spec_nodes() == self.spec_nodes(),
    {
        proof {
            use_type_invariant(&self);
        }
        let mut nodes: Vec<KDTreeNode<T>> = self.nodes;
        let local_hittables: Vec<T> = copy_of(hittables);
        let root = KDTreeMemoryArena::construct_tree_helper(
            &mut nodes,
            local_hittables,
            Coord::Z,
            0,
        );
        KDTreeMemoryArena { nodes }
    }

    /// What the node at `index` holds, if there is such a node.
    pub fn get_node(&self, index: usize) -> (data: Option<&KDTreeNodeData<T>>)
        ensures
            index < self.spec_nodes().len() ==> data == Some(&self.spec_nodes()[index as int].data()),
            index >= self.spec_nodes().len() ==> data is None,
    {
        if index < self.nodes.len() {
            Some(&self.nodes[index].node_data)
        } else {
            None
        }
    }

    /// The number of nodes of the arena.
    pub fn len(&self) -> (n: usize)
        ensures
            n == self.spec_nodes().len(),
    {
        self.nodes.len()
    }

    fn construct_tree_helper(
        nodes: &mut Vec<KDTreeNode<T>>,
        hittables: Vec<T>,
        coord: Coord,
        depth: u32,
    ) -> (root: Option<usize>)
        requires
            spec_kd_ok(old(nodes)@),
            depth <= MAX_DEPTH + 1,
        ensures
            spec_kd_built(
                old(nodes)@,
                final(nodes)@,
                root,
                spec_kd_plan(hittables@, coord, depth as nat),
            ),
        decreases MAX_DEPTH + 1 - depth,
    {
        if hittables.len() == 0 {
            assert(nodes@.take(nodes.len() as int) =~= nodes@);
            return None;
        }
        let bounding_box: AxisAlignedBoundingBox = AxisAlignedBoundingBox::union_from_objs(
            &hittables,
        );
        if hittables.len() <= MAX_HITTABLE_COUNT || depth > MAX_DEPTH {
            let ghost things = hittables@;
            let k: usize = KDTreeMemoryArena::insert(
                nodes,
                KDTreeNodeData { bounding_box, children: (None, None), hittables: Some(hittables) },
            );
            return Some(k);
        }
        let ghost before = nodes@;
        let ghost objs = hittables@;
        let (median_hittable, median_index) = KDTreeMemoryArena::median_hittable(&hittables, coord);
        let split: Scalar = median_hittable.bounding_box().center().get(coord);
        let mut local_hittables: Vec<T> = hittables;
        local_hittables.remove(median_index);
        let hittables_left: Vec<T> = side(&local_hittables, coord, split, true);
        let hittables_right: Vec<T> = side(&local_hittables, coord, split, false);
        let hittables_right: Vec<T> = spill(&hittables_left, hittables_right);
        let mut hittables_left: Vec<T> = spill(&hittables_right, hittables_left);
        hittables_left.push(median_hittable);
        assert(hittables_left@ == spec_parts(objs, coord).0);
        assert(hittables_right@ == spec_parts(objs, coord).1);
        let next: Coord = KDTreeMemoryArena::<T>::cycle_coord(coord);
        let left_child_id: Option<usize> = KDTreeMemoryArena::construct_tree_helper(
            nodes,
            hittables_left,
            next,
            depth + 1,
        );
        let ghost between = nodes@;
        let right_child_id: Option<usize> = KDTreeMemoryArena::construct_tree_helper(
            nodes,
            hittables_right,
            next,
            depth + 1,
        );
        let ghost below = nodes@;
        let k: usize = KDTreeMemoryArena::insert(
            nodes,
            KDTreeNodeData {
                bounding_box,
                children: (left_child_id, right_child_id),
                hittables: None,
            },
        );
        proof {
            assert(nodes@.take(before.len() as int) =~= before) by {
                assert forall|i: int| 0 <= i < before.len() implies nodes@[i] == before[i] by {
                    assert(nodes@.take(below.len() as int)[i] == nodes@[i]);
                    assert(below.take(between.len() as int)[i] == below[i]);
                    assert(between.take(before.len() as int)[i] == between[i]);
                }
            }
            match left_child_id {
                Some(l) => {
                    assert forall|i: int| 0 <= i <= l implies between[i] == nodes@[i] by {
                        assert(nodes@.take(below.len() as int)[i] == nodes@[i]);
                        assert(below.take(between.len() as int)[i] == below[i]);
                    }
                    lemma_kd_subtree_prefix(between, nodes@, l as int);
                },
                None => {},
            }
            match right_child_id {
                Some(r) => {
                    assert forall|i: int| 0 <= i <= r implies below[i] == nodes@[i] by {
                        assert(nodes@.take(below.len() as int)[i] == nodes@[i]);
                    }
                    lemma_kd_subtree_prefix(below, nodes@, r as int);
                },
                None => {},
            }
        }
        Some(k)
    }

    fn cycle_coord(coord: Coord) -> (next: Coord)
        ensures
            next == spec_cycle_coord(coord),
    {
        match coord {
            Coord::X => Coord::Y,
            Coord::Y => Coord::Z,
            Coord::Z => Coord::X,
        }
    }

    /// The thing in the middle of the list once it is ordered along `coord`,
    /// and the place in the middle of the list.
    fn median_hittable(hittables: &Vec<T>, coord: Coord) -> (median: (T, usize))
        requires
            hittables.len() > 0,
        ensures
            median.0 == spec_median(hittables@, coord),
            median.1 == hittables.len() / 2,
    {
        let mut paired: Vec<(Entry, T)> = Vec::new();
        let mut i: usize = 0;
        while i < hittables.len()
            invariant
                i <= hittables.len(),
                paired.len() == i,
                forall|j: int| 0 <= j < i ==> paired[j] == spec_with_middles(hittables@)[j],
            decreases hittables.len() - i,
        {
            let bounding_box: AxisAlignedBoundingBox = hittables[i].bounding_box();
            paired.push(
                (
                    Entry {
                        lower: bounding_box.bbl_corner(),
                        upper: bounding_box.ftr_corner(),
                        centroid: *bounding_box.center(),
                    },
                    hittables[i],
                ),
            );
            i += 1;
        }
        assert(paired@ =~= spec_with_middles(hittables@));
        let local_hittables: Vec<(Entry, T)> = sort(paired, coord);
        (local_hittables[hittables.len() / 2].1, hittables.len() / 2)
    }

    /// Appends a node to the arena and returns its place.
    fn insert(nodes: &mut Vec<KDTreeNode<T>>, node: KDTreeNodeData<T>) -> (next_index: usize)
        requires
            spec_kd_ok(old(nodes)@),
            node.children.0 matches Some(l) ==> l < old(nodes).len(),
            node.children.1 matches Some(r) ==> r < old(nodes).len(),
        ensures
            next_index == old(nodes).len(),
            final(nodes)@ == old(nodes)@.push(KDTreeNode { node_index: next_index, node_data: node }),
            spec_kd_ok(final(nodes)@),
            final(nodes)@.take(old(nodes).len() as int) == old(nodes)@,
    {
        let next_index: usize = nodes.len();
        let ghost before = nodes@;
        nodes.push(KDTreeNode { node_index: next_index, node_data: node });
        assert(nodes@.take(before.len() as int) =~= before);
        next_index
    }

    /// Asks the things of a leaf in turn for a hit, the window ending at each
    /// hit that is found.
    fn scan(things: &Vec<T>, ray: &Ray, t_min: Scalar, t_max: Scalar, rand: &mut Rand) -> (after:
        Nearest)
        ensures
            (forall|i: int| 0 <= i < things.len() ==> (#[trigger] things[i]).is_deterministic())
                ==> after == spec_scan(
                things@,
                0,
                things.len() as int,
                *ray,
                t_min,
                (t_max, None),
            ),
    {
        let ghost all = forall|i: int|
            0 <= i < things.len() ==> (#[trigger] things[i]).is_deterministic();
        let mut closest_t: Scalar = t_max;
        let mut hit: Option<Hit> = None;
        let mut i: usize = 0;
        while i < things.len()
            invariant
                i <= things.len(),
                all == (forall|j: int|
                    0 <= j < things.len() ==> (#[trigger] things[j]).is_deterministic()),
                all ==> spec_scan(things@, 0, things.len() as int, *ray, t_min, (t_max, None))
                    == spec_scan(things@, i as int, things.len() as int, *ray, t_min, (
                    closest_t,
                    hit,
                )),
            decreases things.len() - i,
        {
            let found: Option<Hit> = things[i].is_hit(ray, t_min, closest_t, rand);
            proof {
                if all {
                    things@[i as int].lemma_hits_alone(*ray, t_min, closest_t, found);
                }
            }
            match found {
                Some(obj_hit) => {
                    closest_t = obj_hit.t;
                    hit = Some(obj_hit);
                },
                None => {},
            }
            i += 1;
        }
        (closest_t, hit)
    }

    fn node_is_hit(&self, root_index: usize, ray: &Ray, t_min: Scalar, t_max: Scalar, rand: &mut Rand) -> (hit:
        Option<Hit>)
        requires
            root_index < self.nodes.len(),
        ensures
            spec_kd_deterministic(spec_kd_subtree(self.nodes@, root_index as int)) ==> hit
                == spec_kd_hit(spec_kd_subtree(self.nodes@, root_index as int), *ray, t_min, t_max),
        decreases root_index,
    {
        proof {
            use_type_invariant(self);
        }
        let node: &KDTreeNodeData<T> = &self.nodes[root_index].node_data;
        assert(self.nodes@[root_index as int].node_data == *node);
        let inv = ray.dir_inverse();
        if node.bounding_box.ray_intersects(ray, &inv, t_min, t_max).is_none() {
            return None;
        }
        match &node.hittables {
            Some(hittables) => {
                return KDTreeMemoryArena::scan(hittables, ray, t_min, t_max, rand).1;
            },
            None => {},
        }
        let mut hit: Option<Hit> = None;
        match node.children.0 {
            Some(left_index) => {
                hit = self.node_is_hit(left_index, ray, t_min, t_max, rand);
            },
            None => {},
        }
        if hit.is_some() {
            return hit;
        }
        match node.children.1 {
            Some(right_index) => {
                hit = self.node_is_hit(right_index, ray, t_min, t_max, rand);
            },
            None => {},
        }
        hit
    }

    /// The hit that a search of the tree finds in the window: that of
    /// [`spec_kd_hit`], where nothing in the tree depends on chance. An
    /// arena without nodes is never hit.
    pub fn is_hit(&self, ray: &Ray, t_min: Scalar, t_max: Scalar, rand: &mut Rand) -> (hit: Option<
        Hit,
    >)
        ensures
            self.is_deterministic() ==> hit == self.spec_is_hit(*ray, t_min, t_max),
    {
        if self.nodes.len() == 0 {
            return None;
        }
        self.node_is_hit(self.nodes.len() - 1, ray, t_min, t_max, rand)
    }
}

} // verus!
