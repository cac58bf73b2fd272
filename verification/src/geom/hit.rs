//! Bounding boxes and the traits of the things a ray can meet.
use crate::accel::bvh::{spec_paired, spec_plan, spec_things, HittableRefs, BVH};
use crate::material::Surface;
use crate::math::{f_geq, f_leq, spec_f_geq, spec_f_leq, Rand, Scalar};
use crate::vec::{
    lemma_dot_neg, lemma_unit_keeps_side, spec_short, spec_tame, Coord, Point3, Ray, Vec3,
};
use vstd::prelude::*;

verus! {

/// The two corners of an axis-aligned box: the mathematical content of an
/// [`AxisAlignedBoundingBox`].
pub struct Extent {
    pub lower: Vec3,
    pub upper: Vec3,
}

/// One half, as a scalar.
pub open spec fn spec_half() -> Scalar {
    Scalar::of(500_000)
}

/// Two, as a scalar.
pub open spec fn spec_two() -> Scalar {
    Scalar::of(2_000_000)
}

/// What a point lies above `lo`, as a fraction of the span from `lo` to `hi`
/// where that span is positive.
pub open spec fn spec_offset_along(lo: Scalar, hi: Scalar, p: Scalar) -> Scalar {
    if hi@ > lo@ {
        p.spec_sub(lo).spec_div(hi.spec_sub(lo))
    } else {
        p.spec_sub(lo)
    }
}

/// Whether a scalar stands for an infinity: the inverse of a direction that
/// does not move along an axis does.
pub open spec fn spec_infinite(x: Scalar) -> bool {
    x@ == i64::MAX || x@ == i64::MIN
}

/// Narrows the window `(t_min, t_max)` of a ray to the part that lies between
/// the two planes `lo` and `hi` of one axis; `None` where nothing is left of
/// it, that is where the window would end before it begins. `o` is the
/// ray's origin along that axis, `inv` the inverse of its direction. A ray
/// that does not move along the axis, whose inverse direction is infinite,
/// keeps its window where its origin lies between the planes, the planes
/// included, and has none where it does not.
pub open spec fn spec_slab(
    lo: Scalar,
    hi: Scalar,
    o: Scalar,
    inv: Scalar,
    window: (Scalar, Scalar),
) -> Option<(Scalar, Scalar)> {
    if spec_infinite(inv) {
        if lo@ <= o@ <= hi@ {
            Some(window)
        } else {
            None
        }
    } else {
        let t0 = inv.spec_mul(lo.spec_sub(o));
        let t1 = inv.spec_mul(hi.spec_sub(o));
        let near = if inv@ < 0 {
            t1
        } else {
            t0
        };
        let far = if inv@ < 0 {
            t0
        } else {
            t1
        };
        let t_min = window.0.spec_max(near);
        let t_max = window.1.spec_min(far);
        if t_max@ < t_min@ {
            None
        } else {
            Some((t_min, t_max))
        }
    }
}

impl Extent {
    /// The box that holds nothing: joined with any box it gives that box.
    pub open spec fn empty() -> Extent {
        Extent {
            lower: Vec3(
                Scalar::of(i64::MAX as int),
                Scalar::of(i64::MAX as int),
                Scalar::of(i64::MAX as int),
            ),
            upper: Vec3(
                Scalar::of(i64::MIN as int),
                Scalar::of(i64::MIN as int),
                Scalar::of(i64::MIN as int),
            ),
        }
    }

    /// The box that holds the one point `p`.
    pub open spec fn point(p: Vec3) -> Extent {
        Extent { lower: p, upper: p }
    }

    /// The smallest box that holds both boxes.
    pub open spec fn join(self, other: Extent) -> Extent {
        Extent {
            lower: self.lower.spec_lowest(other.lower),
            upper: self.upper.spec_highest(other.upper),
        }
    }

    /// Whether `inner` lies within `self`, corner by corner.
    pub open spec fn encloses(self, inner: Extent) -> bool {
        self.lower.spec_all_le(inner.lower) && inner.upper.spec_all_le(self.upper)
    }

    /// The smallest box that holds every box of the sequence; the empty box
    /// for none.
    pub open spec fn join_all(boxes: Seq<Extent>) -> Extent
        decreases boxes.len(),
    {
        if boxes.len() == 0 {
            Extent::empty()
        } else {
            Extent::join_all(boxes.drop_last()).join(boxes.last())
        }
    }

    /// The union of a list of boxes: the origin alone for an empty list, else
    /// the smallest box that holds them all.
    pub open spec fn union_of(boxes: Seq<Extent>) -> Extent {
        if boxes.len() == 0 {
            Extent::point(Vec3(Scalar::of(0), Scalar::of(0), Scalar::of(0)))
        } else {
            Extent::join_all(boxes)
        }
    }

    /// The lengths of the edges.
    pub open spec fn size(self) -> Vec3 {
        self.upper.spec_sub(self.lower)
    }

    /// The point in its middle.
    pub open spec fn center(self) -> Vec3 {
        self.lower.spec_scale(spec_half()).spec_add(self.upper.spec_scale(spec_half()))
    }

    /// The area of its surface.
    pub open spec fn surface_area(self) -> Scalar {
        let size = self.size();
        spec_two().spec_mul(size.0).spec_mul(size.1).spec_add(
            spec_two().spec_mul(size.1).spec_mul(size.2),
        ).spec_add(spec_two().spec_mul(size.0).spec_mul(size.2))
    }

    /// The volume.
    pub open spec fn volume(self) -> Scalar {
        let size = self.size();
        size.0.spec_mul(size.1).spec_mul(size.2)
    }

    /// Where a point lies in the box: along each axis, what it lies above the
    /// lower corner, as a fraction of the edge where the edge has a length.
    pub open spec fn point_offset(self, p: Vec3) -> Vec3 {
        Vec3(
            spec_offset_along(self.lower.0, self.upper.0, p.0),
            spec_offset_along(self.lower.1, self.upper.1, p.1),
            spec_offset_along(self.lower.2, self.upper.2, p.2),
        )
    }

    /// Whether the two boxes overlap, or touch to within the threshold, along
    /// every axis.
    pub open spec fn intersects(self, other: Extent) -> bool {
        &&& spec_f_leq(self.lower.0, other.upper.0) && spec_f_leq(other.lower.0, self.upper.0)
        &&& spec_f_leq(self.lower.1, other.upper.1) && spec_f_leq(other.lower.1, self.upper.1)
        &&& spec_f_leq(self.lower.2, other.upper.2) && spec_f_leq(other.lower.2, self.upper.2)
    }

    /// The axis along which the box is longest; of two axes equally long to
    /// within the threshold, the earlier one.
    pub open spec fn largest_extent_axis(self) -> Coord {
        let extent = self.size();
        if spec_f_geq(extent.0, extent.1.spec_max(extent.2)) {
            Coord::X
        } else if spec_f_geq(extent.1, extent.2) {
            Coord::Y
        } else {
            Coord::Z
        }
    }

    /// The part of the window `(t_min, t_max)` in which the ray from `origin`
    /// with inverse direction `inv` is inside the box, taking the three axes
    /// in turn; `None` as soon as nothing is left.
    pub open spec fn ray_intersects(
        self,
        origin: Vec3,
        inv: Vec3,
        t_min: Scalar,
        t_max: Scalar,
    ) -> Option<(Scalar, Scalar)> {
        match spec_slab(self.lower.0, self.upper.0, origin.0, inv.0, (t_min, t_max)) {
            None => None,
            Some(wx) => match spec_slab(self.lower.1, self.upper.1, origin.1, inv.1, wx) {
                None => None,
                Some(wy) => spec_slab(self.lower.2, self.upper.2, origin.2, inv.2, wy),
            },
        }
    }
}

/// The boxes that a list of references points to.
pub open spec fn spec_extents(boxes: Seq<&AxisAlignedBoundingBox>) -> Seq<Extent> {
    Seq::new(boxes.len(), |i: int| boxes[i]@)
}

/// The one-point boxes of a list of points.
pub open spec fn spec_point_extents(points: Seq<Point3>) -> Seq<Extent> {
    Seq::new(points.len(), |i: int| Extent::point(points[i]))
}

/// The bounding boxes of a list of bounded things.
pub open spec fn spec_bounds_of<T: Bounded>(objs: Seq<T>) -> Seq<Extent> {
    Seq::new(objs.len(), |i: int| objs[i].spec_bounding_box())
}

/// A union never loses a box: the join of two boxes holds both.
pub proof fn lemma_join_encloses(a: Extent, b: Extent)
    ensures
        a.join(b).encloses(a),
        a.join(b).encloses(b),
{
}

/// The order of the two boxes does not matter to their join.
pub proof fn lemma_join_commutative(a: Extent, b: Extent)
    ensures
        a.join(b) == b.join(a),
{
}

/// Joining three boxes gives the same box however they are grouped.
pub proof fn lemma_join_associative(a: Extent, b: Extent, c: Extent)
    ensures
        a.join(b).join(c) == a.join(b.join(c)),
{
}

/// The empty box is neutral: joined with `a`, on either side, it gives `a`.
pub proof fn lemma_join_empty(a: Extent)
    ensures
        Extent::empty().join(a) == a,
        a.join(Extent::empty()) == a,
{
}

/// A box encloses itself, and enclosure carries over from box to box.
pub proof fn lemma_encloses_transitive(a: Extent, b: Extent, c: Extent)
    requires
        a.encloses(b),
        b.encloses(c),
    ensures
        a.encloses(c),
        a.encloses(a),
{
}

/// The union of a list of boxes holds every box of the list.
pub proof fn lemma_join_all_encloses(boxes: Seq<Extent>, i: int)
    requires
        0 <= i < boxes.len(),
    ensures
        Extent::join_all(boxes).encloses(boxes[i]),
        Extent::union_of(boxes).encloses(boxes[i]),
    decreases boxes.len(),
{
    if i < boxes.len() - 1 {
        lemma_join_all_encloses(boxes.drop_last(), i);
    }
}

/// The union of a list of boxes is the least box that holds them all: it
/// lies within every box that holds every box of the list.
pub proof fn lemma_join_all_least(boxes: Seq<Extent>, outer: Extent)
    requires
        boxes.len() > 0,
        forall|i: int| 0 <= i < boxes.len() ==> outer.encloses(#[trigger] boxes[i]),
    ensures
        outer.encloses(Extent::join_all(boxes)),
        outer.encloses(Extent::union_of(boxes)),
    decreases boxes.len(),
{
    if boxes.len() > 1 {
        let front = boxes.drop_last();
        assert forall|i: int| 0 <= i < front.len() implies outer.encloses(#[trigger] front[i]) by {
            assert(front[i] == boxes[i]);
        }
        lemma_join_all_least(front, outer);
        assert(outer.encloses(boxes[boxes.len() - 1]));
    } else {
        assert(boxes.drop_last() =~= Seq::<Extent>::empty());
        assert(outer.encloses(boxes[0]));
        reveal_with_fuel(Extent::join_all, 2);
    }
}

/// The box around a list of things does not depend on their order: two
/// lists that hold the same things, each as often, have the same box.
pub proof fn lemma_union_any_order<T: Bounded>(first: Seq<T>, second: Seq<T>)
    requires
        first.to_multiset() == second.to_multiset(),
    ensures
        Extent::union_of(spec_bounds_of(first)) == Extent::union_of(spec_bounds_of(second)),
{
    broadcast use vstd::seq_lib::group_to_multiset_ensures;

    first.to_multiset_ensures();
    second.to_multiset_ensures();
    assert(first.len() == second.len());
    if first.len() > 0 {
        let a = spec_bounds_of(first);
        let b = spec_bounds_of(second);
        assert forall|i: int| 0 <= i < a.len() implies Extent::union_of(b).encloses(
            #[trigger] a[i],
        ) by {
            assert(first.contains(first[i]));
            assert(second.to_multiset().count(first[i]) > 0);
            assert(second.contains(first[i]));
            let j = choose|j: int| 0 <= j < second.len() && second[j] == first[i];
            assert(b[j] == a[i]);
            lemma_join_all_encloses(b, j);
        }
        assert forall|i: int| 0 <= i < b.len() implies Extent::union_of(a).encloses(
            #[trigger] b[i],
        ) by {
            assert(second.contains(second[i]));
            assert(first.to_multiset().count(second[i]) > 0);
            assert(first.contains(second[i]));
            let j = choose|j: int| 0 <= j < first.len() && first[j] == second[i];
            assert(a[j] == b[i]);
            lemma_join_all_encloses(a, j);
        }
        lemma_join_all_least(a, Extent::union_of(b));
        lemma_join_all_least(b, Extent::union_of(a));
    }
}

/// The union of the two-box list `[a, b]` is the join of `a` and `b`.
pub proof fn lemma_union_of_pair(a: Extent, b: Extent)
    ensures
        Extent::union_of(seq![a, b]) == a.join(b),
{
    let pair = seq![a, b];
    assert(pair.drop_last() =~= seq![a]);
    assert(pair.drop_last().drop_last() =~= Seq::<Extent>::empty());
    reveal_with_fuel(Extent::join_all, 3);
}

/// An axis-aligned bounding box, given by its front-top-right and its
/// back-bottom-left corner, together with its center.
#[derive(Clone, Copy, Debug)]
pub struct AxisAlignedBoundingBox {
    center: Point3,
    ftr_corner: Point3,
    bbl_corner: Point3,
}

impl View for AxisAlignedBoundingBox {
    type V = Extent;

    closed spec fn view(&self) -> Extent {
        Extent { lower: self.bbl_corner, upper: self.ftr_corner }
    }
}

impl AxisAlignedBoundingBox {
    #[verifier::type_invariant]
    spec fn centered(self) -> bool {
        self.center == self@.center()
    }

    /// The box with the given upper and lower corners.
    pub fn new(ftr_corner: Point3, bbl_corner: Point3) -> (b: AxisAlignedBoundingBox)
        ensures
            b@ == (Extent { lower: bbl_corner, upper: ftr_corner }),
    {
        let half: Scalar = Scalar::from_raw(500_000);
        AxisAlignedBoundingBox {
            center: bbl_corner.scale(half).add(ftr_corner.scale(half)),
            ftr_corner,
            bbl_corner,
        }
    }

    /// The box that holds nothing.
    pub fn empty() -> (b: AxisAlignedBoundingBox)
        ensures
            b@ == Extent::empty(),
    {
        AxisAlignedBoundingBox::new(
            Point3::new(Scalar::neg_infinity(), Scalar::neg_infinity(), Scalar::neg_infinity()),
            Point3::new(Scalar::infinity(), Scalar::infinity(), Scalar::infinity()),
        )
    }

    /// The point in its middle.
    pub fn center(&self) -> (c: &Point3)
        ensures
            *c == self@.center(),
    {
        proof {
            use_type_invariant(self);
        }
        &self.center
    }

    /// The front-top-right corner.
    pub fn ftr_corner(&self) -> (c: Point3)
        ensures
            c == self@.upper,
    {
        self.ftr_corner
    }

    /// The back-bottom-left corner.
    pub fn bbl_corner(&self) -> (c: Point3)
        ensures
            c == self@.lower,
    {
        self.bbl_corner
    }

    /// The area of its surface.
    pub fn surface_area(&self) -> (area: Scalar)
        ensures
            area == self@.surface_area(),
    {
        let size: Vec3 = self.ftr_corner.sub(self.bbl_corner);
        let two: Scalar = Scalar::from_raw(2_000_000);
        two.mul(size.0).mul(size.1).add(two.mul(size.1).mul(size.2)).add(
            two.mul(size.0).mul(size.2),
        )
    }

    /// The volume.
    pub fn volume(&self) -> (volume: Scalar)
        ensures
            volume == self@.volume(),
    {
        let size: Vec3 = self.ftr_corner.sub(self.bbl_corner);
        size.0.mul(size.1).mul(size.2)
    }

    /// Where a point lies in the box: along each axis, what it lies above the
    /// lower corner, as a fraction of the edge where the edge has a length.
    pub fn point_offset(&self, point: &Point3) -> (offset: Vec3)
        ensures
            offset == self@.point_offset(*point),
    {
        Vec3(
            offset_along(self.bbl_corner.0, self.ftr_corner.0, point.0),
            offset_along(self.bbl_corner.1, self.ftr_corner.1, point.1),
            offset_along(self.bbl_corner.2, self.ftr_corner.2, point.2),
        )
    }

    /// Whether the two boxes overlap, or touch to within the threshold, along
    /// every axis.
    pub fn box_intersects(&self, other: AxisAlignedBoundingBox) -> (b: bool)
        ensures
            b == self@.intersects(other@),
    {
        f_leq(self.bbl_corner.0, other.ftr_corner.0) && f_leq(other.bbl_corner.0, self.ftr_corner.0)
            && f_leq(self.bbl_corner.1, other.ftr_corner.1) && f_leq(
            other.bbl_corner.1,
            self.ftr_corner.1,
        ) && f_leq(self.bbl_corner.2, other.ftr_corner.2) && f_leq(
            other.bbl_corner.2,
            self.ftr_corner.2,
        )
    }

    /// The slab test: the part of `(t_min, t_max)` in which `ray` is inside the
    /// box, or `None`. `dir_inverse` is the componentwise inverse of the ray's
    /// direction.
    pub fn ray_intersects(
        &self,
        ray: &Ray,
        dir_inverse: &Vec3,
        t_min: Scalar,
        t_max: Scalar,
    ) -> (window: Option<(Scalar, Scalar)>)
        ensures
            window == self@.ray_intersects(ray.origin, *dir_inverse, t_min, t_max),
    {
        let wx = slab(
            self.bbl_corner.0,
            self.ftr_corner.0,
            ray.origin.0,
            dir_inverse.0,
            (t_min, t_max),
        );
        match wx {
            None => None,
            Some(wx) => {
                let wy = slab(
                    self.bbl_corner.1,
                    self.ftr_corner.1,
                    ray.origin.1,
                    dir_inverse.1,
                    wx,
                );
                match wy {
                    None => None,
                    Some(wy) => slab(
                        self.bbl_corner.2,
                        self.ftr_corner.2,
                        ray.origin.2,
                        dir_inverse.2,
                        wy,
                    ),
                }
            },
        }
    }

    /// The box around two boxes.
    pub fn join(&self, other: &AxisAlignedBoundingBox) -> (b: AxisAlignedBoundingBox)
        ensures
            b@ == self@.join(other@),
    {
        AxisAlignedBoundingBox::new(
            self.ftr_corner.highest(&other.ftr_corner),
            self.bbl_corner.lowest(&other.bbl_corner),
        )
    }

    /// The least box that holds all the given boxes.
    pub fn union(boxes: Vec<&Self>) -> (b: AxisAlignedBoundingBox)
        ensures
            b@ == Extent::union_of(spec_extents(boxes@)),
    {
        if boxes.len() == 0 {
            return AxisAlignedBoundingBox::new(Point3::o(), Point3::o());
        }
        let mut all: AxisAlignedBoundingBox = AxisAlignedBoundingBox::empty();
        let mut i: usize = 0;
        while i < boxes.len()
            invariant
                i <= boxes.len(),
                all@ == Extent::join_all(spec_extents(boxes@).take(i as int)),
            decreases boxes.len() - i,
        {
            assert(spec_extents(boxes@).take(i + 1).drop_last() =~= spec_extents(boxes@).take(
                i as int,
            ));
            all = all.join(boxes[i]);
            i += 1;
        }
        assert(spec_extents(boxes@).take(i as int) =~= spec_extents(boxes@));
        all
    }

    /// The least box that holds the bounding boxes of all the given things.
    pub fn union_from_objs<T: Bounded>(objs: &Vec<T>) -> (b: AxisAlignedBoundingBox)
        ensures
            b@ == Extent::union_of(spec_bounds_of(objs@)),
    {
        if objs.len() == 0 {
            return AxisAlignedBoundingBox::new(Point3::o(), Point3::o());
        }
        let mut all: AxisAlignedBoundingBox = AxisAlignedBoundingBox::empty();
        let mut i: usize = 0;
        while i < objs.len()
            invariant
                i <= objs.len(),
                all@ == Extent::join_all(spec_bounds_of(objs@).take(i as int)),
            decreases objs.len() - i,
        {
            assert(spec_bounds_of(objs@).take(i + 1).drop_last() =~= spec_bounds_of(objs@).take(
                i as int,
            ));
            let next: AxisAlignedBoundingBox = objs[i].bounding_box();
            all = all.join(&next);
            i += 1;
        }
        assert(spec_bounds_of(objs@).take(i as int) =~= spec_bounds_of(objs@));
        all
    }

    /// The least box that holds all the given points.
    pub fn union_from_points(points: &Vec<Point3>) -> (b: AxisAlignedBoundingBox)
        ensures
            b@ == Extent::union_of(spec_point_extents(points@)),
    {
        if points.len() == 0 {
            return AxisAlignedBoundingBox::new(Point3::o(), Point3::o());
        }
        let mut all: AxisAlignedBoundingBox = AxisAlignedBoundingBox::empty();
        let mut i: usize = 0;
        while i < points.len()
            invariant
                i <= points.len(),
                all@ == Extent::join_all(spec_point_extents(points@).take(i as int)),
            decreases points.len() - i,
        {
            assert(spec_point_extents(points@).take(i + 1).drop_last() =~= spec_point_extents(
                points@,
            ).take(i as int));
            let next: AxisAlignedBoundingBox = AxisAlignedBoundingBox::new(points[i], points[i]);
            all = all.join(&next);
            i += 1;
        }
        assert(spec_point_extents(points@).take(i as int) =~= spec_point_extents(points@));
        all
    }

    /// The axis along which the box is longest; of two axes equally long to
    /// within the threshold, the earlier one.
    pub fn largest_extent_axis(&self) -> (axis: Coord)
        ensures
            axis == self@.largest_extent_axis(),
    {
        let extent: Vec3 = self.ftr_corner.sub(self.bbl_corner);
        if f_geq(extent.0, extent.1.max(extent.2)) {
            Coord::X
        } else if f_geq(extent.1, extent.2) {
            Coord::Y
        } else {
            Coord::Z
        }
    }
}

fn offset_along(lo: Scalar, hi: Scalar, p: Scalar) -> (r: Scalar)
    ensures
        r == spec_offset_along(lo, hi, p),
{
    if hi.raw > lo.raw {
        p.sub(lo).div(hi.sub(lo))
    } else {
        p.sub(lo)
    }
}

fn slab(lo: Scalar, hi: Scalar, o: Scalar, inv: Scalar, window: (Scalar, Scalar)) -> (r: Option<
    (Scalar, Scalar),
>)
    ensures
        r == spec_slab(lo, hi, o, inv, window),
{
    if inv.raw == i64::MAX || inv.raw == i64::MIN {
        if lo.raw <= o.raw && o.raw <= hi.raw {
            return Some(window);
        }
        return None;
    }
    let t0: Scalar = inv.mul(lo.sub(o));
    let t1: Scalar = inv.mul(hi.sub(o));
    let (near, far) = if inv.raw < 0 {
        (t1, t0)
    } else {
        (t0, t1)
    };
    let t_min: Scalar = window.0.max(near);
    let t_max: Scalar = window.1.min(far);
    if t_max.raw < t_min.raw {
        None
    } else {
        Some((t_min, t_max))
    }
}

/// A thing with a bounding box.
pub trait Bounded {
    /// The box that `bounding_box` returns.
    spec fn spec_bounding_box(&self) -> Extent;

    /// The point that `centroid` returns.
    spec fn spec_centroid(&self) -> Point3;

    fn bounding_box(&self) -> (b: AxisAlignedBoundingBox)
        ensures
            b@ == self.spec_bounding_box(),
    ;

    fn centroid(&self) -> (c: Point3)
        ensures
            c == self.spec_centroid(),
    ;
}

/// The offset by which the origin of a scattered ray is nudged off the
/// surface it leaves, in raw steps (`0.001`).
pub const FP_OFFSET: i64 = 1_000;

/// Where a ray meets a surface.
#[derive(Clone, Copy, Debug)]
pub struct Hit {
    /// The point of the surface.
    pub point: Point3,
    /// The unit normal of the surface there, turned to face the ray.
    pub normal: Vec3,
    /// The parameter of the ray at the point.
    pub t: Scalar,
    /// Whether the ray came from outside the surface.
    pub outer: bool,
    /// The material of the surface.
    pub material: Surface,
}

impl Hit {
    /// The hit with its normal normalized, and reversed where the ray came from
    /// inside.
    pub open spec fn spec_new(
        point: Point3,
        normal: Vec3,
        t: Scalar,
        outer: bool,
        material: Surface,
    ) -> Hit {
        Hit {
            point,
            t,
            outer,
            material,
            normal: if outer {
                normal.spec_unit()
            } else {
                normal.spec_unit().spec_neg()
            },
        }
    }

    /// The hit at `point` with the outward normal `normal`, which is stored
    /// normalized, and reversed where the ray came from inside.
    pub fn new(point: Point3, normal: Vec3, t: Scalar, outer: bool, material: Surface) -> (hit: Hit)
        ensures
            hit == Hit::spec_new(point, normal, t, outer, material),
    {
        Hit {
            point,
            t,
            outer,
            material,
            normal: if outer {
                normal.unit()
            } else {
                normal.unit().neg()
            },
        }
    }

    /// [`FP_OFFSET`] as a scalar.
    pub fn fp_offset() -> (offset: Scalar)
        ensures
            offset@ == FP_OFFSET,
    {
        Scalar::from_raw(FP_OFFSET)
    }
}

/// Whether a point lies in a box, its walls included.
pub open spec fn spec_inside(bounds: Extent, p: Point3) -> bool {
    &&& bounds.lower.0@ <= p.0@ <= bounds.upper.0@
    &&& bounds.lower.1@ <= p.1@ <= bounds.upper.1@
    &&& bounds.lower.2@ <= p.2@ <= bounds.upper.2@
}

/// A product has the sign that its factors give it, or is zero.
proof fn lemma_product_sign(a: Scalar, b: Scalar)
    ensures
        (a@ >= 0 && b@ >= 0) || (a@ <= 0 && b@ <= 0) ==> a.spec_mul(b)@ >= 0,
        (a@ >= 0 && b@ <= 0) || (a@ <= 0 && b@ >= 0) ==> a.spec_mul(b)@ <= 0,
{
    let p = a@ * b@;
    assert((a@ >= 0 && b@ >= 0) || (a@ <= 0 && b@ <= 0) ==> p >= 0) by (nonlinear_arith)
        requires
            p == a@ * b@,
    ;
    assert((a@ >= 0 && b@ <= 0) || (a@ <= 0 && b@ >= 0) ==> p <= 0) by (nonlinear_arith)
        requires
            p == a@ * b@,
    ;
    if p >= 0 {
        assert(p / 1_000_000 >= 0) by (nonlinear_arith)
            requires
                p >= 0,
        ;
    } else {
        assert((-p) / 1_000_000 >= 0) by (nonlinear_arith)
            requires
                -p >= 0,
        ;
    }
}

/// Between two walls that hold the origin of a ray, a window that begins at
/// the origin keeps its beginning and does not end before it.
proof fn lemma_slab_from_inside(lo: Scalar, hi: Scalar, o: Scalar, inv: Scalar, t_max: Scalar)
    requires
        lo@ <= o@ <= hi@,
        t_max@ >= 0,
    ensures
        spec_slab(lo, hi, o, inv, (Scalar::of(0), t_max)) matches Some(w) && w.0@ == 0 && w.1@
            >= 0,
{
    lemma_product_sign(inv, lo.spec_sub(o));
    lemma_product_sign(inv, hi.spec_sub(o));
}

/// A ray that starts in a box meets the box: for a ray from a point of the
/// box, its walls included, in any direction, the slab test gives an
/// interval, which begins at the origin of the ray.
pub proof fn lemma_ray_from_inside(bounds: Extent, origin: Point3, inv: Vec3, t_max: Scalar)
    requires
        spec_inside(bounds, origin),
        t_max@ >= 0,
    ensures
        bounds.ray_intersects(origin, inv, Scalar::of(0), t_max) matches Some(w) && w.0@ == 0
            && w.1@ >= 0,
{
    lemma_slab_from_inside(bounds.lower.0, bounds.upper.0, origin.0, inv.0, t_max);
    let wx = spec_slab(
        bounds.lower.0,
        bounds.upper.0,
        origin.0,
        inv.0,
        (Scalar::of(0), t_max),
    ).unwrap();
    assert(wx.0 == Scalar::of(0));
    lemma_slab_from_inside(bounds.lower.1, bounds.upper.1, origin.1, inv.1, wx.1);
    let wy = spec_slab(bounds.lower.1, bounds.upper.1, origin.1, inv.1, wx).unwrap();
    assert(wy.0 == Scalar::of(0));
    lemma_slab_from_inside(bounds.lower.2, bounds.upper.2, origin.2, inv.2, wy.1);
}

/// Two boxes that share a point overlap, and every ray from that point
/// meets both, in an interval that begins at the point.
pub proof fn lemma_shared_point(a: Extent, b: Extent, shared: Point3, inv: Vec3, t_max: Scalar)
    requires
        spec_inside(a, shared),
        spec_inside(b, shared),
        t_max@ >= 0,
    ensures
        a.intersects(b),
        a.ray_intersects(shared, inv, Scalar::of(0), t_max) matches Some(w) && w.0@ == 0,
        b.ray_intersects(shared, inv, Scalar::of(0), t_max) matches Some(w) && w.0@ == 0,
{
    lemma_ray_from_inside(a, shared, inv, t_max);
    lemma_ray_from_inside(b, shared, inv, t_max);
}

/// A quotient by the scale, rounded toward zero, grows with its dividend.
proof fn lemma_quotient_grows(a: int, b: int)
    requires
        a <= b,
    ensures
        crate::math::quotient(a, 1_000_000) <= crate::math::quotient(b, 1_000_000),
{
    if a >= 0 {
        assert(a / 1_000_000 <= b / 1_000_000) by (nonlinear_arith)
            requires
                0 <= a <= b,
        ;
    } else if b >= 0 {
        assert((-a) / 1_000_000 >= 0) by (nonlinear_arith)
            requires
                -a >= 0,
        ;
        assert(b / 1_000_000 >= 0) by (nonlinear_arith)
            requires
                b >= 0,
        ;
    } else {
        assert((-b) / 1_000_000 <= (-a) / 1_000_000) by (nonlinear_arith)
            requires
                0 <= -b <= -a,
        ;
    }
}

/// A product grows with its second factor where the first is not negative,
/// and falls with it where the first is not positive.
proof fn lemma_product_grows(inv: Scalar, x: Scalar, y: Scalar)
    requires
        x@ <= y@,
    ensures
        inv@ >= 0 ==> inv.spec_mul(x)@ <= inv.spec_mul(y)@,
        inv@ <= 0 ==> inv.spec_mul(x)@ >= inv.spec_mul(y)@,
{
    let a = inv@ * x@;
    let b = inv@ * y@;
    if inv@ >= 0 {
        assert(a <= b) by (nonlinear_arith)
            requires
                a == inv@ * x@,
                b == inv@ * y@,
                inv@ >= 0,
                x@ <= y@,
        ;
        lemma_quotient_grows(a, b);
    }
    if inv@ <= 0 {
        assert(b <= a) by (nonlinear_arith)
            requires
                a == inv@ * x@,
                b == inv@ * y@,
                inv@ <= 0,
                x@ <= y@,
        ;
        lemma_quotient_grows(b, a);
    }
}

/// Between walls that lie farther apart, a window that is no shorter keeps
/// at least what it keeps between the nearer walls.
proof fn lemma_slab_wider(
    lo_a: Scalar,
    hi_a: Scalar,
    lo_b: Scalar,
    hi_b: Scalar,
    o: Scalar,
    inv: Scalar,
    wa: (Scalar, Scalar),
    wb: (Scalar, Scalar),
)
    requires
        lo_b@ <= lo_a@,
        hi_a@ <= hi_b@,
        wb.0@ <= wa.0@,
        wa.1@ <= wb.1@,
        spec_slab(lo_a, hi_a, o, inv, wa) is Some,
    ensures
        spec_slab(lo_b, hi_b, o, inv, wb) matches Some(rb) && rb.0@ <= spec_slab(
            lo_a,
            hi_a,
            o,
            inv,
            wa,
        ).unwrap().0@ && spec_slab(lo_a, hi_a, o, inv, wa).unwrap().1@ <= rb.1@,
{
    if !spec_infinite(inv) {
        lemma_product_grows(inv, lo_b.spec_sub(o), lo_a.spec_sub(o));
        lemma_product_grows(inv, hi_a.spec_sub(o), hi_b.spec_sub(o));
    }
}

/// A ray that meets a box meets every box that encloses it, in an interval
/// that holds the one in which it meets the inner box.
pub proof fn lemma_ray_meets_wider(
    inner: Extent,
    outer: Extent,
    origin: Point3,
    inv: Vec3,
    t_min: Scalar,
    t_max: Scalar,
)
    requires
        outer.encloses(inner),
        inner.ray_intersects(origin, inv, t_min, t_max) is Some,
    ensures
        outer.ray_intersects(origin, inv, t_min, t_max) matches Some(w) && w.0@
            <= inner.ray_intersects(origin, inv, t_min, t_max).unwrap().0@
            && inner.ray_intersects(origin, inv, t_min, t_max).unwrap().1@ <= w.1@,
{
    let w = (t_min, t_max);
    lemma_slab_wider(
        inner.lower.0,
        inner.upper.0,
        outer.lower.0,
        outer.upper.0,
        origin.0,
        inv.0,
        w,
        w,
    );
    let ax = spec_slab(inner.lower.0, inner.upper.0, origin.0, inv.0, w).unwrap();
    let bx = spec_slab(outer.lower.0, outer.upper.0, origin.0, inv.0, w).unwrap();
    lemma_slab_wider(
        inner.lower.1,
        inner.upper.1,
        outer.lower.1,
        outer.upper.1,
        origin.1,
        inv.1,
        ax,
        bx,
    );
    let ay = spec_slab(inner.lower.1, inner.upper.1, origin.1, inv.1, ax).unwrap();
    let by = spec_slab(outer.lower.1, outer.upper.1, origin.1, inv.1, bx).unwrap();
    lemma_slab_wider(
        inner.lower.2,
        inner.upper.2,
        outer.lower.2,
        outer.upper.2,
        origin.2,
        inv.2,
        ay,
        by,
    );
}

/// A hit faces the ray that made it: where the side the ray came from is
/// told by the sign of the dot product of its direction with the outward
/// normal, the direction and the stored normal do not point the same way.
/// This holds for tame directions and for tame normals that normalizing
/// leaves as they are.
pub proof fn lemma_hit_faces_ray(point: Point3, normal: Vec3, t: Scalar, dir: Vec3, material: Surface)
    requires
        spec_tame(dir),
        spec_tame(normal),
        normal.spec_unit() == normal,
    ensures
        dir.spec_dot(
            Hit::spec_new(point, normal, t, dir.spec_dot(normal)@ < 0, material).normal,
        )@ <= 0,
{
    lemma_dot_neg(dir, normal);
}

/// A hit faces the ray that made it, to within the threshold: for a
/// direction with no component beyond one and a tame outward normal of
/// length at least a tenth, the dot product of the direction with the stored
/// normal does not exceed zero by more than the threshold.
pub proof fn lemma_hit_nearly_faces_ray(
    point: Point3,
    normal: Vec3,
    t: Scalar,
    dir: Vec3,
    material: Surface,
)
    requires
        spec_short(dir),
        spec_tame(normal),
        normal.raw_norm_squared() >= 10_000_000_000,
    ensures
        spec_f_leq(
            dir.spec_dot(
                Hit::spec_new(point, normal, t, dir.spec_dot(normal)@ < 0, material).normal,
            ),
            Scalar::of(0),
        ),
{
    lemma_unit_keeps_side(dir, normal);
    lemma_dot_neg(dir, normal.spec_unit());
}

/// A thing that a ray can meet.
pub trait Hittable {
    /// Whether what `is_hit` returns depends on the ray and the window
    /// alone, and not on chance.
    spec fn is_deterministic(&self) -> bool;

    /// What `is_hit` returns where it does not depend on chance.
    spec fn spec_is_hit(&self, ray: Ray, t_min: Scalar, t_max: Scalar) -> Option<Hit>;

    /// Whether `hit` is one of the outcomes that `is_hit` may have for `ray`
    /// and the window `(t_min, t_max)`, whatever chance brings.
    spec fn hits(&self, ray: Ray, t_min: Scalar, t_max: Scalar, hit: Option<Hit>) -> bool;

    /// What `surface_area` returns.
    spec fn spec_surface_area(&self) -> Scalar;

    /// A thing that does not depend on chance has one outcome, that of
    /// `spec_is_hit`.
    proof fn lemma_hits_alone(&self, ray: Ray, t_min: Scalar, t_max: Scalar, hit: Option<Hit>)
        requires
            self.is_deterministic(),
            self.hits(ray, t_min, t_max, hit),
        ensures
            hit == self.spec_is_hit(ray, t_min, t_max),
    ;

    /// Where `ray` meets the thing within the window `(t_min, t_max)` of its
    /// parameter, if it does.
    fn is_hit(&self, ray: &Ray, t_min: Scalar, t_max: Scalar, rand: &mut Rand) -> (hit: Option<
        Hit,
    >)
        ensures
            self.hits(*ray, t_min, t_max, hit),
    ;

    fn surface_area(&self) -> (area: Scalar)
        ensures
            area == self.spec_surface_area(),
    ;
}

/// A thing that a ray can meet and that has a bounding box.
pub trait BoundedHittable: Bounded + Hittable {

}

/// The sum of the surface areas of the things, taken in order.
pub open spec fn spec_total_area<T: Hittable>(objs: Seq<T>) -> Scalar
    decreases objs.len(),
{
    if objs.len() == 0 {
        Scalar::of(0)
    } else {
        spec_total_area(objs.drop_last()).spec_add(objs.last().spec_surface_area())
    }
}

/// A group of things behind one hierarchy.
pub struct HittableGroup<T> {
    accel: BVH<T>,
}

impl<T: BoundedHittable> HittableGroup<T> {
    /// The hierarchy of the group.
    pub closed spec fn accel(self) -> BVH<T> {
        self.accel
    }

    /// The things of the group, in the order of the leaves of its hierarchy.
    pub open spec fn spec_hittables(self) -> Seq<T> {
        self.accel().spec_objects()
    }

    /// Whether what `is_hit` returns depends on the ray and the window alone, and
    /// not on chance.
    pub open spec fn is_deterministic(&self) -> bool {
        self.accel().is_deterministic()
    }

    /// What `is_hit` returns where it does not depend on chance.
    pub open spec fn spec_is_hit(&self, ray: Ray, t_min: Scalar, t_max: Scalar) -> Option<Hit> {
        self.accel().spec_is_hit(ray, t_min, t_max)
    }

    /// Whether `hit` is one of the outcomes that `is_hit` may have: those of
    /// the hierarchy.
    pub open spec fn hits(&self, ray: Ray, t_min: Scalar, t_max: Scalar, hit: Option<Hit>) -> bool {
        self.accel().hits(ray, t_min, t_max, hit)
    }

    /// What `surface_area` returns.
    pub open spec fn spec_surface_area(&self) -> Scalar {
        spec_total_area(self.spec_hittables())
    }

    /// What `bounding_box` returns.
    pub open spec fn spec_bounding_box(&self) -> Extent {
        Extent::union_of(spec_bounds_of(self.spec_hittables()))
    }

    /// The group of the given things, over which a hierarchy is built.
    pub fn new(hittables: HittableRefs<T>) -> (group: HittableGroup<T>)
        ensures
            group.accel().tree() == spec_plan(spec_paired(hittables@), 0).0,
            group.spec_hittables() == spec_things(spec_plan(spec_paired(hittables@), 0).1),
            group.spec_hittables().len() == hittables.len(),
            group.spec_hittables().to_multiset() == hittables@.to_multiset(),
            group.spec_bounding_box() == Extent::union_of(spec_bounds_of(hittables@)),
    {
        proof {
            crate::accel::bvh::lemma_plan_keeps(spec_paired(hittables@), 0);
            assert(spec_things(spec_paired(hittables@)) =~= hittables@);
            lemma_union_any_order(
                spec_things(spec_plan(spec_paired(hittables@), 0).1),
                hittables@,
            );
        }
        let accel: BVH<T> = BVH::new(hittables);
        HittableGroup { accel }
    }

    /// The things of the group, in the order in which the hierarchy holds them.
    pub fn hittables(&self) -> (objects: &HittableRefs<T>)
        ensures
            objects@ == self.spec_hittables(),
    {
        self.accel.objects()
    }

    /// Where `ray` meets it within the window `(t_min, t_max)` of its parameter,
    /// if it does.
    pub fn is_hit(&self, ray: &Ray, t_min: Scalar, t_max: Scalar, rand: &mut Rand) -> (hit: Option<
        Hit,
    >)
        ensures
            self.hits(*ray, t_min, t_max, hit),
    {
        self.accel.is_hit(ray, t_min, t_max, rand)
    }

    /// The area of its surface.
    pub fn surface_area(&self) -> (area: Scalar)
        ensures
            area == self.spec_surface_area(),
    {
        let objects: &HittableRefs<T> = self.accel.objects();
        let mut acc: Scalar = Scalar::zero();
        let mut i: usize = 0;
        while i < objects.len()
            invariant
                i <= objects.len(),
                acc == spec_total_area(objects@.take(i as int)),
            decreases objects.len() - i,
        {
            assert(objects@.take(i + 1).drop_last() =~= objects@.take(i as int));
            acc = acc.add(objects[i].surface_area());
            i += 1;
        }
        assert(objects@.take(i as int) =~= objects@);
        acc
    }

    /// The axis-aligned box that bounds it.
    pub fn bounding_box(&self) -> (b: AxisAlignedBoundingBox)
        ensures
            b@ == self.spec_bounding_box(),
    {
        AxisAlignedBoundingBox::union_from_objs(self.hittables())
    }

    /// The point that stands for it where things are ordered in space.
    pub fn centroid(&self) -> (c: Point3)
        ensures
            c == self.spec_bounding_box().center(),
    {
        *self.bounding_box().center()
    }
}

impl<T: BoundedHittable> Hittable for HittableGroup<T> {
    open spec fn is_deterministic(&self) -> bool {
        HittableGroup::is_deterministic(self)
    }

    open spec fn spec_is_hit(&self, ray: Ray, t_min: Scalar, t_max: Scalar) -> Option<Hit> {
        HittableGroup::spec_is_hit(self, ray, t_min, t_max)
    }

    open spec fn hits(&self, ray: Ray, t_min: Scalar, t_max: Scalar, hit: Option<Hit>) -> bool {
        HittableGroup::hits(self, ray, t_min, t_max, hit)
    }

    proof fn lemma_hits_alone(&self, ray: Ray, t_min: Scalar, t_max: Scalar, hit: Option<Hit>) {
    }

    open spec fn spec_surface_area(&self) -> Scalar {
        HittableGroup::spec_surface_area(self)
    }

    fn is_hit(&self, ray: &Ray, t_min: Scalar, t_max: Scalar, rand: &mut Rand) -> (hit: Option<
        Hit,
    >) {
        HittableGroup::is_hit(self, ray, t_min, t_max, rand)
    }

    fn surface_area(&self) -> (area: Scalar) {
        HittableGroup::surface_area(self)
    }
}

impl<T: BoundedHittable> Bounded for HittableGroup<T> {
    open spec fn spec_bounding_box(&self) -> Extent {
        HittableGroup::spec_bounding_box(self)
    }

    open spec fn spec_centroid(&self) -> Point3 {
        HittableGroup::spec_bounding_box(self).center()
    }

    fn bounding_box(&self) -> (b: AxisAlignedBoundingBox) {
        HittableGroup::bounding_box(self)
    }

    fn centroid(&self) -> (c: Point3) {
        HittableGroup::centroid(self)
    }
}

impl<T: BoundedHittable> BoundedHittable for HittableGroup<T> {

}

} // verus!
