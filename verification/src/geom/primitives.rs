//! The primitives: sphere, parallelogram and triangle.
use crate::accel::bvh::{spec_cut, spec_lawful};
use crate::geom::hit::{AxisAlignedBoundingBox, Bounded, BoundedHittable, Extent, Hit, Hittable};
use crate::material::Surface;
use crate::math::{
    f_eq, f_leq, lemma_nearest_root_exists, spec_f_eq, spec_f_leq, Rand, Scalar, SCALE,
};
use crate::vec::{
    lemma_dot_neg, lemma_unit_keeps_side, spec_short, spec_tame, Point3, Ray, Vec3,
};
use vstd::prelude::*;

verus! {

/// Four times pi, in raw steps.
pub const FOUR_PI: i64 = 12_566_371;

/// What is added on either side to the box of a parallelogram along an axis
/// along which it has no extent, in raw steps (`0.01`).
pub const PADDING: i64 = 10_000;

/// Whether `t` lies strictly inside the window `(t_min, t_max)`.
pub open spec fn spec_in_window(t: Scalar, t_min: Scalar, t_max: Scalar) -> bool {
    t@ < t_max@ && t@ > t_min@
}

/// The hit of `ray` at parameter `t` on a surface whose outward normal there
/// is `normal`: the ray came from outside where it runs against the unit
/// normal.
pub open spec fn spec_hit_at(ray: Ray, t: Scalar, normal: Vec3, material: Surface) -> Hit {
    Hit::spec_new(ray.spec_at(t), normal, t, ray.dir.spec_dot(normal.spec_unit())@ < 0, material)
}

/// A hit faces the ray that made it: the direction of the ray and the
/// normal of the hit do not point the same way. This holds for a direction
/// with no component beyond one and a tame outward normal of length at
/// least a tenth.
pub proof fn lemma_hit_at_faces_ray(ray: Ray, t: Scalar, normal: Vec3, material: Surface)
    requires
        spec_short(ray.dir),
        spec_tame(normal),
        normal.raw_norm_squared() >= 10_000_000_000,
    ensures
        ray.dir.spec_dot(spec_hit_at(ray, t, normal, material).normal)@ <= 0,
{
    lemma_unit_keeps_side(ray.dir, normal);
    lemma_dot_neg(ray.dir, normal.spec_unit());
}

fn hit_at(ray: &Ray, t: Scalar, normal: Vec3, material: Surface) -> (hit: Hit)
    ensures
        hit == spec_hit_at(*ray, t, normal, material),
{
    let outer: bool = ray.dir.dot(&normal.unit()).raw < 0;
    Hit::new(ray.at(t), normal, t, outer, material)
}

/// A sphere.
#[derive(Clone, Copy, Debug)]
pub struct Sphere {
    center: Point3,
    radius: Scalar,
    material: Surface,
}

impl Sphere {
    /// The point in its middle.
    pub closed spec fn center(self) -> Point3 {
        self.center
    }

    /// The radius.
    pub closed spec fn radius(self) -> Scalar {
        self.radius
    }

    /// The material of its surface.
    pub closed spec fn material(self) -> Surface {
        self.material
    }

    /// The outward normal of the sphere at the point of `ray` at `t`.
    pub open spec fn spec_normal_at(self, ray: Ray, t: Scalar) -> Vec3 {
        ray.spec_at(t).spec_sub(self.center()).spec_scale(
            Scalar::of(1_000_000).spec_div(self.radius()),
        )
    }

    /// Half the linear coefficient of the equation `|o + t d - c|^2 = r^2`.
    pub open spec fn spec_half_b(self, ray: Ray) -> Scalar {
        ray.dir.spec_dot(ray.origin.spec_sub(self.center()))
    }

    /// The quarter of the discriminant of that equation.
    pub open spec fn spec_discriminant(self, ray: Ray) -> Scalar {
        self.spec_half_b(ray).spec_square().spec_sub(
            ray.origin.spec_sub(self.center()).spec_norm().spec_square().spec_sub(
                self.radius().spec_square(),
            ),
        )
    }

    /// The nearer root of the equation.
    pub open spec fn spec_near_root(self, ray: Ray) -> Scalar {
        self.spec_half_b(ray).spec_neg().spec_sub(self.spec_discriminant(ray).spec_sqrt())
    }

    /// The farther root of the equation.
    pub open spec fn spec_far_root(self, ray: Ray) -> Scalar {
        self.spec_half_b(ray).spec_neg().spec_add(self.spec_discriminant(ray).spec_sqrt())
    }

    /// The first root of the equation inside the window, if the equation has
    /// roots and one of them is inside.
    pub open spec fn spec_is_hit(&self, ray: Ray, t_min: Scalar, t_max: Scalar) -> Option<Hit> {
        if self.spec_discriminant(ray)@ < 0 {
            None
        } else if spec_in_window(self.spec_near_root(ray), t_min, t_max) {
            let t = self.spec_near_root(ray);
            Some(spec_hit_at(ray, t, self.spec_normal_at(ray, t), self.material()))
        } else if spec_in_window(self.spec_far_root(ray), t_min, t_max) {
            let t = self.spec_far_root(ray);
            Some(spec_hit_at(ray, t, self.spec_normal_at(ray, t), self.material()))
        } else {
            None
        }
    }

    /// `4 pi r^2`.
    pub open spec fn spec_surface_area(&self) -> Scalar {
        Scalar::of(FOUR_PI as int).spec_mul(self.radius().spec_square())
    }

    /// The box from the centre less the radius to the centre plus the radius
    /// along every axis.
    pub open spec fn spec_bounding_box(&self) -> Extent {
        let reach = Vec3(self.radius(), self.radius(), self.radius());
        Extent { lower: self.center().spec_sub(reach), upper: self.center().spec_add(reach) }
    }

    /// The sphere with the given centre, radius and material.
    pub closed spec fn spec_new(center: Point3, radius: Scalar, material: Surface) -> Sphere {
        Sphere { center, radius, material }
    }

    /// The sphere with the given centre, radius and material.
    pub fn new(center: Point3, radius: Scalar, material: Surface) -> (s: Sphere)
        ensures
            s == Sphere::spec_new(center, radius, material),
            s.center() == center,
            s.radius() == radius,
            s.material() == material,
    {
        Sphere { center, radius, material }
    }

    fn normal_at(&self, ray: &Ray, t: Scalar) -> (normal: Vec3)
        ensures
            normal == self.spec_normal_at(*ray, t),
    {
        ray.at(t).sub(self.center).scale(Scalar::one().div(self.radius))
    }

    /// Where `ray` meets it within the window `(t_min, t_max)` of its parameter,
    /// if it does.
    pub fn is_hit(&self, ray: &Ray, t_min: Scalar, t_max: Scalar) -> (hit: Option<Hit>)
        ensures
            hit == self.spec_is_hit(*ray, t_min, t_max),
    {
        let vec_to_center: Vec3 = ray.origin.sub(self.center);
        let center_dot_self: Scalar = ray.dir.dot(&vec_to_center);
        let discriminant: Scalar = center_dot_self.square().sub(
            vec_to_center.norm().square().sub(self.radius.square()),
        );
        if discriminant.raw < 0 {
            return None;
        }
        let root: Scalar = discriminant.sqrt();
        let t1: Scalar = center_dot_self.neg().sub(root);
        let t2: Scalar = center_dot_self.neg().add(root);
        if t1.raw < t_max.raw && t1.raw > t_min.raw {
            return Some(hit_at(ray, t1, self.normal_at(ray, t1), self.material));
        } else if t2.raw < t_max.raw && t2.raw > t_min.raw {
            return Some(hit_at(ray, t2, self.normal_at(ray, t2), self.material));
        }
        None
    }

    /// The area of its surface.
    pub fn surface_area(&self) -> (area: Scalar)
        ensures
            area == self.spec_surface_area(),
    {
        Scalar::from_raw(FOUR_PI).mul(self.radius.square())
    }

    /// The axis-aligned box that bounds it.
    pub fn bounding_box(&self) -> (b: AxisAlignedBoundingBox)
        ensures
            b@ == self.spec_bounding_box(),
    {
        let reach: Point3 = Point3::new(self.radius, self.radius, self.radius);
        AxisAlignedBoundingBox::new(self.center.add(reach), self.center.sub(reach))
    }

    /// The point that stands for it where things are ordered in space.
    pub fn centroid(&self) -> (c: Point3)
        ensures
            c == self.spec_bounding_box().center(),
    {
        *self.bounding_box().center()
    }
}

impl Hittable for Sphere {
    open spec fn is_deterministic(&self) -> bool {
        true
    }

    open spec fn spec_is_hit(&self, ray: Ray, t_min: Scalar, t_max: Scalar) -> Option<Hit> {
        Sphere::spec_is_hit(self, ray, t_min, t_max)
    }

    open spec fn hits(&self, ray: Ray, t_min: Scalar, t_max: Scalar, hit: Option<Hit>) -> bool {
        hit == Sphere::spec_is_hit(self, ray, t_min, t_max)
    }

    proof fn lemma_hits_alone(&self, ray: Ray, t_min: Scalar, t_max: Scalar, hit: Option<Hit>) {
    }

    open spec fn spec_surface_area(&self) -> Scalar {
        Sphere::spec_surface_area(self)
    }

    fn is_hit(&self, ray: &Ray, t_min: Scalar, t_max: Scalar, rand: &mut Rand) -> (hit: Option<
        Hit,
    >) {
        Sphere::is_hit(self, ray, t_min, t_max)
    }

    fn surface_area(&self) -> (area: Scalar) {
        Sphere::surface_area(self)
    }
}

impl Bounded for Sphere {
    open spec fn spec_bounding_box(&self) -> Extent {
        Sphere::spec_bounding_box(self)
    }

    open spec fn spec_centroid(&self) -> Point3 {
        Sphere::spec_bounding_box(self).center()
    }

    fn bounding_box(&self) -> (b: AxisAlignedBoundingBox) {
        Sphere::bounding_box(self)
    }

    fn centroid(&self) -> (c: Point3) {
        Sphere::centroid(self)
    }
}

impl BoundedHittable for Sphere {

}

/// A parallelogram: the points `center + a u + b v` with `a` and `b` between
/// `-1` and `1`, for two spanning vectors `u` and `v` at right angles.
#[derive(Clone, Copy, Debug)]
pub struct Plane {
    center: Point3,
    spanning_vecs: (Vec3, Vec3),
    material: Surface,
}

/// The lower and the upper end of the box of a parallelogram along one axis,
/// given the centre and the two spanning vectors along that axis: the
/// smallest and the largest of the four corners, moved apart by [`PADDING`]
/// on either side where they are equal to within the threshold.
pub open spec fn spec_plane_span(c: Scalar, u: Scalar, v: Scalar) -> (Scalar, Scalar) {
    let pp = u.spec_add(v);
    let pm = u.spec_sub(v);
    let mp = u.spec_neg().spec_add(v);
    let mm = u.spec_neg().spec_sub(v);
    let hi = c.spec_add(pp.spec_max(pm).spec_max(mp).spec_max(mm));
    let lo = c.spec_add(pp.spec_min(pm).spec_min(mp).spec_min(mm));
    if spec_f_eq(hi, lo) {
        (lo.spec_sub(Scalar::of(PADDING as int)), hi.spec_add(Scalar::of(PADDING as int)))
    } else {
        (lo, hi)
    }
}

fn plane_span(c: Scalar, u: Scalar, v: Scalar) -> (span: (Scalar, Scalar))
    ensures
        span == spec_plane_span(c, u, v),
{
    let pp: Scalar = u.add(v);
    let pm: Scalar = u.sub(v);
    let mp: Scalar = u.neg().add(v);
    let mm: Scalar = u.neg().sub(v);
    let hi: Scalar = c.add(pp.max(pm).max(mp).max(mm));
    let lo: Scalar = c.add(pp.min(pm).min(mp).min(mm));
    if f_eq(hi, lo) {
        (lo.sub(Scalar::from_raw(PADDING)), hi.add(Scalar::from_raw(PADDING)))
    } else {
        (lo, hi)
    }
}

impl Plane {
    /// The point in its middle.
    pub closed spec fn center(self) -> Point3 {
        self.center
    }

    /// The vectors that span it.
    pub closed spec fn spanning_vecs(self) -> (Vec3, Vec3) {
        self.spanning_vecs
    }

    /// The material of its surface.
    pub closed spec fn material(self) -> Surface {
        self.material
    }

    /// The second spanning vector made to stand at right angles to the
    /// first within the plane of both, where it does not already.
    pub open spec fn spec_squared_up(u: Vec3, v: Vec3) -> Vec3 {
        if Vec3::spec_orthogonal(u, v) {
            v
        } else {
            v.spec_projections(u, u.spec_cross(v).spec_cross(u)).1
        }
    }

    /// The parallelogram that `new` makes.
    pub closed spec fn spec_new(
        center: Point3,
        spanning_vecs: (Vec3, Vec3),
        material: Surface,
    ) -> Plane {
        Plane {
            center,
            spanning_vecs: (
                spanning_vecs.0,
                Plane::spec_squared_up(spanning_vecs.0, spanning_vecs.1),
            ),
            material,
        }
    }

    /// The unit normal of the plane.
    pub open spec fn spec_normal(self) -> Vec3 {
        self.spanning_vecs().0.spec_cross(self.spanning_vecs().1).spec_unit()
    }

    /// The parameter at which `ray` meets the plane.
    pub open spec fn spec_meeting(self, ray: Ray) -> Scalar {
        self.center().spec_sub(ray.origin).spec_dot(self.spec_normal()).spec_div(
            ray.dir.spec_dot(self.spec_normal()),
        )
    }

    /// Whether the point of `ray` at `t` lies within the parallelogram: its
    /// parts along the two spanning vectors are no longer than they are.
    pub open spec fn spec_within(self, ray: Ray, t: Scalar) -> bool {
        let parts = ray.spec_at(t).spec_sub(self.center()).spec_projections(
            self.spanning_vecs().0,
            self.spanning_vecs().1,
        );
        spec_f_leq(parts.0.spec_norm(), self.spanning_vecs().0.spec_norm()) && spec_f_leq(
            parts.1.spec_norm(),
            self.spanning_vecs().1.spec_norm(),
        )
    }

    /// Where `ray` meets the plane, if it is not parallel to it to within the
    /// threshold, meets it inside the window and within the parallelogram.
    pub open spec fn spec_is_hit(&self, ray: Ray, t_min: Scalar, t_max: Scalar) -> Option<Hit> {
        if Vec3::spec_orthogonal(ray.dir, self.spec_normal()) {
            None
        } else {
            let t = self.spec_meeting(ray);
            if spec_in_window(t, t_min, t_max) && self.spec_within(ray, t) {
                Some(spec_hit_at(ray, t, self.spec_normal(), self.material()))
            } else {
                None
            }
        }
    }

    /// The area of the parallelogram of the spanning vectors: `|u x v|`.
    pub open spec fn spec_surface_area(&self) -> Scalar {
        self.spanning_vecs().0.spec_cross(self.spanning_vecs().1).spec_norm()
    }

    /// What `bounding_box` returns.
    pub open spec fn spec_bounding_box(&self) -> Extent {
        let c = self.center();
        let u = self.spanning_vecs().0;
        let v = self.spanning_vecs().1;
        let x = spec_plane_span(c.0, u.0, v.0);
        let y = spec_plane_span(c.1, u.1, v.1);
        let z = spec_plane_span(c.2, u.2, v.2);
        Extent { lower: Vec3(x.0, y.0, z.0), upper: Vec3(x.1, y.1, z.1) }
    }

    /// The parallelogram about `center` spanned by the two vectors, the
    /// second of which is first made to stand at right angles to the first.
    pub fn new(center: Point3, spanning_vecs: (Vec3, Vec3), material: Surface) -> (p: Plane)
        ensures
            p == Plane::spec_new(center, spanning_vecs, material),
            p.center() == center,
            p.spanning_vecs() == (
                spanning_vecs.0,
                Plane::spec_squared_up(spanning_vecs.0, spanning_vecs.1),
            ),
            p.material() == material,
    {
        let plane_i: Vec3 = spanning_vecs.0;
        let mut plane_j: Vec3 = spanning_vecs.1;
        if !Vec3::orthogonal(&plane_i, &plane_j) {
            let plane_k: Vec3 = plane_i.cross(&plane_j);
            plane_j = plane_j.projections(&plane_i, &plane_k.cross(&plane_i)).1;
        }
        Plane { center, spanning_vecs: (plane_i, plane_j), material }
    }

    /// Where `ray` meets it within the window `(t_min, t_max)` of its parameter,
    /// if it does.
    pub fn is_hit(&self, ray: &Ray, t_min: Scalar, t_max: Scalar) -> (hit: Option<Hit>)
        ensures
            hit == self.spec_is_hit(*ray, t_min, t_max),
    {
        let plane_i: Vec3 = self.spanning_vecs.0;
        let plane_j: Vec3 = self.spanning_vecs.1;
        let normal: Vec3 = plane_i.cross(&plane_j).unit();
        if Vec3::orthogonal(&ray.dir, &normal) {
            return None;
        }
        let t: Scalar = self.center.sub(ray.origin).dot(&normal).div(ray.dir.dot(&normal));
        let center_to_point: Vec3 = ray.at(t).sub(self.center);
        let ctp_components: (Vec3, Vec3) = center_to_point.projections(&plane_i, &plane_j);
        if t.raw < t_max.raw && t.raw > t_min.raw && f_leq(
            ctp_components.0.norm(),
            plane_i.norm(),
        ) && f_leq(ctp_components.1.norm(), plane_j.norm()) {
            Some(hit_at(ray, t, normal, self.material))
        } else {
            None
        }
    }

    /// The area of its surface.
    pub fn surface_area(&self) -> (area: Scalar)
        ensures
            area == self.spec_surface_area(),
    {
        self.spanning_vecs.0.cross(&self.spanning_vecs.1).norm()
    }

    /// The axis-aligned box that bounds it.
    pub fn bounding_box(&self) -> (b: AxisAlignedBoundingBox)
        ensures
            b@ == self.spec_bounding_box(),
    {
        let u: Vec3 = self.spanning_vecs.0;
        let v: Vec3 = self.spanning_vecs.1;
        let x: (Scalar, Scalar) = plane_span(self.center.0, u.0, v.0);
        let y: (Scalar, Scalar) = plane_span(self.center.1, u.1, v.1);
        let z: (Scalar, Scalar) = plane_span(self.center.2, u.2, v.2);
        AxisAlignedBoundingBox::new(Point3::new(x.1, y.1, z.1), Point3::new(x.0, y.0, z.0))
    }

    /// The point that stands for it where things are ordered in space.
    pub fn centroid(&self) -> (c: Point3)
        ensures
            c == self.spec_bounding_box().center(),
    {
        *self.bounding_box().center()
    }
}

impl Hittable for Plane {
    open spec fn is_deterministic(&self) -> bool {
        true
    }

    open spec fn spec_is_hit(&self, ray: Ray, t_min: Scalar, t_max: Scalar) -> Option<Hit> {
        Plane::spec_is_hit(self, ray, t_min, t_max)
    }

    open spec fn hits(&self, ray: Ray, t_min: Scalar, t_max: Scalar, hit: Option<Hit>) -> bool {
        hit == Plane::spec_is_hit(self, ray, t_min, t_max)
    }

    proof fn lemma_hits_alone(&self, ray: Ray, t_min: Scalar, t_max: Scalar, hit: Option<Hit>) {
    }

    open spec fn spec_surface_area(&self) -> Scalar {
        Plane::spec_surface_area(self)
    }

    fn is_hit(&self, ray: &Ray, t_min: Scalar, t_max: Scalar, rand: &mut Rand) -> (hit: Option<
        Hit,
    >) {
        Plane::is_hit(self, ray, t_min, t_max)
    }

    fn surface_area(&self) -> (area: Scalar) {
        Plane::surface_area(self)
    }
}

impl Bounded for Plane {
    open spec fn spec_bounding_box(&self) -> Extent {
        Plane::spec_bounding_box(self)
    }

    open spec fn spec_centroid(&self) -> Point3 {
        Plane::spec_bounding_box(self).center()
    }

    fn bounding_box(&self) -> (b: AxisAlignedBoundingBox) {
        Plane::bounding_box(self)
    }

    fn centroid(&self) -> (c: Point3) {
        Plane::centroid(self)
    }
}

impl BoundedHittable for Plane {

}

/// A triangle, whose corners are named A, B, C counter-clockwise.
#[derive(Clone, Copy, Debug)]
pub struct Triangle {
    corners: (Point3, Point3, Point3),
    material: Surface,
}

impl Triangle {
    /// The three corners.
    pub closed spec fn corners(self) -> (Point3, Point3, Point3) {
        self.corners
    }

    /// The material of its surface.
    pub closed spec fn material(self) -> Surface {
        self.material
    }

    /// The unit normal of the triangle: that of `(B - A) x (C - A)`.
    pub open spec fn spec_normal(self) -> Vec3 {
        let ab = self.corners().1.spec_sub(self.corners().0);
        let ac = self.corners().2.spec_sub(self.corners().0);
        ab.spec_cross(ac).spec_unit()
    }

    /// The parameter at which `ray` meets the plane of the triangle.
    pub open spec fn spec_meeting(self, ray: Ray) -> Scalar {
        self.corners().0.spec_sub(ray.origin).spec_dot(self.spec_normal()).spec_div(
            ray.dir.spec_dot(self.spec_normal()),
        )
    }

    /// Whether the point `p` of the plane of the triangle lies on the inner
    /// side of all three edges.
    pub open spec fn spec_inside(self, p: Point3) -> bool {
        let a = self.corners().0;
        let b = self.corners().1;
        let c = self.corners().2;
        let n = self.spec_normal();
        &&& b.spec_sub(a).spec_cross(p.spec_sub(a)).spec_dot(n)@ >= 0
        &&& c.spec_sub(b).spec_cross(p.spec_sub(b)).spec_dot(n)@ >= 0
        &&& c.spec_sub(a).spec_neg().spec_cross(p.spec_sub(c)).spec_dot(n)@ >= 0
    }

    /// Where `ray` meets the triangle, if it is not parallel to its plane to
    /// within the threshold and meets the plane inside the triangle and
    /// inside the window.
    pub open spec fn spec_is_hit(&self, ray: Ray, t_min: Scalar, t_max: Scalar) -> Option<Hit> {
        if Vec3::spec_orthogonal(ray.dir, self.spec_normal()) {
            None
        } else {
            let t = self.spec_meeting(ray);
            if self.spec_inside(ray.spec_at(t)) && spec_in_window(t, t_min, t_max) {
                Some(spec_hit_at(ray, t, self.spec_normal(), self.material()))
            } else {
                None
            }
        }
    }

    /// Half the length of `(B - A) x (C - A)`.
    pub open spec fn spec_surface_area(&self) -> Scalar {
        let ab = self.corners().1.spec_sub(self.corners().0);
        let ac = self.corners().2.spec_sub(self.corners().0);
        Scalar::of(500_000).spec_mul(ab.spec_cross(ac).spec_norm())
    }

    /// The box from the least to the greatest coordinate of the corners
    /// along every axis.
    pub open spec fn spec_bounding_box(&self) -> Extent {
        let a = self.corners().0;
        let b = self.corners().1;
        let c = self.corners().2;
        Extent {
            lower: a.spec_lowest(b).spec_lowest(c),
            upper: a.spec_highest(b).spec_highest(c),
        }
    }

    /// The triangle with the given corners and material.
    pub closed spec fn spec_new(corners: (Point3, Point3, Point3), material: Surface) -> Triangle {
        Triangle { corners, material }
    }

    /// The triangle with the given corners and material.
    pub fn new(corners: (Point3, Point3, Point3), material: Surface) -> (t: Triangle)
        ensures
            t == Triangle::spec_new(corners, material),
            t.corners() == corners,
            t.material() == material,
    {
        Triangle { corners, material }
    }

    /// The first corner.
    pub fn a(&self) -> (p: &Point3)
        ensures
            *p == self.corners().0,
    {
        &self.corners.0
    }

    /// The second corner.
    pub fn b(&self) -> (p: &Point3)
        ensures
            *p == self.corners().1,
    {
        &self.corners.1
    }

    /// The third corner.
    pub fn c(&self) -> (p: &Point3)
        ensures
            *p == self.corners().2,
    {
        &self.corners.2
    }

    /// Where `ray` meets it within the window `(t_min, t_max)` of its parameter,
    /// if it does.
    pub fn is_hit(&self, ray: &Ray, t_min: Scalar, t_max: Scalar) -> (hit: Option<Hit>)
        ensures
            hit == self.spec_is_hit(*ray, t_min, t_max),
    {
        let a: Point3 = self.corners.0;
        let b: Point3 = self.corners.1;
        let c: Point3 = self.corners.2;
        let ab: Vec3 = b.sub(a);
        let ac: Vec3 = c.sub(a);
        let bc: Vec3 = c.sub(b);
        let normal: Vec3 = ab.cross(&ac).unit();
        if Vec3::orthogonal(&ray.dir, &normal) {
            return None;
        }
        let t: Scalar = a.sub(ray.origin).dot(&normal).div(ray.dir.dot(&normal));
        let p: Point3 = ray.at(t);
        let ca: Vec3 = ac.neg();
        if ab.cross(&p.sub(a)).dot(&normal).raw < 0 || bc.cross(&p.sub(b)).dot(&normal).raw < 0
            || ca.cross(&p.sub(c)).dot(&normal).raw < 0 {
            return None;
        }
        if t.raw < t_max.raw && t.raw > t_min.raw {
            Some(hit_at(ray, t, normal, self.material))
        } else {
            None
        }
    }

    /// The area of its surface.
    pub fn surface_area(&self) -> (area: Scalar)
        ensures
            area == self.spec_surface_area(),
    {
        let ab: Vec3 = self.corners.1.sub(self.corners.0);
        let ac: Vec3 = self.corners.2.sub(self.corners.0);
        Scalar::from_raw(500_000).mul(ab.cross(&ac).norm())
    }

    /// The axis-aligned box that bounds it.
    pub fn bounding_box(&self) -> (b: AxisAlignedBoundingBox)
        ensures
            b@ == self.spec_bounding_box(),
    {
        let a: Point3 = self.corners.0;
        let b: Point3 = self.corners.1;
        let c: Point3 = self.corners.2;
        AxisAlignedBoundingBox::new(a.highest(&b).highest(&c), a.lowest(&b).lowest(&c))
    }

    /// The point that stands for it where things are ordered in space.
    pub fn centroid(&self) -> (c: Point3)
        ensures
            c == self.spec_bounding_box().center(),
    {
        *self.bounding_box().center()
    }
}

impl Hittable for Triangle {
    open spec fn is_deterministic(&self) -> bool {
        true
    }

    open spec fn spec_is_hit(&self, ray: Ray, t_min: Scalar, t_max: Scalar) -> Option<Hit> {
        Triangle::spec_is_hit(self, ray, t_min, t_max)
    }

    open spec fn hits(&self, ray: Ray, t_min: Scalar, t_max: Scalar, hit: Option<Hit>) -> bool {
        hit == Triangle::spec_is_hit(self, ray, t_min, t_max)
    }

    proof fn lemma_hits_alone(&self, ray: Ray, t_min: Scalar, t_max: Scalar, hit: Option<Hit>) {
    }

    open spec fn spec_surface_area(&self) -> Scalar {
        Triangle::spec_surface_area(self)
    }

    fn is_hit(&self, ray: &Ray, t_min: Scalar, t_max: Scalar, rand: &mut Rand) -> (hit: Option<
        Hit,
    >) {
        Triangle::is_hit(self, ray, t_min, t_max)
    }

    fn surface_area(&self) -> (area: Scalar) {
        Triangle::surface_area(self)
    }
}

impl Bounded for Triangle {
    open spec fn spec_bounding_box(&self) -> Extent {
        Triangle::spec_bounding_box(self)
    }

    open spec fn spec_centroid(&self) -> Point3 {
        Triangle::spec_bounding_box(self).center()
    }

    fn bounding_box(&self) -> (b: AxisAlignedBoundingBox) {
        Triangle::bounding_box(self)
    }

    fn centroid(&self) -> (c: Point3) {
        Triangle::centroid(self)
    }
}

impl BoundedHittable for Triangle {

}

/// A sphere answers as a thing with one nearest hit does: in a window that
/// ends at `upper` it gives the hit that it gives in the window without end
/// where that lies before `upper`, and none else; and its hits lie behind
/// `t_min`.
pub proof fn lemma_sphere_lawful(sphere: Sphere, ray: Ray, t_min: Scalar, upper: Scalar)
    ensures
        sphere.spec_is_hit(ray, t_min, upper) == spec_cut(
            sphere.spec_is_hit(ray, t_min, Scalar::of(i64::MAX as int)),
            upper,
        ),
        sphere.spec_is_hit(ray, t_min, upper) matches Some(h) ==> t_min@ < h.t@,
{
    let d = sphere.spec_discriminant(ray);
    if d@ * SCALE > 0 {
        lemma_nearest_root_exists(d@ * SCALE);
    }
    assert(d.spec_sqrt()@ >= 0);
    assert(sphere.spec_near_root(ray)@ <= sphere.spec_far_root(ray)@);
}

/// A plane answers as a thing with one nearest hit does.
pub proof fn lemma_plane_lawful(plane: Plane, ray: Ray, t_min: Scalar, upper: Scalar)
    ensures
        plane.spec_is_hit(ray, t_min, upper) == spec_cut(
            plane.spec_is_hit(ray, t_min, Scalar::of(i64::MAX as int)),
            upper,
        ),
        plane.spec_is_hit(ray, t_min, upper) matches Some(h) ==> t_min@ < h.t@,
{
}

/// A triangle answers as a thing with one nearest hit does.
pub proof fn lemma_triangle_lawful(triangle: Triangle, ray: Ray, t_min: Scalar, upper: Scalar)
    ensures
        triangle.spec_is_hit(ray, t_min, upper) == spec_cut(
            triangle.spec_is_hit(ray, t_min, Scalar::of(i64::MAX as int)),
            upper,
        ),
        triangle.spec_is_hit(ray, t_min, upper) matches Some(h) ==> t_min@ < h.t@,
{
}

/// A hit on a sphere faces the ray: for a direction with no component
/// beyond one, the normal of a hit does not point the way of the ray, where
/// the outward normal at each root is tame and at least a tenth long.
pub proof fn lemma_sphere_faces_ray(sphere: Sphere, ray: Ray, t_min: Scalar, t_max: Scalar)
    requires
        spec_short(ray.dir),
        spec_tame(sphere.spec_normal_at(ray, sphere.spec_near_root(ray))),
        spec_tame(sphere.spec_normal_at(ray, sphere.spec_far_root(ray))),
        sphere.spec_normal_at(ray, sphere.spec_near_root(ray)).raw_norm_squared()
            >= 10_000_000_000,
        sphere.spec_normal_at(ray, sphere.spec_far_root(ray)).raw_norm_squared()
            >= 10_000_000_000,
    ensures
        sphere.spec_is_hit(ray, t_min, t_max) matches Some(h) ==> ray.dir.spec_dot(h.normal)@ <= 0,
{
    let near = sphere.spec_near_root(ray);
    let far = sphere.spec_far_root(ray);
    lemma_hit_at_faces_ray(ray, near, sphere.spec_normal_at(ray, near), sphere.material());
    lemma_hit_at_faces_ray(ray, far, sphere.spec_normal_at(ray, far), sphere.material());
}

/// A hit on a plane faces the ray, for a direction with no component
/// beyond one and a plane whose normal is tame and at least a tenth long.
pub proof fn lemma_plane_faces_ray(plane: Plane, ray: Ray, t_min: Scalar, t_max: Scalar)
    requires
        spec_short(ray.dir),
        spec_tame(plane.spec_normal()),
        plane.spec_normal().raw_norm_squared() >= 10_000_000_000,
    ensures
        plane.spec_is_hit(ray, t_min, t_max) matches Some(h) ==> ray.dir.spec_dot(h.normal)@ <= 0,
{
    lemma_hit_at_faces_ray(ray, plane.spec_meeting(ray), plane.spec_normal(), plane.material());
}

/// A hit on a triangle faces the ray, for a direction with no component
/// beyond one and a triangle whose normal is tame and at least a tenth
/// long.
pub proof fn lemma_triangle_faces_ray(triangle: Triangle, ray: Ray, t_min: Scalar, t_max: Scalar)
    requires
        spec_short(ray.dir),
        spec_tame(triangle.spec_normal()),
        triangle.spec_normal().raw_norm_squared() >= 10_000_000_000,
    ensures
        triangle.spec_is_hit(ray, t_min, t_max) matches Some(h) ==> ray.dir.spec_dot(h.normal)@
            <= 0,
{
    lemma_hit_at_faces_ray(
        ray,
        triangle.spec_meeting(ray),
        triangle.spec_normal(),
        triangle.material(),
    );
}

/// Spheres answer as things with one nearest hit do.
pub proof fn lemma_spheres_lawful(spheres: Seq<Sphere>, ray: Ray, t_min: Scalar)
    ensures
        spec_lawful(spheres, ray, t_min),
{
    assert forall|i: int, upper: Scalar| 0 <= i < spheres.len() implies #[trigger] spheres[i].spec_is_hit(
        ray,
        t_min,
        upper,
    ) == spec_cut(spheres[i].spec_is_hit(ray, t_min, Scalar::of(i64::MAX as int)), upper) && (
    spheres[i].spec_is_hit(ray, t_min, upper) matches Some(h) ==> t_min@ < h.t@) by {
        lemma_sphere_lawful(spheres[i], ray, t_min, upper);
    }
}

/// Planes answer as things with one nearest hit do.
pub proof fn lemma_planes_lawful(planes: Seq<Plane>, ray: Ray, t_min: Scalar)
    ensures
        spec_lawful(planes, ray, t_min),
{
    assert forall|i: int, upper: Scalar| 0 <= i < planes.len() implies #[trigger] planes[i].spec_is_hit(
        ray,
        t_min,
        upper,
    ) == spec_cut(planes[i].spec_is_hit(ray, t_min, Scalar::of(i64::MAX as int)), upper) && (
    planes[i].spec_is_hit(ray, t_min, upper) matches Some(h) ==> t_min@ < h.t@) by {
        lemma_plane_lawful(planes[i], ray, t_min, upper);
    }
}

/// Triangles answer as things with one nearest hit do.
pub proof fn lemma_triangles_lawful(triangles: Seq<Triangle>, ray: Ray, t_min: Scalar)
    ensures
        spec_lawful(triangles, ray, t_min),
{
    assert forall|i: int, upper: Scalar| 0 <= i < triangles.len() implies #[trigger] triangles[i].spec_is_hit(
        ray,
        t_min,
        upper,
    ) == spec_cut(triangles[i].spec_is_hit(ray, t_min, Scalar::of(i64::MAX as int)), upper) && (
    triangles[i].spec_is_hit(ray, t_min, upper) matches Some(h) ==> t_min@ < h.t@) by {
        lemma_triangle_lawful(triangles[i], ray, t_min, upper);
    }
}

} // verus!
