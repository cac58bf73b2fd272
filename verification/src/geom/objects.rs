//! Objects built from primitives: prism, icosahedron, triangle mesh and
//! participating volume.
use crate::accel::bvh::{spec_paired, spec_plan, spec_things};
use crate::geom::hit::{
    spec_bounds_of, AxisAlignedBoundingBox, Bounded, BoundedHittable, Extent, Hit, Hittable,
    HittableGroup, FP_OFFSET,
};
use crate::geom::primitives::{Plane, Triangle};
use crate::loader::Obj;
use crate::material::Surface;
use crate::math::{
    f_geq, neg_log10, rand_f64, spec_f_geq, spec_neg_log10, Rand, Scalar, SCALE,
};
use crate::vec::{Point3, Ray, Vec3};
use vstd::prelude::*;

verus! {

/// A box spanned by three vectors about a centre.
pub struct Prism {
    center: Point3,
    spanning_vecs: (Vec3, Vec3, Vec3),
    primitives: HittableGroup<Plane>,
}

/// The six faces of a prism: front, top, left, bottom, right and back.
pub open spec fn spec_prism_faces(
    center: Point3,
    spanning_vecs: (Vec3, Vec3, Vec3),
    material: Surface,
) -> Seq<Plane> {
    let i = spanning_vecs.0;
    let j = spanning_vecs.1;
    let k = spanning_vecs.2;
    seq![
        Plane::spec_new(center.spec_sub(k), (j, i), material),
        Plane::spec_new(center.spec_add(j), (k, i), material),
        Plane::spec_new(center.spec_sub(i), (k, j), material),
        Plane::spec_new(center.spec_sub(j), (i, k), material),
        Plane::spec_new(center.spec_add(i), (j, k), material),
        Plane::spec_new(center.spec_add(k), (i, j), material),
    ]
}

/// The face of a prism that lies `offset` from its centre, on the far side
/// if `far` and on the near side otherwise, spanned by `u` and `v`.
fn face(center: Point3, offset: Vec3, far: bool, u: Vec3, v: Vec3, material: Surface) -> (p: Plane)
    ensures
        p == Plane::spec_new(
            if far {
                center.spec_add(offset)
            } else {
                center.spec_sub(offset)
            },
            (u, v),
            material,
        ),
{
    if far {
        Plane::new(center.add(offset), (u, v), material)
    } else {
        Plane::new(center.sub(offset), (u, v), material)
    }
}

impl Prism {
    /// The point in its middle.
    pub closed spec fn center(self) -> Point3 {
        self.center
    }

    /// The vectors that span it.
    pub closed spec fn spanning_vecs(self) -> (Vec3, Vec3, Vec3) {
        self.spanning_vecs
    }

    /// The faces of the prism behind their hierarchy.
    pub closed spec fn primitives(self) -> HittableGroup<Plane> {
        self.primitives
    }

    /// What `is_hit` returns where it does not depend on chance.
    pub open spec fn spec_is_hit(&self, ray: Ray, t_min: Scalar, t_max: Scalar) -> Option<Hit> {
        self.primitives().spec_is_hit(ray, t_min, t_max)
    }

    /// What `surface_area` returns.
    pub open spec fn spec_surface_area(&self) -> Scalar {
        self.primitives().spec_surface_area()
    }

    /// What `bounding_box` returns.
    pub open spec fn spec_bounding_box(&self) -> Extent {
        self.primitives().spec_bounding_box()
    }

    /// The prism about `center` whose faces lie at `center` plus and minus
    /// each of the three spanning vectors.
    pub fn new(center: Point3, spanning_vecs: (Vec3, Vec3, Vec3), material: Surface) -> (prism:
        Prism)
        ensures
            prism.center() == center,
            prism.spanning_vecs() == spanning_vecs,
            prism.primitives().accel().tree() == spec_plan(
                spec_paired(spec_prism_faces(center, spanning_vecs, material)),
                0,
            ).0,
            prism.primitives().spec_hittables() == spec_things(
                spec_plan(spec_paired(spec_prism_faces(center, spanning_vecs, material)), 0).1,
            ),
    {
        let faces: Vec<Plane> = Prism::prism_faces(center, spanning_vecs, material);
        Prism { center, spanning_vecs, primitives: HittableGroup::new(faces) }
    }

    /// The six faces of the prism.
    fn prism_faces(center: Point3, spanning_vecs: (Vec3, Vec3, Vec3), material: Surface) -> (faces:
        Vec<Plane>)
        ensures
            faces@ == spec_prism_faces(center, spanning_vecs, material),
    {
        let prism_i: Vec3 = spanning_vecs.0;
        let prism_j: Vec3 = spanning_vecs.1;
        let prism_k: Vec3 = spanning_vecs.2;
        let front_face: Plane = face(center, prism_k, false, prism_j, prism_i, material);
        let back_face: Plane = face(center, prism_k, true, prism_i, prism_j, material);
        let top_face: Plane = face(center, prism_j, true, prism_k, prism_i, material);
        let bottom_face: Plane = face(center, prism_j, false, prism_i, prism_k, material);
        let left_face: Plane = face(center, prism_i, false, prism_k, prism_j, material);
        let right_face: Plane = face(center, prism_i, true, prism_j, prism_k, material);
        let mut faces: Vec<Plane> = Vec::new();
        faces.push(front_face);
        faces.push(top_face);
        faces.push(left_face);
        faces.push(bottom_face);
        faces.push(right_face);
        faces.push(back_face);
        assert(faces@ =~= spec_prism_faces(center, spanning_vecs, material));
        faces
    }

    /// Where `ray` meets it within the window `(t_min, t_max)` of its parameter,
    /// if it does.
    pub fn is_hit(&self, ray: &Ray, t_min: Scalar, t_max: Scalar, rand: &mut Rand) -> (hit: Option<
        Hit,
    >)
        ensures
            hit == self.spec_is_hit(*ray, t_min, t_max),
    {
        self.primitives.is_hit(ray, t_min, t_max, rand)
    }

    /// The area of its surface.
    pub fn surface_area(&self) -> (area: Scalar)
        ensures
            area == self.spec_surface_area(),
    {
        self.primitives.surface_area()
    }

    /// The axis-aligned box that bounds it.
    pub fn bounding_box(&self) -> (b: AxisAlignedBoundingBox)
        ensures
            b@ == self.spec_bounding_box(),
    {
        self.primitives.bounding_box()
    }

    /// The point that stands for it where things are ordered in space.
    pub fn centroid(&self) -> (c: Point3)
        ensures
            c == self.spec_bounding_box().center(),
    {
        *self.bounding_box().center()
    }
}

impl Hittable for Prism {
    open spec fn is_deterministic(&self) -> bool {
        true
    }

    open spec fn spec_is_hit(&self, ray: Ray, t_min: Scalar, t_max: Scalar) -> Option<Hit> {
        Prism::spec_is_hit(self, ray, t_min, t_max)
    }

    open spec fn hits(&self, ray: Ray, t_min: Scalar, t_max: Scalar, hit: Option<Hit>) -> bool {
        hit == Prism::spec_is_hit(self, ray, t_min, t_max)
    }

    proof fn lemma_hits_alone(&self, ray: Ray, t_min: Scalar, t_max: Scalar, hit: Option<Hit>) {
    }

    open spec fn spec_surface_area(&self) -> Scalar {
        Prism::spec_surface_area(self)
    }

    fn is_hit(&self, ray: &Ray, t_min: Scalar, t_max: Scalar, rand: &mut Rand) -> (hit: Option<
        Hit,
    >) {
        Prism::is_hit(self, ray, t_min, t_max, rand)
    }

    fn surface_area(&self) -> (area: Scalar) {
        Prism::surface_area(self)
    }
}

impl Bounded for Prism {
    open spec fn spec_bounding_box(&self) -> Extent {
        Prism::spec_bounding_box(self)
    }

    open spec fn spec_centroid(&self) -> Point3 {
        Prism::spec_bounding_box(self).center()
    }

    fn bounding_box(&self) -> (b: AxisAlignedBoundingBox) {
        Prism::bounding_box(self)
    }

    fn centroid(&self) -> (c: Point3) {
        Prism::centroid(self)
    }
}

impl BoundedHittable for Prism {

}

/// A regular icosahedron.
pub struct Icosahedron {
    center: Point3,
    radius: Scalar,
    primitives: HittableGroup<Triangle>,
}

/// The golden ratio: `(1 + sqrt(5)) / 2`.
pub open spec fn spec_phi() -> Scalar {
    Scalar::of(1_000_000).spec_add(Scalar::of(5_000_000).spec_sqrt()).spec_div(
        Scalar::of(2_000_000),
    )
}

/// The vertex of the icosahedron about `center` with circumradius `radius`
/// that lies in the direction `(x, y, z)`, a permutation of `(0, 1, phi)`
/// with signs.
pub open spec fn spec_ico_vertex(
    center: Point3,
    radius: Scalar,
    x: Scalar,
    y: Scalar,
    z: Scalar,
) -> Point3 {
    let inv_radius = Scalar::of(1_000_000).spec_div(
        spec_phi().spec_add(Scalar::of(2_000_000)).spec_sqrt(),
    );
    center.spec_add(Vec3(x, y, z).spec_scale(radius.spec_mul(inv_radius)))
}

/// The twelve vertices of the icosahedron.
pub open spec fn spec_ico_vertices(center: Point3, radius: Scalar) -> Seq<Point3> {
    let zero = Scalar::of(0);
    let one = Scalar::of(1_000_000);
    let neg = Scalar::of(-1_000_000);
    let phi = spec_phi();
    let nphi = Scalar::of(0).spec_sub(spec_phi());
    seq![
        spec_ico_vertex(center, radius, zero, neg, phi),
        spec_ico_vertex(center, radius, phi, zero, one),
        spec_ico_vertex(center, radius, phi, zero, neg),
        spec_ico_vertex(center, radius, nphi, zero, neg),
        spec_ico_vertex(center, radius, nphi, zero, one),
        spec_ico_vertex(center, radius, neg, phi, zero),
        spec_ico_vertex(center, radius, one, phi, zero),
        spec_ico_vertex(center, radius, one, nphi, zero),
        spec_ico_vertex(center, radius, neg, nphi, zero),
        spec_ico_vertex(center, radius, zero, neg, nphi),
        spec_ico_vertex(center, radius, zero, one, nphi),
        spec_ico_vertex(center, radius, zero, one, phi),
    ]
}

/// The twenty faces of the icosahedron, as triples of vertices.
pub open spec fn spec_ico_corners() -> Seq<(usize, usize, usize)> {
    seq![
        (1usize, 2usize, 6usize),
        (1usize, 7usize, 2usize),
        (3usize, 4usize, 5usize),
        (4usize, 3usize, 8usize),
        (6usize, 5usize, 11usize),
        (5usize, 6usize, 10usize),
        (9usize, 10usize, 2usize),
        (10usize, 9usize, 3usize),
        (7usize, 8usize, 9usize),
        (8usize, 7usize, 0usize),
        (11usize, 0usize, 1usize),
        (0usize, 11usize, 4usize),
        (6usize, 2usize, 10usize),
        (1usize, 6usize, 11usize),
        (3usize, 5usize, 10usize),
        (5usize, 4usize, 11usize),
        (2usize, 7usize, 9usize),
        (7usize, 1usize, 0usize),
        (3usize, 9usize, 8usize),
        (4usize, 8usize, 0usize),
    ]
}

/// The triangles over the given vertices, one for every triple.
pub open spec fn spec_triangles(
    vertices: Seq<Point3>,
    corners: Seq<(usize, usize, usize)>,
    material: Surface,
) -> Seq<Triangle> {
    Seq::new(
        corners.len(),
        |i: int|
            Triangle::spec_new(
                (
                    vertices[corners[i].0 as int],
                    vertices[corners[i].1 as int],
                    vertices[corners[i].2 as int],
                ),
                material,
            ),
    )
}

/// The faces of the icosahedron about `center` with circumradius `radius`.
pub open spec fn spec_ico_faces(center: Point3, radius: Scalar, material: Surface) -> Seq<
    Triangle,
> {
    spec_triangles(spec_ico_vertices(center, radius), spec_ico_corners(), material)
}

fn ico_corners() -> (corners: Vec<(usize, usize, usize)>)
    ensures
        corners@ == spec_ico_corners(),
{
    let mut corners: Vec<(usize, usize, usize)> = Vec::new();
    corners.push((1, 2, 6));
    corners.push((1, 7, 2));
    corners.push((3, 4, 5));
    corners.push((4, 3, 8));
    corners.push((6, 5, 11));
    corners.push((5, 6, 10));
    corners.push((9, 10, 2));
    corners.push((10, 9, 3));
    corners.push((7, 8, 9));
    corners.push((8, 7, 0));
    corners.push((11, 0, 1));
    corners.push((0, 11, 4));
    corners.push((6, 2, 10));
    corners.push((1, 6, 11));
    corners.push((3, 5, 10));
    corners.push((5, 4, 11));
    corners.push((2, 7, 9));
    corners.push((7, 1, 0));
    corners.push((3, 9, 8));
    corners.push((4, 8, 0));
    assert(corners@ =~= spec_ico_corners());
    corners
}

/// The triangles over the given vertices, one for every triple.
fn triangles(vertices: &Vec<Point3>, corners: &Vec<(usize, usize, usize)>, material: Surface) -> (tris:
    Vec<Triangle>)
    requires
        forall|i: int|
            0 <= i < corners.len() ==> (#[trigger] corners[i]).0 < vertices.len() && corners[i].1
                < vertices.len() && corners[i].2 < vertices.len(),
    ensures
        tris@ == spec_triangles(vertices@, corners@, material),
{
    let mut tris: Vec<Triangle> = Vec::new();
    let mut i: usize = 0;
    while i < corners.len()
        invariant
            i <= corners.len(),
            tris.len() == i,
            forall|j: int|
                0 <= j < corners.len() ==> (#[trigger] corners[j]).0 < vertices.len()
                    && corners[j].1 < vertices.len() && corners[j].2 < vertices.len(),
            forall|j: int|
                0 <= j < i ==> tris[j] == spec_triangles(vertices@, corners@, material)[j],
        decreases corners.len() - i,
    {
        let face: (usize, usize, usize) = corners[i];
        tris.push(Triangle::new((vertices[face.0], vertices[face.1], vertices[face.2]), material));
        i += 1;
    }
    assert(tris@ =~= spec_triangles(vertices@, corners@, material));
    tris
}

fn ico_vertex(center: Point3, radius: Scalar, x: Scalar, y: Scalar, z: Scalar) -> (v: Point3)
    ensures
        v == spec_ico_vertex(center, radius, x, y, z),
{
    let phi: Scalar = phi();
    let inv_radius: Scalar = Scalar::one().div(phi.add(Scalar::from_raw(2_000_000)).sqrt());
    center.add(Vec3(x, y, z).scale(radius.mul(inv_radius)))
}

fn phi() -> (phi: Scalar)
    ensures
        phi == spec_phi(),
{
    Scalar::one().add(Scalar::from_raw(5_000_000).sqrt()).div(Scalar::from_raw(2_000_000))
}

impl Icosahedron {
    /// The point in its middle.
    pub closed spec fn center(self) -> Point3 {
        self.center
    }

    /// The radius.
    pub closed spec fn radius(self) -> Scalar {
        self.radius
    }

    /// The faces of the icosahedron behind their hierarchy.
    pub closed spec fn primitives(self) -> HittableGroup<Triangle> {
        self.primitives
    }

    /// What `is_hit` returns where it does not depend on chance.
    pub open spec fn spec_is_hit(&self, ray: Ray, t_min: Scalar, t_max: Scalar) -> Option<Hit> {
        self.primitives().spec_is_hit(ray, t_min, t_max)
    }

    /// What `surface_area` returns.
    pub open spec fn spec_surface_area(&self) -> Scalar {
        self.primitives().spec_surface_area()
    }

    /// What `bounding_box` returns.
    pub open spec fn spec_bounding_box(&self) -> Extent {
        self.primitives().spec_bounding_box()
    }

    /// The icosahedron about `center` whose vertices lie at the distance
    /// `radius` from it.
    pub fn new(center: Point3, radius: Scalar, material: Surface) -> (ico: Icosahedron)
        ensures
            ico.center() == center,
            ico.radius() == radius,
            ico.primitives().accel().tree() == spec_plan(
                spec_paired(spec_ico_faces(center, radius, material)),
                0,
            ).0,
            ico.primitives().spec_hittables() == spec_things(
                spec_plan(spec_paired(spec_ico_faces(center, radius, material)), 0).1,
            ),
    {
        let zero: Scalar = Scalar::zero();
        let one: Scalar = Scalar::one();
        let neg: Scalar = Scalar::from_raw(-1_000_000);
        let phi: Scalar = phi();
        let nphi: Scalar = Scalar::zero().sub(phi);
        let mut verts: Vec<Point3> = Vec::new();
        verts.push(ico_vertex(center, radius, zero, neg, phi));
        verts.push(ico_vertex(center, radius, phi, zero, one));
        verts.push(ico_vertex(center, radius, phi, zero, neg));
        verts.push(ico_vertex(center, radius, nphi, zero, neg));
        verts.push(ico_vertex(center, radius, nphi, zero, one));
        verts.push(ico_vertex(center, radius, neg, phi, zero));
        verts.push(ico_vertex(center, radius, one, phi, zero));
        verts.push(ico_vertex(center, radius, one, nphi, zero));
        verts.push(ico_vertex(center, radius, neg, nphi, zero));
        verts.push(ico_vertex(center, radius, zero, neg, nphi));
        verts.push(ico_vertex(center, radius, zero, one, nphi));
        verts.push(ico_vertex(center, radius, zero, one, phi));
        assert(verts@ =~= spec_ico_vertices(center, radius));
        let corners: Vec<(usize, usize, usize)> = ico_corners();
        let icosahedron_tris: Vec<Triangle> = triangles(&verts, &corners, material);
        Icosahedron { center, radius, primitives: HittableGroup::new(icosahedron_tris) }
    }

    /// Where `ray` meets it within the window `(t_min, t_max)` of its parameter,
    /// if it does.
    pub fn is_hit(&self, ray: &Ray, t_min: Scalar, t_max: Scalar, rand: &mut Rand) -> (hit: Option<
        Hit,
    >)
        ensures
            hit == self.spec_is_hit(*ray, t_min, t_max),
    {
        self.primitives.is_hit(ray, t_min, t_max, rand)
    }

    /// The area of its surface.
    pub fn surface_area(&self) -> (area: Scalar)
        ensures
            area == self.spec_surface_area(),
    {
        self.primitives.surface_area()
    }

    /// The axis-aligned box that bounds it.
    pub fn bounding_box(&self) -> (b: AxisAlignedBoundingBox)
        ensures
            b@ == self.spec_bounding_box(),
    {
        self.primitives.bounding_box()
    }

    /// The point that stands for it where things are ordered in space.
    pub fn centroid(&self) -> (c: Point3)
        ensures
            c == self.spec_bounding_box().center(),
    {
        *self.bounding_box().center()
    }
}

impl Hittable for Icosahedron {
    open spec fn is_deterministic(&self) -> bool {
        true
    }

    open spec fn spec_is_hit(&self, ray: Ray, t_min: Scalar, t_max: Scalar) -> Option<Hit> {
        Icosahedron::spec_is_hit(self, ray, t_min, t_max)
    }

    open spec fn hits(&self, ray: Ray, t_min: Scalar, t_max: Scalar, hit: Option<Hit>) -> bool {
        hit == Icosahedron::spec_is_hit(self, ray, t_min, t_max)
    }

    proof fn lemma_hits_alone(&self, ray: Ray, t_min: Scalar, t_max: Scalar, hit: Option<Hit>) {
    }

    open spec fn spec_surface_area(&self) -> Scalar {
        Icosahedron::spec_surface_area(self)
    }

    fn is_hit(&self, ray: &Ray, t_min: Scalar, t_max: Scalar, rand: &mut Rand) -> (hit: Option<
        Hit,
    >) {
        Icosahedron::is_hit(self, ray, t_min, t_max, rand)
    }

    fn surface_area(&self) -> (area: Scalar) {
        Icosahedron::surface_area(self)
    }
}

impl Bounded for Icosahedron {
    open spec fn spec_bounding_box(&self) -> Extent {
        Icosahedron::spec_bounding_box(self)
    }

    open spec fn spec_centroid(&self) -> Point3 {
        Icosahedron::spec_bounding_box(self).center()
    }

    fn bounding_box(&self) -> (b: AxisAlignedBoundingBox) {
        Icosahedron::bounding_box(self)
    }

    fn centroid(&self) -> (c: Point3) {
        Icosahedron::centroid(self)
    }
}

impl BoundedHittable for Icosahedron {

}

/// A turn about an axis, given by the cosine and the sine of half its angle.
#[derive(Clone, Copy, Debug)]
pub struct Rotation {
    pub half_cos: Scalar,
    pub half_sin: Scalar,
    pub axis: Vec3,
}

/// A point turned by each of the rotations in order.
pub open spec fn spec_rotate_all(p: Vec3, rotations: Seq<Rotation>) -> Vec3
    decreases rotations.len(),
{
    if rotations.len() == 0 {
        p
    } else {
        let before = spec_rotate_all(p, rotations.drop_last());
        let last = rotations.last();
        if crate::math::spec_f_eq(Scalar::of(0), last.half_sin) {
            before
        } else {
            before.spec_rotate(last.half_cos, last.half_sin, last.axis)
        }
    }
}

fn rotate_all(p: Vec3, rotations: &Vec<Rotation>) -> (r: Vec3)
    ensures
        r == spec_rotate_all(p, rotations@),
{
    let mut turned: Vec3 = p;
    let mut i: usize = 0;
    while i < rotations.len()
        invariant
            i <= rotations.len(),
            turned == spec_rotate_all(p, rotations@.take(i as int)),
        decreases rotations.len() - i,
    {
        assert(rotations@.take(i + 1).drop_last() =~= rotations@.take(i as int));
        let rotation: Rotation = rotations[i];
        turned = turned.rotate(rotation.half_cos, rotation.half_sin, &rotation.axis);
        i += 1;
    }
    assert(rotations@.take(i as int) =~= rotations@);
    turned
}

/// The corners of the faces of a model, as triples of vertices.
pub open spec fn spec_obj_corners(obj: Obj) -> Seq<(usize, usize, usize)> {
    Seq::new(
        obj.indices@.len(),
        |i: int| (obj.indices@[i].1@[0], obj.indices@[i].1@[1], obj.indices@[i].1@[2]),
    )
}

/// The vertices of a model scaled and moved to `center`.
pub open spec fn spec_placed(vertices: Seq<Point3>, center: Point3, scale: Scalar) -> Seq<Point3> {
    Seq::new(vertices.len(), |i: int| center.spec_add(vertices[i].spec_scale(scale)))
}

/// The vertices moved so that `pivot` comes to lie at the origin, turned by
/// the rotations, and moved to `center`.
pub open spec fn spec_adjusted(
    vertices: Seq<Point3>,
    pivot: Point3,
    rotations: Seq<Rotation>,
    center: Point3,
) -> Seq<Point3> {
    Seq::new(
        vertices.len(),
        |i: int| spec_rotate_all(vertices[i].spec_sub(pivot), rotations).spec_add(center),
    )
}

/// The centre of the box around the triangles of a model placed at `center`.
pub open spec fn spec_mesh_pivot(obj: Obj, center: Point3, scale: Scalar, material: Surface) -> Point3 {
    Vec3(Scalar::of(0), Scalar::of(0), Scalar::of(0)).spec_add(
        Extent::union_of(
            spec_bounds_of(
                spec_triangles(
                    spec_placed(obj.vertices@, center, scale),
                    spec_obj_corners(obj),
                    material,
                ),
            ),
        ).center(),
    )
}

/// The triangles of a mesh: those of the model, scaled, turned about the
/// centre of their box, and moved so that this centre comes to lie at
/// `center`.
pub open spec fn spec_mesh_faces(
    obj: Obj,
    center: Point3,
    scale: Scalar,
    rotations: Seq<Rotation>,
    material: Surface,
) -> Seq<Triangle> {
    spec_triangles(
        spec_adjusted(
            spec_placed(obj.vertices@, center, scale),
            spec_mesh_pivot(obj, center, scale, material),
            rotations,
            center,
        ),
        spec_obj_corners(obj),
        material,
    )
}

/// A triangle mesh.
pub struct Object {
    center: Point3,
    primitives: HittableGroup<Triangle>,
}

impl Object {
    /// The point in its middle.
    pub closed spec fn center(self) -> Point3 {
        self.center
    }

    /// The triangles of the mesh behind their hierarchy.
    pub closed spec fn primitives(self) -> HittableGroup<Triangle> {
        self.primitives
    }

    /// What `is_hit` returns where it does not depend on chance.
    pub open spec fn spec_is_hit(&self, ray: Ray, t_min: Scalar, t_max: Scalar) -> Option<Hit> {
        self.primitives().spec_is_hit(ray, t_min, t_max)
    }

    /// What `surface_area` returns.
    pub open spec fn spec_surface_area(&self) -> Scalar {
        self.primitives().spec_surface_area()
    }

    /// What `bounding_box` returns.
    pub open spec fn spec_bounding_box(&self) -> Extent {
        self.primitives().spec_bounding_box()
    }

    /// The mesh of the model `obj`, scaled by `scale`, turned by
    /// `rotations` in order, and centred at `center`.
    pub fn new(
        center: Point3,
        scale: Scalar,
        rotations: Vec<Rotation>,
        obj: &Obj,
        material: Surface,
    ) -> (object: Object)
        requires
            obj.well_formed(),
        ensures
            object.center() == center,
            object.primitives().accel().tree() == spec_plan(
                spec_paired(spec_mesh_faces(*obj, center, scale, rotations@, material)),
                0,
            ).0,
            object.primitives().spec_hittables() == spec_things(
                spec_plan(
                    spec_paired(spec_mesh_faces(*obj, center, scale, rotations@, material)),
                    0,
                ).1,
            ),
    {
        let mut corners: Vec<(usize, usize, usize)> = Vec::new();
        let mut f: usize = 0;
        while f < obj.indices.len()
            invariant
                f <= obj.indices.len(),
                obj.well_formed(),
                corners.len() == f,
                forall|j: int| 0 <= j < f ==> corners[j] == spec_obj_corners(*obj)[j],
            decreases obj.indices.len() - f,
        {
            assert(obj.indices[f as int].1.len() == 3);
            let face: &Vec<usize> = &obj.indices[f].1;
            corners.push((face[0], face[1], face[2]));
            f += 1;
        }
        assert(corners@ =~= spec_obj_corners(*obj));
        assert forall|j: int| 0 <= j < corners.len() implies (#[trigger] corners[j]).0
            < obj.vertices.len() && corners[j].1 < obj.vertices.len() && corners[j].2
            < obj.vertices.len() by {
            assert(obj.indices[j].1.len() == 3);
        }
        let mut placed: Vec<Point3> = Vec::new();
        let mut i: usize = 0;
        while i < obj.vertices.len()
            invariant
                i <= obj.vertices.len(),
                placed.len() == i,
                forall|j: int|
                    0 <= j < i ==> placed[j] == spec_placed(obj.vertices@, center, scale)[j],
            decreases obj.vertices.len() - i,
        {
            placed.push(center.add(obj.vertices[i].scale(scale)));
            i += 1;
        }
        assert(placed@ =~= spec_placed(obj.vertices@, center, scale));
        let primitives: Vec<Triangle> = triangles(&placed, &corners, material);
        let bound_center: Vec3 = Vec3::o().add(
            *AxisAlignedBoundingBox::union_from_objs(&primitives).center(),
        );
        let mut adjusted: Vec<Point3> = Vec::new();
        let mut k: usize = 0;
        while k < placed.len()
            invariant
                k <= placed.len(),
                adjusted.len() == k,
                forall|j: int|
                    0 <= j < k ==> adjusted[j] == spec_adjusted(
                        placed@,
                        bound_center,
                        rotations@,
                        center,
                    )[j],
            decreases placed.len() - k,
        {
            adjusted.push(rotate_all(placed[k].sub(bound_center), &rotations).add(center));
            k += 1;
        }
        assert(adjusted@ =~= spec_adjusted(placed@, bound_center, rotations@, center));
        let adjusted_primitives: Vec<Triangle> = triangles(&adjusted, &corners, material);
        Object { center, primitives: HittableGroup::new(adjusted_primitives) }
    }

    /// Where `ray` meets it within the window `(t_min, t_max)` of its parameter,
    /// if it does.
    pub fn is_hit(&self, ray: &Ray, t_min: Scalar, t_max: Scalar, rand: &mut Rand) -> (hit: Option<
        Hit,
    >)
        ensures
            hit == self.spec_is_hit(*ray, t_min, t_max),
    {
        self.primitives.is_hit(ray, t_min, t_max, rand)
    }

    /// The area of its surface.
    pub fn surface_area(&self) -> (area: Scalar)
        ensures
            area == self.spec_surface_area(),
    {
        self.primitives.surface_area()
    }

    /// The axis-aligned box that bounds it.
    pub fn bounding_box(&self) -> (b: AxisAlignedBoundingBox)
        ensures
            b@ == self.spec_bounding_box(),
    {
        self.primitives.bounding_box()
    }

    /// The point that stands for it where things are ordered in space.
    pub fn centroid(&self) -> (c: Point3)
        ensures
            c == self.spec_bounding_box().center(),
    {
        *self.bounding_box().center()
    }
}

impl Hittable for Object {
    open spec fn is_deterministic(&self) -> bool {
        true
    }

    open spec fn spec_is_hit(&self, ray: Ray, t_min: Scalar, t_max: Scalar) -> Option<Hit> {
        Object::spec_is_hit(self, ray, t_min, t_max)
    }

    open spec fn hits(&self, ray: Ray, t_min: Scalar, t_max: Scalar, hit: Option<Hit>) -> bool {
        hit == Object::spec_is_hit(self, ray, t_min, t_max)
    }

    proof fn lemma_hits_alone(&self, ray: Ray, t_min: Scalar, t_max: Scalar, hit: Option<Hit>) {
    }

    open spec fn spec_surface_area(&self) -> Scalar {
        Object::spec_surface_area(self)
    }

    fn is_hit(&self, ray: &Ray, t_min: Scalar, t_max: Scalar, rand: &mut Rand) -> (hit: Option<
        Hit,
    >) {
        Object::is_hit(self, ray, t_min, t_max, rand)
    }

    fn surface_area(&self) -> (area: Scalar) {
        Object::surface_area(self)
    }
}

impl Bounded for Object {
    open spec fn spec_bounding_box(&self) -> Extent {
        Object::spec_bounding_box(self)
    }

    open spec fn spec_centroid(&self) -> Point3 {
        Object::spec_bounding_box(self).center()
    }

    fn bounding_box(&self) -> (b: AxisAlignedBoundingBox) {
        Object::bounding_box(self)
    }

    fn centroid(&self) -> (c: Point3) {
        Object::centroid(self)
    }
}

impl BoundedHittable for Object {

}

/// A medium of constant density inside a boundary, in which a ray may be
/// scattered anywhere along its way.
pub struct Volume<B> {
    boundary: B,
    material: Surface,
    inv_density: Scalar,
}

impl<B: BoundedHittable> Volume<B> {
    /// The thing that bounds the medium.
    pub closed spec fn boundary(self) -> B {
        self.boundary
    }

    /// The material of its surface.
    pub closed spec fn material(self) -> Surface {
        self.material
    }

    /// The inverse of the density.
    pub closed spec fn inv_density(self) -> Scalar {
        self.inv_density
    }

    /// What becomes of a ray that enters the boundary at `entry` and, where
    /// `exit` is a hit, leaves it there, if it flies `flight` times the
    /// inverse density before it is scattered.
    ///
    /// A ray that does not leave is on its way out at `entry`, which is
    /// its hit. Else the way through the medium is cut to the window; the
    /// ray passes where nothing is left of it or where the ray flies
    /// farther, and is scattered after its flight otherwise.
    pub open spec fn spec_pass(
        self,
        ray: Ray,
        t_min: Scalar,
        t_max: Scalar,
        entry: Hit,
        exit: Option<Hit>,
        flight: Scalar,
    ) -> Option<Hit> {
        match exit {
            None => Some(entry),
            Some(exit_hit) => {
                let t_in = entry.t.spec_max(t_min);
                let t_out = exit_hit.t.spec_min(t_max);
                let hit_dist = self.inv_density().spec_mul(flight);
                if spec_f_geq(t_in, t_out) {
                    None
                } else if hit_dist@ > t_out.spec_sub(t_in)@ {
                    None
                } else {
                    let t = t_in.spec_add(hit_dist);
                    Some(
                        Hit::spec_new(
                            ray.spec_at(t),
                            Vec3(Scalar::of(0), Scalar::of(0), Scalar::of(0)),
                            t,
                            true,
                            self.material(),
                        ),
                    )
                }
            },
        }
    }

    /// Where the ray enters the boundary, wherever along the ray that is.
    pub open spec fn spec_entry(self, ray: Ray) -> Option<Hit> {
        self.boundary().spec_is_hit(
            ray,
            Scalar::of(i64::MIN as int),
            Scalar::of(i64::MAX as int),
        )
    }

    /// Where the ray leaves the boundary again behind `entry`.
    pub open spec fn spec_exit(self, ray: Ray, entry: Hit) -> Option<Hit> {
        self.boundary().spec_is_hit(
            ray,
            entry.t.spec_add(Scalar::of(FP_OFFSET as int)),
            Scalar::of(i64::MAX as int),
        )
    }

    /// The medium of the given density inside `boundary`.
    pub fn new(boundary: B, density: Scalar, material: Surface) -> (volume: Volume<B>)
        ensures
            volume.boundary() == boundary,
            volume.material() == material,
            volume.inv_density() == Scalar::of(1_000_000).spec_div(density),
    {
        Volume { boundary, material, inv_density: Scalar::one().div(density) }
    }

    /// What becomes of a ray whose way through the boundary and whose flight
    /// are given.
    pub fn pass(
        &self,
        ray: &Ray,
        t_min: Scalar,
        t_max: Scalar,
        entry: Hit,
        exit: Option<Hit>,
        flight: Scalar,
    ) -> (hit: Option<Hit>)
        ensures
            hit == self.spec_pass(*ray, t_min, t_max, entry, exit, flight),
    {
        match exit {
            None => Some(entry),
            Some(exit_hit) => {
                let t_in: Scalar = entry.t.max(t_min);
                let t_out: Scalar = exit_hit.t.min(t_max);
                if f_geq(t_in, t_out) {
                    return None;
                }
                let entry_exit_dist: Scalar = t_out.sub(t_in);
                let hit_dist: Scalar = self.inv_density.mul(flight);
                if hit_dist.raw > entry_exit_dist.raw {
                    return None;
                }
                let t: Scalar = t_in.add(hit_dist);
                Some(Hit::new(ray.at(t), Vec3::o(), t, true, self.material))
            },
        }
    }

    /// Whether the medium may give `hit` for `ray` within the window
    /// `(t_min, t_max)` where the boundary reports `entry` for the way in
    /// and, behind a hit there, `exit` for the way out, and the sample
    /// `sample` of the unit interval is drawn: nothing for a ray that
    /// misses the boundary, else what [`Volume::spec_pass`] gives for a
    /// flight of the negated decimal logarithm of the sample.
    pub open spec fn spec_led(
        self,
        ray: Ray,
        t_min: Scalar,
        t_max: Scalar,
        entry: Option<Hit>,
        exit: Option<Hit>,
        sample: Scalar,
        hit: Option<Hit>,
    ) -> bool {
        &&& self.boundary().hits(
            ray,
            Scalar::of(i64::MIN as int),
            Scalar::of(i64::MAX as int),
            entry,
        )
        &&& 0 <= sample@ < SCALE
        &&& match entry {
            None => hit is None,
            Some(e) => self.boundary().hits(
                ray,
                e.t.spec_add(Scalar::of(FP_OFFSET as int)),
                Scalar::of(i64::MAX as int),
                exit,
            ) && hit == self.spec_pass(ray, t_min, t_max, e, exit, spec_neg_log10(sample)),
        }
    }

    /// Whether `hit` is one of the outcomes that the medium may give for
    /// `ray` within the window `(t_min, t_max)`: that of
    /// [`Volume::spec_led`] for some way in and out that the boundary may
    /// report and some sample of the unit interval.
    pub open spec fn spec_scattered(
        self,
        ray: Ray,
        t_min: Scalar,
        t_max: Scalar,
        hit: Option<Hit>,
    ) -> bool {
        exists|entry: Option<Hit>, exit: Option<Hit>, sample: Scalar| #[trigger]
            self.spec_led(ray, t_min, t_max, entry, exit, sample, hit)
    }

    /// Where `ray` is scattered inside the medium, if it is. The boundary is
    /// asked where the ray enters, with a window open to both sides so that
    /// a ray may start inside, and where it leaves again. A ray that misses
    /// the boundary meets nothing; one that does not leave again is met
    /// where it entered; one whose way through the medium lies outside the
    /// window meets nothing. Only then is a sample drawn from `rand`: the
    /// flight is its negated decimal logarithm, and the outcome is that of
    /// [`Volume::spec_pass`].
    pub fn is_hit(&self, ray: &Ray, t_min: Scalar, t_max: Scalar, rand: &mut Rand) -> (hit: Option<
        Hit,
    >)
        ensures
            self.spec_scattered(*ray, t_min, t_max, hit),
    {
        let inside = self.boundary.is_hit(ray, Scalar::neg_infinity(), Scalar::infinity(), rand);
        match inside {
            None => {
                assert(self.spec_led(*ray, t_min, t_max, inside, None, Scalar::of(0), None));
                None
            },
            Some(entry_hit) => {
                let exit = self.boundary.is_hit(
                    ray,
                    entry_hit.t.add(Scalar::from_raw(FP_OFFSET)),
                    Scalar::infinity(),
                    rand,
                );
                match exit {
                    None => {
                        assert(self.spec_led(
                            *ray,
                            t_min,
                            t_max,
                            inside,
                            exit,
                            Scalar::of(0),
                            Some(entry_hit),
                        ));
                        Some(entry_hit)
                    },
                    Some(exit_hit) => {
                        if f_geq(entry_hit.t.max(t_min), exit_hit.t.min(t_max)) {
                            assert(self.spec_led(
                                *ray,
                                t_min,
                                t_max,
                                inside,
                                exit,
                                Scalar::of(0),
                                None,
                            ));
                            return None;
                        }
                        let sample: Scalar = rand_f64(rand);
                        let hit = self.pass(ray, t_min, t_max, entry_hit, exit, neg_log10(sample));
                        assert(self.spec_led(*ray, t_min, t_max, inside, exit, sample, hit));
                        hit
                    },
                }
            },
        }
    }

    /// The area of its surface.
    pub fn surface_area(&self) -> (area: Scalar)
        ensures
            area == self.boundary().spec_surface_area(),
    {
        self.boundary.surface_area()
    }

    /// The axis-aligned box that bounds it.
    pub fn bounding_box(&self) -> (b: AxisAlignedBoundingBox)
        ensures
            b@ == self.boundary().spec_bounding_box(),
    {
        self.boundary.bounding_box()
    }

    /// The point that stands for it where things are ordered in space.
    pub fn centroid(&self) -> (c: Point3)
        ensures
            c == self.boundary().spec_bounding_box().center(),
    {
        *self.boundary.bounding_box().center()
    }
}

impl<B: BoundedHittable> Hittable for Volume<B> {
    open spec fn is_deterministic(&self) -> bool {
        false
    }

    open spec fn spec_is_hit(&self, ray: Ray, t_min: Scalar, t_max: Scalar) -> Option<Hit> {
        None
    }

    open spec fn hits(&self, ray: Ray, t_min: Scalar, t_max: Scalar, hit: Option<Hit>) -> bool {
        Volume::spec_scattered(*self, ray, t_min, t_max, hit)
    }

    proof fn lemma_hits_alone(&self, ray: Ray, t_min: Scalar, t_max: Scalar, hit: Option<Hit>) {
    }

    open spec fn spec_surface_area(&self) -> Scalar {
        self.boundary().spec_surface_area()
    }

    fn is_hit(&self, ray: &Ray, t_min: Scalar, t_max: Scalar, rand: &mut Rand) -> (hit: Option<
        Hit,
    >) {
        Volume::is_hit(self, ray, t_min, t_max, rand)
    }

    fn surface_area(&self) -> (area: Scalar) {
        Volume::surface_area(self)
    }
}

impl<B: BoundedHittable> Bounded for Volume<B> {
    open spec fn spec_bounding_box(&self) -> Extent {
        self.boundary().spec_bounding_box()
    }

    open spec fn spec_centroid(&self) -> Point3 {
        self.boundary().spec_bounding_box().center()
    }

    fn bounding_box(&self) -> (b: AxisAlignedBoundingBox) {
        Volume::bounding_box(self)
    }

    fn centroid(&self) -> (c: Point3) {
        Volume::centroid(self)
    }
}

impl<B: BoundedHittable> BoundedHittable for Volume<B> {

}

} // verus!
