//! Three-component vectors over [`Scalar`]: points, directions and colours.
use crate::math::{
    f_eq, lemma_nearest_root_exists, nearest_root, quotient, rand_f64, schlick, spec_f_eq,
    spec_schlick, wide_root, Rand, Scalar, SCALE, THRESHOLD,
};
use vstd::prelude::*;

pub mod colors;

verus! {

/// A vector of three scalars.
#[derive(Clone, Copy, Debug)]
pub struct Vec3(pub Scalar, pub Scalar, pub Scalar);

/// A colour: red, green and blue.
pub type ColorRGB = Vec3;

/// A point in space.
pub type Point3 = Vec3;

/// The channels of a colour.
#[derive(Clone, Copy, Debug, PartialEq, Eq, Structural)]
pub enum Color {
    R,
    G,
    B,
}

/// The axes of space.
#[derive(Clone, Copy, Debug, PartialEq, Eq, Structural)]
pub enum Coord {
    X,
    Y,
    Z,
}

impl Coord {
    /// The position of the axis in a vector: `0`, `1` or `2`.
    pub open spec fn slot(self) -> int {
        match self {
            Coord::X => 0,
            Coord::Y => 1,
            Coord::Z => 2,
        }
    }
}

impl Color {
    /// The position of the channel in a colour: `0`, `1` or `2`.
    pub open spec fn slot(self) -> int {
        match self {
            Color::R => 0,
            Color::G => 1,
            Color::B => 2,
        }
    }
}

impl Vec3 {
    /// The component in position `slot` (`0`, `1` or `2`).
    pub open spec fn nth(self, slot: int) -> Scalar {
        if slot == 0 {
            self.0
        } else if slot == 1 {
            self.1
        } else {
            self.2
        }
    }

    /// The vector with the component in position `slot` replaced.
    pub open spec fn with_nth(self, slot: int, value: Scalar) -> Vec3 {
        if slot == 0 {
            Vec3(value, self.1, self.2)
        } else if slot == 1 {
            Vec3(self.0, value, self.2)
        } else {
            Vec3(self.0, self.1, value)
        }
    }

    /// The component along `coord`.
    pub open spec fn at(self, coord: Coord) -> Scalar {
        self.nth(coord.slot())
    }

    /// The componentwise sum.
    pub open spec fn spec_add(self, rhs: Vec3) -> Vec3 {
        Vec3(self.0.spec_add(rhs.0), self.1.spec_add(rhs.1), self.2.spec_add(rhs.2))
    }

    /// The componentwise difference.
    pub open spec fn spec_sub(self, rhs: Vec3) -> Vec3 {
        Vec3(self.0.spec_sub(rhs.0), self.1.spec_sub(rhs.1), self.2.spec_sub(rhs.2))
    }

    /// The reversed vector.
    pub open spec fn spec_neg(self) -> Vec3 {
        Vec3(self.0.spec_neg(), self.1.spec_neg(), self.2.spec_neg())
    }

    /// The componentwise product.
    pub open spec fn spec_mul(self, rhs: Vec3) -> Vec3 {
        Vec3(self.0.spec_mul(rhs.0), self.1.spec_mul(rhs.1), self.2.spec_mul(rhs.2))
    }

    /// Every component times `factor`.
    pub open spec fn spec_scale(self, factor: Scalar) -> Vec3 {
        Vec3(self.0.spec_mul(factor), self.1.spec_mul(factor), self.2.spec_mul(factor))
    }

    /// The dot product.
    pub open spec fn spec_dot(self, rhs: Vec3) -> Scalar {
        self.0.spec_mul(rhs.0).spec_add(self.1.spec_mul(rhs.1)).spec_add(self.2.spec_mul(rhs.2))
    }

    /// The cross product.
    pub open spec fn spec_cross(self, rhs: Vec3) -> Vec3 {
        Vec3(
            self.1.spec_mul(rhs.2).spec_sub(self.2.spec_mul(rhs.1)),
            self.2.spec_mul(rhs.0).spec_sub(self.0.spec_mul(rhs.2)),
            self.0.spec_mul(rhs.1).spec_sub(self.1.spec_mul(rhs.0)),
        )
    }

    /// The exact sum of the squares of the raw components.
    pub open spec fn raw_norm_squared(self) -> int {
        self.0@ * self.0@ + self.1@ * self.1@ + self.2@ * self.2@
    }

    /// The Euclidean length, rounded to the nearest raw step.
    pub open spec fn spec_norm(self) -> Scalar {
        Scalar::of(nearest_root(self.raw_norm_squared()))
    }

    /// The vector divided by its length; the zero vector where the length is
    /// zero to within the threshold.
    pub open spec fn spec_unit(self) -> Vec3 {
        let norm = self.spec_norm();
        if spec_f_eq(norm, Scalar::of(0)) {
            Vec3(Scalar::of(0), Scalar::of(0), Scalar::of(0))
        } else {
            Vec3(self.0.spec_div(norm), self.1.spec_div(norm), self.2.spec_div(norm))
        }
    }

    /// Whether the dot product of the two is zero to within the threshold.
    pub open spec fn spec_orthogonal(v: Vec3, w: Vec3) -> bool {
        spec_f_eq(v.spec_dot(w), Scalar::of(0))
    }

    /// The mirror image of `self` in the plane with unit normal `normal`:
    /// `self - 2 (self . normal) normal`.
    pub open spec fn spec_reflect(self, normal: Vec3) -> Vec3 {
        self.spec_sub(normal.spec_scale(Scalar::of(2_000_000).spec_mul(self.spec_dot(normal))))
    }

    /// Equality of every component to within the threshold.
    pub open spec fn spec_close(self, rhs: Vec3) -> bool {
        spec_f_eq(self.0, rhs.0) && spec_f_eq(self.1, rhs.1) && spec_f_eq(self.2, rhs.2)
    }

    /// The componentwise minimum.
    pub open spec fn spec_lowest(self, rhs: Vec3) -> Vec3 {
        Vec3(self.0.spec_min(rhs.0), self.1.spec_min(rhs.1), self.2.spec_min(rhs.2))
    }

    /// The componentwise maximum.
    pub open spec fn spec_highest(self, rhs: Vec3) -> Vec3 {
        Vec3(self.0.spec_max(rhs.0), self.1.spec_max(rhs.1), self.2.spec_max(rhs.2))
    }

    /// Whether every component of `self` is at most that of `rhs`.
    pub open spec fn spec_all_le(self, rhs: Vec3) -> bool {
        self.0@ <= rhs.0@ && self.1@ <= rhs.1@ && self.2@ <= rhs.2@
    }

    /// The componentwise minimum.
    pub fn lowest(&self, rhs: &Vec3) -> (r: Vec3)
        ensures
            r == self.spec_lowest(*rhs),
    {
        Vec3(self.0.min(rhs.0), self.1.min(rhs.1), self.2.min(rhs.2))
    }

    /// The componentwise maximum.
    pub fn highest(&self, rhs: &Vec3) -> (r: Vec3)
        ensures
            r == self.spec_highest(*rhs),
    {
        Vec3(self.0.max(rhs.0), self.1.max(rhs.1), self.2.max(rhs.2))
    }

    /// The componentwise sum.
    pub fn add(self, rhs: Vec3) -> (r: Vec3)
        ensures
            r == self.spec_add(rhs),
    {
        Vec3(self.0.add(rhs.0), self.1.add(rhs.1), self.2.add(rhs.2))
    }

    /// The componentwise difference.
    pub fn sub(self, rhs: Vec3) -> (r: Vec3)
        ensures
            r == self.spec_sub(rhs),
    {
        Vec3(self.0.sub(rhs.0), self.1.sub(rhs.1), self.2.sub(rhs.2))
    }

    /// The reversed vector.
    pub fn neg(self) -> (r: Vec3)
        ensures
            r == self.spec_neg(),
    {
        Vec3(self.0.neg(), self.1.neg(), self.2.neg())
    }

    /// The componentwise product.
    pub fn mul(self, rhs: Vec3) -> (r: Vec3)
        ensures
            r == self.spec_mul(rhs),
    {
        Vec3(self.0.mul(rhs.0), self.1.mul(rhs.1), self.2.mul(rhs.2))
    }

    /// Every component times `factor`.
    pub fn scale(&self, factor: Scalar) -> (r: Vec3)
        ensures
            r == self.spec_scale(factor),
    {
        Vec3(self.0.mul(factor), self.1.mul(factor), self.2.mul(factor))
    }

    /// The vector with the given components.
    pub fn new(e1: Scalar, e2: Scalar, e3: Scalar) -> (v: Vec3)
        ensures
            v == Vec3(e1, e2, e3),
    {
        Vec3(e1, e2, e3)
    }

    /// The unit vector along the first axis.
    pub fn i() -> (v: Vec3)
        ensures
            v == Vec3(Scalar::of(1_000_000), Scalar::of(0), Scalar::of(0)),
    {
        Vec3(Scalar::one(), Scalar::zero(), Scalar::zero())
    }

    /// The unit vector along the second axis.
    pub fn j() -> (v: Vec3)
        ensures
            v == Vec3(Scalar::of(0), Scalar::of(1_000_000), Scalar::of(0)),
    {
        Vec3(Scalar::zero(), Scalar::one(), Scalar::zero())
    }

    /// The unit vector along the third axis.
    pub fn k() -> (v: Vec3)
        ensures
            v == Vec3(Scalar::of(0), Scalar::of(0), Scalar::of(1_000_000)),
    {
        Vec3(Scalar::zero(), Scalar::zero(), Scalar::one())
    }

    /// The zero vector, which is also the origin.
    pub fn o() -> (v: Vec3)
        ensures
            v == Vec3(Scalar::of(0), Scalar::of(0), Scalar::of(0)),
    {
        Vec3(Scalar::zero(), Scalar::zero(), Scalar::zero())
    }

    /// Whether the dot product of the two is zero to within the threshold.
    pub fn orthogonal(v: &Vec3, w: &Vec3) -> (b: bool)
        ensures
            b == Vec3::spec_orthogonal(*v, *w),
    {
        f_eq(v.dot(w), Scalar::zero())
    }

    /// The dot product.
    pub fn dot(&self, other: &Vec3) -> (r: Scalar)
        ensures
            r == self.spec_dot(*other),
    {
        self.0.mul(other.0).add(self.1.mul(other.1)).add(self.2.mul(other.2))
    }

    /// The cross product.
    pub fn cross(&self, other: &Vec3) -> (r: Vec3)
        ensures
            r == self.spec_cross(*other),
    {
        Vec3::new(
            self.1.mul(other.2).sub(self.2.mul(other.1)),
            self.2.mul(other.0).sub(self.0.mul(other.2)),
            self.0.mul(other.1).sub(self.1.mul(other.0)),
        )
    }

    /// The length.
    pub fn norm(&self) -> (r: Scalar)
        ensures
            r == self.spec_norm(),
    {
        let x: u128 = magnitude(self.0);
        let y: u128 = magnitude(self.1);
        let z: u128 = magnitude(self.2);
        assert(x * x <= 0x8000_0000_0000_0000 * 0x8000_0000_0000_0000 && x * x == self.0@
            * self.0@) by (nonlinear_arith)
            requires
                0 <= x <= 0x8000_0000_0000_0000,
                x == self.0@ || x == -self.0@,
        ;
        assert(y * y <= 0x8000_0000_0000_0000 * 0x8000_0000_0000_0000 && y * y == self.1@
            * self.1@) by (nonlinear_arith)
            requires
                0 <= y <= 0x8000_0000_0000_0000,
                y == self.1@ || y == -self.1@,
        ;
        assert(z * z <= 0x8000_0000_0000_0000 * 0x8000_0000_0000_0000 && z * z == self.2@
            * self.2@) by (nonlinear_arith)
            requires
                0 <= z <= 0x8000_0000_0000_0000,
                z == self.2@ || z == -self.2@,
        ;
        let root: u128 = wide_root(x * x + y * y + z * z);
        if root > i64::MAX as u128 {
            Scalar::infinity()
        } else {
            Scalar::from_raw(root as i64)
        }
    }

    /// The vector divided by its length; the zero vector where the length is
    /// zero to within the threshold.
    pub fn unit(&self) -> (r: Vec3)
        ensures
            r == self.spec_unit(),
    {
        let norm: Scalar = self.norm();
        if f_eq(norm, Scalar::zero()) {
            return Vec3::o();
        }
        Vec3::new(self.0.div(norm), self.1.div(norm), self.2.div(norm))
    }

    /// The mirror image of `self` in the plane with unit normal `normal`.
    pub fn reflect(&self, normal: &Vec3) -> (r: Vec3)
        ensures
            r == self.spec_reflect(*normal),
    {
        self.sub(normal.scale(Scalar::from_raw(2_000_000).mul(self.dot(normal))))
    }

    /// Whether every component of `self` equals that of `other` to within the
    /// threshold.
    pub fn close(&self, other: &Vec3) -> (b: bool)
        ensures
            b == self.spec_close(*other),
    {
        f_eq(self.0, other.0) && f_eq(self.1, other.1) && f_eq(self.2, other.2)
    }

    /// The component along `coord`.
    pub fn get(&self, coord: Coord) -> (r: Scalar)
        ensures
            r == self.at(coord),
    {
        match coord {
            Coord::X => self.0,
            Coord::Y => self.1,
            Coord::Z => self.2,
        }
    }

    /// Replaces the component along `coord`.
    pub fn set(&mut self, coord: Coord, value: Scalar)
        ensures
            *final(self) == old(self).with_nth(coord.slot(), value),
    {
        match coord {
            Coord::X => {
                self.0 = value;
            },
            Coord::Y => {
                self.1 = value;
            },
            Coord::Z => {
                self.2 = value;
            },
        }
    }
}

/// A ray of the form `r(t) = origin + t * dir`.
#[derive(Clone, Copy, Debug)]
pub struct Ray {
    pub origin: Point3,
    pub dir: Vec3,
}

impl Ray {
    /// The ray from `origin` in the direction `dir`, which is normalized.
    pub open spec fn spec_new(origin: Point3, dir: Vec3) -> Ray {
        Ray { origin, dir: dir.spec_unit() }
    }

    /// The point of the ray at the parameter `t`.
    pub open spec fn spec_at(self, t: Scalar) -> Point3 {
        self.origin.spec_add(self.dir.spec_scale(t))
    }

    /// The componentwise inverse of the direction.
    pub open spec fn spec_dir_inverse(self) -> Vec3 {
        Vec3(
            Scalar::of(1_000_000).spec_div(self.dir.0),
            Scalar::of(1_000_000).spec_div(self.dir.1),
            Scalar::of(1_000_000).spec_div(self.dir.2),
        )
    }

    /// The ray from `origin` along `dir`, whose direction is stored
    /// normalized.
    pub fn new(origin: &Point3, dir: &Vec3) -> (ray: Ray)
        ensures
            ray == Ray::spec_new(*origin, *dir),
    {
        Ray { origin: *origin, dir: dir.unit() }
    }

    /// The point of the ray at the parameter `t`.
    pub fn at(&self, t: Scalar) -> (p: Point3)
        ensures
            p == self.spec_at(t),
    {
        self.origin.add(self.dir.scale(t))
    }

    /// The componentwise inverse of the direction.
    pub fn dir_inverse(&self) -> (inv: Vec3)
        ensures
            inv == self.spec_dir_inverse(),
    {
        Vec3(
            Scalar::one().div(self.dir.0),
            Scalar::one().div(self.dir.1),
            Scalar::one().div(self.dir.2),
        )
    }
}

/// The absolute value of a raw scalar as an unsigned wide integer.
fn magnitude(s: Scalar) -> (m: u128)
    ensures
        m == (if s@ < 0 {
            -s@
        } else {
            s@
        }),
{
    if s.raw < 0 {
        (-(s.raw as i128)) as u128
    } else {
        s.raw as u128
    }
}

impl vstd::std_specs::cmp::PartialEqSpecImpl for Vec3 {
    open spec fn obeys_eq_spec() -> bool {
        true
    }

    open spec fn eq_spec(&self, other: &Vec3) -> bool {
        self.spec_close(*other)
    }
}

/// Two vectors compare equal when every pair of components is equal to
/// within the threshold.
impl PartialEq for Vec3 {
    fn eq(&self, other: &Vec3) -> (b: bool) {
        self.close(other)
    }
}

impl vstd::std_specs::ops::AddSpecImpl for Vec3 {
    open spec fn obeys_add_spec() -> bool {
        true
    }

    open spec fn add_req(self, rhs: Vec3) -> bool {
        true
    }

    open spec fn add_spec(self, rhs: Vec3) -> Vec3 {
        self.spec_add(rhs)
    }
}

impl std::ops::Add for Vec3 {
    type Output = Vec3;

    fn add(self, rhs: Vec3) -> (ret: Vec3) {
        Vec3::add(self, rhs)
    }
}

impl vstd::std_specs::ops::SubSpecImpl for Vec3 {
    open spec fn obeys_sub_spec() -> bool {
        true
    }

    open spec fn sub_req(self, rhs: Vec3) -> bool {
        true
    }

    open spec fn sub_spec(self, rhs: Vec3) -> Vec3 {
        self.spec_sub(rhs)
    }
}

impl std::ops::Sub for Vec3 {
    type Output = Vec3;

    fn sub(self, rhs: Vec3) -> (ret: Vec3) {
        Vec3::sub(self, rhs)
    }
}

impl vstd::std_specs::ops::NegSpecImpl for Vec3 {
    open spec fn obeys_neg_spec() -> bool {
        true
    }

    open spec fn neg_req(self) -> bool {
        true
    }

    open spec fn neg_spec(self) -> Vec3 {
        self.spec_neg()
    }
}

impl std::ops::Neg for Vec3 {
    type Output = Vec3;

    fn neg(self) -> (ret: Vec3) {
        Vec3::neg(self)
    }
}

impl vstd::std_specs::ops::MulSpecImpl for Vec3 {
    open spec fn obeys_mul_spec() -> bool {
        true
    }

    open spec fn mul_req(self, rhs: Vec3) -> bool {
        true
    }

    open spec fn mul_spec(self, rhs: Vec3) -> Vec3 {
        self.spec_mul(rhs)
    }
}

impl std::ops::Mul for Vec3 {
    type Output = Vec3;

    fn mul(self, rhs: Vec3) -> (ret: Vec3) {
        Vec3::mul(self, rhs)
    }
}

impl vstd::std_specs::ops::MulSpecImpl<Scalar> for Vec3 {
    open spec fn obeys_mul_spec() -> bool {
        true
    }

    open spec fn mul_req(self, rhs: Scalar) -> bool {
        true
    }

    open spec fn mul_spec(self, rhs: Scalar) -> Vec3 {
        self.spec_scale(rhs)
    }
}

impl std::ops::Mul<Scalar> for Vec3 {
    type Output = Vec3;

    fn mul(self, rhs: Scalar) -> (ret: Vec3) {
        self.scale(rhs)
    }
}

impl vstd::std_specs::ops::MulSpecImpl<Vec3> for Scalar {
    open spec fn obeys_mul_spec() -> bool {
        true
    }

    open spec fn mul_req(self, rhs: Vec3) -> bool {
        true
    }

    open spec fn mul_spec(self, rhs: Vec3) -> Vec3 {
        rhs.spec_scale(self)
    }
}

impl std::ops::Mul<Vec3> for Scalar {
    type Output = Vec3;

    fn mul(self, rhs: Vec3) -> (ret: Vec3) {
        rhs.scale(self)
    }
}

impl vstd::std_specs::core::IndexSpecImpl<Coord> for Vec3 {
    open spec fn index_req(&self, index: &Coord) -> bool {
        true
    }
}

impl std::ops::Index<Coord> for Vec3 {
    type Output = Scalar;

    fn index(&self, coord: Coord) -> (r: &Scalar)
        ensures
            *r == self.at(coord),
    {
        match coord {
            Coord::X => &self.0,
            Coord::Y => &self.1,
            Coord::Z => &self.2,
        }
    }
}

impl std::ops::IndexMut<Coord> for Vec3 {
    fn index_mut(&mut self, coord: Coord) -> (r: &mut Scalar)
        ensures
            *r == old(self).at(coord),
            *final(self) == old(self).with_nth(coord.slot(), *final(r)),
    {
        match coord {
            Coord::X => &mut self.0,
            Coord::Y => &mut self.1,
            Coord::Z => &mut self.2,
        }
    }
}

impl vstd::std_specs::core::IndexSpecImpl<Color> for Vec3 {
    open spec fn index_req(&self, index: &Color) -> bool {
        true
    }
}

impl std::ops::Index<Color> for Vec3 {
    type Output = Scalar;

    fn index(&self, color: Color) -> (r: &Scalar)
        ensures
            *r == self.nth(color.slot()),
    {
        match color {
            Color::R => &self.0,
            Color::G => &self.1,
            Color::B => &self.2,
        }
    }
}

impl std::ops::IndexMut<Color> for Vec3 {
    fn index_mut(&mut self, color: Color) -> (r: &mut Scalar)
        ensures
            *r == old(self).nth(color.slot()),
            *final(self) == old(self).with_nth(color.slot(), *final(r)),
    {
        match color {
            Color::R => &mut self.0,
            Color::G => &mut self.1,
            Color::B => &mut self.2,
        }
    }
}

impl std::ops::AddAssign for Vec3 {
    fn add_assign(&mut self, rhs: Vec3)
        ensures
            *final(self) == old(self).spec_add(rhs),
    {
        *self = Vec3::add(*self, rhs);
    }
}

impl std::ops::SubAssign for Vec3 {
    fn sub_assign(&mut self, rhs: Vec3)
        ensures
            *final(self) == old(self).spec_sub(rhs),
    {
        *self = Vec3::sub(*self, rhs);
    }
}

impl std::ops::MulAssign<Scalar> for Vec3 {
    fn mul_assign(&mut self, factor: Scalar)
        ensures
            *final(self) == old(self).spec_scale(factor),
    {
        *self = self.scale(factor);
    }
}

impl std::ops::MulAssign<Vec3> for Vec3 {
    fn mul_assign(&mut self, rhs: Vec3)
        ensures
            *final(self) == old(self).spec_mul(rhs),
    {
        *self = Vec3::mul(*self, rhs);
    }
}

impl vstd::std_specs::ops::AddSpecImpl<&Vec3> for &Vec3 {
    open spec fn obeys_add_spec() -> bool {
        true
    }

    open spec fn add_req(self, rhs: &Vec3) -> bool {
        true
    }

    open spec fn add_spec(self, rhs: &Vec3) -> Vec3 {
        self.spec_add(*rhs)
    }
}

impl std::ops::Add<&Vec3> for &Vec3 {
    type Output = Vec3;

    fn add(self, rhs: &Vec3) -> (ret: Vec3) {
        Vec3::add(*self, *rhs)
    }
}

impl vstd::std_specs::ops::SubSpecImpl<&Vec3> for &Vec3 {
    open spec fn obeys_sub_spec() -> bool {
        true
    }

    open spec fn sub_req(self, rhs: &Vec3) -> bool {
        true
    }

    open spec fn sub_spec(self, rhs: &Vec3) -> Vec3 {
        self.spec_sub(*rhs)
    }
}

impl std::ops::Sub<&Vec3> for &Vec3 {
    type Output = Vec3;

    fn sub(self, rhs: &Vec3) -> (ret: Vec3) {
        Vec3::sub(*self, *rhs)
    }
}

impl vstd::std_specs::ops::MulSpecImpl<Scalar> for &Vec3 {
    open spec fn obeys_mul_spec() -> bool {
        true
    }

    open spec fn mul_req(self, rhs: Scalar) -> bool {
        true
    }

    open spec fn mul_spec(self, rhs: Scalar) -> Vec3 {
        self.spec_scale(rhs)
    }
}

impl std::ops::Mul<Scalar> for &Vec3 {
    type Output = Vec3;

    fn mul(self, rhs: Scalar) -> (ret: Vec3) {
        self.scale(rhs)
    }
}

impl Vec3 {
    /// The unit vector toward the point whose coordinates are the three
    /// samples stretched from the unit interval to `-1..1`.
    pub open spec fn spec_random_unit(x: Scalar, y: Scalar, z: Scalar) -> Vec3 {
        Vec3(spec_stretch(x), spec_stretch(y), spec_stretch(z)).spec_unit()
    }

    /// The unit vector of the plane of the first two axes toward the point
    /// whose coordinates are the two samples stretched to `-1..1`.
    pub open spec fn spec_random_in_unit_disc(x: Scalar, y: Scalar) -> Vec3 {
        Vec3(spec_stretch(x), spec_stretch(y), Scalar::of(0)).spec_unit()
    }

    /// The parts of `self` along `onto` and along `along`, two directions
    /// that span a plane holding `self`.
    pub open spec fn spec_projections(self, onto: Vec3, along: Vec3) -> (Vec3, Vec3) {
        let onto_unit = onto.spec_unit();
        let along_unit = along.spec_unit();
        let self_parallel = onto_unit.spec_scale(self.spec_dot(onto_unit));
        let self_perp = self.spec_sub(self_parallel);
        if Vec3::spec_orthogonal(onto_unit, along_unit) {
            (self_parallel, self_perp)
        } else {
            let cos_phi = onto_unit.spec_dot(along_unit);
            let tan_phi = Scalar::of(1_000_000).spec_sub(cos_phi.spec_square()).spec_sqrt().spec_div(
                cos_phi,
            );
            let shift = self_perp.spec_norm().spec_div(tan_phi);
            (
                self_parallel.spec_sub(onto_unit.spec_scale(shift)),
                along_unit.spec_scale(
                    shift.spec_square().spec_add(self_perp.spec_norm().spec_square()).spec_sqrt(),
                ),
            )
        }
    }

    /// Whether light that meets a surface at the given sine of the angle of
    /// incidence, going from index `index_i` to index `index_r`, is reflected
    /// whatever the sample: total internal reflection.
    pub open spec fn spec_total_reflection(
        sin_theta_i: Scalar,
        index_i: Scalar,
        index_r: Scalar,
    ) -> bool {
        index_i@ > index_r@ && sin_theta_i@ > index_r.spec_div(index_i)@
    }

    /// The direction of `self` after it has met a surface with unit normal
    /// `normal`, going from index `index_i` to index `index_r`: the mirror
    /// image under total internal reflection or where `sample` is below the
    /// Schlick reflectance, else the refracted direction
    /// `-normal + tan(theta_r) unit((self x -normal) x normal)` with
    /// `sin(theta_r) = sin(theta_i) index_i / index_r`.
    pub open spec fn spec_refract(
        self,
        normal: Vec3,
        index_i: Scalar,
        index_r: Scalar,
        sample: Scalar,
    ) -> Vec3 {
        let self_unit = self.spec_unit();
        let sin_theta_i = self_unit.spec_cross(normal).spec_norm();
        let cos_theta_i = self_unit.spec_dot(normal).spec_abs();
        if Vec3::spec_total_reflection(sin_theta_i, index_i, index_r) || sample@ < spec_schlick(
            cos_theta_i,
            index_i,
            index_r,
        )@ {
            self.spec_reflect(normal)
        } else {
            let sin_theta_r = sin_theta_i.spec_mul(index_i).spec_div(index_r);
            let tan_theta_r = sin_theta_r.spec_div(
                Scalar::of(1_000_000).spec_sub(sin_theta_r.spec_square()).spec_sqrt(),
            );
            normal.spec_neg().spec_add(
                self.spec_cross(normal.spec_neg()).spec_cross(normal).spec_unit().spec_scale(
                    tan_theta_r,
                ),
            )
        }
    }

    /// `start (1 - t) + end t`.
    pub open spec fn spec_lerp(start: Vec3, end: Vec3, t: Scalar) -> Vec3 {
        start.spec_scale(Scalar::of(1_000_000).spec_sub(t)).spec_add(end.spec_scale(t))
    }

    /// `self` turned about `axis` by the angle whose half has the given
    /// cosine and sine: the vector part of `q self q*` for the quaternion
    /// `q = (half_cos, half_sin unit(axis))`.
    pub open spec fn spec_rotate(self, half_cos: Scalar, half_sin: Scalar, axis: Vec3) -> Vec3 {
        let rot = Quaternion(half_cos, axis.spec_unit().spec_scale(half_sin));
        rot.spec_mul(Quaternion(Scalar::of(0), self)).spec_mul(rot.spec_conj()).1
    }

    /// The parts of `self` along `onto` and along `along`, two directions that
    /// span a plane holding `self`.
    pub fn projections(&self, onto: &Vec3, along: &Vec3) -> (parts: (Vec3, Vec3))
        ensures
            parts == self.spec_projections(*onto, *along),
    {
        let onto_unit: Vec3 = onto.unit();
        let along_unit: Vec3 = along.unit();
        let self_parallel: Vec3 = onto_unit.scale(self.dot(&onto_unit));
        let self_perp: Vec3 = self.sub(self_parallel);
        if Vec3::orthogonal(&onto_unit, &along_unit) {
            return (self_parallel, self_perp);
        }
        let cos_phi: Scalar = onto_unit.dot(&along_unit);
        let tan_phi: Scalar = Scalar::one().sub(cos_phi.square()).sqrt().div(cos_phi);
        let shift: Scalar = self_perp.norm().div(tan_phi);
        (
            self_parallel.sub(onto_unit.scale(shift)),
            along_unit.scale(shift.square().add(self_perp.norm().square()).sqrt()),
        )
    }

    /// The direction after refraction or reflection, decided with the given
    /// sample of the unit interval.
    pub fn refract_with(
        &self,
        normal: &Vec3,
        index_i: Scalar,
        index_r: Scalar,
        sample: Scalar,
    ) -> (r: Vec3)
        ensures
            r == self.spec_refract(*normal, index_i, index_r, sample),
    {
        let self_unit: Vec3 = self.unit();
        let sin_theta_i: Scalar = self_unit.cross(normal).norm();
        let cos_theta_i: Scalar = self_unit.dot(normal).abs();
        if Vec3::total_reflection(sin_theta_i, index_i, index_r) || sample.raw < schlick(
            cos_theta_i,
            index_i,
            index_r,
        ).raw {
            return self.reflect(normal);
        }
        let sin_theta_r: Scalar = sin_theta_i.mul(index_i).div(index_r);
        let tan_theta_r: Scalar = sin_theta_r.div(
            Scalar::one().sub(sin_theta_r.square()).sqrt(),
        );
        let inward: Vec3 = normal.neg();
        inward.add(self.cross(&inward).cross(normal).unit().scale(tan_theta_r))
    }

    /// Whether light at the given sine of the angle of incidence is reflected
    /// whatever the sample.
    pub fn total_reflection(sin_theta_i: Scalar, index_i: Scalar, index_r: Scalar) -> (b: bool)
        ensures
            b == Vec3::spec_total_reflection(sin_theta_i, index_i, index_r),
    {
        index_i.raw > index_r.raw && sin_theta_i.raw > index_r.div(index_i).raw
    }

    /// The direction after refraction or reflection. A sample is drawn from
    /// `rand` unless the reflection is total; the result is that of
    /// [`Vec3::refract_with`] for some sample.
    pub fn refract(&self, normal: &Vec3, index_i: Scalar, index_r: Scalar, rand: &mut Rand) -> (r:
        Vec3)
        ensures
            exists|sample: Scalar| r == #[trigger] self.spec_refract(*normal, index_i, index_r, sample),
    {
        let sin_theta_i: Scalar = self.unit().cross(normal).norm();
        let sample: Scalar = if Vec3::total_reflection(sin_theta_i, index_i, index_r) {
            Scalar::zero()
        } else {
            rand_f64(rand)
        };
        self.refract_with(normal, index_i, index_r, sample)
    }

    /// The unit vector that three samples of the unit interval stand for.
    pub fn unit_from_samples(x: Scalar, y: Scalar, z: Scalar) -> (v: Vec3)
        ensures
            v == Vec3::spec_random_unit(x, y, z),
    {
        Vec3::new(stretch(x), stretch(y), stretch(z)).unit()
    }

    /// The unit vector in the plane of the first two axes that two samples
    /// of the unit interval stand for.
    pub fn disc_from_samples(x: Scalar, y: Scalar) -> (v: Vec3)
        ensures
            v == Vec3::spec_random_in_unit_disc(x, y),
    {
        Vec3::new(stretch(x), stretch(y), Scalar::zero()).unit()
    }

    /// A random unit vector: that of [`Vec3::unit_from_samples`] for three
    /// samples drawn from `rand`.
    pub fn random_unit(rand: &mut Rand) -> (v: Vec3)
        ensures
            exists|x: Scalar, y: Scalar, z: Scalar| v == #[trigger] Vec3::spec_random_unit(x, y, z),
    {
        let x: Scalar = rand_f64(rand);
        let y: Scalar = rand_f64(rand);
        let z: Scalar = rand_f64(rand);
        Vec3::unit_from_samples(x, y, z)
    }

    /// A random unit vector in the plane of the first two axes: that of
    /// [`Vec3::disc_from_samples`] for two samples drawn from `rand`.
    pub fn random_in_unit_disc(rand: &mut Rand) -> (v: Vec3)
        ensures
            exists|x: Scalar, y: Scalar| v == #[trigger] Vec3::spec_random_in_unit_disc(x, y),
    {
        let x: Scalar = rand_f64(rand);
        let y: Scalar = rand_f64(rand);
        Vec3::disc_from_samples(x, y)
    }

    /// Linearly interpolates between two vectors with a factor of `t`.
    pub fn lerp(start: Vec3, end: Vec3, t: Scalar) -> (r: Vec3)
        ensures
            r == Vec3::spec_lerp(start, end, t),
    {
        start.scale(Scalar::one().sub(t)).add(end.scale(t))
    }

    /// Turns the vector about `axis` by the angle whose half has cosine
    /// `half_cos` and sine `half_sin`; a half sine of zero to within the
    /// threshold leaves the vector as it is.
    pub fn rotate(&self, half_cos: Scalar, half_sin: Scalar, axis: &Vec3) -> (r: Vec3)
        ensures
            r == (if spec_f_eq(Scalar::of(0), half_sin) {
                *self
            } else {
                self.spec_rotate(half_cos, half_sin, *axis)
            }),
    {
        if f_eq(Scalar::zero(), half_sin) {
            return *self;
        }
        let rot: Quaternion = Quaternion(half_cos, axis.unit().scale(half_sin));
        let new_vec: Quaternion = rot.mul(Quaternion(Scalar::zero(), *self)).mul(rot.conj());
        new_vec.1
    }
}

/// A sample of the unit interval stretched to `-1..1`: `2 u - 1`.
pub open spec fn spec_stretch(u: Scalar) -> Scalar {
    Scalar::of(2_000_000).spec_mul(u).spec_sub(Scalar::of(1_000_000))
}

fn stretch(u: Scalar) -> (r: Scalar)
    ensures
        r == spec_stretch(u),
{
    Scalar::from_raw(2_000_000).mul(u).sub(Scalar::one())
}

/// A quaternion: a scalar part and a vector part.
#[derive(Clone, Copy, Debug)]
pub struct Quaternion(pub Scalar, pub Vec3);

impl Quaternion {
    /// The conjugate.
    pub open spec fn spec_conj(self) -> Quaternion {
        Quaternion(self.0, self.1.spec_neg())
    }

    /// The Hamilton product.
    pub open spec fn spec_mul(self, other: Quaternion) -> Quaternion {
        let a = (self.0, other.0);
        let b = ((self.1).0, (other.1).0);
        let c = ((self.1).1, (other.1).1);
        let d = ((self.1).2, (other.1).2);
        Quaternion(
            a.0.spec_mul(a.1).spec_sub(b.0.spec_mul(b.1)).spec_sub(c.0.spec_mul(c.1)).spec_sub(
                d.0.spec_mul(d.1),
            ),
            Vec3(
                a.0.spec_mul(b.1).spec_add(b.0.spec_mul(a.1)).spec_add(c.0.spec_mul(d.1)).spec_sub(
                    d.0.spec_mul(c.1),
                ),
                a.0.spec_mul(c.1).spec_sub(b.0.spec_mul(d.1)).spec_add(c.0.spec_mul(a.1)).spec_add(
                    d.0.spec_mul(b.1),
                ),
                a.0.spec_mul(d.1).spec_add(b.0.spec_mul(c.1)).spec_sub(c.0.spec_mul(b.1)).spec_add(
                    d.0.spec_mul(a.1),
                ),
            ),
        )
    }

    /// The quaternion with the given scalar and vector parts.
    pub fn new(angle: Scalar, axis: &Vec3) -> (q: Quaternion)
        ensures
            q == Quaternion(angle, *axis),
    {
        Quaternion(angle, *axis)
    }

    /// The scalar part.
    pub fn angle(&self) -> (angle: Scalar)
        ensures
            angle == self.0,
    {
        self.0
    }

    /// The vector part.
    pub fn axis(&self) -> (axis: &Vec3)
        ensures
            *axis == self.1,
    {
        &self.1
    }

    /// The Hamilton product.
    pub fn mul(self, other: Quaternion) -> (q: Quaternion)
        ensures
            q == self.spec_mul(other),
    {
        let a: (Scalar, Scalar) = (self.0, other.0);
        let b: (Scalar, Scalar) = ((self.1).0, (other.1).0);
        let c: (Scalar, Scalar) = ((self.1).1, (other.1).1);
        let d: (Scalar, Scalar) = ((self.1).2, (other.1).2);
        let w: Scalar = a.0.mul(a.1).sub(b.0.mul(b.1)).sub(c.0.mul(c.1)).sub(d.0.mul(d.1));
        let i: Scalar = a.0.mul(b.1).add(b.0.mul(a.1)).add(c.0.mul(d.1)).sub(d.0.mul(c.1));
        let j: Scalar = a.0.mul(c.1).sub(b.0.mul(d.1)).add(c.0.mul(a.1)).add(d.0.mul(b.1));
        let k: Scalar = a.0.mul(d.1).add(b.0.mul(c.1)).sub(c.0.mul(b.1)).add(d.0.mul(a.1));
        Quaternion(w, Vec3::new(i, j, k))
    }

    /// The conjugate.
    pub fn conj(&self) -> (q: Quaternion)
        ensures
            q == self.spec_conj(),
    {
        Quaternion(self.0, self.1.neg())
    }
}

impl vstd::std_specs::convert::FromSpecImpl<Vec3> for Quaternion {
    open spec fn obeys_from_spec() -> bool {
        true
    }

    open spec fn from_spec(vec: Vec3) -> Quaternion {
        Quaternion(Scalar::of(0), vec)
    }
}

impl From<Vec3> for Quaternion {
    fn from(vec: Vec3) -> (q: Quaternion) {
        Quaternion(Scalar::zero(), vec)
    }
}

impl vstd::std_specs::ops::MulSpecImpl for Quaternion {
    open spec fn obeys_mul_spec() -> bool {
        true
    }

    open spec fn mul_req(self, rhs: Quaternion) -> bool {
        true
    }

    open spec fn mul_spec(self, rhs: Quaternion) -> Quaternion {
        self.spec_mul(rhs)
    }
}

impl std::ops::Mul for Quaternion {
    type Output = Quaternion;

    fn mul(self, other: Quaternion) -> (ret: Quaternion) {
        Quaternion::mul(self, other)
    }
}

/// The greatest raw magnitude of a component of a vector for which sums of
/// products of components stay within the range of a scalar.
pub const TAME: i64 = 1_000_000_000_000;

/// Whether no component of a vector is beyond [`TAME`].
pub open spec fn spec_tame(v: Vec3) -> bool {
    &&& -TAME <= v.0@ <= TAME
    &&& -TAME <= v.1@ <= TAME
    &&& -TAME <= v.2@ <= TAME
}

/// The product of two tame scalars is the exact product divided by the
/// scale and rounded toward zero, and changes its sign with either factor.
pub proof fn lemma_mul_tame(a: Scalar, b: Scalar)
    requires
        -TAME <= a@ <= TAME,
        -TAME <= b@ <= TAME,
    ensures
        -TAME * 1_000_000 <= a.spec_mul(b)@ <= TAME * 1_000_000,
        a.spec_mul(b.spec_neg())@ == -a.spec_mul(b)@,
        a.spec_neg().spec_mul(b)@ == -a.spec_mul(b)@,
{
    let p = a@ * b@;
    assert(-TAME * TAME <= p <= TAME * TAME) by (nonlinear_arith)
        requires
            p == a@ * b@,
            -TAME <= a@ <= TAME,
            -TAME <= b@ <= TAME,
    ;
    assert(a@ * (-b@) == -p && (-a@) * b@ == -p) by (nonlinear_arith)
        requires
            p == a@ * b@,
    ;
    if p >= 0 {
        assert(0 <= p / 1_000_000 <= TAME * 1_000_000) by (nonlinear_arith)
            requires
                0 <= p <= TAME * TAME,
                TAME == 1_000_000_000_000,
        ;
    } else {
        assert(0 <= (-p) / 1_000_000 <= TAME * 1_000_000) by (nonlinear_arith)
            requires
                0 <= -p <= TAME * TAME,
                TAME == 1_000_000_000_000,
        ;
    }
}

/// The dot product with the reverse of a vector is the negated dot product,
/// for tame vectors.
pub proof fn lemma_dot_neg(d: Vec3, n: Vec3)
    requires
        spec_tame(d),
        spec_tame(n),
    ensures
        d.spec_dot(n.spec_neg())@ == -d.spec_dot(n)@,
        -3 * TAME * 1_000_000 <= d.spec_dot(n)@ <= 3 * TAME * 1_000_000,
{
    lemma_mul_tame(d.0, n.0);
    lemma_mul_tame(d.1, n.1);
    lemma_mul_tame(d.2, n.2);
}

/// The unit vector along an axis, or its reverse.
pub open spec fn spec_axis(slot: int, reversed: bool) -> Vec3 {
    let one = if reversed {
        Scalar::of(-1_000_000)
    } else {
        Scalar::of(1_000_000)
    };
    Vec3(Scalar::of(0), Scalar::of(0), Scalar::of(0)).with_nth(slot, one)
}

/// Products of a scalar of moderate size with zero, one, minus one and two
/// are exact.
pub proof fn lemma_mul_simple(x: Scalar)
    requires
        -3 * TAME <= x@ <= 3 * TAME,
    ensures
        x.spec_mul(Scalar::of(0))@ == 0,
        Scalar::of(0).spec_mul(x)@ == 0,
        x.spec_mul(Scalar::of(1_000_000))@ == x@,
        Scalar::of(1_000_000).spec_mul(x)@ == x@,
        x.spec_mul(Scalar::of(-1_000_000))@ == -x@,
        Scalar::of(-1_000_000).spec_mul(x)@ == -x@,
        Scalar::of(2_000_000).spec_mul(x)@ == 2 * x@,
{
    assert(x@ * 1_000_000 / 1_000_000 == x@) by (nonlinear_arith);
    assert((-x@) * 1_000_000 / 1_000_000 == -x@) by (nonlinear_arith);
    assert(x@ * (-1_000_000) == -(x@ * 1_000_000)) by (nonlinear_arith);
    assert((-(x@ * 1_000_000)) == (-x@) * 1_000_000) by (nonlinear_arith);
    assert((-1_000_000) * x@ == -(x@ * 1_000_000)) by (nonlinear_arith);
    assert(1_000_000 * x@ == x@ * 1_000_000) by (nonlinear_arith);
    assert(2_000_000 * x@ / 1_000_000 == 2 * x@) by (nonlinear_arith);
    assert((-(2_000_000 * x@)) == 2_000_000 * (-x@)) by (nonlinear_arith);
    assert(2_000_000 * (-x@) / 1_000_000 == 2 * (-x@)) by (nonlinear_arith);
    assert(x@ * 0 == 0 && 0 * x@ == 0) by (nonlinear_arith);
}

/// Mirrored in a plane whose normal runs along an axis, a tame vector comes
/// to lie on the other side of the plane, as far from it as before: its
/// mirror image has the negated dot product with the normal.
#[verifier::rlimit(60)]
pub proof fn lemma_reflect_about_axis(d: Vec3, slot: int, reversed: bool)
    requires
        spec_tame(d),
        0 <= slot <= 2,
    ensures
        d.spec_reflect(spec_axis(slot, reversed)).spec_dot(spec_axis(slot, reversed))@
            == -d.spec_dot(spec_axis(slot, reversed))@,
{
    let n = spec_axis(slot, reversed);
    lemma_mul_simple(d.0);
    lemma_mul_simple(d.1);
    lemma_mul_simple(d.2);
    let dn = d.spec_dot(n);
    assert(dn@ == (if reversed {
        -d.nth(slot)@
    } else {
        d.nth(slot)@
    }));
    lemma_mul_simple(dn);
    let twice = Scalar::of(2_000_000).spec_mul(dn);
    assert(twice@ == 2 * dn@);
    lemma_mul_simple(twice);
    let r = d.spec_reflect(n);
    assert(r.nth(slot)@ == -d.nth(slot)@);
    lemma_mul_simple(r.0);
    lemma_mul_simple(r.1);
    lemma_mul_simple(r.2);
}

/// One component of a vector divided by the length `n` of the vector, which
/// is at least a tenth: the magnitude `p` of the quotient, which is in
/// range, and how far `n * p` may fall short of the scaled magnitude of the
/// component.
proof fn lemma_unit_component(v: int, n: int) -> (p: int)
    requires
        -TAME <= v <= TAME,
        n >= 100_000,
    ensures
        0 <= p <= 10 * TAME,
        -n <= v <= n ==> p <= SCALE,
        v >= 0 ==> quotient(v * SCALE, n) == p,
        v < 0 ==> quotient(v * SCALE, n) == -p,
        v >= 0 ==> n * p <= SCALE * v < n * p + n,
        v < 0 ==> n * p <= SCALE * (-v) < n * p + n,
{
    let a = if v >= 0 { v } else { -v };
    let x = a * SCALE;
    let p = x / n;
    assert(0 <= x <= TAME * SCALE) by (nonlinear_arith)
        requires
            0 <= a <= TAME,
            x == a * SCALE,
    ;
    assert(v * SCALE == SCALE * v && a * SCALE == SCALE * a) by (nonlinear_arith);
    assert((-v) * SCALE == -(v * SCALE)) by (nonlinear_arith);
    assert(v > 0 ==> v * SCALE > 0) by (nonlinear_arith);
    assert(v < 0 ==> v * SCALE < 0) by (nonlinear_arith);
    assert(0 <= p && n * p <= x < n * p + n) by (nonlinear_arith)
        requires
            x >= 0,
            n > 0,
            p == x / n,
    ;
    assert(p <= 10 * a) by (nonlinear_arith)
        requires
            n * p <= a * SCALE,
            n >= 100_000,
            SCALE == 1_000_000,
            p >= 0,
            a >= 0,
    ;
    if a <= n {
        assert(p <= SCALE) by (nonlinear_arith)
            requires
                n * p <= a * SCALE,
                0 <= a <= n,
                n > 0,
                p >= 0,
        ;
    }
    p
}

/// For `0 <= x - n < y <= x`, the square of `y` falls short of that of `x`
/// by less than `2 n x`.
proof fn lemma_square_shortfall(x: int, y: int, n: int)
    requires
        0 <= y <= x < y + n,
    ensures
        y * y <= x * x,
        y * y >= x * x - 2 * (n * x),
{
    assert(y * y <= x * x) by (nonlinear_arith)
        requires
            0 <= y <= x,
    ;
    if x >= n {
        assert(y * y >= (x - n) * (x - n)) by (nonlinear_arith)
            requires
                0 <= x - n <= y,
        ;
        assert((x - n) * (x - n) == x * x - 2 * (n * x) + n * n) by (nonlinear_arith);
        assert(n * n >= 0) by (nonlinear_arith);
    } else {
        assert(x * x <= n * x) by (nonlinear_arith)
            requires
                0 <= x < n,
        ;
        assert(n * x >= 0) by (nonlinear_arith)
            requires
                0 <= x < n,
        ;
        assert(y * y >= 0) by (nonlinear_arith);
    }
}

/// The square of a product is the product of the squares.
proof fn lemma_square_of_product(a: int, b: int)
    ensures
        (a * b) * (a * b) == (a * a) * (b * b),
{
    assert((a * b) * (a * b) == (a * a) * (b * b)) by (nonlinear_arith);
}

/// The direction of a ray has length one to within three raw steps, and
/// never more than one, where the ray is made from a direction of length at
/// least one whose components are tame.
pub proof fn lemma_ray_direction_unit(origin: Point3, dir: Vec3)
    requires
        spec_tame(dir),
        dir.raw_norm_squared() >= SCALE * SCALE,
    ensures
        SCALE - 3 <= Ray::spec_new(origin, dir).dir.spec_norm()@ <= SCALE,
{
    let s = dir.raw_norm_squared();
    let m = SCALE as int;
    lemma_nearest_root_exists(s);
    let n = nearest_root(s);
    assert(dir.0@ * dir.0@ <= TAME * TAME && dir.1@ * dir.1@ <= TAME * TAME && dir.2@ * dir.2@
        <= TAME * TAME) by (nonlinear_arith)
        requires
            spec_tame(dir),
    ;
    assert(n >= m) by (nonlinear_arith)
        requires
            n > 0,
            s <= n * n + n,
            s >= m * m,
            m > 0,
    ;
    assert(n <= 2 * TAME) by (nonlinear_arith)
        requires
            n > 0,
            n * n - n < s,
            s <= 3 * (TAME * TAME),
            TAME == 1_000_000_000_000,
    ;
    let g0 = lemma_unit_component(dir.0@, n);
    let g1 = lemma_unit_component(dir.1@, n);
    let g2 = lemma_unit_component(dir.2@, n);
    let a0 = if dir.0@ >= 0 { dir.0@ } else { -dir.0@ };
    let a1 = if dir.1@ >= 0 { dir.1@ } else { -dir.1@ };
    let a2 = if dir.2@ >= 0 { dir.2@ } else { -dir.2@ };
    let unit = dir.spec_unit();
    assert(dir.spec_norm()@ == n);
    assert(unit.0@ == g0 || unit.0@ == -g0);
    assert(unit.1@ == g1 || unit.1@ == -g1);
    assert(unit.2@ == g2 || unit.2@ == -g2);
    let u = unit.raw_norm_squared();
    assert(u == g0 * g0 + g1 * g1 + g2 * g2) by (nonlinear_arith)
        requires
            u == unit.0@ * unit.0@ + unit.1@ * unit.1@ + unit.2@ * unit.2@,
            unit.0@ == g0 || unit.0@ == -g0,
            unit.1@ == g1 || unit.1@ == -g1,
            unit.2@ == g2 || unit.2@ == -g2,
    ;
    assert(s == a0 * a0 + a1 * a1 + a2 * a2) by (nonlinear_arith)
        requires
            s == dir.0@ * dir.0@ + dir.1@ * dir.1@ + dir.2@ * dir.2@,
            a0 == dir.0@ || a0 == -dir.0@,
            a1 == dir.1@ || a1 == -dir.1@,
            a2 == dir.2@ || a2 == -dir.2@,
    ;
    let x0 = m * a0;
    let x1 = m * a1;
    let x2 = m * a2;
    let y0 = n * g0;
    let y1 = n * g1;
    let y2 = n * g2;
    assert(y0 >= 0 && y1 >= 0 && y2 >= 0) by (nonlinear_arith)
        requires
            n > 0,
            g0 >= 0,
            g1 >= 0,
            g2 >= 0,
            y0 == n * g0,
            y1 == n * g1,
            y2 == n * g2,
    ;
    lemma_square_shortfall(x0, y0, n);
    lemma_square_shortfall(x1, y1, n);
    lemma_square_shortfall(x2, y2, n);
    let total = y0 * y0 + y1 * y1 + y2 * y2;
    lemma_square_of_product(n, g0);
    lemma_square_of_product(n, g1);
    lemma_square_of_product(n, g2);
    assert(total == (n * n) * u) by (nonlinear_arith)
        requires
            total == (n * n) * (g0 * g0) + (n * n) * (g1 * g1) + (n * n) * (g2 * g2),
            u == g0 * g0 + g1 * g1 + g2 * g2,
    ;
    let scaled = x0 * x0 + x1 * x1 + x2 * x2;
    lemma_square_of_product(m, a0);
    lemma_square_of_product(m, a1);
    lemma_square_of_product(m, a2);
    assert(scaled == (m * m) * s) by (nonlinear_arith)
        requires
            scaled == (m * m) * (a0 * a0) + (m * m) * (a1 * a1) + (m * m) * (a2 * a2),
            s == a0 * a0 + a1 * a1 + a2 * a2,
    ;
    let sum = a0 + a1 + a2;
    assert(n * x0 + n * x1 + n * x2 == (n * m) * sum) by (nonlinear_arith)
        requires
            x0 == m * a0,
            x1 == m * a1,
            x2 == m * a2,
            sum == a0 + a1 + a2,
    ;
    assert(sum * sum <= 3 * s) by (nonlinear_arith)
        requires
            sum == a0 + a1 + a2,
            s == a0 * a0 + a1 * a1 + a2 * a2,
    ;
    assert(sum <= 2 * (n + 1)) by (nonlinear_arith)
        requires
            sum * sum <= 3 * s,
            s <= n * n + n,
            n > 0,
            sum >= 0,
    ;
    // The squared length of the unit vector lies between m^2 - 5 m - 4 and
    // m^2 + m.
    assert((n * n) * u <= (n * n) * (m * m + m)) by (nonlinear_arith)
        requires
            (n * n) * u <= (m * m) * s,
            s <= n * n + n,
            n >= m,
            m > 0,
    ;
    assert(u <= m * m + m) by (nonlinear_arith)
        requires
            (n * n) * u <= (n * n) * (m * m + m),
            n > 0,
    ;
    assert((n * m) * sum <= (n * m) * (2 * (n + 1))) by (nonlinear_arith)
        requires
            sum <= 2 * (n + 1),
            n > 0,
            m > 0,
    ;
    assert((n * n) * u >= (n * n) * (m * m - 5 * m - 4)) by (nonlinear_arith)
        requires
            (n * n) * u >= (m * m) * s - 2 * ((n * m) * sum),
            (n * m) * sum <= (n * m) * (2 * (n + 1)),
            s >= n * n - n + 1,
            n >= m,
            m > 0,
    ;
    assert(u >= m * m - 5 * m - 4) by (nonlinear_arith)
        requires
            (n * n) * u >= (n * n) * (m * m - 5 * m - 4),
            n > 0,
    ;
    assert(u > 0);
    lemma_nearest_root_exists(u);
    let r = nearest_root(u);
    assert(r <= m) by (nonlinear_arith)
        requires
            r > 0,
            r * r - r < u,
            u <= m * m + m,
            m > 0,
    ;
    assert(r >= m - 3) by (nonlinear_arith)
        requires
            r > 0,
            u <= r * r + r,
            u >= m * m - 5 * m - 4,
            m == 1_000_000,
    ;
}

/// Whether no component of a vector is beyond one.
pub open spec fn spec_short(v: Vec3) -> bool {
    &&& -SCALE <= v.0@ <= SCALE
    &&& -SCALE <= v.1@ <= SCALE
    &&& -SCALE <= v.2@ <= SCALE
}

/// The product of a scalar within `limit` and a scalar within one lies
/// within `limit`, and falls short of the exact product by less than one raw
/// step.
proof fn lemma_mul_short(a: Scalar, b: Scalar, limit: int)
    requires
        -limit <= a@ <= limit,
        limit <= TAME,
        -SCALE <= b@ <= SCALE,
    ensures
        -limit <= a.spec_mul(b)@ <= limit,
        -SCALE < a@ * b@ - SCALE * a.spec_mul(b)@ < SCALE,
        b.spec_mul(a) == a.spec_mul(b),
{
    let p = a@ * b@;
    let m = SCALE as int;
    assert(b@ * a@ == p) by (nonlinear_arith)
        requires
            p == a@ * b@,
    ;
    assert(-limit * m <= p <= limit * m) by (nonlinear_arith)
        requires
            p == a@ * b@,
            -limit <= a@ <= limit,
            -m <= b@ <= m,
    ;
    if p >= 0 {
        let k = p / m;
        assert(0 <= k <= limit && m * k <= p < m * k + m) by (nonlinear_arith)
            requires
                0 <= p <= limit * m,
                m == 1_000_000,
                k == p / m,
        ;
    } else {
        let k = (-p) / m;
        assert(0 <= k <= limit && m * k <= -p < m * k + m) by (nonlinear_arith)
            requires
                0 <= -p <= limit * m,
                m == 1_000_000,
                k == (-p) / m,
        ;
    }
}

/// One component of the mirror image of a vector, times the same component
/// of the normal: the scaled product `s` in terms of the product `q` of the
/// components of the vector and the normal, of twice the dot product `two`,
/// and of what the three roundings `e1`, `e2`, `e3` took away.
proof fn lemma_reflect_component(
    d: int,
    n: int,
    q: int,
    two: int,
    t: int,
    s: int,
    e1: int,
    e2: int,
    e3: int,
)
    requires
        e1 == d * n - SCALE * q,
        e2 == n * two - SCALE * t,
        e3 == (d - t) * n - SCALE * s,
    ensures
        SCALE * SCALE * s == SCALE * SCALE * q + SCALE * e1 - two * (n * n) + e2 * n - SCALE * e3,
{
    let m = SCALE as int;
    assert((d - t) * n == d * n - t * n) by (nonlinear_arith);
    assert(m * s == d * n - t * n - e3);
    assert(m * (m * s) == m * (d * n) - m * (t * n) - m * e3) by (nonlinear_arith)
        requires
            m * s == d * n - t * n - e3,
    ;
    assert(m * (d * n) == m * (m * q) + m * e1) by (nonlinear_arith)
        requires
            d * n == m * q + e1,
    ;
    assert(m * (t * n) == (m * t) * n) by (nonlinear_arith);
    assert((m * t) * n == (n * two) * n - e2 * n) by (nonlinear_arith)
        requires
            m * t == n * two - e2,
    ;
    assert((n * two) * n == two * (n * n)) by (nonlinear_arith);
    assert(m * (m * s) == m * m * s && m * (m * q) == m * m * q) by (nonlinear_arith);
}

/// Mirrored in a plane with a normal of length one to within three raw
/// steps, a vector with no component beyond one comes to lie on the other
/// side of the plane, as far from it as before: the dot product of its
/// mirror image with the normal is the negated dot product of the vector
/// with the normal, to within the threshold. So the mirror image of a
/// vector that points into the plane by more than the threshold points out
/// of it, on the side of the reversed vector.
pub proof fn lemma_reflect_reverses(d: Vec3, n: Vec3)
    requires
        spec_short(d),
        spec_short(n),
        SCALE - 3 <= n.spec_norm()@ <= SCALE + 3,
    ensures
        spec_f_eq(d.spec_reflect(n).spec_dot(n), d.spec_dot(n).spec_neg()),
        d.spec_dot(n)@ < -THRESHOLD ==> d.spec_reflect(n).spec_dot(n)@ > 0,
        d.spec_dot(n)@ > THRESHOLD ==> d.spec_reflect(n).spec_dot(n)@ < 0,
{
    let m = SCALE as int;
    let nn = n.raw_norm_squared();
    assert(nn > 0);
    lemma_nearest_root_exists(nn);
    let root = nearest_root(nn);
    assert(m - 3 <= root <= m + 3);
    assert(m * m - 7 * m <= nn <= m * m + 7 * m + 12) by (nonlinear_arith)
        requires
            m - 3 <= root <= m + 3,
            root * root - root < nn <= root * root + root,
            m == 1_000_000,
    ;
    lemma_mul_short(d.0, n.0, m);
    lemma_mul_short(d.1, n.1, m);
    lemma_mul_short(d.2, n.2, m);
    let q0 = d.0.spec_mul(n.0)@;
    let q1 = d.1.spec_mul(n.1)@;
    let q2 = d.2.spec_mul(n.2)@;
    let dn = d.spec_dot(n);
    assert(dn@ == q0 + q1 + q2);
    lemma_mul_simple(dn);
    let twice = Scalar::of(2_000_000).spec_mul(dn);
    let two = twice@;
    assert(two == 2 * dn@);
    lemma_mul_short(twice, n.0, 6 * m);
    lemma_mul_short(twice, n.1, 6 * m);
    lemma_mul_short(twice, n.2, 6 * m);
    let t0 = n.0.spec_mul(twice)@;
    let t1 = n.1.spec_mul(twice)@;
    let t2 = n.2.spec_mul(twice)@;
    let r = d.spec_reflect(n);
    assert(r.0@ == d.0@ - t0 && r.1@ == d.1@ - t1 && r.2@ == d.2@ - t2);
    lemma_mul_short(r.0, n.0, 7 * m);
    lemma_mul_short(r.1, n.1, 7 * m);
    lemma_mul_short(r.2, n.2, 7 * m);
    let s0 = r.0.spec_mul(n.0)@;
    let s1 = r.1.spec_mul(n.1)@;
    let s2 = r.2.spec_mul(n.2)@;
    let rn = r.spec_dot(n);
    assert(rn@ == s0 + s1 + s2);
    let e10 = d.0@ * n.0@ - m * q0;
    let e11 = d.1@ * n.1@ - m * q1;
    let e12 = d.2@ * n.2@ - m * q2;
    let e20 = n.0@ * two - m * t0;
    let e21 = n.1@ * two - m * t1;
    let e22 = n.2@ * two - m * t2;
    let e30 = (d.0@ - t0) * n.0@ - m * s0;
    let e31 = (d.1@ - t1) * n.1@ - m * s1;
    let e32 = (d.2@ - t2) * n.2@ - m * s2;
    assert(two * n.0@ == n.0@ * two && two * n.1@ == n.1@ * two && two * n.2@ == n.2@ * two)
        by (nonlinear_arith);
    lemma_reflect_component(d.0@, n.0@, q0, two, t0, s0, e10, e20, e30);
    lemma_reflect_component(d.1@, n.1@, q1, two, t1, s1, e11, e21, e31);
    lemma_reflect_component(d.2@, n.2@, q2, two, t2, s2, e12, e22, e32);
    let both = rn@ + dn@;
    let first = e10 + e11 + e12;
    let third = e30 + e31 + e32;
    let second = e20 * n.0@ + e21 * n.1@ + e22 * n.2@;
    assert(two * (n.0@ * n.0@) + two * (n.1@ * n.1@) + two * (n.2@ * n.2@) == two * nn)
        by (nonlinear_arith)
        requires
            nn == n.0@ * n.0@ + n.1@ * n.1@ + n.2@ * n.2@,
    ;
    let mm = m * m;
    assert(mm * both == mm * s0 + mm * s1 + mm * s2 + mm * q0 + mm * q1 + mm * q2)
        by (nonlinear_arith)
        requires
            both == s0 + s1 + s2 + (q0 + q1 + q2),
    ;
    assert(two * (mm - nn) == 2 * (mm * q0) + 2 * (mm * q1) + 2 * (mm * q2) - two * nn)
        by (nonlinear_arith)
        requires
            two == 2 * (q0 + q1 + q2),
    ;
    assert(m * (first - third) == m * e10 + m * e11 + m * e12 - m * e30 - m * e31 - m * e32)
        by (nonlinear_arith)
        requires
            first == e10 + e11 + e12,
            third == e30 + e31 + e32,
    ;
    assert(mm * both == two * (mm - nn) + m * (first - third) + second);
    assert(-6 * m * (7 * m + 12) <= two * (mm - nn) <= 6 * m * (7 * m + 12))
        by (nonlinear_arith)
        requires
            -6 * m <= two <= 6 * m,
            -(7 * m + 12) <= mm - nn <= 7 * m + 12,
            m > 0,
    ;
    assert(-6 * m * m <= m * (first - third) <= 6 * m * m) by (nonlinear_arith)
        requires
            -6 * m <= first - third <= 6 * m,
            m > 0,
    ;
    assert(-m * m <= e20 * n.0@ <= m * m && -m * m <= e21 * n.1@ <= m * m && -m * m <= e22
        * n.2@ <= m * m) by (nonlinear_arith)
        requires
            -m < e20 < m,
            -m < e21 < m,
            -m < e22 < m,
            -m <= n.0@ <= m,
            -m <= n.1@ <= m,
            -m <= n.2@ <= m,
    ;
    assert(-100 <= both <= 100) by (nonlinear_arith)
        requires
            -52 * mm <= mm * both <= 52 * mm,
            mm == 1_000_000_000_000,
    ;
}

/// Light that meets a surface along its normal, between two media of the
/// same index, goes straight on where it is not reflected: for any normal
/// and a sample not below the Schlick reflectance, the refracted direction
/// of the reversed normal is the reversed normal.
pub proof fn lemma_refract_along_normal(normal: Vec3, index: Scalar, sample: Scalar)
    requires
        sample@ >= spec_schlick(
            normal.spec_neg().spec_unit().spec_dot(normal).spec_abs(),
            index,
            index,
        )@,
    ensures
        normal.spec_neg().spec_refract(normal, index, index, sample) == normal.spec_neg(),
{
    let d = normal.spec_neg();
    let zero = Vec3(Scalar::of(0), Scalar::of(0), Scalar::of(0));
    assert(d.0@ * d.1@ == d.1@ * d.0@ && d.1@ * d.2@ == d.2@ * d.1@ && d.2@ * d.0@ == d.0@
        * d.2@) by (nonlinear_arith);
    assert(d.spec_cross(d) == zero);
    assert(0 * normal.0@ == 0 && 0 * normal.1@ == 0 && 0 * normal.2@ == 0) by (nonlinear_arith);
    assert(zero.spec_cross(normal) == zero);
    assert(zero.raw_norm_squared() == 0);
    assert(zero.spec_norm()@ == 0);
    assert(zero.spec_unit() == zero);
    let self_unit = d.spec_unit();
    let sin_theta_i = self_unit.spec_cross(normal).spec_norm();
    let sin_theta_r = sin_theta_i.spec_mul(index).spec_div(index);
    let tan_theta_r = sin_theta_r.spec_div(
        Scalar::of(1_000_000).spec_sub(sin_theta_r.spec_square()).spec_sqrt(),
    );
    assert(0 * tan_theta_r@ == 0) by (nonlinear_arith);
    assert(zero.spec_scale(tan_theta_r) == zero);
    assert(d.spec_add(zero) == d);
    assert(!Vec3::spec_total_reflection(sin_theta_i, index, index));
}

/// Normalizing a vector keeps the side of a plane that it points to, to
/// within the threshold: for a direction `d` with no component beyond one
/// and a tame vector `n` of length at least a tenth, the unit vector of `n`
/// has no component beyond one, and its dot product with `d` exceeds zero by
/// no more than 36 raw steps where that of `n` is negative, and falls below
/// zero by no more where that of `n` is not.
pub proof fn lemma_unit_keeps_side(d: Vec3, n: Vec3)
    requires
        spec_short(d),
        spec_tame(n),
        n.raw_norm_squared() >= 10_000_000_000,
    ensures
        spec_short(n.spec_unit()),
        d.spec_dot(n)@ < 0 ==> d.spec_dot(n.spec_unit())@ <= 36,
        d.spec_dot(n)@ >= 0 ==> d.spec_dot(n.spec_unit())@ >= -36,
{
    let m = SCALE as int;
    let s = n.raw_norm_squared();
    lemma_nearest_root_exists(s);
    let root = nearest_root(s);
    assert(n.0@ * n.0@ <= TAME * TAME && n.1@ * n.1@ <= TAME * TAME && n.2@ * n.2@ <= TAME
        * TAME) by (nonlinear_arith)
        requires
            spec_tame(n),
    ;
    assert(n.0@ * n.0@ >= 0 && n.1@ * n.1@ >= 0 && n.2@ * n.2@ >= 0) by (nonlinear_arith);
    assert(root >= 100_000) by (nonlinear_arith)
        requires
            root > 0,
            s <= root * root + root,
            s >= 10_000_000_000,
    ;
    assert(root <= 2 * TAME) by (nonlinear_arith)
        requires
            root > 0,
            root * root - root < s,
            s <= 3 * (TAME * TAME),
            TAME == 1_000_000_000_000,
    ;
    assert(-root <= n.0@ <= root) by (nonlinear_arith)
        requires
            n.0@ * n.0@ <= root * root + root,
            root > 0,
    ;
    assert(-root <= n.1@ <= root) by (nonlinear_arith)
        requires
            n.1@ * n.1@ <= root * root + root,
            root > 0,
    ;
    assert(-root <= n.2@ <= root) by (nonlinear_arith)
        requires
            n.2@ * n.2@ <= root * root + root,
            root > 0,
    ;
    let g0 = lemma_unit_component(n.0@, root);
    let g1 = lemma_unit_component(n.1@, root);
    let g2 = lemma_unit_component(n.2@, root);
    let unit = n.spec_unit();
    assert(n.spec_norm()@ == root);
    let u0 = unit.0@;
    let u1 = unit.1@;
    let u2 = unit.2@;
    assert(u0 == (if n.0@ >= 0 { g0 } else { -g0 }));
    assert(u1 == (if n.1@ >= 0 { g1 } else { -g1 }));
    assert(u2 == (if n.2@ >= 0 { g2 } else { -g2 }));
    assert(spec_short(unit));
    // What normalizing took away from each component.
    let e0 = m * n.0@ - root * u0;
    let e1 = m * n.1@ - root * u1;
    let e2 = m * n.2@ - root * u2;
    assert(-root < e0 < root && -root < e1 < root && -root < e2 < root) by (nonlinear_arith)
        requires
            e0 == m * n.0@ - root * u0,
            e1 == m * n.1@ - root * u1,
            e2 == m * n.2@ - root * u2,
            u0 == (if n.0@ >= 0 { g0 } else { -g0 }),
            u1 == (if n.1@ >= 0 { g1 } else { -g1 }),
            u2 == (if n.2@ >= 0 { g2 } else { -g2 }),
            n.0@ >= 0 ==> root * g0 <= m * n.0@ < root * g0 + root,
            n.0@ < 0 ==> root * g0 <= m * (-n.0@) < root * g0 + root,
            n.1@ >= 0 ==> root * g1 <= m * n.1@ < root * g1 + root,
            n.1@ < 0 ==> root * g1 <= m * (-n.1@) < root * g1 + root,
            n.2@ >= 0 ==> root * g2 <= m * n.2@ < root * g2 + root,
            n.2@ < 0 ==> root * g2 <= m * (-n.2@) < root * g2 + root,
    ;
    lemma_mul_short(n.0, d.0, TAME as int);
    lemma_mul_short(n.1, d.1, TAME as int);
    lemma_mul_short(n.2, d.2, TAME as int);
    lemma_mul_short(unit.0, d.0, m);
    lemma_mul_short(unit.1, d.1, m);
    lemma_mul_short(unit.2, d.2, m);
    let q0 = d.0.spec_mul(n.0)@;
    let q1 = d.1.spec_mul(n.1)@;
    let q2 = d.2.spec_mul(n.2)@;
    let w0 = d.0.spec_mul(unit.0)@;
    let w1 = d.1.spec_mul(unit.1)@;
    let w2 = d.2.spec_mul(unit.2)@;
    let dn = d.spec_dot(n)@;
    let du = d.spec_dot(unit)@;
    assert(dn == q0 + q1 + q2);
    assert(du == w0 + w1 + w2);
    // The exact products of the components, named.
    let nd0 = n.0@ * d.0@;
    let nd1 = n.1@ * d.1@;
    let nd2 = n.2@ * d.2@;
    let ud0 = u0 * d.0@;
    let ud1 = u1 * d.1@;
    let ud2 = u2 * d.2@;
    let ed0 = e0 * d.0@;
    let ed1 = e1 * d.1@;
    let ed2 = e2 * d.2@;
    assert(root * ud0 == m * nd0 - ed0) by (nonlinear_arith)
        requires
            e0 == m * n.0@ - root * u0,
            ud0 == u0 * d.0@,
            nd0 == n.0@ * d.0@,
            ed0 == e0 * d.0@,
    ;
    assert(root * ud1 == m * nd1 - ed1) by (nonlinear_arith)
        requires
            e1 == m * n.1@ - root * u1,
            ud1 == u1 * d.1@,
            nd1 == n.1@ * d.1@,
            ed1 == e1 * d.1@,
    ;
    assert(root * ud2 == m * nd2 - ed2) by (nonlinear_arith)
        requires
            e2 == m * n.2@ - root * u2,
            ud2 == u2 * d.2@,
            nd2 == n.2@ * d.2@,
            ed2 == e2 * d.2@,
    ;
    assert(-root * m <= ed0 <= root * m && -root * m <= ed1 <= root * m && -root * m <= ed2
        <= root * m) by (nonlinear_arith)
        requires
            ed0 == e0 * d.0@,
            ed1 == e1 * d.1@,
            ed2 == e2 * d.2@,
            -root < e0 < root,
            -root < e1 < root,
            -root < e2 < root,
            -m <= d.0@ <= m,
            -m <= d.1@ <= m,
            -m <= d.2@ <= m,
    ;
    let exact = nd0 + nd1 + nd2;
    let turned = ud0 + ud1 + ud2;
    assert(-3 * m < exact - m * dn < 3 * m);
    assert(-3 * m < turned - m * du < 3 * m);
    assert(root * turned == root * ud0 + root * ud1 + root * ud2) by (nonlinear_arith)
        requires
            turned == ud0 + ud1 + ud2,
    ;
    assert(m * exact == m * nd0 + m * nd1 + m * nd2) by (nonlinear_arith)
        requires
            exact == nd0 + nd1 + nd2,
    ;
    let rm = root * m;
    assert(-3 * rm <= root * turned - m * exact <= 3 * rm);
    assert(m * m <= 10 * rm) by (nonlinear_arith)
        requires
            rm == root * m,
            root >= 100_000,
            m == 1_000_000,
    ;
    assert(-3 * rm < root * turned - rm * du < 3 * rm) by (nonlinear_arith)
        requires
            -3 * m < turned - m * du < 3 * m,
            rm == root * m,
            root > 0,
    ;
    assert(-3 * (m * m) < m * exact - (m * m) * dn < 3 * (m * m)) by (nonlinear_arith)
        requires
            -3 * m < exact - m * dn < 3 * m,
            m > 0,
    ;
    if dn < 0 {
        assert((m * m) * dn <= -(m * m)) by (nonlinear_arith)
            requires
                dn <= -1,
                m > 0,
        ;
        assert(rm * du < 26 * rm);
        assert(du < 26) by (nonlinear_arith)
            requires
                rm * du < 26 * rm,
                rm > 0,
        ;
    } else {
        assert((m * m) * dn >= 0) by (nonlinear_arith)
            requires
                dn >= 0,
                m > 0,
        ;
        assert(rm * du > -36 * rm);
        assert(du > -36) by (nonlinear_arith)
            requires
                rm * du > -36 * rm,
                rm > 0,
        ;
    }
}

/// One component of a vector divided by the length `n` of the vector: the
/// magnitude `g` of the quotient, which is at most one, and how far `n * g`
/// may fall short of the scaled magnitude of the component.
proof fn lemma_unit_part(v: int, n: int) -> (g: int)
    requires
        n >= 1,
        -n <= v <= n,
        -TAME <= v <= TAME,
    ensures
        0 <= g <= SCALE,
        v >= 0 ==> quotient(v * SCALE, n) == g,
        v < 0 ==> quotient(v * SCALE, n) == -g,
        v >= 0 ==> n * g <= SCALE * v < n * g + n,
        v < 0 ==> n * g <= SCALE * (-v) < n * g + n,
{
    let a = if v >= 0 { v } else { -v };
    let x = a * SCALE;
    let g = x / n;
    assert(0 <= x) by (nonlinear_arith)
        requires
            0 <= a,
            x == a * SCALE,
    ;
    assert(v * SCALE == SCALE * v && a * SCALE == SCALE * a) by (nonlinear_arith);
    assert((-v) * SCALE == -(v * SCALE)) by (nonlinear_arith);
    assert(v > 0 ==> v * SCALE > 0) by (nonlinear_arith);
    assert(v < 0 ==> v * SCALE < 0) by (nonlinear_arith);
    assert(0 <= g && n * g <= x < n * g + n) by (nonlinear_arith)
        requires
            x >= 0,
            n > 0,
            g == x / n,
    ;
    assert(g <= SCALE) by (nonlinear_arith)
        requires
            n * g <= a * SCALE,
            0 <= a <= n,
            n > 0,
            g >= 0,
    ;
    g
}

/// The unit vector of a tame vector longer than the threshold has length
/// one to within one raw step over the length of the vector and nine raw
/// steps: with `n` the raw length of the vector and `r` that of its unit
/// vector, `2 n (r - 1) <= 1 + 2 n` and `n (1 - r) <= 1 + 9 n`, lengths
/// taken in units.
pub proof fn lemma_unit_length(v: Vec3)
    requires
        spec_tame(v),
        v.spec_norm()@ > THRESHOLD,
    ensures
        2 * v.spec_norm()@ * (v.spec_unit().spec_norm()@ - SCALE) <= SCALE + 2 * v.spec_norm()@,
        v.spec_norm()@ * (SCALE - v.spec_unit().spec_norm()@) <= SCALE + 9 * v.spec_norm()@,
{
    let s = v.raw_norm_squared();
    let m = SCALE as int;
    assert(s > 0);
    lemma_nearest_root_exists(s);
    let n = nearest_root(s);
    assert(v.0@ * v.0@ <= TAME * TAME && v.1@ * v.1@ <= TAME * TAME && v.2@ * v.2@ <= TAME * TAME)
        by (nonlinear_arith)
        requires
            spec_tame(v),
    ;
    assert(v.0@ * v.0@ >= 0 && v.1@ * v.1@ >= 0 && v.2@ * v.2@ >= 0) by (nonlinear_arith);
    assert(n <= 2 * TAME) by (nonlinear_arith)
        requires
            n > 0,
            n * n - n < s,
            s <= 3 * (TAME * TAME),
            TAME == 1_000_000_000_000,
    ;
    assert(v.spec_norm()@ == n);
    assert(-n <= v.0@ <= n) by (nonlinear_arith)
        requires
            v.0@ * v.0@ <= n * n + n,
            n > 0,
    ;
    assert(-n <= v.1@ <= n) by (nonlinear_arith)
        requires
            v.1@ * v.1@ <= n * n + n,
            n > 0,
    ;
    assert(-n <= v.2@ <= n) by (nonlinear_arith)
        requires
            v.2@ * v.2@ <= n * n + n,
            n > 0,
    ;
    let g0 = lemma_unit_part(v.0@, n);
    let g1 = lemma_unit_part(v.1@, n);
    let g2 = lemma_unit_part(v.2@, n);
    let a0 = if v.0@ >= 0 { v.0@ } else { -v.0@ };
    let a1 = if v.1@ >= 0 { v.1@ } else { -v.1@ };
    let a2 = if v.2@ >= 0 { v.2@ } else { -v.2@ };
    let unit = v.spec_unit();
    assert(unit.0@ == g0 || unit.0@ == -g0);
    assert(unit.1@ == g1 || unit.1@ == -g1);
    assert(unit.2@ == g2 || unit.2@ == -g2);
    let u = unit.raw_norm_squared();
    assert(u == g0 * g0 + g1 * g1 + g2 * g2) by (nonlinear_arith)
        requires
            u == unit.0@ * unit.0@ + unit.1@ * unit.1@ + unit.2@ * unit.2@,
            unit.0@ == g0 || unit.0@ == -g0,
            unit.1@ == g1 || unit.1@ == -g1,
            unit.2@ == g2 || unit.2@ == -g2,
    ;
    assert(s == a0 * a0 + a1 * a1 + a2 * a2) by (nonlinear_arith)
        requires
            s == v.0@ * v.0@ + v.1@ * v.1@ + v.2@ * v.2@,
            a0 == v.0@ || a0 == -v.0@,
            a1 == v.1@ || a1 == -v.1@,
            a2 == v.2@ || a2 == -v.2@,
    ;
    let x0 = m * a0;
    let x1 = m * a1;
    let x2 = m * a2;
    let y0 = n * g0;
    let y1 = n * g1;
    let y2 = n * g2;
    assert(y0 >= 0 && y1 >= 0 && y2 >= 0) by (nonlinear_arith)
        requires
            n > 0,
            g0 >= 0,
            g1 >= 0,
            g2 >= 0,
            y0 == n * g0,
            y1 == n * g1,
            y2 == n * g2,
    ;
    lemma_square_shortfall(x0, y0, n);
    lemma_square_shortfall(x1, y1, n);
    lemma_square_shortfall(x2, y2, n);
    let total = y0 * y0 + y1 * y1 + y2 * y2;
    lemma_square_of_product(n, g0);
    lemma_square_of_product(n, g1);
    lemma_square_of_product(n, g2);
    let nn = n * n;
    let mm = m * m;
    assert(total == nn * u) by (nonlinear_arith)
        requires
            total == (n * n) * (g0 * g0) + (n * n) * (g1 * g1) + (n * n) * (g2 * g2),
            u == g0 * g0 + g1 * g1 + g2 * g2,
            nn == n * n,
    ;
    let scaled = x0 * x0 + x1 * x1 + x2 * x2;
    lemma_square_of_product(m, a0);
    lemma_square_of_product(m, a1);
    lemma_square_of_product(m, a2);
    assert(scaled == mm * s) by (nonlinear_arith)
        requires
            scaled == (m * m) * (a0 * a0) + (m * m) * (a1 * a1) + (m * m) * (a2 * a2),
            s == a0 * a0 + a1 * a1 + a2 * a2,
            mm == m * m,
    ;
    let sum = a0 + a1 + a2;
    let nm = n * m;
    assert(n * x0 + n * x1 + n * x2 == nm * sum) by (nonlinear_arith)
        requires
            x0 == m * a0,
            x1 == m * a1,
            x2 == m * a2,
            sum == a0 + a1 + a2,
            nm == n * m,
    ;
    assert(sum * sum <= 3 * s) by (nonlinear_arith)
        requires
            sum == a0 + a1 + a2,
            s == a0 * a0 + a1 * a1 + a2 * a2,
    ;
    assert(sum <= 2 * (n + 1)) by (nonlinear_arith)
        requires
            sum * sum <= 3 * s,
            s <= n * n + n,
            n > 0,
            sum >= 0,
    ;
    // n u lies between n m^2 - m^2 - 8 m n and n m^2 + m^2.
    assert(nn * u <= mm * s);
    assert(mm * s <= n * (n * mm + mm)) by (nonlinear_arith)
        requires
            s <= n * n + n,
            mm >= 0,
    ;
    assert(n * u <= n * mm + mm) by (nonlinear_arith)
        requires
            nn * u <= n * (n * mm + mm),
            nn == n * n,
            n > 0,
    ;
    assert(nm * sum <= nm * (4 * n)) by (nonlinear_arith)
        requires
            sum <= 2 * (n + 1),
            n >= 1,
            nm == n * m,
            m > 0,
    ;
    assert(mm * s >= mm * (n * n - n)) by (nonlinear_arith)
        requires
            s >= n * n - n,
            mm >= 0,
    ;
    assert(nn * u >= n * (n * mm - mm - 8 * nm)) by (nonlinear_arith)
        requires
            nn * u >= mm * s - 2 * (nm * sum),
            nm * sum <= nm * (4 * n),
            mm * s >= mm * (n * n - n),
            nn == n * n,
    ;
    assert(n * u >= n * mm - mm - 8 * nm) by (nonlinear_arith)
        requires
            nn * u >= n * (n * mm - mm - 8 * nm),
            nn == n * n,
            n > 0,
    ;
    assert(u > 0) by (nonlinear_arith)
        requires
            n * u >= n * mm - mm - 8 * nm,
            mm == m * m,
            nm == n * m,
            m == 1_000_000,
            n > 100,
    ;
    lemma_nearest_root_exists(u);
    let r = nearest_root(u);
    assert(r <= 2 * m) by (nonlinear_arith)
        requires
            r > 0,
            r * r - r < u,
            n * u <= n * mm + mm,
            mm == m * m,
            m == 1_000_000,
            n > 100,
    ;
    assert(unit.spec_norm()@ == r);
    let d = r - m;
    if 2 * (n * d) > m + 2 * n {
        assert(d >= 1) by (nonlinear_arith)
            requires
                2 * (n * d) > m + 2 * n,
                m > 0,
                n > 0,
        ;
        assert(n * (r * r - r) >= n * mm + mm) by (nonlinear_arith)
            requires
                r == m + d,
                d >= 1,
                2 * (n * d) > m + 2 * n,
                mm == m * m,
                m > 0,
                n > 0,
        ;
        assert(n * (r * r - r) < n * u) by (nonlinear_arith)
            requires
                r * r - r < u,
                n > 0,
        ;
        assert(false);
    }
    let j = m - r;
    if n * j > m + 9 * n {
        assert(j >= 1) by (nonlinear_arith)
            requires
                n * j > m + 9 * n,
                m > 0,
                n > 0,
        ;
        assert(n * (r * r + r) < n * mm - mm - 8 * nm) by (nonlinear_arith)
            requires
                r == m - j,
                r > 0,
                j >= 1,
                n * j > m + 9 * n,
                mm == m * m,
                nm == n * m,
                m > 0,
                n > 0,
        ;
        assert(n * u <= n * (r * r + r)) by (nonlinear_arith)
            requires
                u <= r * r + r,
                n > 0,
        ;
        assert(false);
    }
    assert(2 * n * d == 2 * (n * d)) by (nonlinear_arith);
}

} // verus!
