//! Fixed-point numbers and the small numerical helpers the renderer is built on.
//!
//! Every quantity of the renderer (a coordinate, a ray parameter, a colour
//! channel) is a [`Scalar`]: a signed count of millionths. Arithmetic is
//! carried out exactly on wide integers, rounded toward zero where a quotient
//! is taken, and then clamped to the 64-bit range, whose two ends play the
//! part of the infinities.
use rand::distributions::{Distribution, Uniform};
use rand::rngs::ThreadRng;
use vstd::prelude::*;

verus! {

/// A source of random scalars: a uniform distribution of `rand` over raw
/// scalars and the thread-local generator of `rand` that it draws from. The
/// distribution ranges over part of the unit interval without its upper
/// end, `0 <= raw < SCALE`: it is made by [`Rand::new`] or
/// [`Rand::within`] alone. Nothing else is known of it, nor of the state of
/// the generator.
#[verifier::external_body]
pub struct Rand {
    dist: Uniform<i64>,
    rng: ThreadRng,
}

/// Makes a source that draws from `low <= raw < high`: one call of
/// `Uniform::new` of `rand`, which asks that `low` be below `high`, beside
/// `thread_rng` for the generator.
#[verifier::external_body]
fn uniform(low: i64, high: i64) -> (source: Rand)
    requires
        0 <= low < high <= SCALE,
{
    Rand { dist: Uniform::new(low, high), rng: rand::thread_rng() }
}

impl Rand {
    /// A source of scalars of the unit interval without its upper end.
    pub fn new() -> (source: Rand) {
        uniform(0, SCALE)
    }

    /// A source of scalars from `low` up to `high`, without `high`: a part
    /// of the unit interval.
    pub fn within(low: Scalar, high: Scalar) -> (source: Rand)
        requires
            0 <= low@ < high@ <= SCALE,
    {
        uniform(low.raw, high.raw)
    }
}

/// Draws a random scalar: one call of `Distribution::sample` on the
/// distribution of `rand` with its generator, whose result is taken as a raw
/// scalar. The sample lies in the range that the distribution was made
/// with, a part of the unit interval without its upper end; which scalar of
/// it comes depends on chance.
#[verifier::external_body]
pub fn rand_f64(rand: &mut Rand) -> (sample: Scalar)
    ensures
        0 <= sample@ < SCALE,
{
    Scalar { raw: rand.dist.sample(&mut rand.rng) }
}

/// The number of raw steps in one unit.
pub const SCALE: i64 = 1_000_000;

/// Two scalars this many raw steps apart or closer count as equal (`0.0001`).
pub const THRESHOLD: i64 = 100;

/// Clamps a mathematical integer to the range of a raw scalar.
pub open spec fn saturate(x: int) -> int {
    if x < i64::MIN as int {
        i64::MIN as int
    } else if x > i64::MAX as int {
        i64::MAX as int
    } else {
        x
    }
}

/// The quotient of `x` by `d`, rounded toward zero; `0` where `d` is `0`.
pub open spec fn quotient(x: int, d: int) -> int {
    if d == 0 {
        0
    } else if x >= 0 && d > 0 {
        x / d
    } else if x >= 0 {
        -(x / (-d))
    } else if d > 0 {
        -((-x) / d)
    } else {
        (-x) / (-d)
    }
}

/// Whether `r` is the non-negative integer nearest to the square root of the
/// positive integer `n`.
pub open spec fn is_nearest_root(n: int, r: int) -> bool {
    r > 0 && r * r - r < n && n <= r * r + r
}

/// The integer nearest to the square root of `n`; `0` for `n <= 0`.
pub open spec fn nearest_root(n: int) -> int {
    if n <= 0 {
        0
    } else {
        choose|r: int| is_nearest_root(n, r)
    }
}

/// Every positive integer has a nearest root.
pub proof fn lemma_nearest_root_exists(n: int)
    requires
        n > 0,
    ensures
        is_nearest_root(n, nearest_root(n)),
    decreases n,
{
    if n == 1 {
        assert(is_nearest_root(1, 1));
    } else {
        lemma_nearest_root_exists(n - 1);
        let r = nearest_root(n - 1);
        if n <= r * r + r {
            assert(is_nearest_root(n, r));
        } else {
            assert(is_nearest_root(n, r + 1)) by (nonlinear_arith)
                requires
                    r > 0,
                    n == r * r + r + 1,
            ;
        }
    }
}

/// At most one integer is the nearest root of `n`.
pub proof fn lemma_nearest_root_unique(n: int, r1: int, r2: int)
    requires
        is_nearest_root(n, r1),
        is_nearest_root(n, r2),
    ensures
        r1 == r2,
{
    if r1 < r2 {
        assert(r2 * r2 - r2 >= r1 * r1 + r1) by (nonlinear_arith)
            requires
                0 < r1,
                r1 + 1 <= r2,
        ;
    } else if r2 < r1 {
        assert(r1 * r1 - r1 >= r2 * r2 + r2) by (nonlinear_arith)
            requires
                0 < r2,
                r2 + 1 <= r1,
        ;
    }
}

/// A fixed-point number: `raw` millionths.
#[derive(Clone, Copy, Debug, PartialEq, Eq, Structural)]
pub struct Scalar {
    pub raw: i64,
}

impl View for Scalar {
    type V = int;

    open spec fn view(&self) -> int {
        self.raw as int
    }
}

impl Scalar {
    /// The scalar with the given raw count, clamped to the raw range.
    pub open spec fn of(x: int) -> Scalar {
        Scalar { raw: saturate(x) as i64 }
    }

    /// The sum.
    pub open spec fn spec_add(self, rhs: Scalar) -> Scalar {
        Scalar::of(self@ + rhs@)
    }

    /// The difference.
    pub open spec fn spec_sub(self, rhs: Scalar) -> Scalar {
        Scalar::of(self@ - rhs@)
    }

    /// The negation.
    pub open spec fn spec_neg(self) -> Scalar {
        Scalar::of(-self@)
    }

    /// The product, rounded toward zero.
    pub open spec fn spec_mul(self, rhs: Scalar) -> Scalar {
        Scalar::of(quotient(self@ * rhs@, SCALE as int))
    }

    /// Division; a zero divisor gives the infinity of the dividend's sign, and
    /// zero for a zero dividend.
    pub open spec fn spec_div(self, rhs: Scalar) -> Scalar {
        if rhs@ == 0 {
            if self@ > 0 {
                Scalar::of(i64::MAX as int)
            } else if self@ < 0 {
                Scalar::of(i64::MIN as int)
            } else {
                Scalar::of(0)
            }
        } else {
            Scalar::of(quotient(self@ * SCALE, rhs@))
        }
    }

    /// The square root, rounded to the nearest raw step; zero for a negative
    /// scalar.
    pub open spec fn spec_sqrt(self) -> Scalar {
        Scalar::of(nearest_root(self@ * SCALE))
    }

    /// The magnitude.
    pub open spec fn spec_abs(self) -> Scalar {
        if self@ < 0 {
            self.spec_neg()
        } else {
            self
        }
    }

    /// The lesser of the two.
    pub open spec fn spec_min(self, rhs: Scalar) -> Scalar {
        if rhs@ < self@ {
            rhs
        } else {
            self
        }
    }

    /// The greater of the two.
    pub open spec fn spec_max(self, rhs: Scalar) -> Scalar {
        if rhs@ > self@ {
            rhs
        } else {
            self
        }
    }

    /// The whole part, rounded toward zero.
    pub open spec fn spec_trunc(self) -> int {
        quotient(self@, SCALE as int)
    }

    /// The square.
    pub open spec fn spec_square(self) -> Scalar {
        self.spec_mul(self)
    }

    /// The scalar of the given number of millionths.
    pub fn from_raw(raw: i64) -> (r: Scalar)
        ensures
            r@ == raw,
    {
        Scalar { raw }
    }

    /// The scalar that stands for the whole number `units`.
    pub fn from_int(units: i64) -> (r: Scalar)
        ensures
            r == Scalar::of(units * SCALE),
    {
        assert(-0x8000_0000_0000_0000 * 1_000_000 <= units * SCALE <= 0x8000_0000_0000_0000
            * 1_000_000) by (nonlinear_arith)
            requires
                -0x8000_0000_0000_0000 <= units < 0x8000_0000_0000_0000,
        ;
        Scalar::from_wide(units as i128 * SCALE as i128)
    }

    /// The scalar that stands for a count of things.
    pub fn from_count(count: usize) -> (r: Scalar)
        ensures
            r == Scalar::of(count * SCALE),
    {
        assert(0 <= count * SCALE <= 0xffff_ffff_ffff_ffff * 1_000_000) by (nonlinear_arith)
            requires
                0 <= count <= 0xffff_ffff_ffff_ffff,
        ;
        let wide: u128 = count as u128 * SCALE as u128;
        if wide > i64::MAX as u128 {
            Scalar { raw: i64::MAX }
        } else {
            Scalar { raw: wide as i64 }
        }
    }

    /// Zero.
    pub fn zero() -> (r: Scalar)
        ensures
            r@ == 0,
    {
        Scalar { raw: 0 }
    }

    /// One.
    pub fn one() -> (r: Scalar)
        ensures
            r@ == SCALE,
    {
        Scalar { raw: SCALE }
    }

    /// The greatest scalar, which stands for infinity.
    pub fn infinity() -> (r: Scalar)
        ensures
            r@ == i64::MAX,
    {
        Scalar { raw: i64::MAX }
    }

    /// The least scalar, which stands for negative infinity.
    pub fn neg_infinity() -> (r: Scalar)
        ensures
            r@ == i64::MIN,
    {
        Scalar { raw: i64::MIN }
    }

    /// The number of millionths.
    pub fn raw(self) -> (r: i64)
        ensures
            r == self@,
    {
        self.raw
    }

    /// Clamps an exact wide result to a scalar.
    pub fn from_wide(x: i128) -> (r: Scalar)
        ensures
            r == Scalar::of(x as int),
    {
        if x > i64::MAX as i128 {
            Scalar { raw: i64::MAX }
        } else if x < i64::MIN as i128 {
            Scalar { raw: i64::MIN }
        } else {
            Scalar { raw: x as i64 }
        }
    }

    /// The sum.
    pub fn add(self, rhs: Scalar) -> (r: Scalar)
        ensures
            r == self.spec_add(rhs),
    {
        Scalar::from_wide(self.raw as i128 + rhs.raw as i128)
    }

    /// The difference.
    pub fn sub(self, rhs: Scalar) -> (r: Scalar)
        ensures
            r == self.spec_sub(rhs),
    {
        Scalar::from_wide(self.raw as i128 - rhs.raw as i128)
    }

    /// The negation.
    pub fn neg(self) -> (r: Scalar)
        ensures
            r == self.spec_neg(),
    {
        Scalar::from_wide(-(self.raw as i128))
    }

    /// The product, rounded toward zero.
    pub fn mul(self, rhs: Scalar) -> (r: Scalar)
        ensures
            r == self.spec_mul(rhs),
    {
        assert(-0x8000_0000_0000_0000 * 0x8000_0000_0000_0000 <= self@ * rhs@
            <= 0x8000_0000_0000_0000 * 0x8000_0000_0000_0000) by (nonlinear_arith)
            requires
                -0x8000_0000_0000_0000 <= self@ < 0x8000_0000_0000_0000,
                -0x8000_0000_0000_0000 <= rhs@ < 0x8000_0000_0000_0000,
        ;
        let product: i128 = self.raw as i128 * rhs.raw as i128;
        Scalar::from_wide(product / SCALE as i128)
    }

    /// The quotient, rounded toward zero; a zero divisor gives the infinity of
    /// the dividend's sign, and zero for a zero dividend.
    pub fn div(self, rhs: Scalar) -> (r: Scalar)
        ensures
            r == self.spec_div(rhs),
    {
        if rhs.raw == 0 {
            if self.raw > 0 {
                Scalar { raw: i64::MAX }
            } else if self.raw < 0 {
                Scalar { raw: i64::MIN }
            } else {
                Scalar { raw: 0 }
            }
        } else {
            assert(-0x8000_0000_0000_0000 * 1_000_000 <= self@ * SCALE <= 0x8000_0000_0000_0000
                * 1_000_000) by (nonlinear_arith)
                requires
                    -0x8000_0000_0000_0000 <= self@ < 0x8000_0000_0000_0000,
            ;
            let scaled: i128 = self.raw as i128 * SCALE as i128;
            let divisor: i128 = rhs.raw as i128;
            let num: i128 = if scaled < 0 {
                -scaled
            } else {
                scaled
            };
            let den: i128 = if divisor < 0 {
                -divisor
            } else {
                divisor
            };
            let magnitude: i128 = num / den;
            assert(0 <= magnitude <= num) by (nonlinear_arith)
                requires
                    magnitude == num / den,
                    0 <= num,
                    0 < den,
            ;
            if (scaled < 0) != (divisor < 0) {
                Scalar::from_wide(-magnitude)
            } else {
                Scalar::from_wide(magnitude)
            }
        }
    }

    /// The magnitude.
    pub fn abs(self) -> (r: Scalar)
        ensures
            r == self.spec_abs(),
    {
        if self.raw < 0 {
            Scalar::from_wide(-(self.raw as i128))
        } else {
            self
        }
    }

    /// The lesser of the two.
    pub fn min(self, rhs: Scalar) -> (r: Scalar)
        ensures
            r == self.spec_min(rhs),
    {
        if rhs.raw < self.raw {
            rhs
        } else {
            self
        }
    }

    /// The greater of the two.
    pub fn max(self, rhs: Scalar) -> (r: Scalar)
        ensures
            r == self.spec_max(rhs),
    {
        if rhs.raw > self.raw {
            rhs
        } else {
            self
        }
    }

    /// The whole part, rounded toward zero.
    pub fn trunc(self) -> (r: i64)
        ensures
            r == self.spec_trunc(),
    {
        self.raw / SCALE
    }

    /// The square.
    pub fn square(self) -> (r: Scalar)
        ensures
            r == self.spec_square(),
    {
        self.mul(self)
    }

    /// The square root, rounded to the nearest raw step; zero for a negative
    /// scalar.
    pub fn sqrt(self) -> (r: Scalar)
        ensures
            r == self.spec_sqrt(),
    {
        if self.raw <= 0 {
            assert(self@ * SCALE <= 0) by (nonlinear_arith)
                requires
                    self@ <= 0,
            ;
            return Scalar { raw: 0 };
        }
        assert(0 < self@ * SCALE < 0x8000_0000_0000_0000 * 1_000_000) by (nonlinear_arith)
            requires
                0 < self@ < 0x8000_0000_0000_0000,
        ;
        let root: u128 = wide_root(self.raw as u128 * SCALE as u128);
        if root > i64::MAX as u128 {
            Scalar { raw: i64::MAX }
        } else {
            Scalar { raw: root as i64 }
        }
    }
}

/// The integer nearest to the square root of `n`.
pub fn wide_root(n: u128) -> (r: u128)
    ensures
        r == nearest_root(n as int),
        r <= 0x1_0000_0000_0000_0000,
{
    if n == 0 {
        return 0;
    }
    let mut lo: u128 = 0;
    let mut hi: u128 = 0x1_0000_0000_0000_0000;
    assert(hi * hi > n) by (nonlinear_arith)
        requires
            hi == 0x1_0000_0000_0000_0000,
            n < 0x1_0000_0000_0000_0000_0000_0000_0000_0000,
    ;
    while hi - lo > 1
        invariant
            0 <= lo < hi <= 0x1_0000_0000_0000_0000,
            lo * lo <= n < hi * hi,
            0 < n,
        decreases hi - lo,
    {
        let mid: u128 = lo + (hi - lo) / 2;
        assert(0 <= mid * mid <= 0xffff_ffff_ffff_ffff * 0xffff_ffff_ffff_ffff) by (nonlinear_arith)
            requires
                0 <= mid <= 0xffff_ffff_ffff_ffff,
        ;
        if mid * mid <= n {
            lo = mid;
        } else {
            hi = mid;
        }
    }
    assert(lo * lo + 2 * lo + 1 == hi * hi) by (nonlinear_arith)
        requires
            hi == lo + 1,
    ;
    assert(0 <= lo * lo <= 0xffff_ffff_ffff_ffff * 0xffff_ffff_ffff_ffff) by (nonlinear_arith)
        requires
            0 <= lo <= 0xffff_ffff_ffff_ffff,
    ;
    let root: u128 = if n - lo * lo > lo {
        lo + 1
    } else {
        lo
    };
    proof {
        assert(lo > 0) by (nonlinear_arith)
            requires
                0 <= lo,
                n < lo * lo + 2 * lo + 1,
                0 < n,
        ;
        assert(is_nearest_root(n as int, root as int)) by (nonlinear_arith)
            requires
                lo > 0,
                lo * lo <= n < lo * lo + 2 * lo + 1,
                n - lo * lo > lo ==> root == lo + 1,
                n - lo * lo <= lo ==> root == lo,
        ;
        lemma_nearest_root_unique(n as int, root as int, nearest_root(n as int));
    }
    root
}

impl vstd::std_specs::ops::AddSpecImpl for Scalar {
    open spec fn obeys_add_spec() -> bool {
        true
    }

    open spec fn add_req(self, rhs: Scalar) -> bool {
        true
    }

    open spec fn add_spec(self, rhs: Scalar) -> Scalar {
        self.spec_add(rhs)
    }
}

impl std::ops::Add for Scalar {
    type Output = Scalar;

    fn add(self, rhs: Scalar) -> (ret: Scalar) {
        Scalar::add(self, rhs)
    }
}

impl vstd::std_specs::ops::SubSpecImpl for Scalar {
    open spec fn obeys_sub_spec() -> bool {
        true
    }

    open spec fn sub_req(self, rhs: Scalar) -> bool {
        true
    }

    open spec fn sub_spec(self, rhs: Scalar) -> Scalar {
        self.spec_sub(rhs)
    }
}

impl std::ops::Sub for Scalar {
    type Output = Scalar;

    fn sub(self, rhs: Scalar) -> (ret: Scalar) {
        Scalar::sub(self, rhs)
    }
}

impl vstd::std_specs::ops::NegSpecImpl for Scalar {
    open spec fn obeys_neg_spec() -> bool {
        true
    }

    open spec fn neg_req(self) -> bool {
        true
    }

    open spec fn neg_spec(self) -> Scalar {
        self.spec_neg()
    }
}

impl std::ops::Neg for Scalar {
    type Output = Scalar;

    fn neg(self) -> (ret: Scalar) {
        Scalar::neg(self)
    }
}

impl vstd::std_specs::ops::MulSpecImpl for Scalar {
    open spec fn obeys_mul_spec() -> bool {
        true
    }

    open spec fn mul_req(self, rhs: Scalar) -> bool {
        true
    }

    open spec fn mul_spec(self, rhs: Scalar) -> Scalar {
        self.spec_mul(rhs)
    }
}

impl std::ops::Mul for Scalar {
    type Output = Scalar;

    fn mul(self, rhs: Scalar) -> (ret: Scalar) {
        Scalar::mul(self, rhs)
    }
}

impl vstd::std_specs::ops::DivSpecImpl for Scalar {
    open spec fn obeys_div_spec() -> bool {
        true
    }

    open spec fn div_req(self, rhs: Scalar) -> bool {
        true
    }

    open spec fn div_spec(self, rhs: Scalar) -> Scalar {
        self.spec_div(rhs)
    }
}

impl std::ops::Div for Scalar {
    type Output = Scalar;

    fn div(self, rhs: Scalar) -> (ret: Scalar) {
        Scalar::div(self, rhs)
    }
}

/// Whether two scalars are equal to within [`THRESHOLD`].
pub open spec fn spec_f_eq(lhs: Scalar, rhs: Scalar) -> bool {
    -(THRESHOLD as int) <= lhs@ - rhs@ <= THRESHOLD as int
}

/// Whether `lhs` is below `rhs`, or equal to it to within the threshold.
pub open spec fn spec_f_leq(lhs: Scalar, rhs: Scalar) -> bool {
    lhs@ <= rhs@ + THRESHOLD
}

/// Whether `lhs` is above `rhs`, or equal to it to within the threshold.
pub open spec fn spec_f_geq(lhs: Scalar, rhs: Scalar) -> bool {
    lhs@ + THRESHOLD >= rhs@
}

/// Evaluates the equality of two scalars to within [`THRESHOLD`].
pub fn f_eq(lhs: Scalar, rhs: Scalar) -> (b: bool)
    ensures
        b == spec_f_eq(lhs, rhs),
{
    let diff: i128 = lhs.raw as i128 - rhs.raw as i128;
    -(THRESHOLD as i128) <= diff && diff <= THRESHOLD as i128
}

/// `lhs` is below `rhs`, or equal to it to within [`THRESHOLD`].
pub fn f_leq(lhs: Scalar, rhs: Scalar) -> (b: bool)
    ensures
        b == spec_f_leq(lhs, rhs),
{
    lhs.raw < rhs.raw || f_eq(lhs, rhs)
}

/// `lhs` is above `rhs`, or equal to it to within [`THRESHOLD`].
pub fn f_geq(lhs: Scalar, rhs: Scalar) -> (b: bool)
    ensures
        b == spec_f_geq(lhs, rhs),
{
    lhs.raw > rhs.raw || f_eq(lhs, rhs)
}

/// The value, or the nearer of the two limits where it lies beyond them.
pub open spec fn spec_f_clamp(val: Scalar, min: Scalar, max: Scalar) -> Scalar {
    min.spec_max(max.spec_min(val))
}

/// Clamps a value between a minimum and a maximum.
pub fn f_clamp(val: Scalar, min: Scalar, max: Scalar) -> (r: Scalar)
    ensures
        r == spec_f_clamp(val, min, max),
{
    min.max(max.min(val))
}

/// The point between `start` and `end` at the fraction `t` of the way.
pub open spec fn spec_lerp(start: Scalar, end: Scalar, t: Scalar) -> Scalar {
    start.spec_mul(Scalar::of(SCALE as int).spec_sub(t)).spec_add(end.spec_mul(t))
}

/// Linearly interpolates between a starting and an ending value with a factor
/// of `t`.
pub fn lerp(start: Scalar, end: Scalar, t: Scalar) -> (r: Scalar)
    ensures
        r == spec_lerp(start, end, t),
{
    start.mul(Scalar::one().sub(t)).add(end.mul(t))
}

/// The largest of the given scalars; negative infinity for none.
pub open spec fn spec_f_max_all(vals: Seq<Scalar>) -> Scalar
    decreases vals.len(),
{
    if vals.len() == 0 {
        Scalar::of(i64::MIN as int)
    } else {
        spec_f_max_all(vals.drop_last()).spec_max(vals.last())
    }
}

/// The smallest of the given scalars; positive infinity for none.
pub open spec fn spec_f_min_all(vals: Seq<Scalar>) -> Scalar
    decreases vals.len(),
{
    if vals.len() == 0 {
        Scalar::of(i64::MAX as int)
    } else {
        spec_f_min_all(vals.drop_last()).spec_min(vals.last())
    }
}

/// The greatest of the values; negative infinity where there are none.
pub fn f_max_all(vals: Vec<Scalar>) -> (r: Scalar)
    ensures
        r == spec_f_max_all(vals@),
{
    let mut best: Scalar = Scalar::neg_infinity();
    let mut i: usize = 0;
    while i < vals.len()
        invariant
            i <= vals.len(),
            best == spec_f_max_all(vals@.take(i as int)),
        decreases vals.len() - i,
    {
        assert(vals@.take(i + 1).drop_last() =~= vals@.take(i as int));
        best = best.max(vals[i]);
        i += 1;
    }
    assert(vals@.take(i as int) =~= vals@);
    best
}

/// The least of the values; infinity where there are none.
pub fn f_min_all(vals: Vec<Scalar>) -> (r: Scalar)
    ensures
        r == spec_f_min_all(vals@),
{
    let mut best: Scalar = Scalar::infinity();
    let mut i: usize = 0;
    while i < vals.len()
        invariant
            i <= vals.len(),
            best == spec_f_min_all(vals@.take(i as int)),
        decreases vals.len() - i,
    {
        assert(vals@.take(i + 1).drop_last() =~= vals@.take(i as int));
        best = best.min(vals[i]);
        i += 1;
    }
    assert(vals@.take(i as int) =~= vals@);
    best
}

/// The fifth power.
pub open spec fn spec_pow5(x: Scalar) -> Scalar {
    x.spec_mul(x).spec_mul(x).spec_mul(x).spec_mul(x)
}

/// The reflectance at normal incidence between media of the given indices:
/// `((index_i - index_r) / (index_i + index_r))^2`.
pub open spec fn spec_schlick_r0(index_i: Scalar, index_r: Scalar) -> Scalar {
    index_i.spec_sub(index_r).spec_div(index_i.spec_add(index_r)).spec_square()
}

/// Schlick's approximation: `r0 + (1 - r0) (1 - cos_theta_i)^5`.
pub open spec fn spec_schlick(cos_theta_i: Scalar, index_i: Scalar, index_r: Scalar) -> Scalar {
    let r_0 = spec_schlick_r0(index_i, index_r);
    r_0.spec_add(
        Scalar::of(SCALE as int).spec_sub(r_0).spec_mul(
            spec_pow5(Scalar::of(SCALE as int).spec_sub(cos_theta_i)),
        ),
    )
}

/// Calculates a Schlick approximation for the specular reflection
/// coefficient.
pub fn schlick(cos_theta_i: Scalar, index_i: Scalar, index_r: Scalar) -> (r: Scalar)
    ensures
        r == spec_schlick(cos_theta_i, index_i, index_r),
{
    let r_0: Scalar = index_i.sub(index_r).div(index_i.add(index_r)).square();
    let x: Scalar = Scalar::one().sub(cos_theta_i);
    r_0.add(Scalar::one().sub(r_0).mul(x.mul(x).mul(x).mul(x).mul(x)))
}

/// The product of two scalars of the unit interval lies in the unit
/// interval and is no greater than either.
pub proof fn lemma_mul_unit_interval(a: Scalar, b: Scalar)
    requires
        0 <= a@ <= SCALE,
        0 <= b@ <= SCALE,
    ensures
        0 <= a.spec_mul(b)@ <= a@,
        a.spec_mul(b)@ <= b@,
{
    let p = a@ * b@;
    assert(0 <= p && p <= a@ * SCALE && p <= b@ * SCALE) by (nonlinear_arith)
        requires
            p == a@ * b@,
            0 <= a@ <= SCALE,
            0 <= b@ <= SCALE,
    ;
    assert(p / (SCALE as int) <= a@ && p / (SCALE as int) <= b@ && 0 <= p / (SCALE as int))
        by (nonlinear_arith)
        requires
            0 <= p,
            p <= a@ * SCALE,
            p <= b@ * SCALE,
            SCALE == 1_000_000,
    ;
}

/// Schlick's reflectance is a proportion that grows from the reflectance at
/// normal incidence: for a cosine of the unit interval and positive indices,
/// the reflectance at normal incidence lies in the unit interval, and the
/// reflectance lies between it and one.
pub proof fn lemma_schlick_bounds(cos_theta_i: Scalar, index_i: Scalar, index_r: Scalar)
    requires
        0 <= cos_theta_i@ <= SCALE,
        0 < index_i@,
        0 < index_r@,
    ensures
        0 <= spec_schlick_r0(index_i, index_r)@ <= SCALE,
        spec_schlick_r0(index_i, index_r)@ <= spec_schlick(cos_theta_i, index_i, index_r)@ <= SCALE,
{
    let d = index_i.spec_sub(index_r);
    let sum = index_i.spec_add(index_r);
    let q = d.spec_div(sum);
    let magnitude = if d@ < 0 {
        -d@
    } else {
        d@
    };
    assert(0 <= magnitude * SCALE && (magnitude * SCALE) / sum@ <= SCALE) by (nonlinear_arith)
        requires
            0 <= magnitude < sum@,
            SCALE == 1_000_000,
    ;
    assert(0 <= (magnitude * SCALE) / sum@) by (nonlinear_arith)
        requires
            0 <= magnitude * SCALE,
            0 < sum@,
    ;
    assert(d@ * SCALE == if d@ < 0 {
        -(magnitude * SCALE)
    } else {
        magnitude * SCALE
    }) by (nonlinear_arith)
        requires
            magnitude == (if d@ < 0 {
                -d@
            } else {
                d@
            }),
    ;
    assert(-(SCALE as int) <= q@ <= SCALE);
    let r_0 = spec_schlick_r0(index_i, index_r);
    assert(0 <= q@ * q@ <= SCALE * SCALE) by (nonlinear_arith)
        requires
            -(SCALE as int) <= q@ <= SCALE,
    ;
    assert(0 <= (q@ * q@) / (SCALE as int) <= SCALE) by (nonlinear_arith)
        requires
            0 <= q@ * q@ <= SCALE * SCALE,
            SCALE == 1_000_000,
    ;
    assert(0 <= r_0@ <= SCALE);
    let one = Scalar::of(SCALE as int);
    let x = one.spec_sub(cos_theta_i);
    let x2 = x.spec_mul(x);
    let x3 = x2.spec_mul(x);
    let x4 = x3.spec_mul(x);
    let x5 = x4.spec_mul(x);
    lemma_mul_unit_interval(x, x);
    lemma_mul_unit_interval(x2, x);
    lemma_mul_unit_interval(x3, x);
    lemma_mul_unit_interval(x4, x);
    assert(x5 == spec_pow5(x));
    lemma_mul_unit_interval(one.spec_sub(r_0), x5);
}

/// The precision to which a mantissa is carried when a logarithm is taken:
/// the number of steps in one unit.
pub const LOG_UNIT: u128 = 1_000_000_000_000_000;

/// Brings a mantissa below ten units by dividing by ten, and counts the
/// divisions.
pub open spec fn spec_normalize(m: int, e: int) -> (int, int)
    decreases m,
{
    if m >= 10 * LOG_UNIT {
        spec_normalize(m / 10, e + 1)
    } else {
        (m, e)
    }
}

/// Multiplies `acc` by the mantissa `m` `k` times over, dividing by ten
/// whenever the product reaches ten units, and counts the divisions.
pub open spec fn spec_raise(m: int, acc: int, d: int, k: nat) -> (int, int)
    decreases k,
{
    if k == 0 {
        (acc, d)
    } else {
        let p = acc * m / (LOG_UNIT as int);
        if p >= 10 * LOG_UNIT {
            spec_raise(m, p / 10, d + 1, (k - 1) as nat)
        } else {
            spec_raise(m, p, d, (k - 1) as nat)
        }
    }
}

/// The first `j` decimal digits of the decimal logarithm of a mantissa
/// between one and ten units, appended to `frac`: each digit is the number of
/// powers of ten in the tenth power of the mantissa, which is then divided
/// by them.
pub open spec fn spec_fraction(m: int, frac: int, j: nat) -> int
    decreases j,
{
    if j == 0 {
        frac
    } else {
        let (next, d) = spec_raise(m, m, 0, 9);
        spec_fraction(next, frac * 10 + d, (j - 1) as nat)
    }
}

/// The negated decimal logarithm of a scalar, to six digits, each of them
/// found in turn with mantissas cut to [`LOG_UNIT`]; positive infinity for
/// a scalar that is not positive.
pub open spec fn spec_neg_log10(u: Scalar) -> Scalar {
    if u@ <= 0 {
        Scalar::of(i64::MAX as int)
    } else {
        let (m, e) = spec_normalize(u@ * LOG_UNIT, 0);
        Scalar::of(6 * SCALE - (e * SCALE + spec_fraction(m, 0, 6)))
    }
}

fn raise(m: u128, acc: u128) -> (r: (u128, u32))
    requires
        LOG_UNIT <= m < 10 * LOG_UNIT,
        LOG_UNIT <= acc < 10 * LOG_UNIT,
    ensures
        (r.0 as int, r.1 as int) == spec_raise(m as int, acc as int, 0, 9),
        LOG_UNIT <= r.0 < 10 * LOG_UNIT,
        r.1 <= 9,
{
    let mut value: u128 = acc;
    let mut d: u32 = 0;
    let mut k: u32 = 0;
    while k < 9
        invariant
            k <= 9,
            d <= k,
            LOG_UNIT <= m < 10 * LOG_UNIT,
            LOG_UNIT <= value < 10 * LOG_UNIT,
            spec_raise(m as int, acc as int, 0, 9) == spec_raise(
                m as int,
                value as int,
                d as int,
                (9 - k) as nat,
            ),
        decreases 9 - k,
    {
        assert(LOG_UNIT * LOG_UNIT <= value * m < 100 * LOG_UNIT * LOG_UNIT) by (nonlinear_arith)
            requires
                LOG_UNIT <= m < 10 * LOG_UNIT,
                LOG_UNIT <= value < 10 * LOG_UNIT,
        ;
        let p: u128 = value * m / LOG_UNIT;
        if p >= 10 * LOG_UNIT {
            value = p / 10;
            d += 1;
        } else {
            value = p;
        }
        k += 1;
    }
    (value, d)
}

/// The negated decimal logarithm of a scalar.
pub fn neg_log10(u: Scalar) -> (r: Scalar)
    ensures
        r == spec_neg_log10(u),
{
    if u.raw <= 0 {
        return Scalar::infinity();
    }
    assert(LOG_UNIT <= u@ * LOG_UNIT < 0x8000_0000_0000_0000 * LOG_UNIT) by (nonlinear_arith)
        requires
            0 < u@ < 0x8000_0000_0000_0000,
    ;
    let mut m: u128 = u.raw as u128 * LOG_UNIT;
    let mut e: i64 = 0;
    while m >= 10 * LOG_UNIT
        invariant
            LOG_UNIT <= m,
            0 <= e <= 19,
            m * pow10(e as nat) < 0x8000_0000_0000_0000 * LOG_UNIT,
            spec_normalize(u@ * LOG_UNIT, 0) == spec_normalize(m as int, e as int),
        decreases m,
    {
        proof {
            lemma_pow10_step(m as int, e as nat);
        }
        m = m / 10;
        e += 1;
    }
    let mut frac: i64 = 0;
    let mut j: u32 = 0;
    let ghost m0 = m;
    while j < 6
        invariant
            j <= 6,
            0 <= e <= 19,
            LOG_UNIT <= m < 10 * LOG_UNIT,
            0 <= frac < pow10(j as nat),
            pow10(j as nat) <= 1_000_000,
            spec_fraction(m0 as int, 0, 6) == spec_fraction(m as int, frac as int, (6 - j) as nat),
        decreases 6 - j,
    {
        let (next, d) = raise(m, m);
        proof {
            reveal_with_fuel(pow10, 8);
        }
        frac = frac * 10 + d as i64;
        m = next;
        j += 1;
    }
    proof {
        reveal_with_fuel(pow10, 8);
    }
    Scalar::from_wide(6 * SCALE as i128 - (e as i128 * SCALE as i128 + frac as i128))
}

/// Ten to the power `n`.
pub open spec fn pow10(n: nat) -> int
    decreases n,
{
    if n == 0 {
        1
    } else {
        10 * pow10((n - 1) as nat)
    }
}

/// A mantissa of at least ten units leaves at least one unit when it is
/// divided by ten, and with one more power of ten is no larger than before.
proof fn lemma_pow10_step(m: int, e: nat)
    requires
        m >= 10 * LOG_UNIT,
        m * pow10(e) < 0x8000_0000_0000_0000 * LOG_UNIT,
    ensures
        m / 10 >= LOG_UNIT,
        (m / 10) * pow10(e + 1) <= m * pow10(e),
        pow10(e) >= 1,
        e < 19,
{
    reveal_with_fuel(pow10, 2);
    lemma_pow10_positive(e);
    assert((m / 10) * (10 * pow10(e)) <= m * pow10(e)) by (nonlinear_arith)
        requires
            m >= 0,
            pow10(e) >= 1,
    ;
    if e >= 19 {
        lemma_pow10_grows(19, e);
        assert(pow10(19) == 10_000_000_000_000_000_000int) by {
            reveal_with_fuel(pow10, 20);
        }
        assert(m * pow10(e) >= 10 * LOG_UNIT * 10_000_000_000_000_000_000) by (nonlinear_arith)
            requires
                m >= 10 * LOG_UNIT,
                pow10(e) >= 10_000_000_000_000_000_000,
        ;
        assert(false);
    }
}

proof fn lemma_pow10_positive(n: nat)
    ensures
        pow10(n) >= 1,
    decreases n,
{
    if n > 0 {
        lemma_pow10_positive((n - 1) as nat);
    }
}

proof fn lemma_pow10_grows(a: nat, b: nat)
    requires
        a <= b,
    ensures
        pow10(a) <= pow10(b),
    decreases b,
{
    lemma_pow10_positive(a);
    if a < b {
        lemma_pow10_grows(a, (b - 1) as nat);
    }
}

} // verus!
