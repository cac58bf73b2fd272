//! The path-tracing integrator: follows a ray through the scene from bounce to
//! bounce, and sums up the light that reaches its origin.
//!
//! A path is followed by [`Ray::walk`], which asks the scene once for every
//! bounce and records what it met; [`shade`] turns the record into a colour.
use crate::geom::hit::{BoundedHittable, Hit, HittableGroup, FP_OFFSET};
use crate::material::Surface;
use crate::math::{Rand, Scalar};
use crate::vec::{ColorRGB, Ray, Vec3};
use vstd::prelude::*;

verus! {

/// What a ray met at one bounce.
#[derive(Clone, Copy, Debug)]
pub enum Bounce {
    /// Nothing: the ray left the scene, where the background has the given
    /// colour.
    Miss { background: ColorRGB },
    /// A surface with the given attenuation and emission, which did or did
    /// not scatter the ray on.
    Hit { attenuation: ColorRGB, emission: ColorRGB, scattered: bool },
}

impl Bounce {
    /// Whether the path ends with this bounce.
    pub open spec fn is_last(self) -> bool {
        match self {
            Bounce::Miss { .. } => true,
            Bounce::Hit { scattered, .. } => !scattered,
        }
    }
}

/// The throughput of a path and the radiance gathered along it.
pub type Light = (ColorRGB, ColorRGB);

/// White throughput and no radiance: the light at the start of a path.
pub open spec fn spec_start() -> Light {
    (
        Vec3(Scalar::of(1_000_000), Scalar::of(1_000_000), Scalar::of(1_000_000)),
        Vec3(Scalar::of(0), Scalar::of(0), Scalar::of(0)),
    )
}

/// The light after one more bounce: a miss adds the background times the
/// throughput; a hit adds its emission times its attenuation times the
/// throughput, and dims the throughput by its attenuation where it scatters.
pub open spec fn spec_gather(light: Light, bounce: Bounce) -> Light {
    match bounce {
        Bounce::Miss { background } => (light.0, light.1.spec_add(light.0.spec_mul(background))),
        Bounce::Hit { attenuation, emission, scattered } => (
            if scattered {
                light.0.spec_mul(attenuation)
            } else {
                light.0
            },
            light.1.spec_add(light.0.spec_mul(attenuation).spec_mul(emission)),
        ),
    }
}

/// The light at the end of a path.
pub open spec fn spec_gather_all(path: Seq<Bounce>) -> Light
    decreases path.len(),
{
    if path.len() == 0 {
        spec_start()
    } else {
        spec_gather(spec_gather_all(path.drop_last()), path.last())
    }
}

/// The radiance at the end of a path.
pub open spec fn spec_shade(path: Seq<Bounce>) -> ColorRGB {
    spec_gather_all(path).1
}

/// Whether a path goes on after every bounce but its last.
pub open spec fn spec_unbroken(path: Seq<Bounce>) -> bool {
    forall|i: int| 0 <= i < path.len() - 1 ==> !(#[trigger] path[i]).is_last()
}

/// Where along the background a ray of the given direction ends:
/// `(1 - d_y) / 2`.
pub open spec fn spec_sky(dir: Vec3) -> Scalar {
    Scalar::of(500_000).spec_mul(Scalar::of(1_000_000).spec_sub(dir.1))
}

/// The record of a hit on a surface whose material sent on `next`: the
/// attenuation and the emission of the material, and whether a ray was sent
/// on.
pub open spec fn spec_met(hit: Hit, next: Option<Ray>) -> Bounce {
    Bounce::Hit {
        attenuation: hit.material.spec_attenuation(),
        emission: hit.material.spec_emit(),
        scattered: next is Some,
    }
}

/// The record of a hit on a surface whose material sent on `next`.
pub fn met(hit: &Hit, next: &Option<Ray>) -> (bounce: Bounce)
    ensures
        bounce == spec_met(*hit, *next),
{
    let material: Surface = hit.material;
    Bounce::Hit {
        attenuation: *material.attenuation(),
        emission: material.emit(),
        scattered: next.is_some(),
    }
}

/// What happened at one bounce of a path: the ray that was followed, what
/// the world reported for it, and the ray that the material that was met
/// sent on, if it sent one.
pub struct Step {
    pub ray: Ray,
    pub found: Option<Hit>,
    pub next: Option<Ray>,
}

/// Whether `bounce` records the step `step` through `world`: the world may
/// report what was found for the ray of the step, from the offset on. Where
/// that is nothing, the path ends and the bounce is the miss with what `bg`
/// gives for the direction of the ray. Where it is a hit, the ray that was
/// sent on is one that the material may scatter, and the bounce is the hit
/// with the attenuation and the emission of the material, which scattered
/// where a ray was sent on.
#[verifier::opaque]
pub open spec fn spec_recorded<T: BoundedHittable, F: Fn(Scalar) -> ColorRGB>(
    world: HittableGroup<T>,
    bg: F,
    step: Step,
    bounce: Bounce,
) -> bool {
    &&& world.hits(
        step.ray,
        Scalar::of(FP_OFFSET as int),
        Scalar::of(i64::MAX as int),
        step.found,
    )
    &&& match step.found {
        None => step.next is None && (bounce matches Bounce::Miss { background } && call_ensures(
            bg,
            (spec_sky(step.ray.dir),),
            background,
        )),
        Some(hit) => hit.material.scatters(step.ray, hit, step.next) && bounce == spec_met(
            hit,
            step.next,
        ),
    }
}

/// Whether `path` is the record of the steps `steps` of `ray` through
/// `world` with at most `depth` bounces: there is a bounce for every step,
/// at most `depth` of them, and none only where `depth` is none; the first
/// step follows `ray`, and every later one the ray that the step before it
/// sent on; every bounce records its step; and the path ends before `depth`
/// bounces only with a step that sends no ray on.
pub open spec fn spec_followed<T: BoundedHittable, F: Fn(Scalar) -> ColorRGB>(
    ray: Ray,
    world: HittableGroup<T>,
    bg: F,
    depth: u32,
    steps: Seq<Step>,
    path: Seq<Bounce>,
) -> bool {
    &&& path.len() == steps.len() <= depth
    &&& depth > 0 ==> steps.len() > 0
    &&& steps.len() > 0 ==> steps[0].ray == ray
    &&& forall|i: int|
        0 <= i < steps.len() ==> spec_recorded(world, bg, #[trigger] steps[i], path[i])
    &&& forall|i: int|
        0 <= i < steps.len() - 1 ==> (#[trigger] steps[i]).next == Some(steps[i + 1].ray)
    &&& 0 < steps.len() < depth ==> steps.last().next is None
}

/// Whether `path` may be the record of the way of `ray` through `world`
/// with at most `depth` bounces: it is the record of some steps, as
/// [`spec_followed`] says.
pub open spec fn spec_walked<T: BoundedHittable, F: Fn(Scalar) -> ColorRGB>(
    ray: Ray,
    world: HittableGroup<T>,
    bg: F,
    depth: u32,
    path: Seq<Bounce>,
) -> bool {
    exists|steps: Seq<Step>| #[trigger] spec_followed(ray, world, bg, depth, steps, path)
}

/// A miss records a step at which the world reported nothing.
proof fn lemma_recorded_miss<T: BoundedHittable, F: Fn(Scalar) -> ColorRGB>(
    world: HittableGroup<T>,
    bg: F,
    ray: Ray,
    background: ColorRGB,
)
    requires
        world.hits(ray, Scalar::of(FP_OFFSET as int), Scalar::of(i64::MAX as int), None),
        call_ensures(bg, (spec_sky(ray.dir),), background),
    ensures
        spec_recorded(
            world,
            bg,
            Step { ray, found: None, next: None },
            Bounce::Miss { background },
        ),
{
    reveal(spec_recorded);
}

/// A hit records a step at which the world reported a hit and the material
/// that was met sent on `next`.
proof fn lemma_recorded_hit<T: BoundedHittable, F: Fn(Scalar) -> ColorRGB>(
    world: HittableGroup<T>,
    bg: F,
    ray: Ray,
    hit: Hit,
    next: Option<Ray>,
)
    requires
        world.hits(ray, Scalar::of(FP_OFFSET as int), Scalar::of(i64::MAX as int), Some(hit)),
        hit.material.scatters(ray, hit, next),
    ensures
        spec_recorded(world, bg, Step { ray, found: Some(hit), next }, spec_met(hit, next)),
{
    reveal(spec_recorded);
}

/// A record of steps goes on after every bounce but its last, and is no
/// longer than the depth.
pub proof fn lemma_followed_unbroken<T: BoundedHittable, F: Fn(Scalar) -> ColorRGB>(
    ray: Ray,
    world: HittableGroup<T>,
    bg: F,
    depth: u32,
    steps: Seq<Step>,
    path: Seq<Bounce>,
)
    requires
        spec_followed(ray, world, bg, depth, steps, path),
    ensures
        spec_unbroken(path),
        path.len() <= depth,
{
    reveal(spec_recorded);
    assert forall|i: int| 0 <= i < path.len() - 1 implies !(#[trigger] path[i]).is_last() by {
        assert(spec_recorded(world, bg, steps[i], path[i]));
        assert(steps[i].next == Some(steps[i + 1].ray));
    }
}

/// The radiance that a path brings to the origin of its ray.
pub fn shade(path: &Vec<Bounce>) -> (color: ColorRGB)
    ensures
        color == spec_shade(path@),
{
    let one: Scalar = Scalar::one();
    let zero: Scalar = Scalar::zero();
    let mut throughput: ColorRGB = Vec3(one, one, one);
    let mut radiance: ColorRGB = Vec3(zero, zero, zero);
    let mut i: usize = 0;
    while i < path.len()
        invariant
            i <= path.len(),
            (throughput, radiance) == spec_gather_all(path@.take(i as int)),
        decreases path.len() - i,
    {
        assert(path@.take(i + 1).drop_last() =~= path@.take(i as int));
        match path[i] {
            Bounce::Miss { background } => {
                radiance = radiance.add(throughput.mul(background));
            },
            Bounce::Hit { attenuation, emission, scattered } => {
                radiance = radiance.add(throughput.mul(attenuation).mul(emission));
                if scattered {
                    throughput = throughput.mul(attenuation);
                }
            },
        }
        i += 1;
    }
    assert(path@.take(i as int) =~= path@);
    radiance
}

impl Ray {
    /// Follows the ray through `world` for at most `depth` bounces and
    /// records them. The scene is asked once for every bounce of the record,
    /// so it is asked at most `depth` times. Every bounce records what the
    /// world reported for the ray that was followed and what the material
    /// did; the path goes on with the ray that was sent on, and ends where
    /// nothing was met, where no ray was sent on, or after `depth` bounces.
    pub fn walk<T: BoundedHittable, F: Fn(Scalar) -> ColorRGB>(
        &self,
        world: &HittableGroup<T>,
        bg: &F,
        depth: u32,
        rand: &mut Rand,
    ) -> (path: Vec<Bounce>)
        requires
            forall|t: Scalar| call_requires(bg, (t,)),
        ensures
            spec_walked(*self, *world, *bg, depth, path@),
    {
        let mut path: Vec<Bounce> = Vec::new();
        let mut ray: Ray = *self;
        let mut going: bool = true;
        let mut bounces: u32 = 0;
        let ghost mut steps: Seq<Step> = Seq::empty();
        while going && bounces < depth
            invariant
                path.len() == steps.len() == bounces <= depth,
                forall|t: Scalar| call_requires(bg, (t,)),
                steps.len() > 0 ==> steps[0].ray == *self,
                forall|i: int|
                    0 <= i < steps.len() ==> spec_recorded(*world, *bg, #[trigger] steps[i], path[i]),
                forall|i: int|
                    0 <= i < steps.len() - 1 ==> (#[trigger] steps[i]).next == Some(
                        steps[i + 1].ray,
                    ),
                going && steps.len() == 0 ==> ray == *self,
                going && steps.len() > 0 ==> steps.last().next == Some(ray),
                !going ==> steps.len() > 0 && steps.last().next is None,
            decreases depth - bounces + (if going {
                1int
            } else {
                0int
            }),
        {
            let ghost before = path@;
            let ghost earlier = steps;
            let found: Option<Hit> = world.is_hit(
                &ray,
                Scalar::from_raw(FP_OFFSET),
                Scalar::infinity(),
                rand,
            );
            match found {
                None => {
                    let t: Scalar = Scalar::from_raw(500_000).mul(Scalar::one().sub(ray.dir.1));
                    let background: ColorRGB = bg(t);
                    assert(t == spec_sky(ray.dir));
                    path.push(Bounce::Miss { background });
                    proof {
                        lemma_recorded_miss(*world, *bg, ray, background);
                        steps = steps.push(Step { ray, found: None, next: None });
                    }
                    going = false;
                },
                Some(hit) => {
                    let material: Surface = hit.material;
                    let scattered: Option<Ray> = material.scatter(&ray, &hit, rand);
                    proof {
                        lemma_recorded_hit(*world, *bg, ray, hit, scattered);
                        steps = steps.push(Step { ray, found: Some(hit), next: scattered });
                    }
                    path.push(met(&hit, &scattered));
                    match scattered {
                        None => {
                            going = false;
                        },
                        Some(next) => {
                            ray = next;
                        },
                    }
                },
            }
            bounces += 1;
            assert(forall|i: int| 0 <= i < before.len() ==> path@[i] == before[i]);
            assert(forall|i: int| 0 <= i < earlier.len() ==> steps[i] == earlier[i]);
        }
        assert(spec_followed(*self, *world, *bg, depth, steps, path@));
        path
    }

    /// The light that reaches the origin of the ray along one random path of
    /// at most `depth` bounces through `world`: the radiance of
    /// [`spec_shade`] for a path as [`Ray::walk`] records it.
    pub fn get_color<T: BoundedHittable, F: Fn(Scalar) -> ColorRGB>(
        &self,
        world: &HittableGroup<T>,
        bg: &F,
        depth: u32,
        rand: &mut Rand,
    ) -> (color: ColorRGB)
        requires
            forall|t: Scalar| call_requires(bg, (t,)),
        ensures
            exists|path: Seq<Bounce>|
                spec_walked(*self, *world, *bg, depth, path) && color == #[trigger] spec_shade(
                    path,
                ),
    {
        let path: Vec<Bounce> = self.walk(world, bg, depth, rand);
        shade(&path)
    }
}

/// White throughput leaves a colour as it is, and no light added to a
/// colour likewise.
proof fn lemma_white_and_dark(c: ColorRGB)
    ensures
        spec_start().0.spec_mul(c) == c,
        spec_start().1.spec_add(c) == c,
        c.spec_mul(spec_start().1) == spec_start().1,
        spec_start().1.spec_add(spec_start().1) == spec_start().1,
{
    assert(1_000_000 * c.0@ / 1_000_000 == c.0@) by (nonlinear_arith);
    assert(1_000_000 * c.1@ / 1_000_000 == c.1@) by (nonlinear_arith);
    assert(1_000_000 * c.2@ / 1_000_000 == c.2@) by (nonlinear_arith);
    assert(1_000_000 * (-c.0@) / 1_000_000 == -c.0@) by (nonlinear_arith);
    assert(1_000_000 * (-c.1@) / 1_000_000 == -c.1@) by (nonlinear_arith);
    assert(1_000_000 * (-c.2@) / 1_000_000 == -c.2@) by (nonlinear_arith);
    assert(-(1_000_000 * c.0@) == 1_000_000 * (-c.0@)) by (nonlinear_arith);
    assert(-(1_000_000 * c.1@) == 1_000_000 * (-c.1@)) by (nonlinear_arith);
    assert(-(1_000_000 * c.2@) == 1_000_000 * (-c.2@)) by (nonlinear_arith);
    assert(c.0@ * 0 == 0 && c.1@ * 0 == 0 && c.2@ * 0 == 0) by (nonlinear_arith);
}

/// With no bounces allowed nothing is recorded, and the path brings no
/// light.
pub proof fn lemma_no_depth_is_dark<T: BoundedHittable, F: Fn(Scalar) -> ColorRGB>(
    ray: Ray,
    world: HittableGroup<T>,
    bg: F,
    path: Seq<Bounce>,
)
    requires
        spec_walked(ray, world, bg, 0, path),
    ensures
        path.len() == 0,
        spec_shade(path) == spec_start().1,
{
}

/// A ray for which the world can report nothing brings the background: the
/// record is the one miss with what `bg` gives for the direction of the
/// ray, and that colour is the radiance of the path.
pub proof fn lemma_miss_brings_background<T: BoundedHittable, F: Fn(Scalar) -> ColorRGB>(
    ray: Ray,
    world: HittableGroup<T>,
    bg: F,
    depth: u32,
    path: Seq<Bounce>,
)
    requires
        depth >= 1,
        spec_walked(ray, world, bg, depth, path),
        forall|found: Option<Hit>| #[trigger]
            world.hits(ray, Scalar::of(FP_OFFSET as int), Scalar::of(i64::MAX as int), found)
                ==> found is None,
    ensures
        path.len() == 1,
        path[0] matches Bounce::Miss { background } && call_ensures(
            bg,
            (spec_sky(ray.dir),),
            background,
        ) && spec_shade(path) == background,
{
    reveal(spec_recorded);
    let steps = choose|steps: Seq<Step>| #[trigger]
        spec_followed(ray, world, bg, depth, steps, path);
    assert(spec_recorded(world, bg, steps[0], path[0]));
    if steps.len() > 1 {
        assert(steps[0].next == Some(steps[1].ray));
    }
    match path[0] {
        Bounce::Miss { background } => {
            lemma_white_and_dark(background);
            assert(path.drop_last() =~= Seq::<Bounce>::empty());
            reveal_with_fuel(spec_gather_all, 2);
        },
        Bounce::Hit { .. } => {},
    }
}

/// A ray that can only meet a surface that scatters nothing brings the
/// light of that surface: the record is the one hit, and the radiance of
/// the path is the emission of the material times its attenuation.
pub proof fn lemma_light_ends_path<T: BoundedHittable, F: Fn(Scalar) -> ColorRGB>(
    ray: Ray,
    world: HittableGroup<T>,
    bg: F,
    depth: u32,
    path: Seq<Bounce>,
)
    requires
        depth >= 1,
        spec_walked(ray, world, bg, depth, path),
        forall|found: Option<Hit>| #[trigger]
            world.hits(ray, Scalar::of(FP_OFFSET as int), Scalar::of(i64::MAX as int), found)
                ==> (found matches Some(h) && forall|next: Option<Ray>| #[trigger]
                h.material.scatters(ray, h, next) ==> next is None),
    ensures
        path.len() == 1,
        exists|h: Hit| #[trigger]
            world.hits(ray, Scalar::of(FP_OFFSET as int), Scalar::of(i64::MAX as int), Some(h))
                && path[0] == (Bounce::Hit {
                attenuation: h.material.spec_attenuation(),
                emission: h.material.spec_emit(),
                scattered: false,
            }) && spec_shade(path) == h.material.spec_attenuation().spec_mul(
                h.material.spec_emit(),
            ),
{
    let steps = choose|steps: Seq<Step>| #[trigger]
        spec_followed(ray, world, bg, depth, steps, path);
    let first = steps[0];
    assert(spec_recorded(world, bg, first, path[0]));
    assert(first.ray == ray);
    assert(world.hits(ray, Scalar::of(FP_OFFSET as int), Scalar::of(i64::MAX as int), first.found)
        && (first.found matches Some(hit) ==> hit.material.scatters(ray, hit, first.next) && path[0]
        == spec_met(hit, first.next))) by {
        reveal(spec_recorded);
    }
    let h = first.found.unwrap();
    assert(first.next is None);
    if steps.len() > 1 {
        assert(steps[0].next == Some(steps[1].ray));
    }
    assert(path =~= seq![path[0]]);
    lemma_shade_of_one_hit(h.material.spec_attenuation(), h.material.spec_emit());
}

/// The radiance of a path of one hit that scatters nothing is the emission
/// of the hit times its attenuation.
proof fn lemma_shade_of_one_hit(attenuation: ColorRGB, emission: ColorRGB)
    ensures
        spec_shade(seq![Bounce::Hit { attenuation, emission, scattered: false }])
            == attenuation.spec_mul(emission),
{
    let path = seq![Bounce::Hit { attenuation, emission, scattered: false }];
    lemma_white_and_dark(attenuation);
    lemma_white_and_dark(attenuation.spec_mul(emission));
    assert(path.drop_last() =~= Seq::<Bounce>::empty());
    reveal_with_fuel(spec_gather_all, 2);
}

/// A path of hits on surfaces that give off no light brings none, however
/// long it is.
pub proof fn lemma_dark_path_is_dark(path: Seq<Bounce>)
    requires
        forall|i: int|
            0 <= i < path.len() ==> ((#[trigger] path[i]) matches Bounce::Hit { emission, .. }
                && emission == spec_start().1),
    ensures
        spec_shade(path) == spec_start().1,
    decreases path.len(),
{
    if path.len() > 0 {
        lemma_dark_path_is_dark(path.drop_last());
        let light = spec_gather_all(path.drop_last());
        match path.last() {
            Bounce::Hit { attenuation, emission, scattered } => {
                lemma_white_and_dark(light.0.spec_mul(attenuation));
            },
            Bounce::Miss { .. } => {},
        }
    }
}

} // verus!
