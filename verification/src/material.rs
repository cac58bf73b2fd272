//! Materials: what becomes of a ray at a surface, and what the surface adds
//! to the light along it.
use crate::geom::hit::Hit;
use crate::math::{f_clamp, spec_f_clamp, Rand, Scalar};
use crate::vec::{ColorRGB, Ray, Vec3};
use vstd::prelude::*;

verus! {

/// The refractive index of air.
pub const REF_INDEX_OF_AIR: i64 = 1_000_000;

/// What every material can do.
pub trait MaterialBase {
    /// The colour that `attenuation` returns.
    spec fn spec_attenuation(&self) -> ColorRGB;

    /// The colour that `emit` returns.
    spec fn spec_emit(&self) -> ColorRGB;

    /// Whether `out` is one of the rays, or the absence of a ray, that
    /// `scatter` may return for the ray `in_ray` that met the surface at
    /// `hit`.
    spec fn scatters(&self, in_ray: Ray, hit: Hit, out: Option<Ray>) -> bool;

    /// The factor, channel by channel, by which the surface dims the light
    /// along a ray.
    fn attenuation(&self) -> (albedo: &ColorRGB)
        ensures
            *albedo == self.spec_attenuation(),
    ;

    /// The ray that leaves the surface, if one does.
    fn scatter(&self, in_ray: &Ray, hit: &Hit, rand: &mut Rand) -> (out: Option<Ray>)
        ensures
            self.scatters(*in_ray, *hit, out),
    ;

    /// The light that the surface gives off.
    fn emit(&self) -> (light: ColorRGB)
        ensures
            light == self.spec_emit(),
    ;
}

/// A material.
pub trait Material: MaterialBase {

}

/// A matte surface, which scatters a ray about the normal.
#[derive(Clone, Copy, Debug)]
pub struct DiffuseLambert {
    albedo: ColorRGB,
}

/// A metal, which mirrors a ray, the less sharply the rougher it is.
#[derive(Clone, Copy, Debug)]
pub struct Reflective {
    albedo: ColorRGB,
    roughness: Scalar,
}

/// A dielectric, which refracts or mirrors a ray.
#[derive(Clone, Copy, Debug)]
pub struct Translucent {
    albedo: ColorRGB,
    ref_index: Scalar,
    roughness: Scalar,
}

/// A light, which scatters nothing and gives off white light.
#[derive(Clone, Copy, Debug)]
pub struct Emissive {
    albedo: ColorRGB,
    intensity: Scalar,
}

/// Whether a scalar lies in the unit interval, ends included.
pub open spec fn spec_unit_interval(x: Scalar) -> bool {
    0 <= x@ <= 1_000_000
}

/// No light.
pub open spec fn spec_black() -> ColorRGB {
    Vec3(Scalar::of(0), Scalar::of(0), Scalar::of(0))
}

fn black() -> (c: ColorRGB)
    ensures
        c == spec_black(),
{
    Vec3(Scalar::zero(), Scalar::zero(), Scalar::zero())
}

impl DiffuseLambert {
    /// What `attenuation` returns.
    pub closed spec fn spec_attenuation(&self) -> ColorRGB {
        self.albedo
    }

    /// The ray that leaves `hit` along its normal bent by `bend`.
    pub open spec fn spec_scatter_with(hit: Hit, bend: Vec3) -> Option<Ray> {
        Some(Ray::spec_new(hit.point, hit.normal.spec_add(bend)))
    }

    /// What `scatter` may return: the ray of
    /// [`DiffuseLambert::spec_scatter_with`] for some random unit vector.
    pub open spec fn scatters(&self, in_ray: Ray, hit: Hit, out: Option<Ray>) -> bool {
        exists|x: Scalar, y: Scalar, z: Scalar|
            out == DiffuseLambert::spec_scatter_with(hit, #[trigger] Vec3::spec_random_unit(x, y, z))
    }

    /// The diffuse material of the given albedo.
    pub fn new(albedo: ColorRGB) -> (m: DiffuseLambert)
        ensures
            m.spec_attenuation() == albedo,
    {
        DiffuseLambert { albedo }
    }

    /// The scattered ray for the random unit vector `bend`.
    pub fn scatter_with(hit: &Hit, bend: Vec3) -> (out: Option<Ray>)
        ensures
            out == DiffuseLambert::spec_scatter_with(*hit, bend),
    {
        let dir: Vec3 = hit.normal.add(bend);
        Some(Ray::new(&hit.point, &dir))
    }

    /// The part of the light of each channel that the material passes on.
    pub fn attenuation(&self) -> (albedo: &ColorRGB)
        ensures
            *albedo == self.spec_attenuation(),
    {
        &self.albedo
    }

    /// Scatters the ray that met the surface at `hit` about the normal, with
    /// a random unit vector drawn from `rand`.
    pub fn scatter(&self, in_ray: &Ray, hit: &Hit, rand: &mut Rand) -> (out: Option<Ray>)
        ensures
            self.scatters(*in_ray, *hit, out),
    {
        let random_unit: Vec3 = Vec3::random_unit(rand);
        DiffuseLambert::scatter_with(hit, random_unit)
    }

    /// The light that the material gives off.
    pub fn emit(&self) -> (light: ColorRGB)
        ensures
            light == spec_black(),
    {
        black()
    }
}

impl MaterialBase for DiffuseLambert {
    open spec fn spec_attenuation(&self) -> ColorRGB {
        DiffuseLambert::spec_attenuation(self)
    }

    open spec fn spec_emit(&self) -> ColorRGB {
        spec_black()
    }

    open spec fn scatters(&self, in_ray: Ray, hit: Hit, out: Option<Ray>) -> bool {
        DiffuseLambert::scatters(self, in_ray, hit, out)
    }

    fn attenuation(&self) -> (albedo: &ColorRGB) {
        DiffuseLambert::attenuation(self)
    }

    fn scatter(&self, in_ray: &Ray, hit: &Hit, rand: &mut Rand) -> (out: Option<Ray>) {
        DiffuseLambert::scatter(self, in_ray, hit, rand)
    }

    fn emit(&self) -> (light: ColorRGB) {
        DiffuseLambert::emit(self)
    }
}

impl Material for DiffuseLambert {

}

impl Reflective {
    #[verifier::type_invariant]
    spec fn rough_within_unit(self) -> bool {
        spec_unit_interval(self.roughness)
    }

    /// What `attenuation` returns.
    pub closed spec fn spec_attenuation(&self) -> ColorRGB {
        self.albedo
    }

    /// The roughness, between zero and one.
    pub closed spec fn roughness(self) -> Scalar {
        self.roughness
    }

    /// The mirrored ray, bent by `bend` times the roughness; none where that
    /// ray would enter the surface.
    pub open spec fn spec_scatter_with(self, in_ray: Ray, hit: Hit, bend: Vec3) -> Option<Ray> {
        let scattered = Ray::spec_new(
            hit.point,
            in_ray.dir.spec_reflect(hit.normal).spec_add(bend.spec_scale(self.roughness())),
        );
        if scattered.dir.spec_dot(hit.normal)@ > 0 {
            Some(scattered)
        } else {
            None
        }
    }

    /// What `scatter` may return: the outcome of
    /// [`Reflective::spec_scatter_with`] for some random unit vector.
    pub open spec fn scatters(&self, in_ray: Ray, hit: Hit, out: Option<Ray>) -> bool {
        exists|x: Scalar, y: Scalar, z: Scalar|
            out == self.spec_scatter_with(in_ray, hit, #[trigger] Vec3::spec_random_unit(x, y, z))
    }

    /// The metal of the given colour, with the roughness clamped to the
    /// unit interval.
    pub fn new(albedo: ColorRGB, roughness: Scalar) -> (m: Reflective)
        ensures
            m.spec_attenuation() == albedo,
            m.roughness() == spec_f_clamp(roughness, Scalar::of(0), Scalar::of(1_000_000)),
            spec_unit_interval(m.roughness()),
    {
        Reflective { albedo, roughness: f_clamp(roughness, Scalar::zero(), Scalar::one()) }
    }

    /// The scattered ray for the random unit vector `bend`.
    pub fn scatter_with(&self, in_ray: &Ray, hit: &Hit, bend: Vec3) -> (out: Option<Ray>)
        ensures
            out == self.spec_scatter_with(*in_ray, *hit, bend),
    {
        let reflection_dir: Vec3 = in_ray.dir.reflect(&hit.normal);
        let scattered: Ray = Ray::new(
            &hit.point,
            &reflection_dir.add(bend.scale(self.roughness)),
        );
        if scattered.dir.dot(&hit.normal).raw > 0 {
            Some(scattered)
        } else {
            None
        }
    }

    /// The part of the light of each channel that the material passes on.
    pub fn attenuation(&self) -> (albedo: &ColorRGB)
        ensures
            *albedo == self.spec_attenuation(),
    {
        &self.albedo
    }

    /// Mirrors the ray that met the surface at `hit`, with a random unit
    /// vector drawn from `rand`.
    pub fn scatter(&self, in_ray: &Ray, hit: &Hit, rand: &mut Rand) -> (out: Option<Ray>)
        ensures
            self.scatters(*in_ray, *hit, out),
    {
        let random_unit: Vec3 = Vec3::random_unit(rand);
        self.scatter_with(in_ray, hit, random_unit)
    }

    /// The light that the material gives off.
    pub fn emit(&self) -> (light: ColorRGB)
        ensures
            light == spec_black(),
    {
        black()
    }
}

impl MaterialBase for Reflective {
    open spec fn spec_attenuation(&self) -> ColorRGB {
        Reflective::spec_attenuation(self)
    }

    open spec fn spec_emit(&self) -> ColorRGB {
        spec_black()
    }

    open spec fn scatters(&self, in_ray: Ray, hit: Hit, out: Option<Ray>) -> bool {
        Reflective::scatters(self, in_ray, hit, out)
    }

    fn attenuation(&self) -> (albedo: &ColorRGB) {
        Reflective::attenuation(self)
    }

    fn scatter(&self, in_ray: &Ray, hit: &Hit, rand: &mut Rand) -> (out: Option<Ray>) {
        Reflective::scatter(self, in_ray, hit, rand)
    }

    fn emit(&self) -> (light: ColorRGB) {
        Reflective::emit(self)
    }
}

impl Material for Reflective {

}

impl Translucent {
    #[verifier::type_invariant]
    spec fn denser_than_air(self) -> bool {
        self.ref_index@ >= REF_INDEX_OF_AIR && spec_unit_interval(self.roughness)
    }

    /// What `attenuation` returns.
    pub closed spec fn spec_attenuation(&self) -> ColorRGB {
        self.albedo
    }

    /// The refractive index.
    pub closed spec fn ref_index(self) -> Scalar {
        self.ref_index
    }

    /// The roughness, between zero and one.
    pub closed spec fn roughness(self) -> Scalar {
        self.roughness
    }

    /// The direction of `in_ray` behind the surface: from air into the
    /// material where the ray came from outside, else from the material
    /// into air.
    pub open spec fn spec_refraction(self, in_ray: Ray, hit: Hit, sample: Scalar) -> Vec3 {
        if hit.outer {
            in_ray.dir.spec_refract(
                hit.normal,
                Scalar::of(REF_INDEX_OF_AIR as int),
                self.ref_index(),
                sample,
            )
        } else {
            in_ray.dir.spec_refract(
                hit.normal,
                self.ref_index(),
                Scalar::of(REF_INDEX_OF_AIR as int),
                sample,
            )
        }
    }

    /// The ray that leaves `hit` in the direction `refraction`, blended by
    /// the roughness with the normal bent by `bend`.
    pub open spec fn spec_scatter_with(self, hit: Hit, refraction: Vec3, bend: Vec3) -> Option<Ray> {
        Some(
            Ray::spec_new(
                hit.point,
                Vec3::spec_lerp(refraction, hit.normal.spec_add(bend), self.roughness()),
            ),
        )
    }

    /// What `scatter` may return: the ray of
    /// [`Translucent::spec_scatter_with`] for the refraction decided by some
    /// sample and for some random unit vector.
    pub open spec fn scatters(&self, in_ray: Ray, hit: Hit, out: Option<Ray>) -> bool {
        exists|sample: Scalar, x: Scalar, y: Scalar, z: Scalar|
            out == #[trigger] self.spec_scatter_with(
                hit,
                self.spec_refraction(in_ray, hit, sample),
                Vec3::spec_random_unit(x, y, z),
            )
    }

    /// The dielectric of the given colour, with a refractive index of at
    /// least that of air and the roughness clamped to the unit interval.
    pub fn new(albedo: ColorRGB, ref_index: Scalar, roughness: Scalar) -> (m: Translucent)
        ensures
            m.spec_attenuation() == albedo,
            m.ref_index() == ref_index.spec_max(Scalar::of(REF_INDEX_OF_AIR as int)),
            m.roughness() == spec_f_clamp(roughness, Scalar::of(0), Scalar::of(1_000_000)),
            spec_unit_interval(m.roughness()),
    {
        Translucent {
            albedo,
            ref_index: if ref_index.raw < REF_INDEX_OF_AIR {
                Scalar::from_raw(REF_INDEX_OF_AIR)
            } else {
                ref_index
            },
            roughness: f_clamp(roughness, Scalar::zero(), Scalar::one()),
        }
    }

    /// The refractive index.
    pub fn get_refractive_index(&self) -> (index: Scalar)
        ensures
            index == self.ref_index(),
            index@ >= REF_INDEX_OF_AIR,
    {
        proof {
            use_type_invariant(self);
        }
        self.ref_index
    }

    /// The scattered ray for the direction `refraction` behind the surface
    /// and the random unit vector `bend`.
    pub fn scatter_with(&self, hit: &Hit, refraction: Vec3, bend: Vec3) -> (out: Option<Ray>)
        ensures
            out == self.spec_scatter_with(*hit, refraction, bend),
    {
        Some(
            Ray::new(&hit.point, &Vec3::lerp(refraction, hit.normal.add(bend), self.roughness)),
        )
    }

    /// The part of the light of each channel that the material passes on.
    pub fn attenuation(&self) -> (albedo: &ColorRGB)
        ensures
            *albedo == self.spec_attenuation(),
    {
        &self.albedo
    }

    /// Refracts or mirrors the ray that met the surface at `hit`, with a
    /// sample and a random unit vector drawn from `rand`.
    pub fn scatter(&self, in_ray: &Ray, hit: &Hit, rand: &mut Rand) -> (out: Option<Ray>)
        ensures
            self.scatters(*in_ray, *hit, out),
    {
        let air: Scalar = Scalar::from_raw(REF_INDEX_OF_AIR);
        let refraction_dir: Vec3 = if hit.outer {
            in_ray.dir.refract(&hit.normal, air, self.ref_index, rand)
        } else {
            in_ray.dir.refract(&hit.normal, self.ref_index, air, rand)
        };
        let random_unit: Vec3 = Vec3::random_unit(rand);
        proof {
            let sample = if hit.outer {
                choose|sample: Scalar|
                    refraction_dir == #[trigger] in_ray.dir.spec_refract(
                        hit.normal,
                        air,
                        self.ref_index,
                        sample,
                    )
            } else {
                choose|sample: Scalar|
                    refraction_dir == #[trigger] in_ray.dir.spec_refract(
                        hit.normal,
                        self.ref_index,
                        air,
                        sample,
                    )
            };
            let (x, y, z) = choose|x: Scalar, y: Scalar, z: Scalar|
                random_unit == #[trigger] Vec3::spec_random_unit(x, y, z);
            assert(self.spec_scatter_with(*hit, refraction_dir, random_unit)
                == self.spec_scatter_with(
                *hit,
                self.spec_refraction(*in_ray, *hit, sample),
                Vec3::spec_random_unit(x, y, z),
            ));
        }
        self.scatter_with(hit, refraction_dir, random_unit)
    }

    /// The light that the material gives off.
    pub fn emit(&self) -> (light: ColorRGB)
        ensures
            light == spec_black(),
    {
        black()
    }
}

impl MaterialBase for Translucent {
    open spec fn spec_attenuation(&self) -> ColorRGB {
        Translucent::spec_attenuation(self)
    }

    open spec fn spec_emit(&self) -> ColorRGB {
        spec_black()
    }

    open spec fn scatters(&self, in_ray: Ray, hit: Hit, out: Option<Ray>) -> bool {
        Translucent::scatters(self, in_ray, hit, out)
    }

    fn attenuation(&self) -> (albedo: &ColorRGB) {
        Translucent::attenuation(self)
    }

    fn scatter(&self, in_ray: &Ray, hit: &Hit, rand: &mut Rand) -> (out: Option<Ray>) {
        Translucent::scatter(self, in_ray, hit, rand)
    }

    fn emit(&self) -> (light: ColorRGB) {
        Translucent::emit(self)
    }
}

impl Material for Translucent {

}

impl Emissive {
    #[verifier::type_invariant]
    spec fn not_dark(self) -> bool {
        self.intensity@ >= 0
    }

    /// What `attenuation` returns.
    pub closed spec fn spec_attenuation(&self) -> ColorRGB {
        self.albedo
    }

    /// The intensity of the light.
    pub closed spec fn intensity(self) -> Scalar {
        self.intensity
    }

    /// The white light of the stored intensity.
    pub open spec fn spec_emit(&self) -> ColorRGB {
        Vec3(self.intensity(), self.intensity(), self.intensity())
    }

    /// The light of the given colour and intensity; a negative intensity
    /// counts as none.
    pub fn new(albedo: ColorRGB, intensity: Scalar) -> (m: Emissive)
        ensures
            m.spec_attenuation() == albedo,
            m.intensity() == intensity.spec_max(Scalar::of(0)),
    {
        Emissive {
            albedo,
            intensity: if intensity.raw < 0 {
                Scalar::zero()
            } else {
                intensity
            },
        }
    }

    /// The part of the light of each channel that the material passes on.
    pub fn attenuation(&self) -> (albedo: &ColorRGB)
        ensures
            *albedo == self.spec_attenuation(),
    {
        &self.albedo
    }

    /// A light scatters nothing.
    pub fn scatter(&self, in_ray: &Ray, hit: &Hit, rand: &mut Rand) -> (out: Option<Ray>)
        ensures
            out is None,
    {
        None
    }

    /// The light that the material gives off.
    pub fn emit(&self) -> (light: ColorRGB)
        ensures
            light == self.spec_emit(),
    {
        ColorRGB::new(self.intensity, self.intensity, self.intensity)
    }
}

impl MaterialBase for Emissive {
    open spec fn spec_attenuation(&self) -> ColorRGB {
        Emissive::spec_attenuation(self)
    }

    open spec fn spec_emit(&self) -> ColorRGB {
        Emissive::spec_emit(self)
    }

    open spec fn scatters(&self, in_ray: Ray, hit: Hit, out: Option<Ray>) -> bool {
        out is None
    }

    fn attenuation(&self) -> (albedo: &ColorRGB) {
        Emissive::attenuation(self)
    }

    fn scatter(&self, in_ray: &Ray, hit: &Hit, rand: &mut Rand) -> (out: Option<Ray>) {
        Emissive::scatter(self, in_ray, hit, rand)
    }

    fn emit(&self) -> (light: ColorRGB) {
        Emissive::emit(self)
    }
}

impl Material for Emissive {

}

/// Any of the materials.
#[derive(Clone, Copy, Debug)]
pub enum Surface {
    Diffuse(DiffuseLambert),
    Reflective(Reflective),
    Translucent(Translucent),
    Emissive(Emissive),
}

impl Surface {
    /// What `attenuation` returns.
    pub open spec fn spec_attenuation(&self) -> ColorRGB {
        match *self {
            Surface::Diffuse(m) => m.spec_attenuation(),
            Surface::Reflective(m) => m.spec_attenuation(),
            Surface::Translucent(m) => m.spec_attenuation(),
            Surface::Emissive(m) => m.spec_attenuation(),
        }
    }

    /// What `emit` returns.
    pub open spec fn spec_emit(&self) -> ColorRGB {
        match *self {
            Surface::Emissive(m) => m.spec_emit(),
            _ => spec_black(),
        }
    }

    /// What `scatter` may return: what the material may.
    pub open spec fn scatters(&self, in_ray: Ray, hit: Hit, out: Option<Ray>) -> bool {
        match *self {
            Surface::Diffuse(m) => m.scatters(in_ray, hit, out),
            Surface::Reflective(m) => m.scatters(in_ray, hit, out),
            Surface::Translucent(m) => m.scatters(in_ray, hit, out),
            Surface::Emissive(m) => out is None,
        }
    }

    /// The part of the light of each channel that the material passes on.
    pub fn attenuation(&self) -> (albedo: &ColorRGB)
        ensures
            *albedo == self.spec_attenuation(),
    {
        match self {
            Surface::Diffuse(m) => m.attenuation(),
            Surface::Reflective(m) => m.attenuation(),
            Surface::Translucent(m) => m.attenuation(),
            Surface::Emissive(m) => m.attenuation(),
        }
    }

    /// The ray that leaves the hit, if the light goes on.
    pub fn scatter(&self, in_ray: &Ray, hit: &Hit, rand: &mut Rand) -> (out: Option<Ray>)
        ensures
            self.scatters(*in_ray, *hit, out),
    {
        match self {
            Surface::Diffuse(m) => m.scatter(in_ray, hit, rand),
            Surface::Reflective(m) => m.scatter(in_ray, hit, rand),
            Surface::Translucent(m) => m.scatter(in_ray, hit, rand),
            Surface::Emissive(m) => m.scatter(in_ray, hit, rand),
        }
    }

    /// The light that the material gives off.
    pub fn emit(&self) -> (light: ColorRGB)
        ensures
            light == self.spec_emit(),
    {
        match self {
            Surface::Diffuse(m) => m.emit(),
            Surface::Reflective(m) => m.emit(),
            Surface::Translucent(m) => m.emit(),
            Surface::Emissive(m) => m.emit(),
        }
    }
}

} // verus!
