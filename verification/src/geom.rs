//! Geometry: bounding boxes, primitives and the objects built from them.
use crate::geom::hit::{
    AxisAlignedBoundingBox, Bounded, BoundedHittable, Extent, Hit, Hittable, HittableGroup,
};
use crate::geom::objects::{Icosahedron, Object, Prism, Volume};
use crate::geom::primitives::{Plane, Sphere, Triangle};
use crate::math::{Rand, Scalar};
use crate::vec::{Point3, Ray};
use vstd::prelude::*;

pub mod hit;
pub mod objects;
pub mod primitives;

verus! {

/// Any of the things that a scene can hold.
pub enum Shape {
    Sphere(Sphere),
    Plane(Plane),
    Triangle(Triangle),
    Prism(Prism),
    Icosahedron(Icosahedron),
    Object(Object),
    /// A medium inside a sphere.
    SphereVolume(Volume<Sphere>),
    /// A medium inside a prism.
    PrismVolume(Volume<Prism>),
    /// A medium inside a mesh.
    ObjectVolume(Volume<Object>),
}

/// A scene: its things behind one hierarchy.
pub type World = HittableGroup<Shape>;

impl Shape {
    /// Whether the shape answers a ray without drawing on chance: all but the
    /// media do.
    pub open spec fn is_deterministic(&self) -> bool {
        match self {
            Shape::SphereVolume(_) => false,
            Shape::PrismVolume(_) => false,
            Shape::ObjectVolume(_) => false,
            _ => true,
        }
    }

    /// What `is_hit` returns where it does not depend on chance.
    pub open spec fn spec_is_hit(&self, ray: Ray, t_min: Scalar, t_max: Scalar) -> Option<Hit> {
        match self {
            Shape::Sphere(s) => s.spec_is_hit(ray, t_min, t_max),
            Shape::Plane(s) => s.spec_is_hit(ray, t_min, t_max),
            Shape::Triangle(s) => s.spec_is_hit(ray, t_min, t_max),
            Shape::Prism(s) => s.spec_is_hit(ray, t_min, t_max),
            Shape::Icosahedron(s) => s.spec_is_hit(ray, t_min, t_max),
            Shape::Object(s) => s.spec_is_hit(ray, t_min, t_max),
            _ => None,
        }
    }

    /// What `surface_area` returns.
    pub open spec fn spec_surface_area(&self) -> Scalar {
        match self {
            Shape::Sphere(s) => s.spec_surface_area(),
            Shape::Plane(s) => s.spec_surface_area(),
            Shape::Triangle(s) => s.spec_surface_area(),
            Shape::Prism(s) => s.spec_surface_area(),
            Shape::Icosahedron(s) => s.spec_surface_area(),
            Shape::Object(s) => s.spec_surface_area(),
            Shape::SphereVolume(s) => s.boundary().spec_surface_area(),
            Shape::PrismVolume(s) => s.boundary().spec_surface_area(),
            Shape::ObjectVolume(s) => s.boundary().spec_surface_area(),
        }
    }

    /// What `bounding_box` returns.
    pub open spec fn spec_bounding_box(&self) -> Extent {
        match self {
            Shape::Sphere(s) => s.spec_bounding_box(),
            Shape::Plane(s) => s.spec_bounding_box(),
            Shape::Triangle(s) => s.spec_bounding_box(),
            Shape::Prism(s) => s.spec_bounding_box(),
            Shape::Icosahedron(s) => s.spec_bounding_box(),
            Shape::Object(s) => s.spec_bounding_box(),
            Shape::SphereVolume(s) => s.boundary().spec_bounding_box(),
            Shape::PrismVolume(s) => s.boundary().spec_bounding_box(),
            Shape::ObjectVolume(s) => s.boundary().spec_bounding_box(),
        }
    }

    /// Whether `hit` is one of the outcomes that `is_hit` may have: what
    /// `spec_is_hit` gives for a shape that does not depend on chance, and
    /// one of those of [`Volume::spec_scattered`] for a medium.
    pub open spec fn hits(&self, ray: Ray, t_min: Scalar, t_max: Scalar, hit: Option<Hit>) -> bool {
        match self {
            Shape::SphereVolume(v) => v.spec_scattered(ray, t_min, t_max, hit),
            Shape::PrismVolume(v) => v.spec_scattered(ray, t_min, t_max, hit),
            Shape::ObjectVolume(v) => v.spec_scattered(ray, t_min, t_max, hit),
            _ => hit == self.spec_is_hit(ray, t_min, t_max),
        }
    }

    /// Where `ray` meets the shape within the window, if it does.
    pub fn is_hit(&self, ray: &Ray, t_min: Scalar, t_max: Scalar, rand: &mut Rand) -> (hit: Option<
        Hit,
    >)
        ensures
            self.hits(*ray, t_min, t_max, hit),
    {
        match self {
            Shape::Sphere(s) => s.is_hit(ray, t_min, t_max),
            Shape::Plane(s) => s.is_hit(ray, t_min, t_max),
            Shape::Triangle(s) => s.is_hit(ray, t_min, t_max),
            Shape::Prism(s) => s.is_hit(ray, t_min, t_max, rand),
            Shape::Icosahedron(s) => s.is_hit(ray, t_min, t_max, rand),
            Shape::Object(s) => s.is_hit(ray, t_min, t_max, rand),
            Shape::SphereVolume(s) => s.is_hit(ray, t_min, t_max, rand),
            Shape::PrismVolume(s) => s.is_hit(ray, t_min, t_max, rand),
            Shape::ObjectVolume(s) => s.is_hit(ray, t_min, t_max, rand),
        }
    }

    /// The area of the surface of the shape.
    pub fn surface_area(&self) -> (area: Scalar)
        ensures
            area == self.spec_surface_area(),
    {
        match self {
            Shape::Sphere(s) => s.surface_area(),
            Shape::Plane(s) => s.surface_area(),
            Shape::Triangle(s) => s.surface_area(),
            Shape::Prism(s) => s.surface_area(),
            Shape::Icosahedron(s) => s.surface_area(),
            Shape::Object(s) => s.surface_area(),
            Shape::SphereVolume(s) => s.surface_area(),
            Shape::PrismVolume(s) => s.surface_area(),
            Shape::ObjectVolume(s) => s.surface_area(),
        }
    }

    /// The axis-aligned box that bounds it.
    pub fn bounding_box(&self) -> (b: AxisAlignedBoundingBox)
        ensures
            b@ == self.spec_bounding_box(),
    {
        match self {
            Shape::Sphere(s) => s.bounding_box(),
            Shape::Plane(s) => s.bounding_box(),
            Shape::Triangle(s) => s.bounding_box(),
            Shape::Prism(s) => s.bounding_box(),
            Shape::Icosahedron(s) => s.bounding_box(),
            Shape::Object(s) => s.bounding_box(),
            Shape::SphereVolume(s) => s.bounding_box(),
            Shape::PrismVolume(s) => s.bounding_box(),
            Shape::ObjectVolume(s) => s.bounding_box(),
        }
    }

    /// The point that stands for it where things are ordered in space.
    pub fn centroid(&self) -> (c: Point3)
        ensures
            c == self.spec_bounding_box().center(),
    {
        *self.bounding_box().center()
    }
}

impl Hittable for Shape {
    open spec fn is_deterministic(&self) -> bool {
        Shape::is_deterministic(self)
    }

    open spec fn spec_is_hit(&self, ray: Ray, t_min: Scalar, t_max: Scalar) -> Option<Hit> {
        Shape::spec_is_hit(self, ray, t_min, t_max)
    }

    open spec fn hits(&self, ray: Ray, t_min: Scalar, t_max: Scalar, hit: Option<Hit>) -> bool {
        Shape::hits(self, ray, t_min, t_max, hit)
    }

    proof fn lemma_hits_alone(&self, ray: Ray, t_min: Scalar, t_max: Scalar, hit: Option<Hit>) {
    }

    open spec fn spec_surface_area(&self) -> Scalar {
        Shape::spec_surface_area(self)
    }

    fn is_hit(&self, ray: &Ray, t_min: Scalar, t_max: Scalar, rand: &mut Rand) -> (hit: Option<
        Hit,
    >) {
        Shape::is_hit(self, ray, t_min, t_max, rand)
    }

    fn surface_area(&self) -> (area: Scalar) {
        Shape::surface_area(self)
    }
}

impl Bounded for Shape {
    open spec fn spec_bounding_box(&self) -> Extent {
        Shape::spec_bounding_box(self)
    }

    open spec fn spec_centroid(&self) -> Point3 {
        Shape::spec_bounding_box(self).center()
    }

    fn bounding_box(&self) -> (b: AxisAlignedBoundingBox) {
        Shape::bounding_box(self)
    }

    fn centroid(&self) -> (c: Point3) {
        Shape::centroid(self)
    }
}

impl BoundedHittable for Shape {

}

} // verus!
