//! The camera: a pinhole with an optional thin lens.
use crate::math::{Rand, Scalar};
use crate::vec::{Point3, Ray, Vec3};
use vstd::prelude::*;

verus! {

/// A camera: where it stands, the top left corner of its viewport, the size
/// of the viewport, the radius of its lens, and its own three axes.
#[derive(Clone, Copy, Debug)]
pub struct Camera {
    location: Point3,
    top_left: Point3,
    vp_width: Scalar,
    vp_height: Scalar,
    lens_radius: Scalar,
    local_system: (Point3, Point3, Point3),
}

impl Camera {
    /// The camera at `location` that looks at `look_at`, whose viewport lies
    /// one focal length ahead, the distance to `look_at`. The third axis of
    /// the camera points from `look_at` to the camera, the first to the
    /// right, the second up. Half the width of the viewport is the focal
    /// length times `half_fov_tan`, the tangent of half the field of view;
    /// half its height is that divided by the ratio of `vp_width` to
    /// `vp_height`.
    pub closed spec fn spec_new(
        location: Point3,
        look_at: Point3,
        half_fov_tan: Scalar,
        aperture: Scalar,
        vp_width: u32,
        vp_height: u32,
    ) -> Camera {
        let focal_length = location.spec_sub(look_at).spec_norm();
        let aspect_ratio = Scalar::of(vp_width * 1_000_000).spec_div(
            Scalar::of(vp_height * 1_000_000),
        );
        let vp_x_max = focal_length.spec_mul(half_fov_tan);
        let vp_y_max = vp_x_max.spec_div(aspect_ratio);
        let local_k = location.spec_sub(look_at).spec_unit();
        let local_i = Vec3(Scalar::of(0), Scalar::of(1_000_000), Scalar::of(0)).spec_cross(
            local_k,
        ).spec_unit();
        let local_j = local_k.spec_cross(local_i);
        Camera {
            top_left: location.spec_sub(local_i.spec_scale(vp_x_max)).spec_add(
                local_j.spec_scale(vp_y_max),
            ).spec_sub(local_k.spec_scale(focal_length)),
            location,
            vp_width: Scalar::of(2_000_000).spec_mul(vp_x_max),
            vp_height: Scalar::of(2_000_000).spec_mul(vp_y_max),
            lens_radius: Scalar::of(500_000).spec_mul(aperture),
            local_system: (local_i, local_j, local_k),
        }
    }

    /// The ray through the point of the viewport `u` of its width from the
    /// left and `v` of its height from the top, from the point of the lens
    /// that lies in the direction `disc` from its middle.
    pub closed spec fn spec_ray_with(self, u: Scalar, v: Scalar, disc: Vec3) -> Ray {
        let random_vec = disc.spec_scale(self.lens_radius);
        let offset = self.local_system.0.spec_scale(random_vec.0).spec_add(
            self.local_system.1.spec_scale(random_vec.1),
        );
        let dir = self.top_left.spec_add(
            self.local_system.0.spec_scale(u.spec_mul(self.vp_width)),
        ).spec_sub(self.local_system.1.spec_scale(v.spec_mul(self.vp_height))).spec_sub(
            self.location,
        ).spec_sub(offset);
        Ray::spec_new(self.location.spec_add(offset), dir)
    }

    /// The camera of [`Camera::spec_new`].
    pub fn new(
        location: Point3,
        look_at: &Point3,
        half_fov_tan: Scalar,
        aperture: Scalar,
        vp_width: u32,
        vp_height: u32,
    ) -> (camera: Camera)
        ensures
            camera == Camera::spec_new(
                location,
                *look_at,
                half_fov_tan,
                aperture,
                vp_width,
                vp_height,
            ),
    {
        let focal_length: Scalar = location.sub(*look_at).norm();
        let aspect_ratio: Scalar = Scalar::from_count(vp_width as usize).div(
            Scalar::from_count(vp_height as usize),
        );
        let vp_x_max: Scalar = focal_length.mul(half_fov_tan);
        let vp_y_max: Scalar = vp_x_max.div(aspect_ratio);
        let local_k: Vec3 = location.sub(*look_at).unit();
        let local_i: Vec3 = Vec3::j().cross(&local_k).unit();
        let local_j: Vec3 = local_k.cross(&local_i);
        Camera {
            top_left: location.sub(local_i.scale(vp_x_max)).add(local_j.scale(vp_y_max)).sub(
                local_k.scale(focal_length),
            ),
            location,
            vp_width: Scalar::from_raw(2_000_000).mul(vp_x_max),
            vp_height: Scalar::from_raw(2_000_000).mul(vp_y_max),
            lens_radius: Scalar::from_raw(500_000).mul(aperture),
            local_system: (local_i, local_j, local_k),
        }
    }

    /// The ray through a point of the viewport from a given point of the
    /// lens.
    pub fn ray_with(&self, u: Scalar, v: Scalar, disc: Vec3) -> (ray: Ray)
        ensures
            ray == self.spec_ray_with(u, v, disc),
    {
        let random_vec: Vec3 = disc.scale(self.lens_radius);
        let offset: Vec3 = self.local_system.0.scale(random_vec.0).add(
            self.local_system.1.scale(random_vec.1),
        );
        let dir: Vec3 = self.top_left.add(self.local_system.0.scale(u.mul(self.vp_width))).sub(
            self.local_system.1.scale(v.mul(self.vp_height)),
        ).sub(self.location).sub(offset);
        Ray::new(&self.location.add(offset), &dir)
    }

    /// The ray through a point of the viewport from a random point of the
    /// rim of the lens: that of [`Camera::ray_with`] for two samples drawn
    /// from `rand`.
    pub fn ray(&self, u: Scalar, v: Scalar, rand: &mut Rand) -> (ray: Ray)
        ensures
            exists|x: Scalar, y: Scalar|
                ray == self.spec_ray_with(u, v, #[trigger] Vec3::spec_random_in_unit_disc(x, y)),
    {
        let disc: Vec3 = Vec3::random_in_unit_disc(rand);
        self.ray_with(u, v, disc)
    }
}

} // verus!
