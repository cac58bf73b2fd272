//! The colours that the renderer names.
use crate::math::Scalar;
use crate::vec::{ColorRGB, Vec3};
use vstd::prelude::*;

verus! {

/// Black.
pub fn black() -> (c: ColorRGB)
    ensures
        c == Vec3(Scalar::of(0), Scalar::of(0), Scalar::of(0)),
{
    Vec3(Scalar::from_raw(0), Scalar::from_raw(0), Scalar::from_raw(0))
}

/// White.
pub fn white() -> (c: ColorRGB)
    ensures
        c == Vec3(Scalar::of(1_000_000), Scalar::of(1_000_000), Scalar::of(1_000_000)),
{
    Vec3(Scalar::from_raw(1_000_000), Scalar::from_raw(1_000_000), Scalar::from_raw(1_000_000))
}

/// The blue of the sky.
pub fn skyblue() -> (c: ColorRGB)
    ensures
        c == Vec3(Scalar::of(500_000), Scalar::of(700_000), Scalar::of(1_000_000)),
{
    Vec3(Scalar::from_raw(500_000), Scalar::from_raw(700_000), Scalar::from_raw(1_000_000))
}

} // verus!
