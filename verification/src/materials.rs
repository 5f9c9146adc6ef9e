//! The material tag and the attenuation rule it fixes.
//!
//! A material is one of three closed variants. Which color a scatter event
//! attenuates by is decided by the tag alone, never by the stochastic
//! reflect/refract branch taken afterwards: diffuse and reflective surfaces
//! attenuate by their own albedo, a dielectric always by opaque white.

use vstd::prelude::*;

verus! {

/// Tag of the closed material family.
#[derive(Clone, Copy, Debug)]
pub enum MaterialType {
    LAMBERTIAN,
    METAL,
    DIELECTRIC,
}

/// Which color a scatter event multiplies the path's throughput by.
#[derive(Clone, Copy, Debug)]
pub enum AttenuationRule {
    /// The surface's own albedo color.
    Albedo,
    /// The constant color (1,1,1): the medium absorbs nothing.
    OpaqueWhite,
}

impl MaterialType {
    /// The attenuation a scatter of this material applies. A dielectric
    /// attenuates by opaque white whatever branch (reflection or
    /// refraction) its scatter takes; the other materials attenuate by
    /// their albedo.
    pub fn attenuation_rule(&self) -> (r: AttenuationRule)
        ensures
            r is OpaqueWhite <==> self is DIELECTRIC,
    {
        match self {
            MaterialType::LAMBERTIAN => AttenuationRule::Albedo,
            MaterialType::METAL => AttenuationRule::Albedo,
            MaterialType::DIELECTRIC => AttenuationRule::OpaqueWhite,
        }
    }
}

} // verus!
