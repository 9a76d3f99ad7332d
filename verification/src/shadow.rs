//! The shadow map's gate: how fine a map the key light casts into, if any.

use vstd::prelude::*;

use crate::float::F32;

verus! {

/// How good the shadows are.
#[derive(Clone, Copy, Debug, PartialEq, Eq, Structural, Hash)]
pub enum ShadowQuality {
    Off,
    Low,
    High,
}

/// The side of the map, in texels.
pub open spec fn map_side(quality: ShadowQuality) -> Option<u32> {
    match quality {
        ShadowQuality::Off => None,
        ShadowQuality::Low => Some(512),
        ShadowQuality::High => Some(2048),
    }
}

impl ShadowQuality {
    /// The side of the map in texels, or nothing where there is none to draw.
    pub fn resolution(self) -> (r: Option<u32>)
        ensures
            r == map_side(self),
    {
        match self {
            ShadowQuality::Off => None,
            ShadowQuality::Low => Some(512),
            ShadowQuality::High => Some(2048),
        }
    }
}

impl Default for ShadowQuality {
    fn default() -> (r: ShadowQuality)
        ensures
            r == ShadowQuality::Off,
    {
        ShadowQuality::Off
    }
}

/// How far the shadows reach, and how far a surface is held off its own.
#[derive(Clone, Copy, Debug, PartialEq, Eq, Structural)]
pub struct ShadowSettings {
    /// Half the side of the box that the light sees, in metres.
    pub extent: F32,
    /// How far every surface is held off, as a part of the depth of the box.
    pub bias: F32,
    /// How much farther a surface is held off that the light only grazes.
    pub slope_bias: F32,
}

impl Default for ShadowSettings {
    fn default() -> (r: ShadowSettings)
        ensures
            r == (ShadowSettings {
                extent: F32(0x41a0_0000),
                bias: F32(0x3ac4_9ba6),
                slope_bias: F32(0x3b83_126f),
            }),
    {
        ShadowSettings {
            extent: F32(0x41a0_0000),
            bias: F32(0x3ac4_9ba6),
            slope_bias: F32(0x3b83_126f),
        }
    }
}

} // verus!
