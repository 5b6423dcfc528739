//! The sky: what a ray that escapes the scene returns. Numbers are bit patterns.

use crate::bits::{Vec3, Vec4};
use vstd::prelude::*;

verus! {

/// Where the sky's light comes from.
#[derive(Clone, Copy, Debug, PartialEq, Eq, Structural)]
pub enum Sky {
    /// One flat radiance.
    Color { radiance: Vec3 },
    /// An equirectangular image, scaled.
    Hdr { image: u64, scale: u32 },
    /// An analytic clear sky.
    Procedural,
}

impl Default for Sky {
    fn default() -> (r: Self)
        ensures
            r == Sky::Procedural,
    {
        Sky::Procedural
    }
}

impl Sky {
    /// The number that the shaders know the source by.
    pub open spec fn spec_mode(self) -> u32 {
        match self {
            Sky::Color { .. } => 0,
            Sky::Hdr { .. } => 1,
            Sky::Procedural => 2,
        }
    }

    /// The number that the shaders know the source by.
    pub fn mode(&self) -> (r: u32)
        ensures
            r == self.spec_mode(),
    {
        match self {
            Sky::Color { .. } => 0,
            Sky::Hdr { .. } => 1,
            Sky::Procedural => 2,
        }
    }

    /// The image of the sky, where it has one.
    pub open spec fn spec_image(self) -> Option<u64> {
        match self {
            Sky::Hdr { image, .. } => Some(image),
            _ => None,
        }
    }

    /// The image of the sky, where it has one.
    pub fn image(&self) -> (r: Option<u64>)
        ensures
            r == self.spec_image(),
    {
        match self {
            Sky::Hdr { image, .. } => Some(*image),
            _ => None,
        }
    }

    /// What the shaders scale the source by: the flat radiance itself, the image's scale in
    /// every component, or 1.
    pub open spec fn spec_color(self) -> Vec4 {
        match self {
            Sky::Color { radiance } => Vec4 {
                x: radiance.x,
                y: radiance.y,
                z: radiance.z,
                w: 0,
            },
            Sky::Hdr { scale, .. } => Vec4 { x: scale, y: scale, z: scale, w: scale },
            Sky::Procedural => Vec4 {
                x: 0x3F80_0000,
                y: 0x3F80_0000,
                z: 0x3F80_0000,
                w: 0x3F80_0000,
            },
        }
    }

    /// What the shaders scale the source by.
    pub fn color(&self) -> (r: Vec4)
        ensures
            r == self.spec_color(),
    {
        match self {
            Sky::Color { radiance } => Vec4 { x: radiance.x, y: radiance.y, z: radiance.z, w: 0 },
            Sky::Hdr { scale, .. } => Vec4 { x: *scale, y: *scale, z: *scale, w: *scale },
            Sky::Procedural => Vec4 {
                x: 0x3F80_0000,
                y: 0x3F80_0000,
                z: 0x3F80_0000,
                w: 0x3F80_0000,
            },
        }
    }

    /// The index of the texture that the shaders read the sky from: that of the image, as it
    /// was registered, and `white` while there is none.
    pub fn texture(&self, registered: Option<u32>, white: u32) -> (r: u32)
        ensures
            r == (match (self.spec_image(), registered) {
                (Some(_), Some(index)) => index,
                _ => white,
            }),
    {
        match (self.image(), registered) {
            (Some(_), Some(index)) => index,
            _ => white,
        }
    }
}

/// A sky is shown from an image exactly where it is one; a flat sky is as bright as it says, and a
/// computed one is not scaled.
pub proof fn lemma_sky(sky: Sky)
    ensures
        sky.spec_image() is Some <==> sky.spec_mode() == 1,
        sky.spec_mode() < 3,
        sky matches Sky::Color { radiance } ==> sky.spec_mode() == 0 && sky.spec_color().x
            == radiance.x && sky.spec_color().y == radiance.y && sky.spec_color().z == radiance.z,
        sky matches Sky::Hdr { image, scale } ==> sky.spec_image() == Some(image)
            && sky.spec_color().x == scale && sky.spec_color().y == scale && sky.spec_color().z
            == scale,
        sky is Procedural ==> sky.spec_mode() == 2 && sky.spec_color().x == 0x3F80_0000
            && sky.spec_color().y == 0x3F80_0000 && sky.spec_color().z == 0x3F80_0000,
{
}

} // verus!
