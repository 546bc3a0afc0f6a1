//! The colour that tells one walker from another on screen.

use vstd::prelude::*;
use rand::Rng;
use rand::rngs::ThreadRng;

verus! {

/// The opacity of every randomly drawn tag.
pub const TAG_ALPHA: u8 = 200;

/// The bound below which the colour channels of a random tag are drawn.
pub const CHANNEL_BOUND: i32 = 255;

/// The thread-local generator of `rand`, carried through as an opaque value.
#[verifier::external_type_specification]
#[verifier::external_body]
pub struct ExThreadRng(rand::rngs::ThreadRng);

/// Calls `rand::Rng::gen_range` on the half-open range from zero to `bound`.
/// The range must not be empty, or the call panics. Nothing is claimed of
/// the number drawn but that it lies in the range.
#[verifier::external_body]
fn draw_below(rng: &mut ThreadRng, bound: i32) -> (r: i32)
    requires
        0 < bound,
    ensures
        0 <= r < bound,
{
    rng.gen_range(0..bound)
}

/// A cosmetic tag: a colour with an opacity. It has no bearing on how a
/// walker moves.
#[derive(Clone, Copy, Debug, PartialEq, Eq, Structural)]
pub struct ColorTag {
    pub r: u8,
    pub g: u8,
    pub b: u8,
    pub a: u8,
}

impl ColorTag {
    /// Whether the tag is one that `random` can return.
    pub open spec fn is_random_tag(self) -> bool {
        &&& self.r < CHANNEL_BOUND
        &&& self.g < CHANNEL_BOUND
        &&& self.b < CHANNEL_BOUND
        &&& self.a == TAG_ALPHA
    }

    /// The tag made of three drawn channels, in the order red, green, blue.
    pub fn from_channels(r: i32, g: i32, b: i32) -> (tag: ColorTag)
        requires
            0 <= r < CHANNEL_BOUND,
            0 <= g < CHANNEL_BOUND,
            0 <= b < CHANNEL_BOUND,
        ensures
            tag == (ColorTag { r: r as u8, g: g as u8, b: b as u8, a: TAG_ALPHA }),
            tag.is_random_tag(),
    {
        ColorTag { r: r as u8, g: g as u8, b: b as u8, a: TAG_ALPHA }
    }

    /// Draws a tag for a new walker: each colour channel below the channel
    /// bound, the opacity fixed. Which colour comes out is left to the
    /// generator.
    pub fn random(rng: &mut ThreadRng) -> (tag: ColorTag)
        ensures
            tag.is_random_tag(),
    {
        let r: i32 = draw_below(rng, CHANNEL_BOUND);
        let g: i32 = draw_below(rng, CHANNEL_BOUND);
        let b: i32 = draw_below(rng, CHANNEL_BOUND);
        ColorTag::from_channels(r, g, b)
    }
}

} // verus!
