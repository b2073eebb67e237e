//! Inheritance by crossing: a child takes every bit of a trait from one of
//! its two parents, chosen by a random mask.

use vstd::prelude::*;
use rand::RngCore;
use rand_pcg::Pcg64;
use crate::random::low_byte;

verus! {

/// The generator that the crossings draw from.
#[verifier::external_type_specification]
#[verifier::external_body]
pub struct ExPcg64(rand_pcg::Lcg128Xsl64);

/// Draws the next 32 bits from the generator, by `RngCore::next_u32`. What
/// comes out depends on the generator's state, of which nothing is claimed.
#[verifier::external_body]
fn rand32(rng: &mut Pcg64) -> (r: u32) {
    rng.next_u32()
}

/// The bits of `x` where `mask` is set, and the bits of `y` where it is not.
pub open spec fn crossed32(x: u32, y: u32, mask: u32) -> u32 {
    (x & mask) | (y & !mask)
}

/// The bits of `x` where `mask` is set, and the bits of `y` where it is not.
pub open spec fn crossed8(x: u8, y: u8, mask: u8) -> u8 {
    (x & mask) | (y & !mask)
}

/// Crosses `x` and `y` under a given mask.
pub fn mix32(x: u32, y: u32, mask: u32) -> (child: u32)
    ensures
        child == crossed32(x, y, mask),
{
    assert((x & mask) + (y & !mask) == (x & mask) | (y & !mask)) by (bit_vector);
    (x & mask) + (y & !mask)
}

/// Crosses `x` and `y` under a given mask.
pub fn mix8(x: u8, y: u8, mask: u8) -> (child: u8)
    ensures
        child == crossed8(x, y, mask),
{
    assert((x & mask) + (y & !mask) == (x & mask) | (y & !mask)) by (bit_vector);
    (x & mask) + (y & !mask)
}

/// Chooses bits at random from each of `x` and `y`.
pub fn cross32(rng: &mut Pcg64, x: u32, y: u32) -> (child: u32)
    ensures
        exists|mask: u32| child == crossed32(x, y, mask),
{
    let r: u32 = rand32(rng);
    mix32(x, y, r)
}

/// Chooses bits at random from each of `x` and `y`. The mask is the lowest
/// byte of a draw of 32 bits.
pub fn cross8(rng: &mut Pcg64, x: u8, y: u8) -> (child: u8)
    ensures
        exists|mask: u8| child == crossed8(x, y, mask),
{
    let r: u8 = low_byte(rand32(rng));
    mix8(x, y, r)
}

/// Basic flavor preferences.
#[derive(Debug, PartialEq, Eq, Copy, Clone, Structural)]
pub enum Flavor {
    Sour,
    Sweet,
    Salty,
    Bitter,
    Umami,
}

impl Flavor {
    /// The flavor that a draw stands for: the draw counts through the five
    /// flavors in order, again and again.
    pub open spec fn of_draw(draw: u32) -> Flavor {
        if draw % 5 == 0 {
            Flavor::Sour
        } else if draw % 5 == 1 {
            Flavor::Sweet
        } else if draw % 5 == 2 {
            Flavor::Salty
        } else if draw % 5 == 3 {
            Flavor::Bitter
        } else {
            Flavor::Umami
        }
    }

    pub fn from_draw(draw: u32) -> (flavor: Flavor)
        ensures
            flavor == Flavor::of_draw(draw),
    {
        let r: u32 = draw % 5;
        if r == 0 {
            Flavor::Sour
        } else if r == 1 {
            Flavor::Sweet
        } else if r == 2 {
            Flavor::Salty
        } else if r == 3 {
            Flavor::Bitter
        } else {
            Flavor::Umami
        }
    }

    pub fn random_flavor(rng: &mut Pcg64) -> (flavor: Flavor)
        ensures
            exists|draw: u32| flavor == Flavor::of_draw(draw),
    {
        Flavor::from_draw(rand32(rng))
    }
}

/// A crossing takes each bit from one parent: where the parents agree, the
/// child agrees with both.
pub proof fn lemma_cross_of_equals(x: u32, mask: u32)
    ensures
        crossed32(x, x, mask) == x,
{
    assert((x & mask) | (x & !mask) == x) by (bit_vector);
}

} // verus!
