//! Draws from the random number generator of the thread.

use vstd::prelude::*;
use rand::rngs::ThreadRng;
use rand::Rng;

verus! {

/// The handle to the generator of the thread.
#[verifier::external_type_specification]
#[verifier::external_body]
pub struct ExThreadRng(rand::rngs::ThreadRng);

/// Gets the handle to the generator of the thread, by `rand::thread_rng`.
/// Nothing is claimed of the handle.
#[verifier::external_body]
pub(crate) fn thread_rng() -> (rng: ThreadRng) {
    rand::thread_rng()
}

/// Draws 32 bits, by `Rng::gen`. Nothing is claimed of what comes out.
#[verifier::external_body]
pub(crate) fn gen_u32(rng: &mut ThreadRng) -> (draw: u32) {
    rng.gen::<u32>()
}

/// Draws a number below `bound`, by `Rng::gen_range` on the range from zero
/// up to, and without, `bound`. The draw lies in that range; nothing else is
/// claimed of it.
#[verifier::external_body]
pub(crate) fn gen_below(rng: &mut ThreadRng, bound: u32) -> (draw: u32)
    requires
        bound > 0,
    ensures
        draw < bound,
{
    rng.gen_range(0..bound)
}

/// The lowest byte of a draw of 32 bits.
pub(crate) fn gen_u8(rng: &mut ThreadRng) -> (draw: u8) {
    low_byte(gen_u32(rng))
}

/// The lowest byte of `draw`: what is left of it after division by 256.
pub fn low_byte(draw: u32) -> (byte: u8)
    ensures
        byte == draw % 256,
{
    assert(draw & 0xff == draw % 256) by (bit_vector);
    (draw & 0xff) as u8
}

} // verus!
