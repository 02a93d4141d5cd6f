use vstd::prelude::*;

use crate::buffer::{
    lemma_block, lemma_target_source, scaled_byte, source_index, target_index, LedDmaBuffer,
};
use crate::color::RgbLedColor;

verus! {

/// At full brightness a channel byte is sent unchanged, and at zero
/// brightness it is sent as zero.
pub proof fn lemma_brightness_bounds(byte: u8)
    ensures
        scaled_byte(byte, 100) == byte,
        scaled_byte(byte, 0) == 0,
{
}

/// Scaling rounds down: the scaled byte is the largest integer whose
/// hundredfold does not exceed `byte * brightness`.
pub proof fn lemma_brightness_rounds_down(byte: u8, brightness: u8)
    ensures
        100 * scaled_byte(byte, brightness) <= byte * brightness < 100 * scaled_byte(
            byte,
            brightness,
        ) + 100,
{
}

/// With a rotation, sample `i` of `n` lands in block `(i + rotate) mod n`:
/// the bits of that block are the sample's encoding.
pub proof fn lemma_rotation_places_sample<T: RgbLedColor, const N: usize>(
    buffer: LedDmaBuffer<N>,
    leds: Seq<T>,
    rotate: Option<i32>,
    brightness: u8,
    i: int,
    j: int,
)
    requires
        buffer.wf(),
        LedDmaBuffer::<N>::fits(leds),
        0 <= i < leds.len(),
        0 <= j < 8 * T::channel_count(),
    ensures
        buffer.populated(leds, rotate, brightness)[target_index(i, rotate, leds.len() as int) * (8
            * T::channel_count()) + j] == buffer.encode(
            leds[i].channels(buffer.composition()),
            brightness,
        )[j],
{
    let n = leds.len() as int;
    let bc = (8 * T::channel_count()) as int;
    let e = target_index(i, rotate, n);
    lemma_target_source(i, rotate, n);
    lemma_block(e * bc + j, e, bc);
    assert(e * bc + bc <= n * bc) by (nonlinear_arith)
        requires
            e < n,
            bc > 0,
    ;
}

/// A left rotation by `r` undoes a right rotation by `r`.
pub proof fn lemma_opposite_rotations_invert(i: int, r: i32, n: int)
    requires
        0 <= i < n,
        r > i32::MIN,
    ensures
        target_index(target_index(i, Some(r), n), Some((-r) as i32), n) == i,
{
    lemma_target_source(i, Some(r), n);
    assert(target_index(i, Some(r), n) - r == target_index(i, Some(r), n) + (-r) as i32);
    assert(source_index(target_index(i, Some(r), n), Some(r), n) == target_index(
        target_index(i, Some(r), n),
        Some((-r) as i32),
        n,
    ));
}

/// Writing the same samples again, with the same rotation and brightness,
/// leaves the duty values as the first write left them.
pub proof fn lemma_populate_idempotent<T: RgbLedColor, const N: usize>(
    first: LedDmaBuffer<N>,
    second: LedDmaBuffer<N>,
    leds: Seq<T>,
    rotate: Option<i32>,
    brightness: u8,
)
    requires
        first.wf(),
        second.same_settings(&first),
        second.values() == first.populated(leds, rotate, brightness),
    ensures
        second.populated(leds, rotate, brightness) == second.values(),
{
    assert(second.populated(leds, rotate, brightness) =~= second.values());
}

} // verus!
