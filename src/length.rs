use vstd::prelude::*;

verus! {

/// Length of a duty buffer that holds `led_length` LEDs of `bits_per_led` bits
/// each, followed by `reset_length` zero entries for the reset period.
pub fn calc_dma_buffer_length(bits_per_led: usize, led_length: usize, reset_length: usize) -> (r:
    usize)
    requires
        bits_per_led * led_length + reset_length <= usize::MAX,
    ensures
        r == bits_per_led * led_length + reset_length,
{
    proof {
        assert(0 <= bits_per_led * led_length) by (nonlinear_arith);
    }
    (bits_per_led * led_length) + reset_length
}

} // verus!
