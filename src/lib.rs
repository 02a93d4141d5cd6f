//! Encodes colour samples for addressable LED strips (WS2812, SK6812 and
//! relatives) as a sequence of PWM duty values that a timer can stream by DMA:
//! one duty value per transmitted bit, followed by an idle-low reset tail.

mod buffer;
mod color;
mod laws;
mod length;

pub use crate::buffer::{
    bit_duty, encode_bytes, msb_bit_set, scaled_byte, source_index, splice, target_index,
    LedDmaBuffer, LedDmaError,
};
pub use crate::color::{LedDataComposition, RgbLedColor, RGB, RGBW};
pub use crate::length::calc_dma_buffer_length;
pub use crate::laws::{
    lemma_brightness_bounds, lemma_brightness_rounds_down, lemma_opposite_rotations_invert,
    lemma_populate_idempotent, lemma_rotation_places_sample,
};
