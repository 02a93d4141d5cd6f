use vstd::prelude::*;

use crate::buffer::{splice, LedDmaBuffer};

verus! {

/// The order in which an LED expects its channels.
///
/// If the data is sent as R\[7:0] | G\[7:0] | B\[7:0] | W\[7:0], as for the
/// SK6812RGBW, use [LedDataComposition::RGB].
#[derive(Clone, Copy, PartialEq, Eq, Structural)]
pub enum LedDataComposition {
    RGB,
    GRB,
}

/// A colour sample that can be written into a [LedDmaBuffer]; implemented by
/// [RGB] and [RGBW].
pub trait RgbLedColor: Copy + Clone {
    /// The number of channel bytes of a sample.
    spec fn channel_count() -> nat;

    /// The channel bytes in the order in which `composition` sends them.
    spec fn channels(&self, composition: LedDataComposition) -> Seq<u8>;

    /// A sample has `channel_count()` channel bytes in either order.
    proof fn lemma_channels_len(&self, composition: LedDataComposition)
        ensures
            self.channels(composition).len() == Self::channel_count(),
    ;

    /// The number of bits that encode a sample.
    fn bit_count() -> (r: usize)
        ensures
            r == 8 * Self::channel_count(),
            Self::channel_count() > 0,
    ;

    /// Writes the duty values of this sample into `led_dma_buffer` from
    /// `led_index` on, at the buffer's brightness and in its composition.
    fn set_color<const DMA_BUFFER_LEN: usize>(
        &self,
        led_dma_buffer: &mut LedDmaBuffer<DMA_BUFFER_LEN>,
        led_index: usize,
    )
        requires
            old(led_dma_buffer).wf(),
            led_index + 8 * Self::channel_count() <= DMA_BUFFER_LEN,
        ensures
            final(led_dma_buffer).wf(),
            final(led_dma_buffer).same_settings(old(led_dma_buffer)),
            final(led_dma_buffer).brightness_level() == old(led_dma_buffer).brightness_level(),
            final(led_dma_buffer).values() == splice(
                old(led_dma_buffer).values(),
                led_index as int,
                old(led_dma_buffer).encode(
                    self.channels(old(led_dma_buffer).composition()),
                    old(led_dma_buffer).brightness_level(),
                ),
            ),
    ;
}

/// An RGB LED.
#[derive(Clone, Copy)]
pub struct RGB {
    r: u8,
    g: u8,
    b: u8,
}

impl RGB {
    /// The number of bits that encode a sample.
    pub const BIT_COUNT: usize = 24;

    /// The red channel.
    pub closed spec fn red(self) -> u8 {
        self.r
    }

    /// The green channel.
    pub closed spec fn green(self) -> u8 {
        self.g
    }

    /// The blue channel.
    pub closed spec fn blue(self) -> u8 {
        self.b
    }

    /// A sample with the given red, green and blue channels.
    pub fn new(r: u8, g: u8, b: u8) -> (s: Self)
        ensures
            s.red() == r,
            s.green() == g,
            s.blue() == b,
    {
        Self { r, g, b }
    }
}

impl RgbLedColor for RGB {
    open spec fn channel_count() -> nat {
        3
    }

    open spec fn channels(&self, composition: LedDataComposition) -> Seq<u8> {
        match composition {
            LedDataComposition::GRB => seq![self.green(), self.red(), self.blue()],
            LedDataComposition::RGB => seq![self.red(), self.green(), self.blue()],
        }
    }

    proof fn lemma_channels_len(&self, composition: LedDataComposition) {
    }

    fn bit_count() -> (r: usize) {
        Self::BIT_COUNT
    }

    fn set_color<const DMA_BUFFER_LEN: usize>(
        &self,
        led_dma_buffer: &mut LedDmaBuffer<DMA_BUFFER_LEN>,
        led_index: usize,
    ) {
        let ghost start = *led_dma_buffer;
        match led_dma_buffer.data_composition() {
            LedDataComposition::GRB => {
                led_dma_buffer.set_byte(self.g, led_index);
                led_dma_buffer.set_byte(self.r, led_index + 8);
            },
            LedDataComposition::RGB => {
                led_dma_buffer.set_byte(self.r, led_index);
                led_dma_buffer.set_byte(self.g, led_index + 8);
            },
        }
        led_dma_buffer.set_byte(self.b, led_index + 16);
        assert(led_dma_buffer.values() =~= splice(
            start.values(),
            led_index as int,
            start.encode(self.channels(start.composition()), start.brightness_level()),
        ));
    }
}

/// An RGBW LED.
#[derive(Clone, Copy)]
pub struct RGBW {
    r: u8,
    g: u8,
    b: u8,
    w: u8,
}

impl RGBW {
    /// The number of bits that encode a sample.
    pub const BIT_COUNT: usize = 32;

    /// The red channel.
    pub closed spec fn red(self) -> u8 {
        self.r
    }

    /// The green channel.
    pub closed spec fn green(self) -> u8 {
        self.g
    }

    /// The blue channel.
    pub closed spec fn blue(self) -> u8 {
        self.b
    }

    /// The white channel.
    pub closed spec fn white(self) -> u8 {
        self.w
    }

    /// A sample with the given red, green, blue and white channels.
    pub fn new(r: u8, g: u8, b: u8, w: u8) -> (s: Self)
        ensures
            s.red() == r,
            s.green() == g,
            s.blue() == b,
            s.white() == w,
    {
        Self { r, g, b, w }
    }
}

impl RgbLedColor for RGBW {
    open spec fn channel_count() -> nat {
        4
    }

    open spec fn channels(&self, composition: LedDataComposition) -> Seq<u8> {
        match composition {
            LedDataComposition::GRB => seq![self.green(), self.red(), self.blue(), self.white()],
            LedDataComposition::RGB => seq![self.red(), self.green(), self.blue(), self.white()],
        }
    }

    proof fn lemma_channels_len(&self, composition: LedDataComposition) {
    }

    fn bit_count() -> (r: usize) {
        Self::BIT_COUNT
    }

    fn set_color<const DMA_BUFFER_LEN: usize>(
        &self,
        led_dma_buffer: &mut LedDmaBuffer<DMA_BUFFER_LEN>,
        led_index: usize,
    ) {
        let ghost start = *led_dma_buffer;
        match led_dma_buffer.data_composition() {
            LedDataComposition::GRB => {
                led_dma_buffer.set_byte(self.g, led_index);
                led_dma_buffer.set_byte(self.r, led_index + 8);
            },
            LedDataComposition::RGB => {
                led_dma_buffer.set_byte(self.r, led_index);
                led_dma_buffer.set_byte(self.g, led_index + 8);
            },
        }
        led_dma_buffer.set_byte(self.b, led_index + 16);
        led_dma_buffer.set_byte(self.w, led_index + 24);
        assert(led_dma_buffer.values() =~= splice(
            start.values(),
            led_index as int,
            start.encode(self.channels(start.composition()), start.brightness_level()),
        ));
    }
}

} // verus!
