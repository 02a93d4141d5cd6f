use vstd::prelude::*;
use vstd::arithmetic::div_mod::{
    lemma_add_mod_noop_right, lemma_fundamental_div_mod, lemma_fundamental_div_mod_converse,
    lemma_small_mod,
};

use crate::color::{LedDataComposition, RgbLedColor};

verus! {

/// Whether bit `7 - i` of `v` is set, so that position 0 is the most
/// significant bit and position 7 the least significant one.
pub open spec fn msb_bit_set(v: u8, i: int) -> bool {
    v & (1u8 << ((7 - i) as u8)) != 0u8
}

/// A channel byte scaled to `brightness` percent, rounded down.
pub open spec fn scaled_byte(byte: u8, brightness: u8) -> int {
    (byte as int * brightness as int) / 100
}

/// The duty value that encodes bit position `i` (most significant first) of `v`.
pub open spec fn bit_duty(one: u16, zero: u16, v: u8, i: int) -> u16 {
    if msb_bit_set(v, i) {
        one
    } else {
        zero
    }
}

/// The duty values of a run of channel bytes: eight per byte, each byte scaled
/// to `brightness` percent first and expanded most significant bit first.
pub open spec fn encode_bytes(one: u16, zero: u16, brightness: u8, bytes: Seq<u8>) -> Seq<u16> {
    Seq::new(
        8 * bytes.len(),
        |k: int| bit_duty(one, zero, scaled_byte(bytes[k / 8], brightness) as u8, k % 8),
    )
}

/// `s` with the entries from `at` on replaced by `w`; its length stays that of `s`.
pub open spec fn splice(s: Seq<u16>, at: int, w: Seq<u16>) -> Seq<u16> {
    Seq::new(s.len(), |k: int| if at <= k < at + w.len() { w[k - at] } else { s[k] })
}

/// The slot that sample `i` of `n` is written to.
pub open spec fn target_index(i: int, rotate: Option<i32>, n: int) -> int {
    match rotate {
        Some(r) => (i + r as int) % n,
        None => i,
    }
}

/// The sample of `n` that is written to slot `e`: the inverse of `target_index`.
pub open spec fn source_index(e: int, rotate: Option<i32>, n: int) -> int {
    match rotate {
        Some(r) => (e - r as int) % n,
        None => e,
    }
}

/// `target_index` and `source_index` are inverse permutations of `0..n`.
pub(crate) proof fn lemma_target_source(i: int, rotate: Option<i32>, n: int)
    requires
        0 <= i < n,
    ensures
        0 <= target_index(i, rotate, n) < n,
        0 <= source_index(i, rotate, n) < n,
        source_index(target_index(i, rotate, n), rotate, n) == i,
        target_index(source_index(i, rotate, n), rotate, n) == i,
{
    if let Some(r) = rotate {
        let r = r as int;
        lemma_add_mod_noop_right(-r, i + r, n);
        lemma_add_mod_noop_right(r, i - r, n);
        lemma_small_mod(i as nat, n as nat);
        assert(-r + (i + r) == i);
        assert(r + (i - r) == i);
    }
}

/// Position `k` lies in block `e` of `bc` entries.
pub(crate) proof fn lemma_block(k: int, e: int, bc: int)
    requires
        bc > 0,
        e * bc <= k < e * bc + bc,
    ensures
        k / bc == e,
        k % bc == k - e * bc,
{
    lemma_fundamental_div_mod_converse(k, bc, e, k - e * bc);
}

/// Position `k` (with `k >= 0`) lies in block `k / bc`.
proof fn lemma_in_own_block(k: int, bc: int)
    requires
        bc > 0,
        k >= 0,
    ensures
        (k / bc) * bc <= k < (k / bc) * bc + bc,
        k / bc >= 0,
{
    lemma_fundamental_div_mod(k, bc);
    assert(bc * (k / bc) == (k / bc) * bc) by (nonlinear_arith);
    assert(k / bc >= 0) by (nonlinear_arith)
        requires
            bc > 0,
            k >= 0,
            k == bc * (k / bc) + k % bc,
            k % bc < bc,
    ;
}

/// `rotate` modulo `n`, in `0..n`.
fn rotation_shift(rotate: i32, n: usize) -> (s: usize)
    requires
        n > 0,
    ensures
        s == (rotate as int) % (n as int),
        s < n,
{
    if rotate >= 0 {
        (rotate as usize) % n
    } else {
        let a: usize = (-(rotate as i64)) as usize;
        let am: usize = a % n;
        proof {
            lemma_fundamental_div_mod(a as int, n as int);
            let q = a as int / n as int;
            assert(a as int == q * n + am) by (nonlinear_arith)
                requires
                    a as int == n * q + am,
            ;
            if am == 0 {
                assert(rotate as int == (-q) * n) by (nonlinear_arith)
                    requires
                        a as int == q * n,
                        rotate as int == -a,
                ;
                lemma_fundamental_div_mod_converse(rotate as int, n as int, -q, 0);
            } else {
                assert(rotate as int == (-q - 1) * n + (n - am)) by (nonlinear_arith)
                    requires
                        a as int == q * n + am,
                        rotate as int == -a,
                ;
                lemma_fundamental_div_mod_converse(rotate as int, n as int, -q - 1, n - am);
            }
        }
        if am == 0 {
            0
        } else {
            n - am
        }
    }
}

/// Reasons why a buffer cannot be filled.
#[derive(Debug, Clone, Copy, PartialEq, Eq, Structural)]
pub enum LedDmaError {
    /// A brightness above 100 percent was asked for.
    BrightnessOver100,
    /// The samples need more duty entries than the buffer holds.
    LedArrayLongerThanDmaBuffer,
}

/// A fixed-length buffer of PWM duty values for a strip of LEDs.
pub struct LedDmaBuffer<const DMA_BUFFER_LEN: usize> {
    dma_buffer: [u16; DMA_BUFFER_LEN],
    t1h: u16,
    t0h: u16,
    data_composition: LedDataComposition,
    brightness: u8,
}

impl<const DMA_BUFFER_LEN: usize> LedDmaBuffer<DMA_BUFFER_LEN> {
    /// The duty values held.
    pub closed spec fn values(&self) -> Seq<u16> {
        self.dma_buffer@
    }

    /// The duty value that encodes a 1 bit.
    pub closed spec fn one_duty(&self) -> u16 {
        self.t1h
    }

    /// The duty value that encodes a 0 bit.
    pub closed spec fn zero_duty(&self) -> u16 {
        self.t0h
    }

    /// The order in which channels are sent.
    pub closed spec fn composition(&self) -> LedDataComposition {
        self.data_composition
    }

    /// The brightness percentage that channel bytes are scaled by.
    pub closed spec fn brightness_level(&self) -> u8 {
        self.brightness
    }

    /// The buffer holds `DMA_BUFFER_LEN` entries and its brightness is a percentage.
    pub open spec fn wf(&self) -> bool {
        &&& self.values().len() == DMA_BUFFER_LEN
        &&& self.brightness_level() <= 100
    }

    /// Both buffers have the same duty values for 1 and 0 and the same composition.
    pub open spec fn same_settings(&self, other: &Self) -> bool {
        &&& self.one_duty() == other.one_duty()
        &&& self.zero_duty() == other.zero_duty()
        &&& self.composition() == other.composition()
    }

    /// The duty values of `bytes` under this buffer's settings, at `brightness` percent.
    pub open spec fn encode(&self, bytes: Seq<u8>, brightness: u8) -> Seq<u16> {
        encode_bytes(self.one_duty(), self.zero_duty(), brightness, bytes)
    }

    /// Whether `leds` fit in the buffer.
    pub open spec fn fits<T: RgbLedColor>(leds: Seq<T>) -> bool {
        leds.len() * (8 * T::channel_count()) <= DMA_BUFFER_LEN
    }

    /// The duty values after writing `leds` at `brightness` percent: sample
    /// `source_index(e)` fills block `e` of the first `leds.len()` blocks, and
    /// the entries after them keep their values.
    pub open spec fn populated<T: RgbLedColor>(
        &self,
        leds: Seq<T>,
        rotate: Option<i32>,
        brightness: u8,
    ) -> Seq<u16> {
        let bc = (8 * T::channel_count()) as int;
        let n = leds.len() as int;
        Seq::new(
            self.values().len(),
            |k: int|
                if k < n * bc {
                    self.encode(
                        leds[source_index(k / bc, rotate, n)].channels(self.composition()),
                        brightness,
                    )[k % bc]
                } else {
                    self.values()[k]
                },
        )
    }

    /// Creates a buffer of zeros.
    /// * `t1h` - duty value for a 1 bit
    /// * `t0h` - duty value for a 0 bit
    /// * `data_composition` - the order in which the LEDs expect their channels
    pub fn new(t1h: u16, t0h: u16, data_composition: LedDataComposition) -> (r: Self)
        ensures
            r.wf(),
            r.values() == Seq::new(DMA_BUFFER_LEN as nat, |k: int| 0u16),
            r.one_duty() == t1h,
            r.zero_duty() == t0h,
            r.composition() == data_composition,
            r.brightness_level() == 100,
    {
        let r = Self { dma_buffer: [0u16;DMA_BUFFER_LEN], t1h, t0h, data_composition, brightness: 100 };
        assert(r.values() =~= Seq::new(DMA_BUFFER_LEN as nat, |k: int| 0u16));
        r
    }

    /// The order in which channels are sent.
    pub(crate) fn data_composition(&self) -> (r: LedDataComposition)
        ensures
            r == self.composition(),
    {
        self.data_composition
    }

    /// The brightness percentage in use; 100 between calls.
    pub fn brightness(&self) -> (r: u8)
        ensures
            r == self.brightness_level(),
    {
        self.brightness
    }

    /// The duty values, to be streamed to the timer.
    pub fn get_dma_buffer(&self) -> (r: &[u16])
        ensures
            r@ == self.values(),
    {
        self.dma_buffer.as_slice()
    }

    /// Writes `led_array` into the buffer at the current brightness.
    /// * `rotate` - if given, sample `i` goes to slot `(i + rotate) mod n`:
    ///     a positive value rotates right, a negative one left.
    ///
    /// Entries after the last sample keep their values. When the samples do
    /// not fit, nothing changes and `LedArrayLongerThanDmaBuffer` is returned.
    pub fn set_dma_buffer<T: RgbLedColor>(&mut self, led_array: &[T], rotate: Option<i32>) -> (r:
        Result<(), LedDmaError>)
        requires
            old(self).wf(),
        ensures
            final(self).wf(),
            final(self).same_settings(old(self)),
            final(self).brightness_level() == old(self).brightness_level(),
            r is Ok <==> Self::fits(led_array@),
            r is Err ==> r == Err::<(), LedDmaError>(LedDmaError::LedArrayLongerThanDmaBuffer)
                && final(self).values() == old(self).values(),
            r is Ok ==> final(self).values() == old(self).populated(
                led_array@,
                rotate,
                old(self).brightness_level(),
            ),
    {
        let n = led_array.len();
        let bc = T::bit_count();
        assert((n as u128) * (bc as u128) <= u128::MAX) by (nonlinear_arith)
            requires
                n <= usize::MAX,
                bc <= usize::MAX,
                usize::MAX <= u64::MAX,
        ;
        if (n as u128) * (bc as u128) > DMA_BUFFER_LEN as u128 {
            return Err(LedDmaError::LedArrayLongerThanDmaBuffer);
        }
        let ghost start = *self;
        let ghost leds = led_array@;
        let ghost goal = start.populated(leds, rotate, start.brightness_level());
        let shift: usize = match rotate {
            Some(r) if n > 0 => rotation_shift(r, n),
            _ => 0,
        };
        let mut i: usize = 0;
        while i < n
            invariant
                self.wf(),
                self.same_settings(&start),
                self.brightness_level() == start.brightness_level(),
                start.wf(),
                n == leds.len(),
                leds == led_array@,
                bc == 8 * T::channel_count(),
                bc > 0,
                n * bc <= DMA_BUFFER_LEN,
                0 <= i <= n,
                shift < n || shift == 0,
                n > 0 ==> match rotate {
                    Some(r) => shift == (r as int) % (n as int) && shift < n,
                    None => true,
                },
                goal == start.populated(leds, rotate, start.brightness_level()),
                forall|k: int|
                    0 <= k < DMA_BUFFER_LEN ==> #[trigger] self.values()[k] == if k < n * bc
                        && source_index(k / bc as int, rotate, n as int) < i {
                        goal[k]
                    } else {
                        start.values()[k]
                    },
            decreases n - i,
        {
            assert(i + shift < n * bc) by (nonlinear_arith)
                requires
                    i < n,
                    shift < n || shift == 0,
                    bc >= 8,
            ;
            let e: usize = match rotate {
                Some(_) => (i + shift) % n,
                None => i,
            };
            proof {
                lemma_target_source(i as int, rotate, n as int);
                if let Some(r) = rotate {
                    lemma_add_mod_noop_right(i as int, r as int, n as int);
                }
                assert(e == target_index(i as int, rotate, n as int));
                assert(e * bc + bc <= n * bc) by (nonlinear_arith)
                    requires
                        e < n,
                ;
            }
            let ghost before = *self;
            let led = &led_array[i];
            led.set_color(self, e * bc);
            proof {
                led.lemma_channels_len(start.composition());
                assert forall|k: int| 0 <= k < DMA_BUFFER_LEN implies #[trigger] self.values()[k]
                    == if k < n * bc && source_index(k / bc as int, rotate, n as int) < i + 1 {
                    goal[k]
                } else {
                    start.values()[k]
                } by {
                    if e * bc <= k < e * bc + bc {
                        lemma_block(k, e as int, bc as int);
                    } else if 0 <= k < n * bc {
                        lemma_in_own_block(k, bc as int);
                        let b = k / bc as int;
                        assert(b < n) by (nonlinear_arith)
                            requires
                                b * bc <= k,
                                k < n * bc,
                                bc > 0,
                        ;
                        lemma_target_source(b, rotate, n as int);
                        assert(b != e);
                    }
                }
            }
            i += 1;
        }
        proof {
            assert forall|k: int| 0 <= k < DMA_BUFFER_LEN && k < n * bc implies #[trigger] source_index(
                k / bc as int,
                rotate,
                n as int,
            ) < n by {
                lemma_in_own_block(k, bc as int);
                let b = k / bc as int;
                assert(b < n) by (nonlinear_arith)
                    requires
                        b * bc <= k,
                        k < n * bc,
                        bc > 0,
                ;
                lemma_target_source(b, rotate, n as int);
            }
            assert(self.values() =~= goal);
        }
        Ok(())
    }

    /// Writes `led_array` into the buffer with its channel bytes scaled to
    /// `brightness` percent, as [LedDmaBuffer::set_dma_buffer] does; the
    /// brightness is 100 again when the call returns.
    ///
    /// A brightness above 100 gives `BrightnessOver100` and changes nothing.
    pub fn set_dma_buffer_with_brightness<T: RgbLedColor>(
        &mut self,
        led_array: &[T],
        rotate: Option<i32>,
        brightness: u8,
    ) -> (r: Result<(), LedDmaError>)
        requires
            old(self).wf(),
        ensures
            final(self).wf(),
            final(self).same_settings(old(self)),
            brightness > 100 ==> r == Err::<(), LedDmaError>(LedDmaError::BrightnessOver100)
                && *final(self) == *old(self),
            brightness <= 100 ==> {
                &&& final(self).brightness_level() == 100
                &&& r is Ok <==> Self::fits(led_array@)
                &&& r is Err ==> r == Err::<(), LedDmaError>(
                    LedDmaError::LedArrayLongerThanDmaBuffer,
                ) && final(self).values() == old(self).values()
                &&& r is Ok ==> final(self).values() == old(self).populated(
                    led_array@,
                    rotate,
                    brightness,
                )
            },
    {
        if brightness > 100 {
            return Err(LedDmaError::BrightnessOver100);
        }
        let ghost start = *self;
        self.brightness = brightness;
        assert(self.populated(led_array@, rotate, brightness) == start.populated(
            led_array@,
            rotate,
            brightness,
        ));
        let r = self.set_dma_buffer(led_array, rotate);
        self.brightness = 100;
        r
    }

    /// Writes the eight duty values of `byte`, scaled to the current
    /// brightness, from `byte_index` on.
    pub(crate) fn set_byte(&mut self, byte: u8, byte_index: usize)
        requires
            old(self).wf(),
            byte_index + 8 <= DMA_BUFFER_LEN,
        ensures
            final(self).wf(),
            final(self).same_settings(old(self)),
            final(self).brightness_level() == old(self).brightness_level(),
            final(self).values() == splice(
                old(self).values(),
                byte_index as int,
                old(self).encode(seq![byte], old(self).brightness_level()),
            ),
    {
        let ghost old_values = self.values();
        let ghost w = self.encode(seq![byte], self.brightness);
        assert((byte as u16) * (self.brightness as u16) <= 25500) by (nonlinear_arith)
            requires
                byte <= 255,
                self.brightness <= 100,
        ;
        let adjusted: u8 = ((byte as u16) * (self.brightness as u16) / 100) as u8;
        assert(adjusted == scaled_byte(byte, self.brightness) as u8);
        let mut i: usize = 0;
        while i < 8
            invariant
                self.wf(),
                self.same_settings(old(self)),
                self.brightness_level() == old(self).brightness_level(),
                byte_index + 8 <= DMA_BUFFER_LEN,
                0 <= i <= 8,
                w.len() == 8,
                forall|k: int| 0 <= k < 8 ==> #[trigger] w[k] == bit_duty(self.one_duty(), self.zero_duty(), adjusted, k),
                old_values.len() == DMA_BUFFER_LEN,
                forall|k: int|
                    0 <= k < DMA_BUFFER_LEN ==> #[trigger] self.values()[k] == if byte_index <= k
                        < byte_index + i {
                        w[k - byte_index]
                    } else {
                        old_values[k]
                    },
            decreases 8 - i,
        {
            let shift: u8 = (7 - i) as u8;
            self.dma_buffer[byte_index + i] = if (adjusted & (1u8 << shift)) > 0 {
                self.t1h
            } else {
                self.t0h
            };
            i += 1;
        }
        assert(self.values() =~= splice(old_values, byte_index as int, w));
    }
}

} // verus!
