use led_dma_buffer::calc_dma_buffer_length;
use led_dma_buffer::{LedDataComposition, LedDmaBuffer, LedDmaError, RgbLedColor, RGB, RGBW};

const ONE: u16 = 32;
const ZERO: u16 = 16;

/// The eight duty values of `byte`, most significant bit first.
fn bits(byte: u8) -> Vec<u16> {
    (0..8).map(|i| if byte & (1 << (7 - i)) != 0 { ONE } else { ZERO }).collect()
}

fn expected(bytes: &[u8], tail: usize) -> Vec<u16> {
    let mut v: Vec<u16> = bytes.iter().flat_map(|b| bits(*b)).collect();
    v.extend(std::iter::repeat(0u16).take(tail));
    v
}

#[test]
fn buffer_length_formula() {
    assert_eq!(calc_dma_buffer_length(24, 3, 40), 112);
    assert_eq!(calc_dma_buffer_length(32, 5, 64), 224);
    assert_eq!(calc_dma_buffer_length(RGB::BIT_COUNT, 0, 7), 7);
    assert_eq!(calc_dma_buffer_length(RGBW::BIT_COUNT, 2, 0), 64);
}

#[test]
fn bit_counts() {
    assert_eq!(RGB::BIT_COUNT, 24);
    assert_eq!(RGBW::BIT_COUNT, 32);
    assert_eq!(RGB::bit_count(), 24);
    assert_eq!(RGBW::bit_count(), 32);
}

#[test]
fn new_buffer_is_zero() {
    let buf = LedDmaBuffer::<10>::new(ONE, ZERO, LedDataComposition::GRB);
    assert_eq!(buf.get_dma_buffer(), &[0u16; 10][..]);
    assert_eq!(buf.brightness(), 100);
}

#[test]
fn red_in_grb_order() {
    let mut buf = LedDmaBuffer::<24>::new(ONE, ZERO, LedDataComposition::GRB);
    assert_eq!(buf.set_dma_buffer(&[RGB::new(255, 0, 0)], None), Ok(()));
    let out = buf.get_dma_buffer();
    assert!(out[0..8].iter().all(|d| *d == 16));
    assert!(out[8..16].iter().all(|d| *d == 32));
    assert!(out[16..24].iter().all(|d| *d == 16));
}

#[test]
fn rgb_order_and_tail() {
    let mut buf = LedDmaBuffer::<30>::new(ONE, ZERO, LedDataComposition::RGB);
    assert_eq!(buf.set_dma_buffer(&[RGB::new(0xA5, 0x01, 0x80)], None), Ok(()));
    assert_eq!(buf.get_dma_buffer(), &expected(&[0xA5, 0x01, 0x80], 6)[..]);
}

#[test]
fn rgbw_in_both_orders() {
    let led = RGBW::new(1, 2, 3, 4);
    let mut grb = LedDmaBuffer::<36>::new(ONE, ZERO, LedDataComposition::GRB);
    assert_eq!(grb.set_dma_buffer(&[led], None), Ok(()));
    assert_eq!(grb.get_dma_buffer(), &expected(&[2, 1, 3, 4], 4)[..]);
    let mut rgb = LedDmaBuffer::<32>::new(ONE, ZERO, LedDataComposition::RGB);
    assert_eq!(rgb.set_dma_buffer(&[led], None), Ok(()));
    assert_eq!(rgb.get_dma_buffer(), &expected(&[1, 2, 3, 4], 0)[..]);
}

#[test]
fn brightness_half_rounds_down() {
    let mut buf = LedDmaBuffer::<24>::new(ONE, ZERO, LedDataComposition::RGB);
    assert_eq!(
        buf.set_dma_buffer_with_brightness(&[RGB::new(255, 0, 0)], None, 50),
        Ok(())
    );
    assert_eq!(buf.get_dma_buffer(), &expected(&[127, 0, 0], 0)[..]);
    assert_eq!(buf.brightness(), 100);
}

#[test]
fn brightness_zero_and_full() {
    let mut buf = LedDmaBuffer::<24>::new(ONE, ZERO, LedDataComposition::RGB);
    assert_eq!(
        buf.set_dma_buffer_with_brightness(&[RGB::new(200, 200, 200)], None, 0),
        Ok(())
    );
    assert_eq!(buf.get_dma_buffer(), &expected(&[0, 0, 0], 0)[..]);
    assert_eq!(
        buf.set_dma_buffer_with_brightness(&[RGB::new(200, 7, 255)], None, 100),
        Ok(())
    );
    assert_eq!(buf.get_dma_buffer(), &expected(&[200, 7, 255], 0)[..]);
    assert_eq!(
        buf.set_dma_buffer_with_brightness(&[RGB::new(99, 3, 101)], None, 33),
        Ok(())
    );
    // 99 * 33 / 100 = 32.67, 3 * 33 / 100 = 0.99, 101 * 33 / 100 = 33.33
    assert_eq!(buf.get_dma_buffer(), &expected(&[32, 0, 33], 0)[..]);
}

fn three() -> [RGB; 3] {
    [RGB::new(1, 0, 0), RGB::new(2, 0, 0), RGB::new(3, 0, 0)]
}

#[test]
fn rotate_right_by_one() {
    let mut buf = LedDmaBuffer::<72>::new(ONE, ZERO, LedDataComposition::RGB);
    assert_eq!(buf.set_dma_buffer(&three(), Some(1)), Ok(()));
    assert_eq!(
        buf.get_dma_buffer(),
        &expected(&[3, 0, 0, 1, 0, 0, 2, 0, 0], 0)[..]
    );
}

#[test]
fn rotate_left_by_one() {
    let mut buf = LedDmaBuffer::<72>::new(ONE, ZERO, LedDataComposition::RGB);
    assert_eq!(buf.set_dma_buffer(&three(), Some(-1)), Ok(()));
    assert_eq!(
        buf.get_dma_buffer(),
        &expected(&[2, 0, 0, 3, 0, 0, 1, 0, 0], 0)[..]
    );
}

#[test]
fn rotate_by_more_than_length() {
    let mut right = LedDmaBuffer::<72>::new(ONE, ZERO, LedDataComposition::RGB);
    assert_eq!(right.set_dma_buffer(&three(), Some(4)), Ok(()));
    assert_eq!(
        right.get_dma_buffer(),
        &expected(&[3, 0, 0, 1, 0, 0, 2, 0, 0], 0)[..]
    );
    let mut left = LedDmaBuffer::<72>::new(ONE, ZERO, LedDataComposition::RGB);
    assert_eq!(left.set_dma_buffer(&three(), Some(-7)), Ok(()));
    assert_eq!(
        left.get_dma_buffer(),
        &expected(&[2, 0, 0, 3, 0, 0, 1, 0, 0], 0)[..]
    );
    let mut whole = LedDmaBuffer::<72>::new(ONE, ZERO, LedDataComposition::RGB);
    assert_eq!(whole.set_dma_buffer(&three(), Some(3)), Ok(()));
    assert_eq!(
        whole.get_dma_buffer(),
        &expected(&[1, 0, 0, 2, 0, 0, 3, 0, 0], 0)[..]
    );
}

#[test]
fn rotate_extremes() {
    let mut buf = LedDmaBuffer::<72>::new(ONE, ZERO, LedDataComposition::RGB);
    // i32::MIN = -2147483648 = -715827883 * 3 + 1
    assert_eq!(buf.set_dma_buffer(&three(), Some(i32::MIN)), Ok(()));
    assert_eq!(
        buf.get_dma_buffer(),
        &expected(&[3, 0, 0, 1, 0, 0, 2, 0, 0], 0)[..]
    );
    // i32::MAX = 2147483647 = 715827882 * 3 + 1
    let mut other = LedDmaBuffer::<72>::new(ONE, ZERO, LedDataComposition::RGB);
    assert_eq!(other.set_dma_buffer(&three(), Some(i32::MAX)), Ok(()));
    assert_eq!(
        other.get_dma_buffer(),
        &expected(&[3, 0, 0, 1, 0, 0, 2, 0, 0], 0)[..]
    );
}

#[test]
fn oversized_leaves_buffer_unchanged() {
    let mut buf = LedDmaBuffer::<47>::new(ONE, ZERO, LedDataComposition::GRB);
    assert_eq!(buf.set_dma_buffer(&[RGB::new(9, 8, 7)], None), Ok(()));
    let before: Vec<u16> = buf.get_dma_buffer().to_vec();
    assert_eq!(
        buf.set_dma_buffer(&[RGB::new(1, 1, 1), RGB::new(2, 2, 2)], Some(1)),
        Err(LedDmaError::LedArrayLongerThanDmaBuffer)
    );
    assert_eq!(buf.get_dma_buffer(), &before[..]);
}

#[test]
fn exact_fit_succeeds() {
    let mut buf = LedDmaBuffer::<48>::new(ONE, ZERO, LedDataComposition::GRB);
    assert_eq!(
        buf.set_dma_buffer(&[RGB::new(1, 1, 1), RGB::new(2, 2, 2)], None),
        Ok(())
    );
    assert_eq!(buf.get_dma_buffer(), &expected(&[1, 1, 1, 2, 2, 2], 0)[..]);
}

#[test]
fn brightness_over_100_rejected() {
    let mut buf = LedDmaBuffer::<24>::new(ONE, ZERO, LedDataComposition::GRB);
    assert_eq!(buf.set_dma_buffer(&[RGB::new(5, 6, 7)], None), Ok(()));
    let before: Vec<u16> = buf.get_dma_buffer().to_vec();
    assert_eq!(buf.brightness(), 100);
    assert_eq!(
        buf.set_dma_buffer_with_brightness(&[RGB::new(255, 255, 255)], None, 101),
        Err(LedDmaError::BrightnessOver100)
    );
    assert_eq!(buf.get_dma_buffer(), &before[..]);
    assert_eq!(buf.brightness(), 100);
}

#[test]
fn brightness_restored_after_oversized() {
    let mut buf = LedDmaBuffer::<24>::new(ONE, ZERO, LedDataComposition::GRB);
    assert_eq!(
        buf.set_dma_buffer_with_brightness(&[RGB::new(1, 1, 1), RGB::new(2, 2, 2)], None, 40),
        Err(LedDmaError::LedArrayLongerThanDmaBuffer)
    );
    assert_eq!(buf.brightness(), 100);
    assert_eq!(buf.get_dma_buffer(), &[0u16; 24][..]);
    assert_eq!(buf.set_dma_buffer(&[RGB::new(200, 0, 0)], None), Ok(()));
    assert_eq!(buf.get_dma_buffer(), &expected(&[0, 200, 0], 0)[..]);
}

#[test]
fn populate_twice_is_idempotent() {
    let leds = [RGBW::new(10, 20, 30, 40), RGBW::new(50, 60, 70, 80)];
    let mut buf = LedDmaBuffer::<70>::new(ONE, ZERO, LedDataComposition::GRB);
    assert_eq!(buf.set_dma_buffer(&leds, None), Ok(()));
    let first: Vec<u16> = buf.get_dma_buffer().to_vec();
    assert_eq!(buf.set_dma_buffer(&leds, None), Ok(()));
    assert_eq!(buf.get_dma_buffer(), &first[..]);
    assert_eq!(first, expected(&[20, 10, 30, 40, 60, 50, 70, 80], 6));
}

#[test]
fn empty_sequence_changes_nothing() {
    let mut buf = LedDmaBuffer::<24>::new(ONE, ZERO, LedDataComposition::GRB);
    assert_eq!(buf.set_dma_buffer(&[RGB::new(3, 3, 3)], None), Ok(()));
    let before: Vec<u16> = buf.get_dma_buffer().to_vec();
    let none: [RGB; 0] = [];
    assert_eq!(buf.set_dma_buffer(&none, Some(-5)), Ok(()));
    assert_eq!(buf.get_dma_buffer(), &before[..]);
}

#[test]
fn shorter_sequence_leaves_stale_tail() {
    let mut buf = LedDmaBuffer::<48>::new(ONE, ZERO, LedDataComposition::RGB);
    assert_eq!(
        buf.set_dma_buffer(&[RGB::new(1, 2, 3), RGB::new(4, 5, 6)], None),
        Ok(())
    );
    assert_eq!(buf.set_dma_buffer(&[RGB::new(7, 8, 9)], None), Ok(()));
    assert_eq!(buf.get_dma_buffer(), &expected(&[7, 8, 9, 4, 5, 6], 0)[..]);
}
