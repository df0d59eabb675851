use yuvplay::color::{yuv_to_rgb, Pixel};
use yuvplay::format::Yuv;

fn rgb(y: u8, u: u8, v: u8) -> (u8, u8, u8) {
    let p = yuv_to_rgb(Yuv { y, u, v });
    (p.red, p.green, p.blue)
}

#[test]
fn mid_grey_stays_mid_grey() {
    assert_eq!(yuv_to_rgb(Yuv { y: 128, u: 128, v: 128 }), Pixel { red: 128, green: 128, blue: 128 });
    assert_eq!(yuv_to_rgb(Yuv { y: 128, u: 128, v: 128 }), Pixel::new(128, 128, 128));
}

#[test]
fn neutral_chroma_gives_grey_of_every_luma() {
    for y in 0..=255u8 {
        assert_eq!(rgb(y, 128, 128), (y, y, y));
    }
}

#[test]
fn channels_follow_the_formulas() {
    // R = 100 + 1.402 * 72 = 200.944
    // G = 100 + 0.3441 * 38 - 0.7141 * 72 = 61.6606
    // B = 100 - 1.772 * 38 = 32.664
    assert_eq!(rgb(100, 90, 200), (200, 61, 32));
    // R = 50 - 1.402 * 28 = 10.744
    // G = 50 - 0.3441 * 72 + 0.7141 * 28 = 45.2196
    // B = 50 + 1.772 * 72 = 177.584
    assert_eq!(rgb(50, 200, 100), (10, 45, 177));
    // R = 200 + 1.402 = 201.402, G = 200 - 0.3441 - 0.7141 = 198.9418, B = 201.772
    assert_eq!(rgb(200, 129, 129), (201, 198, 201));
    // R = 200 - 1.402 = 198.598, G = 200 + 1.0582 = 201.0582, B = 198.228
    assert_eq!(rgb(200, 127, 127), (198, 201, 198));
}

#[test]
fn values_are_cut_toward_zero_not_rounded() {
    // R = 10 + 1.402 * 7 = 19.814, B = 10 + 1.772 * 5 = 18.86
    assert_eq!(rgb(10, 133, 135), (19, 3, 18));
    // R = 1 - 1.402 = -0.402, which is cut to 0; B = 1 - 1.772 = -0.772
    assert_eq!(rgb(1, 127, 127), (0, 2, 0));
}

#[test]
fn values_above_the_byte_range_are_held_at_255() {
    // R = 255 + 1.402 * 127 = 433.054, B = 255 + 1.772 * 127 = 480.044
    // G = 255 - 0.3441 * 127 - 0.7141 * 127 = 120.6086
    assert_eq!(rgb(255, 255, 255), (255, 120, 255));
    // G = 255 + 0.3441 * 128 + 0.7141 * 128 = 390.4496
    assert_eq!(rgb(255, 0, 0), (75, 255, 28));
    // R = 200 + 1.402 * 40 = 256.08
    assert_eq!(rgb(200, 128, 168).0, 255);
    // R = 199 + 1.402 * 40 = 255.08
    assert_eq!(rgb(199, 128, 168).0, 255);
    // R = 198 + 1.402 * 40 = 254.08
    assert_eq!(rgb(198, 128, 168).0, 254);
}

#[test]
fn values_below_zero_are_held_at_0() {
    // R = -1.402 * 128 = -179.456, B = -1.772 * 128 = -226.816
    // G = 0.3441 * 128 + 0.7141 * 128 = 135.4496
    assert_eq!(rgb(0, 0, 0), (0, 135, 0));
    // G = 0 - 0.3441 * 127 - 0.7141 * 127 = -134.3914
    assert_eq!(rgb(0, 255, 255), (178, 0, 225));
    assert_eq!(rgb(0, 128, 128), (0, 0, 0));
}

#[test]
fn same_chroma_shifts_every_luma_alike() {
    // Away from the ends of the range a step in luma is the same step in
    // every channel.
    for y in 60..190u8 {
        let a = rgb(y, 110, 150);
        let b = rgb(y + 1, 110, 150);
        assert_eq!((b.0 - a.0, b.1 - a.1, b.2 - a.2), (1, 1, 1));
    }
}

#[test]
fn transform_depends_on_every_input() {
    assert_ne!(rgb(100, 128, 128), rgb(101, 128, 128));
    assert_ne!(rgb(100, 128, 128), rgb(100, 140, 128));
    assert_ne!(rgb(100, 128, 128), rgb(100, 128, 140));
}
