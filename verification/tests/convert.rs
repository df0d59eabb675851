use yuvplay::color::{yuv_to_rgb, Pixel};
use yuvplay::format::{fetch_sample, Yuv, RAW_BYTES_PER_FRAME, RAW_HEIGHT, RAW_WIDTH};
use yuvplay::yuv420p_to_rgb24;

const BLACK: Pixel = Pixel { red: 0, green: 0, blue: 0 };

/// A frame in which every sample of every plane depends on where it stands.
fn patterned_frame() -> Vec<u8> {
    let mut frame = vec![0u8; RAW_BYTES_PER_FRAME];
    for sy in 0..RAW_HEIGHT {
        for sx in 0..RAW_WIDTH {
            frame[sy * RAW_WIDTH + sx] = ((sx * 3 + sy * 5) % 256) as u8;
        }
    }
    for cy in 0..RAW_HEIGHT / 2 {
        for cx in 0..RAW_WIDTH / 2 {
            let at = cy * (RAW_WIDTH / 2) + cx;
            frame[82944 + at] = ((cx * 7 + cy * 13 + 40) % 256) as u8;
            frame[82944 + 20736 + at] = ((cx * 11 + cy * 3 + 90) % 256) as u8;
        }
    }
    frame
}

fn convert(frame: &[u8], width: usize, height: usize) -> Vec<Pixel> {
    let mut out = vec![BLACK; width * height];
    yuv420p_to_rgb24(frame, width, height, &mut out);
    out
}

#[test]
fn same_inputs_give_the_same_picture() {
    let frame = patterned_frame();
    let first = convert(&frame, 301, 97);
    let second = convert(&frame, 301, 97);
    assert_eq!(first, second);
    let mut reused = vec![Pixel::new(9, 9, 9); 301 * 97];
    yuv420p_to_rgb24(&frame, 301, 97, &mut reused);
    assert_eq!(reused, first);
    yuv420p_to_rgb24(&frame, 301, 97, &mut reused);
    assert_eq!(reused, first);
}

#[test]
fn own_resolution_keeps_every_pixel_in_place() {
    let frame = patterned_frame();
    let out = convert(&frame, RAW_WIDTH, RAW_HEIGHT);
    for y in 0..RAW_HEIGHT {
        for x in 0..RAW_WIDTH {
            assert_eq!(out[y * RAW_WIDTH + x], yuv_to_rgb(fetch_sample(&frame, x, y)));
        }
    }
}

#[test]
fn block_of_four_shares_one_chroma_pair() {
    let frame = patterned_frame();
    let out = convert(&frame, RAW_WIDTH, RAW_HEIGHT);
    for by in [0usize, 1, 53, 107] {
        for bx in [0usize, 1, 100, 191] {
            let u = frame[82944 + by * 192 + bx];
            let v = frame[82944 + 20736 + by * 192 + bx];
            for (dx, dy) in [(0usize, 0usize), (1, 0), (0, 1), (1, 1)] {
                let (x, y) = (2 * bx + dx, 2 * by + dy);
                let luma = frame[y * RAW_WIDTH + x];
                assert_eq!(out[y * RAW_WIDTH + x], yuv_to_rgb(Yuv { y: luma, u, v }));
            }
        }
    }
}

#[test]
fn mid_grey_frame_gives_mid_grey_at_every_size() {
    let frame = vec![128u8; RAW_BYTES_PER_FRAME];
    for (width, height) in [(1usize, 1usize), (384, 216), (640, 480), (100, 37), (1920, 3), (2, 1080)] {
        let out = convert(&frame, width, height);
        assert_eq!(out.len(), width * height);
        assert!(out.iter().all(|p| *p == Pixel::new(128, 128, 128)));
    }
}

#[test]
fn u_and_v_come_from_their_own_planes() {
    let mut frame = vec![100u8; RAW_BYTES_PER_FRAME];
    for b in frame[82944..82944 + 20736].iter_mut() {
        *b = 90;
    }
    for b in frame[82944 + 20736..].iter_mut() {
        *b = 200;
    }
    let out = convert(&frame, 17, 9);
    assert!(out.iter().all(|p| *p == Pixel::new(200, 61, 32)));
}

#[test]
fn doubled_size_repeats_each_sample_in_a_square() {
    let frame = patterned_frame();
    let out = convert(&frame, 2 * RAW_WIDTH, 2 * RAW_HEIGHT);
    for y in 0..2 * RAW_HEIGHT {
        for x in 0..2 * RAW_WIDTH {
            assert_eq!(out[y * 2 * RAW_WIDTH + x], yuv_to_rgb(fetch_sample(&frame, x / 2, y / 2)));
        }
    }
}

#[test]
fn halved_size_takes_every_second_sample() {
    let frame = patterned_frame();
    let out = convert(&frame, RAW_WIDTH / 2, RAW_HEIGHT / 2);
    for y in 0..RAW_HEIGHT / 2 {
        for x in 0..RAW_WIDTH / 2 {
            assert_eq!(out[y * (RAW_WIDTH / 2) + x], yuv_to_rgb(fetch_sample(&frame, 2 * x, 2 * y)));
        }
    }
}

#[test]
fn odd_size_takes_the_sample_at_the_floor() {
    let frame = patterned_frame();
    let out = convert(&frame, 5, 3);
    let columns = [0usize, 76, 153, 230, 307];
    let rows = [0usize, 72, 144];
    for y in 0..3 {
        for x in 0..5 {
            assert_eq!(out[y * 5 + x], yuv_to_rgb(fetch_sample(&frame, columns[x], rows[y])));
        }
    }
}

#[test]
fn picture_may_stretch_one_way_and_shrink_the_other() {
    let frame = patterned_frame();
    let out = convert(&frame, 1000, 50);
    for y in 0..50 {
        for x in 0..1000 {
            let sample = fetch_sample(&frame, x * 384 / 1000, y * 216 / 50);
            assert_eq!(out[y * 1000 + x], yuv_to_rgb(sample));
        }
    }
}

#[test]
fn single_pixel_is_the_top_left_sample() {
    let frame = patterned_frame();
    let out = convert(&frame, 1, 1);
    assert_eq!(out, vec![yuv_to_rgb(fetch_sample(&frame, 0, 0))]);
}

#[test]
fn zero_width_or_height_writes_nothing() {
    let frame = patterned_frame();
    let mut empty: Vec<Pixel> = Vec::new();
    yuv420p_to_rgb24(&frame, 0, 0, &mut empty);
    yuv420p_to_rgb24(&frame, 0, 7, &mut empty);
    yuv420p_to_rgb24(&frame, 7, 0, &mut empty);
    assert!(empty.is_empty());
}

#[test]
fn bytes_behind_the_frame_are_not_read() {
    let frame = patterned_frame();
    let mut longer = frame.clone();
    longer.extend_from_slice(&[255u8; 1000]);
    assert_eq!(convert(&longer, 64, 48), convert(&frame, 64, 48));
}

#[test]
fn every_pixel_of_the_buffer_is_written() {
    let frame = vec![128u8; RAW_BYTES_PER_FRAME];
    let mut out = vec![Pixel::new(1, 2, 3); 23 * 19];
    yuv420p_to_rgb24(&frame, 23, 19, &mut out);
    assert!(out.iter().all(|p| *p == Pixel::new(128, 128, 128)));
}

#[test]
fn bright_and_dark_samples_are_held_to_the_byte_range() {
    let white = vec![255u8; RAW_BYTES_PER_FRAME];
    assert!(convert(&white, 8, 8).iter().all(|p| *p == Pixel::new(255, 120, 255)));
    let dark = vec![0u8; RAW_BYTES_PER_FRAME];
    assert!(convert(&dark, 8, 8).iter().all(|p| *p == Pixel::new(0, 135, 0)));
}
