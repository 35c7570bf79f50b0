use kuwahara::color::{Rgb8, Rgba8};
use kuwahara::grid::{Image, RgbBuffer};
use kuwahara::pipeline::{filter_image, filter_pixel};
use kuwahara::sampler::sample_quadrants;

fn px(r: u8, g: u8, b: u8) -> Rgba8 {
    Rgba8 { r, g, b, a: 255 }
}

fn solid(width: u32, height: u32, c: Rgba8) -> Image {
    let pixels = vec![c; (width * height) as usize];
    Image::from_pixels(width, height, pixels).unwrap()
}

#[test]
fn output_keeps_input_dimensions() {
    let img = solid(7, 4, px(9, 9, 9));
    let out = filter_image(&img, 1);
    assert_eq!(out.width, 7);
    assert_eq!(out.height, 4);
    assert_eq!(out.pixels.len(), 28);
}

#[test]
fn uniform_image_keeps_color_off_the_left_column() {
    let c = px(7, 99, 23);
    let img = solid(4, 3, c);
    let out = filter_image(&img, 1);
    for y in 0..3u32 {
        for x in 0..4u32 {
            let got = out.get(x, y);
            if x == 0 {
                assert_eq!(got, Rgb8 { r: 0, g: 0, b: 0 });
            } else {
                assert_eq!(got, Rgb8 { r: 7, g: 99, b: 23 });
            }
        }
    }
}

#[test]
fn uniform_black_image_stays_black() {
    let img = solid(5, 5, px(0, 0, 0));
    let out = filter_image(&img, 2);
    for y in 0..5u32 {
        for x in 0..5u32 {
            assert_eq!(out.get(x, y), Rgb8 { r: 0, g: 0, b: 0 });
        }
    }
}

#[test]
fn single_pixel_image_filters_to_black() {
    // every neighbor of the one pixel is out of bounds, so all bins are
    // empty and the empty-bin mean wins, whatever the input color
    let img = solid(1, 1, px(255, 0, 0));
    let out = filter_image(&img, 1);
    assert_eq!(out.get(0, 0), Rgb8 { r: 0, g: 0, b: 0 });
    let wide = filter_image(&img, 7);
    assert_eq!(wide.get(0, 0), Rgb8 { r: 0, g: 0, b: 0 });
}

#[test]
fn red_center_scenario_with_kernel_three() {
    // 5x5 black image with a red pixel at (2, 2), radius 1
    let mut pixels = vec![px(0, 0, 0); 25];
    pixels[2 * 5 + 2] = px(255, 0, 0);
    let img = Image::from_pixels(5, 5, pixels).unwrap();
    let out = filter_image(&img, 1);
    assert_eq!(out.width, 5);
    assert_eq!(out.height, 5);
    // the corner's window never reaches the red pixel
    assert_eq!(out.get(0, 0), Rgb8 { r: 0, g: 0, b: 0 });
    // the half-open window of (1, 1) samples only (0, 0), which is black
    assert_eq!(out.get(1, 1), Rgb8 { r: 0, g: 0, b: 0 });
    // (3, 3) samples exactly the red pixel: its window keeps only row 2
    // (row 3 equals the target column) and column 2, a single-sample bin
    assert_eq!(out.get(3, 3), Rgb8 { r: 255, g: 0, b: 0 });
    // a single pixel filtered on its own agrees with the full pass
    assert_eq!(filter_pixel(&img, 3, 3, 1), Rgb8 { r: 255, g: 0, b: 0 });
    assert_eq!(filter_pixel(&img, 0, 0, 1), Rgb8 { r: 0, g: 0, b: 0 });
}

#[test]
fn sampler_partitions_the_window_by_offset_signs() {
    // 5x5 image whose pixel at (x, y) is colored (x, y, 0); target (3, 1),
    // radius 2: rows -1..3 keep {0, 1, 2} (row 3 equals the target column),
    // columns 1..5 keep {1, 2, 4}
    let mut pixels = Vec::new();
    for y in 0..5u8 {
        for x in 0..5u8 {
            pixels.push(Rgba8 { r: x, g: y, b: 0, a: 255 });
        }
    }
    let img = Image::from_pixels(5, 5, pixels).unwrap();
    let bins = sample_quadrants(&img, 3, 1, 2);
    let at = |x: u8, y: u8| Rgba8 { r: x, g: y, b: 0, a: 255 };
    assert_eq!(bins.q0, vec![at(1, 0), at(2, 0), at(1, 1), at(2, 1)]);
    assert_eq!(bins.q1, vec![at(4, 0), at(4, 1)]);
    assert_eq!(bins.q2, vec![at(1, 2), at(2, 2)]);
    assert_eq!(bins.q3, vec![at(4, 2)]);
}

#[test]
fn sampler_stays_inside_the_image_at_corners() {
    let img = solid(3, 3, px(10, 20, 30));
    // radius far beyond the image: every out-of-bounds candidate is skipped
    let bins = sample_quadrants(&img, 0, 0, 4);
    let total = bins.q0.len() + bins.q1.len() + bins.q2.len() + bins.q3.len();
    // rows {1, 2} survive (row 0 equals the target column), columns {1, 2}
    assert_eq!(total, 4);
    let out = filter_image(&img, 4);
    assert_eq!(out.width, 3);
    assert_eq!(out.height, 3);
}

#[test]
fn dimensions_beyond_the_cap_are_refused() {
    let row = vec![px(1, 1, 1); 32768];
    assert!(Image::from_pixels(32768, 1, row).is_some());
    let too_wide = vec![px(1, 1, 1); 32769];
    assert!(Image::from_pixels(32769, 1, too_wide).is_none());
    assert!(Image::from_pixels(2, 2, vec![px(0, 0, 0); 3]).is_none());
}

#[test]
fn rgba_bytes_round_into_pixels() {
    let bytes = vec![1, 2, 3, 4, 5, 6, 7, 8];
    let img = Image::from_rgba_bytes(2, 1, &bytes).unwrap();
    assert_eq!(img.pixels[0], Rgba8 { r: 1, g: 2, b: 3, a: 4 });
    assert_eq!(img.pixels[1], Rgba8 { r: 5, g: 6, b: 7, a: 8 });
    assert!(Image::from_rgba_bytes(2, 1, &vec![0; 7]).is_none());
    assert!(Image::from_rgba_bytes(2, 2, &bytes).is_none());
}

#[test]
fn rgb_buffer_serializes_row_major_triples() {
    let buf = RgbBuffer {
        width: 2,
        height: 1,
        pixels: vec![Rgb8 { r: 1, g: 2, b: 3 }, Rgb8 { r: 4, g: 5, b: 6 }],
    };
    assert_eq!(buf.to_rgb_bytes(), vec![1, 2, 3, 4, 5, 6]);
}
