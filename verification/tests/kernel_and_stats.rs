use kuwahara::color::{luma_scaled, Rgb8, Rgba8};
use kuwahara::kernel::{kernel_radius, FilterError};
use kuwahara::selector::select_quadrant;
use kuwahara::stats::{average_quadrant_color, deviation_key, DevKey, SENTINEL_NUM};

fn px(r: u8, g: u8, b: u8) -> Rgba8 {
    Rgba8 { r, g, b, a: 255 }
}

#[test]
fn odd_kernels_give_radius() {
    assert_eq!(kernel_radius(3), Ok(1));
    assert_eq!(kernel_radius(5), Ok(2));
    assert_eq!(kernel_radius(9), Ok(4));
    assert_eq!(kernel_radius(31), Ok(15));
}

#[test]
fn small_or_even_kernels_are_invalid() {
    assert_eq!(kernel_radius(2), Err(FilterError::InvalidKernel));
    assert_eq!(kernel_radius(4), Err(FilterError::InvalidKernel));
    assert_eq!(kernel_radius(1), Err(FilterError::InvalidKernel));
    assert_eq!(kernel_radius(0), Err(FilterError::InvalidKernel));
    assert_eq!(kernel_radius(-5), Err(FilterError::InvalidKernel));
}

#[test]
fn luma_uses_fixed_point_weights() {
    assert_eq!(luma_scaled(px(255, 255, 255)), 2550000);
    assert_eq!(luma_scaled(px(0, 0, 0)), 0);
    assert_eq!(luma_scaled(px(1, 2, 3)), 2126 + 2 * 7152 + 3 * 722);
}

#[test]
fn empty_bin_averages_to_black() {
    let bin: Vec<Rgba8> = vec![];
    assert_eq!(average_quadrant_color(&bin), Rgb8 { r: 0, g: 0, b: 0 });
}

#[test]
fn mean_color_is_integer_division_of_sums() {
    let bin = vec![px(10, 20, 30), px(11, 21, 31), px(13, 23, 33)];
    assert_eq!(average_quadrant_color(&bin), Rgb8 { r: 11, g: 21, b: 31 });
}

#[test]
fn zero_variance_bin_gets_the_sentinel_key() {
    let bin = vec![px(5, 5, 5), px(5, 5, 5), px(5, 5, 5)];
    let k = deviation_key(&bin);
    assert_eq!(k.num, SENTINEL_NUM);
    assert_eq!(k.den, 1);
}

#[test]
fn empty_bin_gets_the_sentinel_key() {
    let bin: Vec<Rgba8> = vec![];
    let k = deviation_key(&bin);
    assert_eq!(k.num, SENTINEL_NUM);
    assert_eq!(k.den, 1);
}

#[test]
fn variance_key_of_black_and_white_pair() {
    let bin = vec![px(0, 0, 0), px(255, 255, 255)];
    let k = deviation_key(&bin);
    // n * sum(l^2) - sum(l)^2 with lumas 0 and 2550000
    assert_eq!(k.num, 2550000u128 * 2550000u128);
    assert_eq!(k.den, 4);
}

#[test]
fn selection_breaks_ties_by_lowest_index() {
    let keys = vec![
        DevKey { num: 5, den: 1 },
        DevKey { num: 3, den: 1 },
        DevKey { num: 3, den: 1 },
        DevKey { num: 9, den: 1 },
    ];
    assert_eq!(select_quadrant(&keys), 1);
}

#[test]
fn selection_compares_fractions_exactly() {
    // 2/4 equals 1/2, so the earlier key wins; 1/3 is below both
    let keys = vec![
        DevKey { num: 2, den: 4 },
        DevKey { num: 1, den: 2 },
        DevKey { num: 1, den: 3 },
    ];
    assert_eq!(select_quadrant(&keys), 2);
    let tied = vec![DevKey { num: 2, den: 4 }, DevKey { num: 1, den: 2 }];
    assert_eq!(select_quadrant(&tied), 0);
}
