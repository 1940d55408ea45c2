use mmcq::{
    extract_colors, get_palette_rgb, get_palette_with_options, Color, MaxColors, PixelEncoding,
    PixelFilter, Quality,
};

fn repeat_rgb(color: (u8, u8, u8), count: usize) -> Vec<u8> {
    let mut pixels = Vec::new();
    for _ in 0..count {
        pixels.push(color.0);
        pixels.push(color.1);
        pixels.push(color.2);
    }
    pixels
}

#[test]
fn four_red_pixels_default_options() {
    let pixels: [u8; 12] = [255, 0, 0, 255, 0, 0, 255, 0, 0, 255, 0, 0];
    let r = get_palette_rgb(&pixels);
    assert_eq!(r, vec![Color::new(252, 4, 4)]);
}

#[test]
fn uniform_color_lands_in_its_cell() {
    let pixels = repeat_rgb((10, 200, 100), 50);
    for max_colors in [1u8, 2, 3, 4, 10, 20] {
        let r = get_palette_with_options(
            &pixels,
            PixelEncoding::Rgb,
            Quality::new(1),
            MaxColors::new(max_colors),
            PixelFilter::default(),
        );
        assert!(!r.is_empty());
        assert_eq!(r[0], Color::new(12, 204, 100));
        assert_eq!(r[0].r >> 3, 10 >> 3);
        assert_eq!(r[0].g >> 3, 200 >> 3);
        assert_eq!(r[0].b >> 3, 100 >> 3);
    }
}

#[test]
fn uniform_white_filtered_stays_in_cell() {
    let pixels = repeat_rgb((255, 255, 255), 10);
    let r = get_palette_with_options(
        &pixels,
        PixelEncoding::Rgb,
        Quality::new(1),
        MaxColors::new(5),
        PixelFilter::White,
    );
    assert_eq!(r, vec![Color::new(255, 255, 255)]);
}

#[test]
fn same_arguments_same_palette() {
    let mut pixels = Vec::new();
    for i in 0..600u32 {
        pixels.push((i * 7 % 256) as u8);
        pixels.push((i * 13 % 256) as u8);
        pixels.push((i * 29 % 256) as u8);
    }
    let a = extract_colors(&pixels, PixelEncoding::Rgb, 2, 8, true);
    let b = extract_colors(&pixels, PixelEncoding::Rgb, 2, 8, true);
    assert_eq!(a, b);
    assert!(!a.is_empty());
}

#[test]
fn two_regions_ten_colors_gives_nine_with_repeats() {
    let mut pixels = repeat_rgb((0, 0, 255), 20);
    pixels.extend(repeat_rgb((255, 255, 0), 20));
    let r = extract_colors(&pixels, PixelEncoding::Rgb, 1, 10, false);
    assert_eq!(r.len(), 9);
    assert!(r.contains(&Color::new(4, 4, 252)));
    assert!(r.contains(&Color::new(252, 252, 4)));
    let mut distinct: Vec<Color> = Vec::new();
    for c in r.iter() {
        if !distinct.contains(c) {
            distinct.push(*c);
        }
    }
    assert!(distinct.len() < r.len());
}

#[test]
fn one_color_is_the_image_average() {
    let mut pixels = repeat_rgb((0, 0, 0), 3);
    pixels.extend(repeat_rgb((255, 255, 255), 1));
    let r = extract_colors(&pixels, PixelEncoding::Rgb, 1, 1, false);
    // cell centers 4 and 252, weighted 3 to 1: (3 * 4 + 252) / 4 = 66
    assert_eq!(r, vec![Color::new(66, 66, 66)]);
}

#[test]
fn no_overshoot_for_small_palettes() {
    let mut pixels = repeat_rgb((0, 0, 255), 20);
    pixels.extend(repeat_rgb((255, 0, 0), 20));
    pixels.extend(repeat_rgb((0, 255, 0), 20));
    for max_colors in [1u8, 2, 3] {
        let r = extract_colors(&pixels, PixelEncoding::Rgb, 1, max_colors, false);
        assert_eq!(r.len(), max_colors as usize);
    }
}

#[test]
fn all_white_filtered_gives_one_color() {
    let pixels = repeat_rgb((251, 252, 253), 40);
    let r = extract_colors(&pixels, PixelEncoding::Rgb, 1, 10, true);
    assert_eq!(r, vec![Color::new(255, 255, 255)]);
}

#[test]
fn empty_buffer_gives_one_color() {
    let pixels: Vec<u8> = Vec::new();
    let r = extract_colors(&pixels, PixelEncoding::Rgba, 1, 4, false);
    assert_eq!(r.len(), 1);
}

#[test]
fn transparent_pixels_are_left_out() {
    let pixels = [10, 10, 10, 255, 200, 200, 200, 100, 10, 10, 10, 200];
    let r = extract_colors(&pixels, PixelEncoding::Rgba, 1, 1, false);
    assert_eq!(r, vec![Color::new(12, 12, 12)]);
}

#[test]
fn quality_skips_pixels() {
    // only positions 0 and 3 are sampled
    let mut pixels = repeat_rgb((0, 0, 0), 1);
    pixels.extend(repeat_rgb((255, 255, 255), 2));
    pixels.extend(repeat_rgb((0, 0, 0), 1));
    let r = extract_colors(&pixels, PixelEncoding::Rgb, 3, 1, false);
    assert_eq!(r, vec![Color::new(4, 4, 4)]);
}

#[test]
fn partial_last_pixel_is_ignored() {
    let pixels = [0, 0, 0, 255, 255];
    let r = extract_colors(&pixels, PixelEncoding::Rgb, 1, 1, false);
    assert_eq!(r, vec![Color::new(4, 4, 4)]);
}

#[test]
fn three_bands_order() {
    let mut pixels = Vec::new();
    for x in 0..64u32 {
        for _ in 0..8u32 {
            if x < 16 {
                pixels.extend_from_slice(&[0, 0, 255]);
            } else if x < 60 {
                pixels.extend_from_slice(&[0, 255, 0]);
            } else {
                pixels.extend_from_slice(&[255, 0, 0]);
            }
        }
    }
    let r = extract_colors(&pixels, PixelEncoding::Rgb, 1, 4, false);
    assert_eq!(r.len(), 4);
    assert_eq!(r[0], Color::new(4, 4, 252));
    assert_eq!(r[1], Color::new(252, 4, 4));
    assert_eq!(r[2], Color::new(4, 252, 4));
}

#[test]
fn options_defaults() {
    let pixels = repeat_rgb((255, 0, 0), 4);
    let a = get_palette_with_options(
        &pixels,
        PixelEncoding::Rgb,
        Quality::default(),
        MaxColors::default(),
        PixelFilter::Off,
    );
    let b = get_palette_rgb(&pixels);
    assert_eq!(a, b);
    assert!(PixelFilter::default() == PixelFilter::White);
}
