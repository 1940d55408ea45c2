use mmcq::{color_index_from, create_histogram_and_vbox, ColorChannel, Pixel, PixelEncoding, VBox};
use std::rc::Rc;

#[test]
fn index_is_flat_cube_position() {
    assert_eq!(color_index_from(0, 0, 0), 0);
    assert_eq!(color_index_from(1, 2, 3), 1024 + 64 + 3);
    assert_eq!(color_index_from(31, 31, 31), 32767);
}

#[test]
fn strides() {
    assert_eq!(PixelEncoding::Rgb.stride(), 3);
    assert_eq!(PixelEncoding::Rgba.stride(), 4);
}

#[test]
fn extracts_pixels() {
    let buffer = [1, 2, 3, 4, 5, 6, 7, 8];
    assert_eq!(PixelEncoding::Rgb.extract_pixel(&buffer, 1), Pixel::new_rgb(4, 5, 6));
    assert_eq!(PixelEncoding::Rgba.extract_pixel(&buffer, 1), Pixel::new_rgba(5, 6, 7, 8));
    assert_eq!(Pixel::new_rgb(4, 5, 6).a, 255);
}

#[test]
fn pixel_predicates() {
    assert!(Pixel::new_rgb(251, 251, 251).is_white());
    assert!(!Pixel::new_rgb(250, 251, 251).is_white());
    assert!(Pixel::new_rgba(0, 0, 0, 126).is_opaque());
    assert!(!Pixel::new_rgba(0, 0, 0, 125).is_opaque());
}

fn two_cells() -> VBox {
    let mut hist = vec![0u64; 32768];
    hist[color_index_from(2, 5, 7) as usize] = 3;
    hist[color_index_from(6, 5, 9) as usize] = 1;
    VBox::new(2, 6, 5, 5, 7, 9, Rc::new(hist))
}

#[test]
fn box_statistics() {
    let v = two_cells();
    assert_eq!(v.get_count(), 4);
    assert_eq!(v.get_volume(), 5 * 1 * 3);
    // red: (3 * 20 + 1 * 52) / 4 = 28; blue: (3 * 60 + 1 * 76) / 4 = 64
    let a = v.get_average();
    assert_eq!((a.r, a.g, a.b), (28, 44, 64));
    assert!(v.widest_color_channel() == ColorChannel::R);
    assert_eq!(v.r_range(), 2..7);
    assert_eq!(v.g_range(), 5..6);
    assert_eq!(v.b_range(), 7..10);
    assert_eq!((v.get_r_min(), v.get_r_max()), (2, 6));
    assert_eq!((v.get_g_min(), v.get_g_max()), (5, 5));
    assert_eq!((v.get_b_min(), v.get_b_max()), (7, 9));
}

#[test]
fn widest_channel_ties_go_to_red_then_green() {
    let hist = Rc::new(vec![0u64; 32768]);
    assert!(VBox::new(0, 3, 0, 3, 0, 3, hist.clone()).widest_color_channel() == ColorChannel::R);
    assert!(VBox::new(0, 2, 0, 3, 0, 3, hist.clone()).widest_color_channel() == ColorChannel::G);
    assert!(VBox::new(0, 2, 0, 2, 0, 3, hist).widest_color_channel() == ColorChannel::B);
}

#[test]
fn copies_share_histogram_and_recompute() {
    let v = two_cells();
    let mut w = VBox::new_from(&v);
    assert_eq!(w.get_count(), 4);
    w.set_max(4, &ColorChannel::R);
    assert_eq!(w.get_count(), 3);
    assert_eq!(w.get_volume(), 3 * 1 * 3);
    assert_eq!(w.get_average().r, 20);
    let mut u = VBox::new_from(&v);
    u.set_min(5, &ColorChannel::R);
    assert_eq!(u.get_count(), 1);
    assert_eq!(u.get_average().b, 76);
    assert_eq!(v.get_count(), 4);
}

#[test]
fn empty_box_uses_midpoint() {
    let hist = Rc::new(vec![0u64; 32768]);
    let v = VBox::new(2, 5, 0, 31, 10, 10, hist);
    assert_eq!(v.get_count(), 0);
    let a = v.get_average();
    assert_eq!((a.r, a.g, a.b), (32, 128, 84));
}

#[test]
fn histogram_bounds_and_sentinel() {
    let pixels = [8, 16, 24, 255, 255, 255, 64, 0, 248];
    let v = create_histogram_and_vbox(&pixels, PixelEncoding::Rgb, 1, true);
    assert_eq!((v.get_r_min(), v.get_r_max()), (1, 8));
    assert_eq!((v.get_g_min(), v.get_g_max()), (0, 2));
    assert_eq!((v.get_b_min(), v.get_b_max()), (3, 31));
    assert_eq!(v.get_count(), 2);
    let all_white = [255, 255, 255];
    let e = create_histogram_and_vbox(&all_white, PixelEncoding::Rgb, 1, true);
    assert_eq!((e.get_r_min(), e.get_r_max()), (255, 0));
    assert_eq!(e.get_count(), 0);
    assert_eq!(e.get_volume(), 0);
}
