use mmcq::{create_histogram_and_vbox, ColorChannel, PixelEncoding};

fn create_pixels(dim: u32) -> Vec<u8> {
    let mut pixels: Vec<u8> = vec![];
    for _ in 0..=(dim * dim) {
        pixels.push(255);
        pixels.push(0);
        pixels.push(0);
    }
    pixels
}

#[test]
fn gets_average() {
    let pixels = create_pixels(8);

    let vbox = create_histogram_and_vbox(&pixels, PixelEncoding::Rgb, 1, true);

    let color = vbox.get_average();
    assert_eq!(color.r, 252);
    assert_eq!(color.g, 4);
    assert_eq!(color.b, 4);
}

#[test]
fn gets_average_min_max() {
    let pixels = create_pixels(8);

    let mut vbox = create_histogram_and_vbox(&pixels, PixelEncoding::Rgb, 1, true);

    vbox.set_max(31, &ColorChannel::R);
    vbox.set_min(32, &ColorChannel::R);

    let color = vbox.get_average();

    assert_eq!(color.r, 255);
    assert_eq!(color.g, 4);
    assert_eq!(color.b, 4);
}
