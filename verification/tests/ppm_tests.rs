use raytracer::math::Scalar;
use raytracer::vec::ColorRGB;
use raytracer::{create_ppm, level, pixel_color, push_decimal, tone_map, write_pixel};

fn s(x: f64) -> Scalar {
    Scalar::from_raw((x * 1_000_000.0).round() as i64)
}

#[test]
fn create_basic_ppm() {
    let expected_output = "P3\n16 16\n255\n255 0 63\n255 17 63\n255 34 63\n255 51 63\n255 68 63\n255 85 63\n255 102 63\n255 119 63\n255 136 63\n255 153 63\n255 170 63\n255 187 63\n255 204 63\n255 221 63\n255 238 63\n255 255 63\n255 0 63\n255 17 63\n255 34 63\n255 51 63\n255 68 63\n255 85 63\n255 102 63\n255 119 63\n255 136 63\n255 153 63\n255 170 63\n255 187 63\n255 204 63\n255 221 63\n255 238 63\n255 255 63\n238 0 63\n238 17 63\n238 34 63\n238 51 63\n238 68 63\n238 85 63\n238 102 63\n238 119 63\n238 136 63\n238 153 63\n238 170 63\n238 187 63\n238 204 63\n238 221 63\n238 238 63\n238 255 63\n221 0 63\n221 17 63\n221 34 63\n221 51 63\n221 68 63\n221 85 63\n221 102 63\n221 119 63\n221 136 63\n221 153 63\n221 170 63\n221 187 63\n221 204 63\n221 221 63\n221 238 63\n221 255 63\n204 0 63\n204 17 63\n204 34 63\n204 51 63\n204 68 63\n204 85 63\n204 102 63\n204 119 63\n204 136 63\n204 153 63\n204 170 63\n204 187 63\n204 204 63\n204 221 63\n204 238 63\n204 255 63\n187 0 63\n187 17 63\n187 34 63\n187 51 63\n187 68 63\n187 85 63\n187 102 63\n187 119 63\n187 136 63\n187 153 63\n187 170 63\n187 187 63\n187 204 63\n187 221 63\n187 238 63\n187 255 63\n170 0 63\n170 17 63\n170 34 63\n170 51 63\n170 68 63\n170 85 63\n170 102 63\n170 119 63\n170 136 63\n170 153 63\n170 170 63\n170 187 63\n170 204 63\n170 221 63\n170 238 63\n170 255 63\n153 0 63\n153 17 63\n153 34 63\n153 51 63\n153 68 63\n153 85 63\n153 102 63\n153 119 63\n153 136 63\n153 153 63\n153 170 63\n153 187 63\n153 204 63\n153 221 63\n153 238 63\n153 255 63\n136 0 63\n136 17 63\n136 34 63\n136 51 63\n136 68 63\n136 85 63\n136 102 63\n136 119 63\n136 136 63\n136 153 63\n136 170 63\n136 187 63\n136 204 63\n136 221 63\n136 238 63\n136 255 63\n119 0 63\n119 17 63\n119 34 63\n119 51 63\n119 68 63\n119 85 63\n119 102 63\n119 119 63\n119 136 63\n119 153 63\n119 170 63\n119 187 63\n119 204 63\n119 221 63\n119 238 63\n119 255 63\n102 0 63\n102 17 63\n102 34 63\n102 51 63\n102 68 63\n102 85 63\n102 102 63\n102 119 63\n102 136 63\n102 153 63\n102 170 63\n102 187 63\n102 204 63\n102 221 63\n102 238 63\n102 255 63\n85 0 63\n85 17 63\n85 34 63\n85 51 63\n85 68 63\n85 85 63\n85 102 63\n85 119 63\n85 136 63\n85 153 63\n85 170 63\n85 187 63\n85 204 63\n85 221 63\n85 238 63\n85 255 63\n68 0 63\n68 17 63\n68 34 63\n68 51 63\n68 68 63\n68 85 63\n68 102 63\n68 119 63\n68 136 63\n68 153 63\n68 170 63\n68 187 63\n68 204 63\n68 221 63\n68 238 63\n68 255 63\n51 0 63\n51 17 63\n51 34 63\n51 51 63\n51 68 63\n51 85 63\n51 102 63\n51 119 63\n51 136 63\n51 153 63\n51 170 63\n51 187 63\n51 204 63\n51 221 63\n51 238 63\n51 255 63\n34 0 63\n34 17 63\n34 34 63\n34 51 63\n34 68 63\n34 85 63\n34 102 63\n34 119 63\n34 136 63\n34 153 63\n34 170 63\n34 187 63\n34 204 63\n34 221 63\n34 238 63\n34 255 63\n17 0 63\n17 17 63\n17 34 63\n17 51 63\n17 68 63\n17 85 63\n17 102 63\n17 119 63\n17 136 63\n17 153 63\n17 170 63\n17 187 63\n17 204 63\n17 221 63\n17 238 63\n17 255 63\n";

    let width = 16;
    let height = 16;
    let max_colors = 255;
    let mut pixels: Vec<Vec<ColorRGB>> = vec![];

    for i in 0..height {
        pixels.push(vec![]);
        for j in 0..width {
            let r = ((height - i) as f64) / f64::from(width - 1);
            let g = (j as f64) / f64::from(height - 1);
            let b = 0.25;

            let pixel = ColorRGB::new(
                s(f64::min(1.0, f64::max(0.0, r))),
                s(f64::min(1.0, f64::max(0.0, g))),
                s(f64::min(1.0, f64::max(0.0, b))),
            );

            pixels[i as usize].push(pixel);
        }
    }

    let output = create_ppm(&pixels, width, height, max_colors);

    assert_eq!(output, expected_output);
}

#[test]
fn pixel_lines() {
    assert_eq!(write_pixel(&ColorRGB::new(s(1.0), s(0.0), s(0.25))), "255 0 63\n");
    assert_eq!(write_pixel(&ColorRGB::new(s(0.5), s(0.1), s(0.999))), "127 25 255\n");
    // Channels outside the unit interval are clamped.
    assert_eq!(write_pixel(&ColorRGB::new(s(7.0), s(-3.0), s(1.0))), "255 0 255\n");
}

#[test]
fn levels_round_down() {
    assert_eq!(level(s(0.0)), 0);
    assert_eq!(level(s(1.0)), 255);
    assert_eq!(level(s(0.003906)), 0);
    assert_eq!(level(s(0.003907)), 1);
    assert_eq!(level(Scalar::infinity()), 255);
    assert_eq!(level(Scalar::neg_infinity()), 0);
}

#[test]
fn decimal_numerals() {
    let mut text = String::from("n=");
    push_decimal(&mut text, 0);
    text.push(',');
    push_decimal(&mut text, 9);
    text.push(',');
    push_decimal(&mut text, 10);
    text.push(',');
    push_decimal(&mut text, 4_294_967_295);
    text.push(',');
    push_decimal(&mut text, u64::MAX);
    assert_eq!(text, "n=0,9,10,4294967295,18446744073709551615");
}

#[test]
fn empty_image_is_its_head() {
    assert_eq!(create_ppm(&vec![], 0, 0, 255), "P3\n0 0\n255\n");
    assert_eq!(create_ppm(&vec![vec![], vec![]], 640, 2, 15), "P3\n640 2\n15\n");
}

#[test]
fn tone_mapping_takes_the_root_and_clamps() {
    let shown = tone_map(&ColorRGB::new(s(0.25), s(4.0), s(-1.0)));
    assert_eq!((shown.0, shown.1, shown.2), (s(0.5), s(1.0), s(0.0)));
}

#[test]
fn pixel_colour_is_the_tone_mapped_mean() {
    let shown = pixel_color(&vec![
        ColorRGB::new(s(0.0), s(0.5), s(1.0)),
        ColorRGB::new(s(0.5), s(0.5), s(3.0)),
    ]);
    assert_eq!((shown.0, shown.1, shown.2), (s(0.5), Scalar::from_raw(707_107), s(1.0)));
    let none = pixel_color(&vec![]);
    assert_eq!((none.0, none.1, none.2), (s(0.0), s(0.0), s(0.0)));
}

#[test]
fn the_same_samples_give_the_same_text() {
    let samples = |y: usize, x: usize| -> Vec<ColorRGB> {
        (0..4).map(|i| ColorRGB::new(s(0.1 * i as f64), s(0.05 * x as f64), s(0.2 * y as f64))).collect()
    };
    let grid = || -> Vec<Vec<ColorRGB>> {
        (0..3).map(|y| (0..5).map(|x| pixel_color(&samples(y, x))).collect()).collect()
    };
    let first = create_ppm(&grid(), 5, 3, 255);
    let second = create_ppm(&grid(), 5, 3, 255);
    assert_eq!(first, second);
    assert!(first.starts_with("P3\n5 3\n255\n"));
    assert_eq!(first.lines().count(), 3 + 15);
}
