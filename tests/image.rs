use rust_tracer::color::quantize_fraction;
use rust_tracer::image::{sample_image, Image, Pixel, PPM};

#[test]
fn test_pixel() {
    let pixel = Pixel { r: 1, g: 2, b: 3 };
    assert_eq!(PPM(&pixel).to_text(), "  1   2   3");
}

#[test]
fn test_image() {
    let img = Image::new_with_init(2, 3, |row, col| Pixel {
        r: row as u8,
        g: col as u8,
        b: 12,
    });

    assert_eq!(
        PPM(&img).to_text(),
        "P3
3 2
255
  0   0  12
  0   1  12
  0   2  12
  1   0  12
  1   1  12
  1   2  12
"
    );
}

#[test]
fn pixel_text_of_wide_values() {
    let pixel = Pixel { r: 255, g: 100, b: 7 };
    assert_eq!(PPM(&pixel).to_text(), "255 100   7");
    let pixel = Pixel { r: 0, g: 10, b: 99 };
    assert_eq!(PPM(&pixel).to_text(), "  0  10  99");
}

#[test]
fn new_image_is_black() {
    let img = Image::new(2, 4);
    assert_eq!(img.height(), 2);
    assert_eq!(img.width(), 4);
    let text = PPM(&img).to_text();
    let mut expected = String::from("P3\n4 2\n255\n");
    for _ in 0..8 {
        expected.push_str("  0   0   0\n");
    }
    assert_eq!(text, expected);
}

#[test]
fn single_pixel_image() {
    let img = Image::new_with_init(1, 1, |_, _| Pixel { r: 9, g: 80, b: 200 });
    assert_eq!(img.height(), 1);
    assert_eq!(img.width(), 1);
    assert_eq!(PPM(&img).to_text(), "P3\n1 1\n255\n  9  80 200\n");
}

#[test]
fn header_with_multi_digit_dimensions() {
    let img = Image::new(1, 12);
    let text = PPM(&img).to_text();
    assert!(text.starts_with("P3\n12 1\n255\n"));
    assert_eq!(text.lines().count(), 3 + 12);
    let img = Image::new(105, 1);
    let text = PPM(&img).to_text();
    assert!(text.starts_with("P3\n1 105\n255\n"));
    assert_eq!(text.len(), "P3\n1 105\n255\n".len() + 105 * 12);
}

#[test]
fn init_is_called_in_row_major_order() {
    let img = Image::new_with_init(3, 2, |row, col| Pixel {
        r: (row * 2 + col) as u8,
        g: 0,
        b: 0,
    });
    assert_eq!(img.height(), 3);
    assert_eq!(img.width(), 2);
    let text = PPM(&img).to_text();
    let body: Vec<&str> = text.lines().skip(3).collect();
    assert_eq!(
        body,
        vec![
            "  0   0   0",
            "  1   0   0",
            "  2   0   0",
            "  3   0   0",
            "  4   0   0",
            "  5   0   0"
        ]
    );
}

#[test]
fn serializing_twice_gives_the_same_text() {
    let img = Image::new_with_init(3, 4, |row, col| Pixel {
        r: (row * 40) as u8,
        g: (col * 60) as u8,
        b: 255,
    });
    let first = PPM(&img).to_text();
    let second = PPM(&img).to_text();
    assert_eq!(first, second);
    assert_eq!(first.lines().count(), 3 + 12);
}

#[test]
fn sample_image_is_the_quantized_gradient() {
    let img = sample_image();
    assert_eq!(img.height(), 256);
    assert_eq!(img.width(), 256);
    let text = PPM(&img).to_text();
    let lines: Vec<&str> = text.lines().collect();
    assert_eq!(lines[0], "P3");
    assert_eq!(lines[1], "256 256");
    assert_eq!(lines[2], "255");
    assert_eq!(lines.len(), 3 + 256 * 256);
    for row in 0..256usize {
        for col in 0..256usize {
            let r = (255.999 * (col as f64 / 255.0)) as u8;
            let g = (255.999 * (row as f64 / 255.0)) as u8;
            let expected = format!("{:>3} {:>3} {:>3}", r, g, 0);
            assert_eq!(lines[3 + row * 256 + col], expected);
        }
    }
}

#[test]
fn quantize_ends_of_the_range() {
    assert_eq!(quantize_fraction(0, 1), 0);
    assert_eq!(quantize_fraction(1, 1), 255);
    assert_eq!(quantize_fraction(0, 255), 0);
    assert_eq!(quantize_fraction(255, 255), 255);
    assert_eq!(quantize_fraction(usize::MAX, usize::MAX), 255);
}

#[test]
fn quantize_matches_the_scaled_value() {
    assert_eq!(quantize_fraction(1, 2), 127);
    assert_eq!(quantize_fraction(1, 2), (255.999 * 0.5) as u8);
    assert_eq!(quantize_fraction(1, 3), 85);
    assert_eq!(quantize_fraction(2, 3), 170);
    assert_eq!(quantize_fraction(1, 1000), 0);
    assert_eq!(quantize_fraction(4, 1000), 1);
    assert_eq!(quantize_fraction(128, 255), 128);
}
