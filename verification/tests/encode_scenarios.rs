//! Whole-pipeline scenarios: the floating-point colour conversion,
//! transform and quantisation run here on top of the library's verified
//! integer core, the way a caller drives it.
use blurhash::pipeline::assemble_hash;
use blurhash::pipeline::parse_hash;
use blurhash::quantize::clamp_ac_digit;
use blurhash::quantize::clamp_quantised_max;
use blurhash::quantize::pack_ac;
use blurhash::quantize::pack_dc;
use blurhash::quantize::unpack_dc;
use blurhash::BlurHashError;

fn srgb_to_linear(value: f64) -> f64 {
    let v = value / 255.0;
    if v <= 0.04045 {
        v / 12.92
    } else {
        ((v + 0.055) / 1.055).powf(2.4)
    }
}

fn linear_to_srgb(value: f64) -> i32 {
    let v = (0.0f64).max(value.min(1.0));
    if v <= 0.0031308 {
        (v * 12.92 * 255.0 + 0.5) as i32
    } else {
        ((1.055 * v.powf(1.0 / 2.4) - 0.055) * 255.0 + 0.5) as i32
    }
}

fn sign_pow(value: f64, power: f64) -> f64 {
    let sign = if value < 0.0 { -1.0 } else { 1.0 };
    sign * value.abs().powf(power)
}

fn calc_factor(
    cx: u32,
    cy: u32,
    width: u32,
    height: u32,
    pixels: &[(u8, u8, u8)],
) -> (f64, f64, f64) {
    let scale = 1.0 / (width as f64 * height as f64);
    let normalisation = if cx == 0 && cy == 0 { 1.0 } else { 2.0 };
    let mut r = 0.0;
    let mut g = 0.0;
    let mut b = 0.0;
    for i in 0..width {
        for j in 0..height {
            let w = (std::f64::consts::PI * cx as f64 * i as f64) / width as f64;
            let h = (std::f64::consts::PI * cy as f64 * j as f64) / height as f64;
            let basis = normalisation * w.cos() * h.cos();
            let pixel = pixels[(j * width + i) as usize];
            r += basis * srgb_to_linear(pixel.0 as f64);
            g += basis * srgb_to_linear(pixel.1 as f64);
            b += basis * srgb_to_linear(pixel.2 as f64);
        }
    }
    (r * scale, g * scale, b * scale)
}

fn encode_image(
    pixels: &[(u8, u8, u8)],
    width: u32,
    height: u32,
    x_components: u32,
    y_components: u32,
) -> Result<String, BlurHashError> {
    blurhash::pipeline::validate_components(x_components, y_components)?;
    let mut factors: Vec<(f64, f64, f64)> = Vec::new();
    for cy in 0..y_components {
        for cx in 0..x_components {
            factors.push(calc_factor(cx, cy, width, height, pixels));
        }
    }
    let dc = factors[0];
    let ac = &factors[1..];
    let (quantised_max, max) = if !ac.is_empty() {
        let mut real_max = 0.0f64;
        for rgb in ac {
            for value in [rgb.0, rgb.1, rgb.2] {
                real_max = real_max.max(value.abs());
            }
        }
        let qmax = clamp_quantised_max((real_max * 166.0 - 0.5).floor() as i32);
        (qmax, (qmax as f64 + 1.0) / 166.0)
    } else {
        (0, 1.0)
    };
    let dc_value = pack_dc(
        linear_to_srgb(dc.0) as u8,
        linear_to_srgb(dc.1) as u8,
        linear_to_srgb(dc.2) as u8,
    );
    let mut ac_values: Vec<u32> = Vec::new();
    for rgb in ac {
        let qr = clamp_ac_digit((sign_pow(rgb.0 / max, 0.5) * 9.0 + 9.5) as i32);
        let qg = clamp_ac_digit((sign_pow(rgb.1 / max, 0.5) * 9.0 + 9.5) as i32);
        let qb = clamp_ac_digit((sign_pow(rgb.2 / max, 0.5) * 9.0 + 9.5) as i32);
        ac_values.push(pack_ac(qr, qg, qb));
    }
    Ok(assemble_hash(
        x_components,
        y_components,
        quantised_max,
        dc_value,
        &ac_values,
    ))
}

fn solid_image(color: (u8, u8, u8), width: u32, height: u32) -> Vec<(u8, u8, u8)> {
    vec![color; (width * height) as usize]
}

fn gradient_image(width: u32, height: u32) -> Vec<(u8, u8, u8)> {
    let mut pixels = Vec::new();
    for j in 0..height {
        for i in 0..width {
            pixels.push((
                (i * 255 / width.max(1)) as u8,
                (j * 255 / height.max(1)) as u8,
                ((i + j) * 17 % 256) as u8,
            ));
        }
    }
    pixels
}

#[test]
fn encoding_twice_is_byte_identical() {
    let pixels = gradient_image(16, 12);
    let first = encode_image(&pixels, 16, 12, 4, 4).unwrap();
    let second = encode_image(&pixels, 16, 12, 4, 4).unwrap();
    assert_eq!(first, second);
    assert_eq!(first.len(), 4 + 2 * 16);
}

#[test]
fn out_of_range_components_never_reach_the_transform() {
    let pixels = solid_image((10, 20, 30), 4, 4);
    for (x, y) in [(0, 4), (10, 4), (4, 0), (4, 10)] {
        assert_eq!(
            encode_image(&pixels, 4, 4, x, y),
            Err(BlurHashError::InvalidComponentRange)
        );
    }
}

#[test]
fn solid_color_round_trip_within_tolerance() {
    let color = (200u8, 100u8, 50u8);
    let pixels = solid_image(color, 4, 4);
    let hash = encode_image(&pixels, 4, 4, 1, 1).unwrap();
    assert_eq!(hash.len(), 6);
    let parts = parse_hash(&hash).expect("the encoder's own hash must parse");
    assert_eq!(parts.x_components, 1);
    assert_eq!(parts.y_components, 1);
    assert!(parts.ac.is_empty());
    let (r, g, b) = unpack_dc(parts.dc);
    // The reconstructed 1x1 image is the DC colour converted back through
    // the colour space: it must land within one step of the encoded colour.
    let decoded_r = linear_to_srgb(srgb_to_linear(r as f64));
    let decoded_g = linear_to_srgb(srgb_to_linear(g as f64));
    let decoded_b = linear_to_srgb(srgb_to_linear(b as f64));
    assert!((decoded_r - color.0 as i32).abs() <= 1);
    assert!((decoded_g - color.1 as i32).abs() <= 1);
    assert!((decoded_b - color.2 as i32).abs() <= 1);
}

#[test]
fn gradient_hash_parses_back_to_its_grid() {
    let pixels = gradient_image(8, 8);
    let hash = encode_image(&pixels, 8, 8, 3, 2).unwrap();
    assert_eq!(hash.len(), 4 + 2 * 6);
    let parts = parse_hash(&hash).expect("the encoder's own hash must parse");
    assert_eq!(parts.x_components, 3);
    assert_eq!(parts.y_components, 2);
    assert_eq!(parts.ac.len(), 5);
    for v in &parts.ac {
        assert!(*v < 83 * 83);
    }
}
