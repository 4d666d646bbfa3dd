use raytracer::math::scalar::Scalar;
use raytracer::math::vec3::Vec3;
use raytracer::output::{Pixel, TargetOutput, INTENSITY_MAX_BITS};

fn s(x: f32) -> Scalar {
    Scalar::from_bits(x.to_bits())
}

fn color(r: f32, g: f32, b: f32) -> Vec3 {
    Vec3::new(s(r), s(g), s(b))
}

fn hardware_channel(x: f32) -> u8 {
    let clamped = if x < 0.0 { 0.0 } else if x > 0.999 { 0.999 } else { x };
    (256.0 * clamped) as u8
}

#[test]
fn white_converts_to_full_bytes() {
    let p = Pixel::from(color(1.0, 1.0, 1.0));
    assert_eq!(p, Pixel { r: 255, g: 255, b: 255, a: 255 });
}

#[test]
fn intensity_limit_is_the_encoding_of_0_999() {
    assert_eq!(INTENSITY_MAX_BITS, 0.999f32.to_bits());
}

#[test]
fn channel_exact_values() {
    assert_eq!(Pixel::channel(s(0.0)), 0);
    assert_eq!(Pixel::channel(s(-0.0)), 0);
    assert_eq!(Pixel::channel(s(-1.0)), 0);
    assert_eq!(Pixel::channel(s(0.5)), 128);
    assert_eq!(Pixel::channel(s(0.25)), 64);
    assert_eq!(Pixel::channel(s(0.75)), 192);
    assert_eq!(Pixel::channel(s(1.0 / 256.0)), 1);
    assert_eq!(Pixel::channel(s(0.003)), 0);
    assert_eq!(Pixel::channel(s(0.999)), 255);
    assert_eq!(Pixel::channel(s(0.9961)), 255);
    assert_eq!(Pixel::channel(s(0.996)), 254);
    assert_eq!(Pixel::channel(s(2.0)), 255);
    assert_eq!(Pixel::channel(s(f32::INFINITY)), 255);
    assert_eq!(Pixel::channel(s(f32::NEG_INFINITY)), 0);
    assert_eq!(Pixel::channel(s(f32::NAN)), 0);
    assert_eq!(Pixel::channel(s(f32::MIN_POSITIVE)), 0);
    assert_eq!(Pixel::channel(s(f32::from_bits(1))), 0);
}

#[test]
fn channel_agrees_with_the_hardware_conversion() {
    let mut bits: u32 = 0;
    loop {
        for offset in [0u32, 1, 0x7f_ffff, 0x40_0000, 0x12_3456] {
            let x = f32::from_bits(bits | offset);
            assert_eq!(Pixel::channel(s(x)), hardware_channel(x), "{x:?}");
            let y = f32::from_bits(bits | offset | 0x8000_0000);
            assert_eq!(Pixel::channel(s(y)), hardware_channel(y), "{y:?}");
        }
        if bits == 0x7f80_0000 {
            break;
        }
        bits += 0x80_0000;
    }
    let mut i: u32 = 0;
    while i < 4000 {
        let x = i as f32 / 3000.0 - 0.1;
        assert_eq!(Pixel::channel(s(x)), hardware_channel(x), "{x:?}");
        i += 1;
    }
    let mut k: u32 = 0;
    while k <= 256 {
        let edge = k as f32 / 256.0;
        for x in [edge, f32::from_bits(edge.to_bits().wrapping_sub(1)), f32::from_bits(edge.to_bits() + 1)] {
            assert_eq!(Pixel::channel(s(x)), hardware_channel(x), "{x:?}");
        }
        k += 1;
    }
}

#[test]
fn pixel_from_color_is_opaque_and_channelwise() {
    let p = Pixel::from(color(0.5, 0.25, 2.0));
    assert_eq!(p, Pixel { r: 128, g: 64, b: 255, a: 255 });
    let q = Pixel::from(color(-3.0, f32::NAN, 0.0));
    assert_eq!(q, Pixel { r: 0, g: 0, b: 0, a: 255 });
    let into: Pixel = color(0.75, 0.999, 0.1).into();
    assert_eq!(into, Pixel { r: 192, g: 255, b: 25, a: 255 });
}

#[test]
fn default_pixel_is_blank() {
    assert_eq!(Pixel::default(), Pixel { r: 0, g: 0, b: 0, a: 0 });
}

#[test]
fn empty_target_is_blank() {
    let t = TargetOutput::empty(3, 2);
    assert_eq!(t.width(), 3);
    assert_eq!(t.height(), 2);
    assert_eq!(t.pixels().len(), 6);
    for p in t.pixels() {
        assert_eq!(*p, Pixel::default());
    }
    let none = TargetOutput::empty(0, 5);
    assert_eq!(none.pixels().len(), 0);
    let flat = TargetOutput::empty(4, 0);
    assert_eq!(flat.pixels().len(), 0);
}

#[test]
fn set_pixel_writes_in_row_major_order() {
    let mut t = TargetOutput::empty(3, 2);
    t.set_pixel(2, 1, color(1.0, 0.0, 0.5));
    let expected = Pixel { r: 255, g: 0, b: 128, a: 255 };
    for (i, p) in t.pixels().iter().enumerate() {
        if i == 1 * 3 + 2 {
            assert_eq!(*p, expected);
        } else {
            assert_eq!(*p, Pixel::default());
        }
    }
    assert_eq!(t.pixel(2, 1), expected);
    t.set_pixel(0, 0, color(0.25, 0.25, 0.25));
    assert_eq!(t.pixels()[0], Pixel { r: 64, g: 64, b: 64, a: 255 });
    assert_eq!(t.pixel(0, 0), Pixel { r: 64, g: 64, b: 64, a: 255 });
    t.set_pixel(1, 0, color(0.5, 0.5, 0.5));
    assert_eq!(t.pixels()[1], Pixel { r: 128, g: 128, b: 128, a: 255 });
    assert_eq!(t.pixel(2, 1), expected);
}

#[test]
fn render_fills_every_place_from_the_shader() {
    let mut t = TargetOutput::empty(4, 3);
    t.render(|x: u32, y: u32| color(x as f32 / 4.0, y as f32 / 4.0, 0.5));
    assert_eq!(t.pixels().len(), 12);
    for y in 0..3u32 {
        for x in 0..4u32 {
            let p = t.pixels()[(y * 4 + x) as usize];
            assert_eq!(p, Pixel { r: (x * 64) as u8, g: (y * 64) as u8, b: 128, a: 255 });
            assert_eq!(t.pixel(x, y), p);
        }
    }
}

#[test]
fn render_twice_gives_the_same_bytes() {
    let shade = |x: u32, y: u32| color((x + y) as f32 / 8.0, x as f32 / 5.0, y as f32 / 5.0);
    let mut t = TargetOutput::empty(5, 4);
    t.render(shade);
    let first = t.pixels().clone();
    t.render(shade);
    assert_eq!(&first, t.pixels());
}
