use mif::color::{ColorRecord, Rgb};
use mif::compose::{channel_applies, compose, Channel};
use mif::error::MifError;

fn color(r: u16, g: u16, b: u16) -> ColorRecord {
    ColorRecord {
        red: r,
        green: g,
        blue: b,
        l: 0,
        a: 0,
        b: 0,
        color_type: 1,
        name: String::new(),
        description: String::new(),
        extra_datasize: 0,
    }
}

fn channel(name: &str, visible: bool, w: usize, h: usize, data: Vec<u8>, c: ColorRecord) -> Channel {
    Channel { width: w, height: h, data, name: String::from(name), visible, opacity_bits: 1.0f32.to_bits(), color: c }
}

/// The engine's default blend, in CMY space.
fn native(px: Rgb, value: u8, col: Rgb, opacity_bits: u32) -> Rgb {
    let opacity = f32::from_bits(opacity_bits) as f64;
    let cmy = |v: u8| 255.0 - v as f64;
    let canvas = [cmy(px.r), cmy(px.g), cmy(px.b)];
    let ink = [cmy(col.r), cmy(col.g), cmy(col.b)];
    let blend = 255.0 - value as f64;
    let scaled_opacity = opacity * blend / 128.0;
    let dissolve = blend * canvas[0] / 255.0;
    let mut out = [0u8; 3];
    for k in 0..3 {
        let mut v = canvas[k] * (255.0 - dissolve) / 255.0;
        v = v * (255.0 - scaled_opacity) / 255.0;
        v += (255.0 - v) * blend * ink[k] / (255.0 * 255.0);
        out[k] = (255.0 - v) as u8;
    }
    Rgb { r: out[0], g: out[1], b: out[2] }
}

#[test]
fn blank_channel_leaves_fabric() {
    let fabric = color(0xFFFF, 0xFFFF, 0xFFFF);
    let chans = vec![channel("Spot", true, 2, 2, vec![255; 4], color(0x1000, 0x8000, 0x2000))];
    let r = compose(&chans, &fabric, 1, native).unwrap();
    assert_eq!((r.width, r.height), (2, 2));
    assert_eq!(r.pixels, vec![Rgb { r: 255, g: 255, b: 255 }; 4]);
}

#[test]
fn white_ink_at_zero_leaves_white_fabric() {
    let fabric = color(0xFFFF, 0xFFFF, 0xFFFF);
    let chans = vec![channel("Spot", true, 2, 2, vec![0; 4], color(0xFFFF, 0xFFFF, 0xFFFF))];
    let r = compose(&chans, &fabric, 1, native).unwrap();
    assert_eq!(r.pixels, vec![Rgb { r: 255, g: 255, b: 255 }; 4]);
}

#[test]
fn full_ink_on_white_gives_ink_colour() {
    let fabric = color(0xFFFF, 0xFFFF, 0xFFFF);
    let chans = vec![channel("Spot", true, 1, 1, vec![0], color(0x1000, 0x8000, 0x2000))];
    let r = compose(&chans, &fabric, 1, native).unwrap();
    assert_eq!(r.pixels, vec![Rgb { r: 0x10, g: 0x80, b: 0x20 }]);
}

#[test]
fn compose_is_deterministic() {
    let fabric = color(0xC000, 0xB000, 0xA000);
    let chans = vec![
        channel("A", true, 4, 2, vec![0, 50, 100, 150, 200, 250, 255, 5], color(0x1000, 0x8000, 0x2000)),
        channel("B", true, 4, 2, vec![9, 8, 7, 6, 5, 4, 3, 2], color(0x4000, 0x4000, 0xF000)),
    ];
    let r1 = compose(&chans, &fabric, 1, native).unwrap();
    let r2 = compose(&chans, &fabric, 1, native).unwrap();
    assert_eq!(r1.pixels, r2.pixels);
    assert_eq!(r1.pixels.len(), 8);
}

#[test]
fn channels_apply_in_order() {
    let fabric = color(0, 0, 0);
    let first = |_px: Rgb, v: u8, _c: Rgb, _o: u32| Rgb { r: v, g: 0, b: 0 };
    let chans = vec![
        channel("A", true, 1, 1, vec![3], color(0, 0, 0)),
        channel("B", true, 1, 1, vec![9], color(0, 0, 0)),
    ];
    let r = compose(&chans, &fabric, 1, first).unwrap();
    assert_eq!(r.pixels, vec![Rgb { r: 9, g: 0, b: 0 }]);
    let add = |px: Rgb, v: u8, _c: Rgb, _o: u32| Rgb { r: px.r.wrapping_add(v), g: px.g, b: px.b };
    let r = compose(&chans, &fabric, 1, add).unwrap();
    assert_eq!(r.pixels, vec![Rgb { r: 12, g: 0, b: 0 }]);
}

#[test]
fn invisible_process_channels_are_skipped() {
    let fabric = color(0, 0, 0);
    let add = |px: Rgb, v: u8, _c: Rgb, _o: u32| Rgb { r: px.r.wrapping_add(v), g: px.g, b: px.b };
    let chans = vec![
        channel("Cyan", false, 1, 1, vec![1], color(0, 0, 0)),
        channel("Magenta", true, 1, 1, vec![2], color(0, 0, 0)),
        channel("Spot", false, 1, 1, vec![4], color(0, 0, 0)),
        channel("Yellow", false, 1, 1, vec![8], color(0, 0, 0)),
    ];
    assert!(!channel_applies(&chans[0]));
    assert!(channel_applies(&chans[1]));
    assert!(channel_applies(&chans[2]));
    let r = compose(&chans, &fabric, 1, add).unwrap();
    assert_eq!(r.pixels, vec![Rgb { r: 6, g: 0, b: 0 }]);
}

#[test]
fn scale_samples_every_nth_pixel() {
    let fabric = color(0, 0, 0);
    let take = |_px: Rgb, v: u8, _c: Rgb, _o: u32| Rgb { r: v, g: v, b: v };
    let data: Vec<u8> = (0..20).collect();
    let chans = vec![channel("A", true, 5, 4, data, color(0, 0, 0))];
    let r = compose(&chans, &fabric, 2, take).unwrap();
    assert_eq!((r.width, r.height), (2, 2));
    let got: Vec<u8> = r.pixels.iter().map(|p| p.r).collect();
    assert_eq!(got, vec![0, 2, 10, 12]);
}

#[test]
fn mismatched_channels_are_corrupt() {
    let fabric = color(0, 0, 0);
    let chans = vec![
        channel("A", true, 2, 2, vec![0; 4], color(0, 0, 0)),
        channel("B", true, 2, 1, vec![0; 2], color(0, 0, 0)),
    ];
    assert!(matches!(compose(&chans, &fabric, 1, native), Err(MifError::CorruptData)));
    let short = vec![channel("A", true, 2, 2, vec![0; 3], color(0, 0, 0))];
    assert!(matches!(compose(&short, &fabric, 1, native), Err(MifError::CorruptData)));
}

fn layer_text(b: &mut Vec<u8>, s: &str) {
    b.extend_from_slice(&(s.len() as u16).to_le_bytes());
    b.extend_from_slice(s.as_bytes());
}

/// A 2-by-2 section whose two lines are stored raw.
fn layer_section(b: &mut Vec<u8>, pixels: [u8; 4]) {
    b.extend_from_slice(b"IMGDATA\0");
    b.extend_from_slice(&2i32.to_le_bytes());
    b.extend_from_slice(&2i32.to_le_bytes());
    b.extend_from_slice(&4i32.to_le_bytes());
    b.extend_from_slice(&2u16.to_le_bytes());
    b.extend_from_slice(&2u16.to_le_bytes());
    b.extend_from_slice(&[0, 0]);
    b.extend_from_slice(&pixels);
}

/// A revision-1 design with one variant of one visible channel, followed by
/// two layers of channel sections.
fn layered_design() -> Vec<u8> {
    let mut b = b"MIFF001\0".to_vec();
    for v in [1i16, 0, 0] {
        b.extend_from_slice(&v.to_le_bytes());
    }
    for s in ["Rose", "rose.mif", "print", "a", "b", "c", "d"] {
        layer_text(&mut b, s);
    }
    b.extend_from_slice(&0u16.to_le_bytes());
    b.extend_from_slice(b"MIFV001\0");
    for s in ["desc", "Blue", "2001", "Rose", "print", "rotary", "Mill"] {
        layer_text(&mut b, s);
    }
    b.extend_from_slice(&1i16.to_le_bytes());
    b.extend_from_slice(&1i16.to_le_bytes());
    layer_text(&mut b, "Spot");
    b.push(1);
    b.extend_from_slice(&1.0f32.to_le_bytes());
    let mut w = mif::cursor::ByteCursor::empty();
    color(0x1000, 0x8000, 0x2000).write(&mut w).unwrap();
    b.extend_from_slice(&w.into_bytes());
    b.extend_from_slice(&0i32.to_le_bytes());
    layer_section(&mut b, [255, 255, 255, 255]);
    layer_section(&mut b, [0, 255, 255, 0]);
    b
}

#[test]
fn layers_are_read_after_the_variants() {
    let mut cur = mif::cursor::ByteCursor::new(layered_design());
    let design = mif::design::Design::read(&mut cur).unwrap();
    assert_eq!(design.variants.len(), 1);
    let variant = design.variant(0).unwrap();
    let start = cur.position();

    let first = mif::compose::read_layer(&mut cur, &variant.channels, 0).unwrap();
    assert_eq!(first.len(), 1);
    assert_eq!((first[0].width, first[0].height), (2, 2));
    assert_eq!(first[0].data, vec![255, 255, 255, 255]);
    assert_eq!(first[0].name, "Spot");
    assert!(first[0].visible);

    cur.restore_position(start);
    let second = mif::compose::read_layer(&mut cur, &variant.channels, 1).unwrap();
    assert_eq!(second[0].data, vec![0, 255, 255, 0]);

    let fabric = color(0xFFFF, 0xFFFF, 0xFFFF);
    let r = compose(&first, &fabric, 1, native).unwrap();
    assert_eq!(r.pixels, vec![Rgb { r: 255, g: 255, b: 255 }; 4]);
}

#[test]
fn layer_past_the_last_is_out_of_range() {
    let mut cur = mif::cursor::ByteCursor::new(layered_design());
    let design = mif::design::Design::read(&mut cur).unwrap();
    let variant = design.variant(0).unwrap();
    let start = cur.position();
    assert!(matches!(
        mif::compose::read_layer(&mut cur, &variant.channels, 2),
        Err(MifError::IndexOutOfRange)
    ));
    cur.restore_position(start);
    assert!(matches!(
        mif::compose::read_layer(&mut cur, &variant.channels, 5),
        Err(MifError::IndexOutOfRange)
    ));
    assert!(matches!(design.variant(1), Err(MifError::IndexOutOfRange)));
}

#[test]
fn truncated_layer_is_io_error() {
    let mut bytes = layered_design();
    bytes.truncate(bytes.len() - 2);
    let mut cur = mif::cursor::ByteCursor::new(bytes);
    let design = mif::design::Design::read(&mut cur).unwrap();
    let variant = design.variant(0).unwrap();
    assert!(matches!(
        mif::compose::read_layer(&mut cur, &variant.channels, 1),
        Err(MifError::IoError)
    ));
}
