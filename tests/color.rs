use mif::color::{ColorRecord, Rgb};
use mif::cursor::ByteCursor;
use mif::error::MifError;

fn record(color_type: i32, rgb: (u16, u16, u16), lab: (u16, u16, u16)) -> ColorRecord {
    ColorRecord {
        red: rgb.0,
        green: rgb.1,
        blue: rgb.2,
        l: lab.0,
        a: lab.1,
        b: lab.2,
        color_type,
        name: String::from("Red"),
        description: String::from("spot"),
        extra_datasize: 0,
    }
}

#[test]
fn direct_rgb_white() {
    let c = record(1, (0xFF00, 0xFF00, 0xFF00), (0, 0, 0));
    assert_eq!(c.display_rgb(), Rgb { r: 255, g: 255, b: 255 });
}

#[test]
fn direct_rgb_takes_high_bytes() {
    let c = record(1, (0x12FF, 0x3400, 0x00AB), (0, 0, 0));
    assert_eq!(c.display_rgb(), Rgb { r: 0x12, g: 0x34, b: 0x00 });
}

#[test]
fn perceptual_triple_approximation() {
    let light = record(0, (0, 0, 0), (65535, 32768, 32768));
    assert_eq!(light.display_rgb(), Rgb { r: 255, g: 255, b: 255 });
    let dark = record(0, (0, 0, 0), (0, 0, 0));
    assert_eq!(dark.display_rgb(), Rgb { r: 0, g: 50, b: 50 });
    let mid = record(0, (0, 0, 0), (32768, 65535, 0));
    // lightness 50 -> grey 127; a = 100, b = 0
    assert_eq!(mid.display_rgb(), Rgb { r: 177, g: 127, b: 177 });
}

#[test]
fn unknown_type_is_black() {
    let c = record(2, (0xFFFF, 0xFFFF, 0xFFFF), (65535, 0, 0));
    assert_eq!(c.display_rgb(), Rgb { r: 0, g: 0, b: 0 });
    let d = record(-1, (0xFFFF, 0xFFFF, 0xFFFF), (65535, 0, 0));
    assert_eq!(d.display_rgb(), Rgb { r: 0, g: 0, b: 0 });
}

#[test]
fn record_reads_back_as_written() {
    let c = record(1, (1, 2, 3), (4, 5, 6));
    let mut w = ByteCursor::empty();
    assert_eq!(c.write(&mut w), Ok(()));
    let bytes = w.into_bytes();
    assert_eq!(&bytes[0..4], b"COLR");
    assert_eq!(bytes.len(), 4 + 12 + 4 + 5 + 6 + 4);
    let mut r = ByteCursor::new(bytes);
    let back = ColorRecord::read(&mut r).unwrap();
    assert_eq!((back.red, back.green, back.blue), (1, 2, 3));
    assert_eq!((back.l, back.a, back.b), (4, 5, 6));
    assert_eq!(back.color_type, 1);
    assert_eq!(back.name, "Red");
    assert_eq!(back.description, "spot");
    assert_eq!(back.extra_datasize, 0);
}

#[test]
fn wrong_color_tag_is_mismatch() {
    let mut bytes = b"CLRX".to_vec();
    bytes.extend_from_slice(&[0; 40]);
    let mut r = ByteCursor::new(bytes);
    assert!(matches!(ColorRecord::read(&mut r), Err(MifError::TagMismatch)));
}
