use mif::color::ColorRecord;
use mif::cursor::ByteCursor;
use mif::design::Design;
use mif::error::MifError;
use mif::variant::{Variant, VariantDescriptor};

fn put_text(b: &mut Vec<u8>, s: &str) {
    b.extend_from_slice(&(s.len() as u16).to_le_bytes());
    b.extend_from_slice(s.as_bytes());
}

fn put_short(b: &mut Vec<u8>, v: i16) {
    b.extend_from_slice(&v.to_le_bytes());
}

fn put_long(b: &mut Vec<u8>, v: i32) {
    b.extend_from_slice(&v.to_le_bytes());
}

fn put_color(b: &mut Vec<u8>, name: &str) {
    let c = ColorRecord {
        red: 0xFF00,
        green: 0x8000,
        blue: 0,
        l: 0,
        a: 0,
        b: 0,
        color_type: 1,
        name: String::from(name),
        description: String::new(),
        extra_datasize: 0,
    };
    let mut w = ByteCursor::empty();
    c.write(&mut w).unwrap();
    b.extend_from_slice(&w.into_bytes());
}

fn v1_variant() -> Vec<u8> {
    let mut b = b"MIFV001\0".to_vec();
    put_text(&mut b, "desc");
    put_text(&mut b, "Blue");
    put_text(&mut b, "2001-02-03");
    put_text(&mut b, "Rose");
    put_text(&mut b, "print");
    put_text(&mut b, "rotary");
    put_text(&mut b, "Mill");
    put_short(&mut b, 1);
    put_short(&mut b, 1);
    put_text(&mut b, "Spot");
    b.push(1);
    b.extend_from_slice(&0.5f32.to_le_bytes());
    put_color(&mut b, "Spot");
    put_long(&mut b, 2);
    b.extend_from_slice(&[9, 9]);
    b
}

fn v4_variant() -> Vec<u8> {
    let mut b = b"MIFV030\0".to_vec();
    put_text(&mut b, "Green");
    put_text(&mut b, "d");
    put_text(&mut b, "2020");
    put_short(&mut b, 0);
    put_short(&mut b, 0);
    put_long(&mut b, 0);
    b.extend_from_slice(b"SIMPROP\0");
    put_text(&mut b, "sim");
    put_text(&mut b, "cotton");
    put_color(&mut b, "fabric");
    for v in [1, 2, 3, 4, 5] {
        put_long(&mut b, v);
    }
    b.extend_from_slice(&[0xAA; 36]);
    put_long(&mut b, 77);
    put_short(&mut b, 2);
    put_text(&mut b, "x");
    put_text(&mut b, "y");
    b
}

#[test]
fn old_descriptor_puts_description_first() {
    let d = VariantDescriptor::read(&mut ByteCursor::new(v1_variant())).unwrap();
    assert_eq!(d.version, 1);
    assert_eq!(d.description, "desc");
    assert_eq!(d.name, "Blue");
    assert_eq!(d.entry_date, "2001-02-03");
    assert_eq!(d.design_name.as_deref(), Some("Rose"));
    assert_eq!(d.design_type.as_deref(), Some("print"));
    assert_eq!(d.print_type.as_deref(), Some("rotary"));
    assert_eq!(d.factory_name.as_deref(), Some("Mill"));
    assert_eq!((d.channel_count1, d.channel_count2), (1, 1));
}

#[test]
fn version_one_variant_body() {
    let mut c = ByteCursor::new(v1_variant());
    let v = Variant::read(&mut c).unwrap();
    assert_eq!(v.channels.len(), 1);
    assert_eq!(v.channels[0].name, "Spot");
    assert!(v.channels[0].visible);
    assert_eq!(f32::from_bits(v.channels[0].opacity_bits), 0.5);
    assert_eq!(v.channels[0].color.red, 0xFF00);
    assert_eq!(v.preview, vec![9, 9]);
    assert!(v.simulation.is_none());
    assert!(v.parameters.is_empty());
    assert_eq!(c.position(), c.len());
}

#[test]
fn version_four_variant_body() {
    let mut c = ByteCursor::new(v4_variant());
    let v = Variant::read(&mut c).unwrap();
    assert_eq!(v.descriptor.version, 4);
    assert_eq!(v.descriptor.name, "Green");
    assert_eq!(v.descriptor.description, "d");
    assert!(v.descriptor.design_name.is_none());
    assert!(v.channels.is_empty());
    let sim = v.simulation.unwrap();
    assert_eq!(sim.tag, b"SIMPROP".to_vec());
    assert_eq!(sim.fabric_name, "cotton");
    assert_eq!(sim.fabric_color.name, "fabric");
    assert_eq!(sim.linear, (1, 2, 3));
    assert_eq!(sim.flags, (4, 5));
    assert_eq!(sim.blocks.0, vec![0xAA; 12]);
    assert_eq!(sim.size, 77);
    assert_eq!(v.parameters, vec!["x", "y"]);
    assert_eq!(c.position(), c.len());
}

#[test]
fn unknown_variant_tag_is_unsupported() {
    let mut b = v1_variant();
    b[6] = b'9';
    assert!(matches!(VariantDescriptor::read(&mut ByteCursor::new(b)), Err(MifError::UnsupportedVersion)));
}

#[test]
fn negative_preview_length_is_io_error() {
    let mut b = v1_variant();
    let n = b.len();
    b[n - 6..n - 2].copy_from_slice(&(-1i32).to_le_bytes());
    assert!(matches!(Variant::read(&mut ByteCursor::new(b)), Err(MifError::IoError)));
}

#[test]
fn design_reads_counted_variants() {
    let mut b = b"MIFF001\0".to_vec();
    put_short(&mut b, 2);
    put_short(&mut b, 0);
    put_short(&mut b, 0);
    for s in ["Rose", "rose.mif", "print", "a", "b", "c", "d"] {
        put_text(&mut b, s);
    }
    b.extend_from_slice(&0u16.to_le_bytes());
    b.extend_from_slice(&v1_variant());
    b.extend_from_slice(&v4_variant());
    let d = Design::read(&mut ByteCursor::new(b)).unwrap();
    assert_eq!(d.variants.len(), 2);
    assert_eq!(d.variant(1).unwrap().descriptor.name, "Green");
    assert!(matches!(d.variant(2), Err(MifError::IndexOutOfRange)));
}
