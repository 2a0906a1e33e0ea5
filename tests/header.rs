use mif::cursor::ByteCursor;
use mif::error::MifError;
use mif::header::{version_of_tag, FormatHeader};
use mif::tags::ExtTag;

fn put_str(b: &mut Vec<u8>, s: &str) {
    b.extend_from_slice(&(s.len() as u16).to_le_bytes());
    b.extend_from_slice(s.as_bytes());
}

fn put_i16(b: &mut Vec<u8>, v: i16) {
    b.extend_from_slice(&v.to_le_bytes());
}

fn start(tag: &[u8; 8]) -> Vec<u8> {
    let mut b = tag.to_vec();
    put_i16(&mut b, 2);
    put_i16(&mut b, 1);
    put_i16(&mut b, 0);
    put_str(&mut b, "Rose");
    put_str(&mut b, "rose.mif");
    put_str(&mut b, "print");
    b
}

fn put_tags(b: &mut Vec<u8>, tags: &[(u16, &[u8])]) {
    for (id, payload) in tags {
        b.extend_from_slice(&(payload.len() as u32).to_le_bytes());
        b.extend_from_slice(&id.to_le_bytes());
        b.extend_from_slice(payload);
    }
    b.extend_from_slice(&0u32.to_le_bytes());
}

fn v3_bytes() -> Vec<u8> {
    let mut b = start(b"MIFF020\0");
    put_i16(&mut b, 2);
    put_str(&mut b, "width");
    put_str(&mut b, "height");
    b.extend_from_slice(&3u16.to_le_bytes());
    b.extend_from_slice(b"abc");
    put_i16(&mut b, 1);
    put_i16(&mut b, 2);
    b.extend_from_slice(&300i32.to_le_bytes());
    put_tags(&mut b, &[(7, b"xyz"), (9, b"q")]);
    b
}

fn tag_list(h: &FormatHeader) -> Vec<(u16, u32, Vec<u8>)> {
    h.tags.iter().map(|t: &ExtTag| (t.id, t.size, t.payload.clone())).collect()
}

#[test]
fn tag_bytes_name_versions() {
    assert_eq!(version_of_tag(b"MIFF001"), Some(1));
    assert_eq!(version_of_tag(b"MIFF010"), Some(2));
    assert_eq!(version_of_tag(b"MIFF020"), Some(3));
    assert_eq!(version_of_tag(b"MIFF030"), Some(4));
    assert_eq!(version_of_tag(b"MIFF040"), None);
}

#[test]
fn padded_tags_parse_to_versions_one_and_four() {
    let mut b = start(b"MIFF001\0");
    for p in ["a", "b", "c", "d"] {
        put_str(&mut b, p);
    }
    b.extend_from_slice(&0u16.to_le_bytes());
    let h = FormatHeader::read(&mut ByteCursor::new(b)).unwrap();
    assert_eq!(h.version, 1);
    assert_eq!(h.parameters, vec!["a", "b", "c", "d"]);
    assert_eq!(h.password_len, 0);
    assert_eq!(h.password, vec![0u8; 100]);

    let mut b = start(b"MIFF030\0");
    b.extend_from_slice(&[0u8; 256]);
    put_i16(&mut b, 1);
    put_str(&mut b, "only");
    put_tags(&mut b, &[(5, b"hello")]);
    let h = FormatHeader::read(&mut ByteCursor::new(b)).unwrap();
    assert_eq!(h.version, 4);
    assert_eq!(h.parameters, vec!["only"]);
    assert_eq!(tag_list(&h), vec![(5, 5, b"hello".to_vec())]);
}

#[test]
fn version_three_header_fields() {
    let h = FormatHeader::read(&mut ByteCursor::new(v3_bytes())).unwrap();
    assert_eq!(h.version, 3);
    assert_eq!((h.variant_count, h.active_variant, h.flags), (2, 1, 0));
    assert_eq!(h.design_name, "Rose");
    assert_eq!(h.design_file_name, "rose.mif");
    assert_eq!(h.design_type, "print");
    assert_eq!(h.parameters, vec!["width", "height"]);
    assert_eq!(h.password_len, 3);
    assert_eq!(&h.password[0..3], b"abc");
    assert_eq!(h.password.len(), 100);
    assert!(h.password[3..].iter().all(|&x| x == 0));
    assert_eq!((h.repeat_mode, h.repeat_dir, h.repeat_offset), (1, 2, 300));
    assert_eq!(tag_list(&h), vec![(7, 3, b"xyz".to_vec()), (9, 1, b"q".to_vec())]);
}

#[test]
fn rewrite_keeps_tag_list() {
    let h = FormatHeader::read(&mut ByteCursor::new(v3_bytes())).unwrap();
    let mut w = ByteCursor::empty();
    assert_eq!(h.write(&mut w), Ok(()));
    let out = w.into_bytes();
    assert_eq!(out, v3_bytes());
    let again = FormatHeader::read(&mut ByteCursor::new(out)).unwrap();
    assert_eq!(tag_list(&again), tag_list(&h));
}

#[test]
fn version_two_has_repeat_but_no_tags() {
    let mut b = start(b"MIFF010\0");
    put_i16(&mut b, 1);
    put_str(&mut b, "p");
    b.extend_from_slice(&0u16.to_le_bytes());
    put_i16(&mut b, -1);
    put_i16(&mut b, 3);
    b.extend_from_slice(&(-7i32).to_le_bytes());
    b.extend_from_slice(&[0xAA]);
    let mut c = ByteCursor::new(b);
    let h = FormatHeader::read(&mut c).unwrap();
    assert_eq!(h.version, 2);
    assert_eq!((h.repeat_mode, h.repeat_dir, h.repeat_offset), (-1, 3, -7));
    assert!(h.tags.is_empty());
    assert_eq!(c.read_u8(), Ok(0xAA));
}

#[test]
fn resync_turns_header_into_version_four() {
    let mut b = start(b"MIFF010\0");
    put_i16(&mut b, 0);
    b.extend_from_slice(&[0x55; 254]);
    put_i16(&mut b, 1);
    put_str(&mut b, "p");
    put_i16(&mut b, 4);
    put_i16(&mut b, 5);
    b.extend_from_slice(&6i32.to_le_bytes());
    put_tags(&mut b, &[(1, b"t")]);
    let h = FormatHeader::read(&mut ByteCursor::new(b)).unwrap();
    assert_eq!(h.version, 4);
    assert_eq!(h.parameters, vec!["p"]);
    assert_eq!(h.password_len, 0);
    assert_eq!((h.repeat_mode, h.repeat_dir, h.repeat_offset), (4, 5, 6));
    assert_eq!(tag_list(&h), vec![(1, 1, b"t".to_vec())]);

    let mut w = ByteCursor::empty();
    assert_eq!(h.write(&mut w), Ok(()));
    let again = FormatHeader::read(&mut ByteCursor::new(w.into_bytes())).unwrap();
    assert_eq!(again.version, 4);
    assert_eq!(tag_list(&again), tag_list(&h));
}

#[test]
fn failed_resync_is_corrupt_header() {
    let mut b = start(b"MIFF020\0");
    put_i16(&mut b, 21);
    b.extend_from_slice(&[0; 254]);
    put_i16(&mut b, 0);
    assert!(matches!(FormatHeader::read(&mut ByteCursor::new(b)), Err(MifError::CorruptHeader)));
}

#[test]
fn long_password_is_corrupt_header() {
    let mut b = start(b"MIFF010\0");
    put_i16(&mut b, 1);
    put_str(&mut b, "p");
    b.extend_from_slice(&101u16.to_le_bytes());
    b.extend_from_slice(&[0; 101]);
    assert!(matches!(FormatHeader::read(&mut ByteCursor::new(b)), Err(MifError::CorruptHeader)));
}

#[test]
fn version_four_count_out_of_range_is_corrupt_header() {
    let mut b = start(b"MIFF030\0");
    b.extend_from_slice(&[0u8; 256]);
    put_i16(&mut b, 21);
    assert!(matches!(FormatHeader::read(&mut ByteCursor::new(b)), Err(MifError::CorruptHeader)));
}

#[test]
fn unknown_header_tag_is_unsupported() {
    let b = start(b"MIFF999\0");
    assert!(matches!(FormatHeader::read(&mut ByteCursor::new(b)), Err(MifError::UnsupportedVersion)));
}

#[test]
fn truncated_header_is_io_error() {
    let mut b = v3_bytes();
    b.truncate(b.len() - 3);
    assert!(matches!(FormatHeader::read(&mut ByteCursor::new(b)), Err(MifError::IoError)));
}

#[test]
fn version_two_is_written_with_a_tag_terminator() {
    let mut b = start(b"MIFF010\0");
    put_i16(&mut b, 1);
    put_str(&mut b, "p");
    b.extend_from_slice(&0u16.to_le_bytes());
    put_i16(&mut b, -1);
    put_i16(&mut b, 3);
    b.extend_from_slice(&(-7i32).to_le_bytes());
    let h = FormatHeader::read(&mut ByteCursor::new(b.clone())).unwrap();
    let mut w = ByteCursor::empty();
    assert_eq!(h.write(&mut w), Ok(()));
    b.extend_from_slice(&0u32.to_le_bytes());
    assert_eq!(w.into_bytes(), b);
}

#[test]
fn version_one_is_written_without_count() {
    let mut b = start(b"MIFF001\0");
    for p in ["a", "b", "c", "d"] {
        put_str(&mut b, p);
    }
    b.extend_from_slice(&2u16.to_le_bytes());
    b.extend_from_slice(b"pw");
    let h = FormatHeader::read(&mut ByteCursor::new(b.clone())).unwrap();
    let mut w = ByteCursor::empty();
    assert_eq!(h.write(&mut w), Ok(()));
    assert_eq!(w.into_bytes(), b);
}
