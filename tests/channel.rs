use mif::channel::ChannelDataSection;
use mif::cursor::ByteCursor;
use mif::error::MifError;

/// A 3-wide, 2-high section: line 0 stored raw, line 1 PackBits-coded.
fn section_bytes(tag: &[u8; 8]) -> Vec<u8> {
    let mut b = tag.to_vec();
    b.extend_from_slice(&3i32.to_le_bytes());
    b.extend_from_slice(&2i32.to_le_bytes());
    b.extend_from_slice(&5i32.to_le_bytes());
    b.extend_from_slice(&3u16.to_le_bytes());
    b.extend_from_slice(&2u16.to_le_bytes());
    b.extend_from_slice(&[0, 1]);
    b.extend_from_slice(&[10, 20, 30]);
    b.extend_from_slice(&[0xFE, 0x07]);
    b.push(0xEE);
    b
}

#[test]
fn section_index_is_read() {
    let mut c = ByteCursor::new(section_bytes(b"IMGDATA\0"));
    let s = ChannelDataSection::read(&mut c).unwrap();
    assert_eq!((s.width, s.height, s.data_size), (3, 2, 5));
    assert_eq!(s.line_sizes, vec![3, 2]);
    assert_eq!(s.line_flags, vec![0, 1]);
    assert_eq!(s.data_origin, 26);
    assert_eq!(c.read_u8(), Ok(0xEE));
}

#[test]
fn section_tag_ignores_case() {
    let mut c = ByteCursor::new(section_bytes(b"ImgData\0"));
    assert!(ChannelDataSection::read(&mut c).is_ok());
}

#[test]
fn wrong_section_tag_is_mismatch() {
    let mut c = ByteCursor::new(section_bytes(b"IMGDATB\0"));
    assert!(matches!(ChannelDataSection::read(&mut c), Err(MifError::TagMismatch)));
}

#[test]
fn lines_are_decoded() {
    let mut c = ByteCursor::new(section_bytes(b"IMGDATA\0"));
    let s = ChannelDataSection::read(&mut c).unwrap();
    assert_eq!(s.read_line(&mut c, 0), Ok(vec![10, 20, 30]));
    assert_eq!(s.read_line(&mut c, 1), Ok(vec![7, 7, 7]));
    assert_eq!(s.read_all(&mut c), Ok(vec![10, 20, 30, 7, 7, 7]));
}

#[test]
fn line_past_height_is_corrupt() {
    let mut c = ByteCursor::new(section_bytes(b"IMGDATA\0"));
    let s = ChannelDataSection::read(&mut c).unwrap();
    assert_eq!(s.read_line(&mut c, 2), Err(MifError::CorruptData));
    assert_eq!(s.read_line(&mut c, 100), Err(MifError::CorruptData));
}

#[test]
fn data_past_end_is_io_error() {
    let mut b = section_bytes(b"IMGDATA\0");
    b.truncate(b.len() - 3);
    let mut c = ByteCursor::new(b);
    assert!(matches!(ChannelDataSection::read(&mut c), Err(MifError::IoError)));
}

#[test]
fn section_rewrites_verbatim() {
    let bytes = section_bytes(b"IMGDATA\0");
    let mut c = ByteCursor::new(bytes.clone());
    let s = ChannelDataSection::read(&mut c).unwrap();
    let mut w = ByteCursor::empty();
    assert_eq!(s.write(&[10, 20, 30, 0xFE, 0x07], &mut w), Ok(()));
    assert_eq!(w.into_bytes(), bytes[..bytes.len() - 1].to_vec());
}
