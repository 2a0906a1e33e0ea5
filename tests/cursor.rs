use mif::cursor::ByteCursor;
use mif::error::MifError;
use mif::text::decode_text_bytes;

#[test]
fn reads_little_endian_integers() {
    let mut c = ByteCursor::new(vec![0x34, 0x12, 0xFE, 0xFF, 0x78, 0x56, 0x34, 0x12, 0xFF, 0xFF, 0xFF, 0xFF, 0x80]);
    assert_eq!(c.read_u16(), Ok(0x1234));
    assert_eq!(c.read_i16(), Ok(-2));
    assert_eq!(c.read_u32(), Ok(0x1234_5678));
    assert_eq!(c.read_i32(), Ok(-1));
    assert_eq!(c.read_i8(), Ok(-128));
    assert_eq!(c.position(), 13);
    assert_eq!(c.read_u8(), Err(MifError::IoError));
    assert_eq!(c.position(), 13);
}

#[test]
fn short_read_fails_and_keeps_position() {
    let mut c = ByteCursor::new(vec![1, 2, 3]);
    assert_eq!(c.read_u32(), Err(MifError::IoError));
    assert_eq!(c.position(), 0);
    assert_eq!(c.read_bytes(3), Ok(vec![1, 2, 3]));
}

#[test]
fn bool_is_nonzero() {
    let mut c = ByteCursor::new(vec![0, 1, 7]);
    assert_eq!(c.read_bool(), Ok(false));
    assert_eq!(c.read_bool(), Ok(true));
    assert_eq!(c.read_bool(), Ok(true));
}

#[test]
fn float_is_kept_as_bits() {
    let mut c = ByteCursor::new(0.5f32.to_le_bytes().to_vec());
    let bits = c.read_f32_bits().unwrap();
    assert_eq!(f32::from_bits(bits), 0.5);
}

#[test]
fn seek_past_end_is_refused() {
    let mut c = ByteCursor::new(vec![1, 2, 3]);
    assert_eq!(c.seek(3), Ok(()));
    assert_eq!(c.seek(4), Err(MifError::IoError));
    assert_eq!(c.position(), 3);
    assert_eq!(c.seek(1), Ok(()));
    assert_eq!(c.read_u8(), Ok(2));
}

#[test]
fn tag_drops_nul_padding() {
    let mut c = ByteCursor::new(b"MIFF001\0rest".to_vec());
    assert_eq!(c.read_tag(8), Ok(b"MIFF001".to_vec()));
    assert_eq!(c.position(), 8);
}

#[test]
fn utf8_string_is_decoded() {
    let mut c = ByteCursor::new(vec![3, 0, b'a', 0xC3, 0xA9]);
    assert_eq!(c.read_string().unwrap(), "a\u{e9}");
}

#[test]
fn legacy_string_goes_through_code_page() {
    let mut c = ByteCursor::new(vec![4, 0, 0x80, b'x', 0x81, 0xE9]);
    assert_eq!(c.read_string().unwrap(), "\u{20AC}x\u{81}\u{e9}");
}

#[test]
fn trailing_nuls_are_trimmed() {
    let mut c = ByteCursor::new(vec![4, 0, b'a', b'b', 0, 0]);
    assert_eq!(c.read_string().unwrap(), "ab");
    assert_eq!(decode_text_bytes(&[0, 0]), "");
    assert_eq!(decode_text_bytes(&[b'a', 0, b'b', 0]), "a\u{0}b");
}

#[test]
fn string_longer_than_store_fails() {
    let mut c = ByteCursor::new(vec![5, 0, b'a']);
    assert_eq!(c.read_string(), Err(MifError::IoError));
}

#[test]
fn writes_append_in_little_endian() {
    let mut c = ByteCursor::empty();
    c.write_u16(0x1234);
    c.write_i16(-2);
    c.write_u32(0x0102_0304);
    c.write_i32(-1);
    c.write_bool(true);
    c.write_tag(b"AB", 4);
    assert_eq!(c.write_string("\u{e9}"), Ok(()));
    assert_eq!(
        c.into_bytes(),
        vec![0x34, 0x12, 0xFE, 0xFF, 4, 3, 2, 1, 0xFF, 0xFF, 0xFF, 0xFF, 1, b'A', b'B', 0, 0, 2, 0, 0xC3, 0xA9]
    );
}

#[test]
fn overlong_string_is_refused() {
    let mut c = ByteCursor::empty();
    let long = "x".repeat(0x10000);
    assert_eq!(c.write_string(&long), Err(MifError::IoError));
    assert_eq!(c.len(), 0);
}

#[test]
fn written_values_read_back() {
    let mut c = ByteCursor::empty();
    c.write_i32(-123456);
    c.write_i16(-300);
    assert_eq!(c.write_string("name"), Ok(()));
    let mut r = ByteCursor::new(c.into_bytes());
    assert_eq!(r.read_i32(), Ok(-123456));
    assert_eq!(r.read_i16(), Ok(-300));
    assert_eq!(r.read_string().unwrap(), "name");
}

#[test]
fn signed_bytes_are_written_in_twos_complement() {
    let mut c = ByteCursor::empty();
    c.write_i8(-1);
    c.write_i8(-128);
    c.write_i8(127);
    c.write_u8(7);
    assert_eq!(c.into_bytes(), vec![0xFF, 0x80, 0x7F, 7]);
}
