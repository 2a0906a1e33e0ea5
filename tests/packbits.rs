use mif::error::MifError;
use mif::packbits::decompress;

#[test]
fn literal_run_is_copied() {
    assert_eq!(decompress(&[0x02, 0x41, 0x42, 0x43]), Ok(vec![0x41, 0x42, 0x43]));
}

#[test]
fn repeat_run_is_expanded() {
    assert_eq!(decompress(&[0xFE, 0x41]), Ok(vec![0x41, 0x41, 0x41]));
}

#[test]
fn minus_128_is_a_no_op() {
    assert_eq!(decompress(&[0x80]), Ok(vec![]));
}

#[test]
fn empty_input_decodes_to_nothing() {
    assert_eq!(decompress(&[]), Ok(vec![]));
}

#[test]
fn runs_are_concatenated() {
    assert_eq!(
        decompress(&[0x00, 0x07, 0x80, 0xFF, 0x09, 0x01, 0x01, 0x02]),
        Ok(vec![0x07, 0x09, 0x09, 0x01, 0x02])
    );
}

#[test]
fn longest_repeat_run() {
    assert_eq!(decompress(&[0x81, 0x05]), Ok(vec![0x05; 128]));
}

#[test]
fn literal_overrun_is_corrupt() {
    assert_eq!(decompress(&[0x03, 0x41, 0x42]), Err(MifError::CorruptData));
}

#[test]
fn missing_repeat_byte_is_corrupt() {
    assert_eq!(decompress(&[0x41, 0xFD]), Err(MifError::CorruptData));
}
