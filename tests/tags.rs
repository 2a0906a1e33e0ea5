use mif::cursor::ByteCursor;
use mif::error::MifError;
use mif::tags::{read_ext_tags, write_ext_tags, ChannelOffset, ExtTag, HalftoneTag, ImageTags, RepeatTag};

fn put_tag_head(b: &mut Vec<u8>, size: u32, id: u16) {
    b.extend_from_slice(&size.to_le_bytes());
    b.extend_from_slice(&id.to_le_bytes());
}

#[test]
fn raw_tags_keep_order() {
    let mut b = Vec::new();
    put_tag_head(&mut b, 2, 9);
    b.extend_from_slice(&[1, 2]);
    put_tag_head(&mut b, 1, 3);
    b.push(7);
    b.extend_from_slice(&0u32.to_le_bytes());
    b.push(0x42);
    let mut c = ByteCursor::new(b.clone());
    let ts = read_ext_tags(&mut c).unwrap();
    let got: Vec<(u16, u32, Vec<u8>)> = ts.iter().map(|t| (t.id, t.size, t.payload.clone())).collect();
    assert_eq!(got, vec![(9, 2, vec![1, 2]), (3, 1, vec![7])]);
    assert_eq!(c.read_u8(), Ok(0x42));
    let mut w = ByteCursor::empty();
    write_ext_tags(&mut w, &ts);
    assert_eq!(w.into_bytes(), b[..b.len() - 1].to_vec());
}

#[test]
fn empty_raw_table() {
    let mut c = ByteCursor::new(vec![0, 0, 0, 0]);
    assert!(read_ext_tags(&mut c).unwrap().is_empty());
    let mut w = ByteCursor::empty();
    write_ext_tags(&mut w, &Vec::<ExtTag>::new());
    assert_eq!(w.into_bytes(), vec![0, 0, 0, 0]);
}

#[test]
fn truncated_raw_tag_is_io_error() {
    let mut b = Vec::new();
    put_tag_head(&mut b, 5, 1);
    b.extend_from_slice(&[1, 2]);
    assert!(matches!(read_ext_tags(&mut ByteCursor::new(b)), Err(MifError::IoError)));
}

#[test]
fn image_tags_are_dispatched_by_id() {
    let mut b = Vec::new();
    put_tag_head(&mut b, 8, 1);
    b.extend_from_slice(&(-1i16).to_le_bytes());
    b.extend_from_slice(&2i16.to_le_bytes());
    b.extend_from_slice(&40i32.to_le_bytes());
    put_tag_head(&mut b, 6, 2);
    b.extend_from_slice(&300i32.to_le_bytes());
    b.extend_from_slice(&1i16.to_le_bytes());
    put_tag_head(&mut b, 10, 3);
    b.extend_from_slice(&2i16.to_le_bytes());
    for v in [1i16, -2, 3, -4] {
        b.extend_from_slice(&v.to_le_bytes());
    }
    put_tag_head(&mut b, 4, 4);
    b.extend_from_slice(&5i32.to_le_bytes());
    b.extend_from_slice(&0u32.to_le_bytes());
    let t = ImageTags::read(&mut ByteCursor::new(b.clone())).unwrap();
    assert_eq!(t.repeat, Some(RepeatTag { mode: -1, dir: 2, offset: 40 }));
    assert_eq!(t.halftone, Some(HalftoneTag { output_resolution: 300, enable: 1 }));
    assert_eq!(t.channel_offsets, Some(vec![ChannelOffset { x: 1, y: -2 }, ChannelOffset { x: 3, y: -4 }]));
    assert_eq!(t.rendering_method, Some(5));
    let mut w = ByteCursor::empty();
    t.write(&mut w);
    assert_eq!(w.into_bytes(), b);
}

#[test]
fn unknown_image_tag_empties_table() {
    let mut b = Vec::new();
    put_tag_head(&mut b, 4, 4);
    b.extend_from_slice(&5i32.to_le_bytes());
    put_tag_head(&mut b, 2, 99);
    b.extend_from_slice(&[0xAB, 0xCD]);
    let mut c = ByteCursor::new(b);
    let t = ImageTags::read(&mut c).unwrap();
    assert_eq!(t.repeat, None);
    assert_eq!(t.halftone, None);
    assert_eq!(t.channel_offsets, None);
    assert_eq!(t.rendering_method, None);
    assert_eq!(c.read_u8(), Ok(0xAB));
}

#[test]
fn empty_image_table_writes_terminator() {
    let t = ImageTags { repeat: None, halftone: None, channel_offsets: None, rendering_method: None };
    let mut w = ByteCursor::empty();
    t.write(&mut w);
    assert_eq!(w.into_bytes(), vec![0, 0, 0, 0]);
}
