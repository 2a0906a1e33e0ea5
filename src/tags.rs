//! Extension tag tables: lists of `(size, id, payload)` records ended by a
//! zero size, in two vocabularies.
use vstd::prelude::*;
use crate::cursor::{ByteCursor, signed16, le16, parse_u32, parse_u16, parse_i16, parse_i32, parse_bytes,
    u32_bytes, u16_bytes, i16_bytes, i32_bytes, lemma_u32_round_trip, lemma_u16_round_trip};
use crate::error::MifError;

verus! {

/// One raw tag of a header: its id and its payload as stored.
pub struct ExtTag {
    pub id: u16,
    pub size: u32,
    pub payload: Vec<u8>,
}

/// The abstract content of a raw tag.
pub struct ExtTagView {
    pub id: u16,
    pub size: u32,
    pub payload: Seq<u8>,
}

impl View for ExtTag {
    type V = ExtTagView;

    open spec fn view(&self) -> ExtTagView {
        ExtTagView { id: self.id, size: self.size, payload: self.payload@ }
    }
}

/// The abstract content of a list of raw tags.
pub open spec fn tags_view(ts: Seq<ExtTag>) -> Seq<ExtTagView> {
    ts.map_values(|t: ExtTag| t@)
}

/// A raw tag list as read: a 32-bit size, zero ending the list; otherwise a
/// 16-bit id and `size` payload bytes, and the rest of the list.
pub open spec fn parse_ext_tags(s: Seq<u8>) -> Result<(Seq<ExtTagView>, Seq<u8>), MifError>
    decreases s.len(),
{
    match parse_u32(s) {
        Err(e) => Err(e),
        Ok((size, s1)) => if size == 0 {
            Ok((Seq::empty(), s1))
        } else {
            match parse_u16(s1) {
                Err(e) => Err(e),
                Ok((id, s2)) => match parse_bytes(s2, size as nat) {
                    Err(e) => Err(e),
                    Ok((payload, s3)) => match parse_ext_tags(s3) {
                        Err(e) => Err(e),
                        Ok((more, s4)) => Ok((seq![ExtTagView { id, size, payload }] + more, s4)),
                    },
                },
            }
        },
    }
}

/// One raw tag as written.
pub open spec fn ext_tag_bytes(t: ExtTagView) -> Seq<u8> {
    u32_bytes(t.size) + u16_bytes(t.id) + t.payload
}

/// The tags of a list as written, before the terminator.
pub open spec fn ext_tags_body(ts: Seq<ExtTagView>) -> Seq<u8>
    decreases ts.len(),
{
    if ts.len() == 0 {
        Seq::empty()
    } else {
        ext_tags_body(ts.drop_last()) + ext_tag_bytes(ts.last())
    }
}

/// A raw tag list as written: the tags, then a zero size.
pub open spec fn ext_tags_bytes(ts: Seq<ExtTagView>) -> Seq<u8> {
    ext_tags_body(ts) + u32_bytes(0)
}

/// A tag list that reads back as written: no tag has size zero (it would
/// end the list), and each size is the length of its payload.
pub open spec fn valid_ext_tags(ts: Seq<ExtTagView>) -> bool {
    forall|i: int| 0 <= i < ts.len() ==> #[trigger] ts[i].size > 0 && ts[i].size == ts[i].payload.len()
}

/// Reads a raw tag list up to and including its terminator.
#[verifier::spinoff_prover]
pub fn read_ext_tags(cur: &mut ByteCursor) -> (r: Result<Vec<ExtTag>, MifError>)
    ensures
        final(cur).bytes() == old(cur).bytes(),
        match parse_ext_tags(old(cur).rest()) {
            Ok((v, rest)) => r matches Ok(ts) && tags_view(ts@) == v && final(cur).rest() == rest,
            Err(e) => r is Err && r->Err_0 == e,
        },
{
    let mut out: Vec<ExtTag> = Vec::new();
    proof {
        if let Ok((v, rest)) = parse_ext_tags(cur.rest()) {
            assert(tags_view(out@) + v =~= v);
        }
    }
    loop
        invariant
            cur.bytes() == old(cur).bytes(),
            parse_ext_tags(old(cur).rest()) == match parse_ext_tags(cur.rest()) {
                Ok((v, rest)) => Ok((tags_view(out@) + v, rest)),
                Err(e) => Err::<(Seq<ExtTagView>, Seq<u8>), MifError>(e),
            },
        decreases cur.rest().len(),
    {
        let ghost before = cur.rest();
        let size = cur.read_u32()?;
        if size == 0 {
            proof {
                assert(tags_view(out@) + Seq::<ExtTagView>::empty() =~= tags_view(out@));
            }
            return Ok(out);
        }
        let ghost s1 = cur.rest();
        let id = cur.read_u16()?;
        let ghost s2 = cur.rest();
        let payload = cur.read_bytes(size as usize)?;
        let ghost t = ExtTagView { id, size, payload: payload@ };
        let ghost out0 = out@;
        let tag = ExtTag { id, size, payload };
        out.push(tag);
        proof {
            assert(parse_u32(before) == Ok::<(u32, Seq<u8>), MifError>((size, s1)));
            assert(parse_u16(s1) == Ok::<(u16, Seq<u8>), MifError>((id, s2)));
            assert(parse_bytes(s2, size as nat) == Ok::<(Seq<u8>, Seq<u8>), MifError>((t.payload, cur.rest())));
            assert(tags_view(out@) =~= tags_view(out0).push(t));
            if let Ok((v, rest)) = parse_ext_tags(cur.rest()) {
                assert(tags_view(out@) + v =~= tags_view(out0) + (seq![t] + v));
            }
        }
    }
}

/// Appends a raw tag list and its terminator.
pub fn write_ext_tags(cur: &mut ByteCursor, ts: &Vec<ExtTag>)
    ensures
        final(cur).bytes() == old(cur).bytes() + ext_tags_bytes(tags_view(ts@)),
{
    let mut i: usize = 0;
    proof {
        assert(cur.bytes() =~= old(cur).bytes() + ext_tags_body(tags_view(ts@.take(0))));
    }
    while i < ts.len()
        invariant
            i <= ts@.len(),
            cur.bytes() == old(cur).bytes() + ext_tags_body(tags_view(ts@.take(i as int))),
        decreases ts@.len() - i,
    {
        let t = &ts[i];
        cur.write_u32(t.size);
        cur.write_u16(t.id);
        cur.write_bytes(t.payload.as_slice());
        i = i + 1;
        proof {
            let v = tags_view(ts@.take(i as int));
            assert(v.drop_last() =~= tags_view(ts@.take(i - 1)));
            assert(v.last() == t@);
            assert(cur.bytes() =~= old(cur).bytes() + ext_tags_body(v));
        }
    }
    cur.write_u32(0);
    proof {
        assert(ts@.take(i as int) =~= ts@);
        assert(cur.bytes() =~= old(cur).bytes() + ext_tags_bytes(tags_view(ts@)));
    }
}

/// The body of a non-empty list splits after its first tag.
proof fn lemma_body_front(ts: Seq<ExtTagView>)
    requires
        ts.len() > 0,
    ensures
        ext_tags_body(ts) == ext_tag_bytes(ts[0]) + ext_tags_body(ts.skip(1)),
    decreases ts.len(),
{
    if ts.len() == 1 {
        assert(ts.drop_last() =~= Seq::<ExtTagView>::empty());
        assert(ts.skip(1) =~= Seq::<ExtTagView>::empty());
        assert(ext_tags_body(ts) =~= ext_tag_bytes(ts[0]) + ext_tags_body(ts.skip(1)));
    } else {
        lemma_body_front(ts.drop_last());
        assert(ts.drop_last().skip(1) =~= ts.skip(1).drop_last());
        assert(ts.drop_last()[0] == ts[0]);
        assert(ts.skip(1).last() == ts.last());
        assert(ext_tags_body(ts) =~= ext_tag_bytes(ts[0]) + ext_tags_body(ts.skip(1)));
    }
}

/// The bytes of a non-empty list, split after the first tag's fields.
proof fn lemma_bytes_front(ts: Seq<ExtTagView>, rest: Seq<u8>)
    requires
        ts.len() > 0,
    ensures
        ext_tags_bytes(ts) + rest == u32_bytes(ts[0].size) + (u16_bytes(ts[0].id) + (ts[0].payload
            + (ext_tags_bytes(ts.skip(1)) + rest))),
{
    lemma_body_front(ts);
    assert(ext_tags_bytes(ts) + rest =~= u32_bytes(ts[0].size) + (u16_bytes(ts[0].id) + (ts[0].payload
        + (ext_tags_bytes(ts.skip(1)) + rest))));
}

/// A valid tag list, written, reads back as the same list, and the bytes
/// after it are left as they were.
#[verifier::spinoff_prover]
pub proof fn lemma_ext_tags_round_trip(ts: Seq<ExtTagView>, rest: Seq<u8>)
    requires
        valid_ext_tags(ts),
    ensures
        parse_ext_tags(ext_tags_bytes(ts) + rest) == Ok::<(Seq<ExtTagView>, Seq<u8>), MifError>((ts, rest)),
    decreases ts.len(),
{
    let s = ext_tags_bytes(ts) + rest;
    if ts.len() == 0 {
        assert(s =~= u32_bytes(0) + rest);
        lemma_u32_round_trip(0, rest);
        assert(ts =~= Seq::<ExtTagView>::empty());
    } else {
        let t = ts[0];
        let tail = ts.skip(1);
        assert(t.size > 0 && t.size == t.payload.len());
        assert(valid_ext_tags(tail)) by {
            assert forall|i: int| 0 <= i < tail.len() implies #[trigger] tail[i].size > 0
                && tail[i].size == tail[i].payload.len() by {
                assert(tail[i] == ts[i + 1]);
            }
        }
        lemma_ext_tags_round_trip(tail, rest);
        let s3 = ext_tags_bytes(tail) + rest;
        let s2 = t.payload + s3;
        let s1 = u16_bytes(t.id) + s2;
        lemma_bytes_front(ts, rest);
        assert(s == u32_bytes(t.size) + s1);
        lemma_u32_round_trip(t.size, s1);
        lemma_u16_round_trip(t.id, s2);
        lemma_parse_payload(t.payload, s3);
        assert(parse_u32(s) == Ok::<(u32, Seq<u8>), MifError>((t.size, s1)));
        assert(parse_ext_tags(s3) == Ok::<(Seq<ExtTagView>, Seq<u8>), MifError>((tail, rest)));
        assert(seq![t] + tail =~= ts);
        assert(seq![ExtTagView { id: t.id, size: t.size, payload: t.payload }] + tail == ts);
    }
}

/// Payload bytes are read back as written.
proof fn lemma_parse_payload(p: Seq<u8>, rest: Seq<u8>)
    ensures
        parse_bytes(p + rest, p.len()) == Ok::<(Seq<u8>, Seq<u8>), MifError>((p, rest)),
{
    assert((p + rest).take(p.len() as int) =~= p);
    assert((p + rest).skip(p.len() as int) =~= rest);
}

/// How the design repeats across the fabric.
#[derive(Clone, Copy, Debug, PartialEq, Eq, Structural)]
pub struct RepeatTag {
    pub mode: i16,
    pub dir: i16,
    pub offset: i32,
}

/// Halftone output settings.
#[derive(Clone, Copy, Debug, PartialEq, Eq, Structural)]
pub struct HalftoneTag {
    pub output_resolution: i32,
    pub enable: i16,
}

/// The offset of one channel.
#[derive(Clone, Copy, Debug, PartialEq, Eq, Structural)]
pub struct ChannelOffset {
    pub x: i16,
    pub y: i16,
}

/// The abstract content of an image-system tag table.
pub struct ImageTagsView {
    pub repeat: Option<RepeatTag>,
    pub halftone: Option<HalftoneTag>,
    pub channel_offsets: Option<Seq<ChannelOffset>>,
    pub rendering_method: Option<i32>,
}

/// The tags of the image system, each present or not.
pub struct ImageTags {
    pub repeat: Option<RepeatTag>,
    pub halftone: Option<HalftoneTag>,
    pub channel_offsets: Option<Vec<ChannelOffset>>,
    pub rendering_method: Option<i32>,
}

impl View for ImageTags {
    type V = ImageTagsView;

    open spec fn view(&self) -> ImageTagsView {
        ImageTagsView {
            repeat: self.repeat,
            halftone: self.halftone,
            channel_offsets: match self.channel_offsets {
                Some(v) => Some(v@),
                None => None,
            },
            rendering_method: self.rendering_method,
        }
    }
}

/// The table with no tag set.
pub open spec fn no_image_tags() -> ImageTagsView {
    ImageTagsView { repeat: None, halftone: None, channel_offsets: None, rendering_method: None }
}

/// Channel offset `i` of the pairs that start `s`.
pub open spec fn offset_at(s: Seq<u8>, i: int) -> ChannelOffset {
    ChannelOffset {
        x: signed16(le16(s[4 * i], s[4 * i + 1])) as i16,
        y: signed16(le16(s[4 * i + 2], s[4 * i + 3])) as i16,
    }
}

/// `n` channel offsets, each an x and a y of 16 bits.
pub open spec fn parse_offsets(s: Seq<u8>, n: nat) -> Result<(Seq<ChannelOffset>, Seq<u8>), MifError> {
    if s.len() < 4 * n {
        Err(MifError::IoError)
    } else {
        Ok((Seq::new(n, |i: int| offset_at(s, i)), s.skip(4 * n as int)))
    }
}

/// An image-system table read on from `acc`, the tags read so far: a
/// 32-bit size, zero ending the table; then a 16-bit id and the tag's fields
/// by the id (the size is not used to read them). 1 is the repeat tag, 2
/// the halftone tag, 3 the channel offsets (a 16-bit count, a negative one
/// counting as none, and that many pairs), 4 the rendering method. An
/// unknown id ends the table and leaves it empty, all tags read before it
/// dropped.
pub open spec fn parse_image_tags_from(s: Seq<u8>, acc: ImageTagsView) -> Result<(ImageTagsView, Seq<u8>), MifError>
    decreases s.len(),
{
    match parse_u32(s) {
        Err(e) => Err(e),
        Ok((size, s1)) => if size == 0 {
            Ok((acc, s1))
        } else {
            match parse_u16(s1) {
                Err(e) => Err(e),
                Ok((id, s2)) => if id == 1 {
                    match parse_i16(s2) { Err(e) => Err(e), Ok((mode, s3)) =>
                    match parse_i16(s3) { Err(e) => Err(e), Ok((dir, s4)) =>
                    match parse_i32(s4) { Err(e) => Err(e), Ok((offset, s5)) =>
                        parse_image_tags_from(s5, ImageTagsView {
                            repeat: Some(RepeatTag { mode, dir, offset }), ..acc })
                    }}}
                } else if id == 2 {
                    match parse_i32(s2) { Err(e) => Err(e), Ok((output_resolution, s3)) =>
                    match parse_i16(s3) { Err(e) => Err(e), Ok((enable, s4)) =>
                        parse_image_tags_from(s4, ImageTagsView {
                            halftone: Some(HalftoneTag { output_resolution, enable }), ..acc })
                    }}
                } else if id == 3 {
                    match parse_i16(s2) { Err(e) => Err(e), Ok((n, s3)) =>
                    match parse_offsets(s3, if n < 0 { 0 } else { n as nat }) { Err(e) => Err(e), Ok((offs, s4)) =>
                        parse_image_tags_from(s4, ImageTagsView { channel_offsets: Some(offs), ..acc })
                    }}
                } else if id == 4 {
                    match parse_i32(s2) { Err(e) => Err(e), Ok((m, s3)) =>
                        parse_image_tags_from(s3, ImageTagsView { rendering_method: Some(m), ..acc })
                    }
                } else {
                    Ok((no_image_tags(), s2))
                },
            }
        },
    }
}

/// An image-system tag table as read.
pub open spec fn parse_image_tags(s: Seq<u8>) -> Result<(ImageTagsView, Seq<u8>), MifError> {
    parse_image_tags_from(s, no_image_tags())
}

/// Channel offsets as written.
pub open spec fn offsets_bytes(offs: Seq<ChannelOffset>) -> Seq<u8>
    decreases offs.len(),
{
    if offs.len() == 0 {
        Seq::empty()
    } else {
        offsets_bytes(offs.drop_last()) + i16_bytes(offs.last().x) + i16_bytes(offs.last().y)
    }
}

/// The repeat tag as written, if set.
pub open spec fn repeat_tag_bytes(t: Option<RepeatTag>) -> Seq<u8> {
    match t {
        Some(r) => u32_bytes(8) + u16_bytes(1) + i16_bytes(r.mode) + i16_bytes(r.dir) + i32_bytes(r.offset),
        None => Seq::empty(),
    }
}

/// The halftone tag as written, if set.
pub open spec fn halftone_tag_bytes(t: Option<HalftoneTag>) -> Seq<u8> {
    match t {
        Some(h) => u32_bytes(6) + u16_bytes(2) + i32_bytes(h.output_resolution) + i16_bytes(h.enable),
        None => Seq::empty(),
    }
}

/// The channel-offsets tag as written, if set.
pub open spec fn offsets_tag_bytes(t: Option<Seq<ChannelOffset>>) -> Seq<u8> {
    match t {
        Some(o) => u32_bytes((2 + 4 * o.len()) as u32) + u16_bytes(3) + i16_bytes(o.len() as i16)
            + offsets_bytes(o),
        None => Seq::empty(),
    }
}

/// The rendering-method tag as written, if set.
pub open spec fn rendering_tag_bytes(t: Option<i32>) -> Seq<u8> {
    match t {
        Some(m) => u32_bytes(4) + u16_bytes(4) + i32_bytes(m),
        None => Seq::empty(),
    }
}

/// An image-system tag table as written: each tag that is set, with its
/// payload size and id, in the order repeat, halftone, channel offsets,
/// rendering method; then a zero size.
pub open spec fn image_tags_bytes(t: ImageTagsView) -> Seq<u8> {
    repeat_tag_bytes(t.repeat) + halftone_tag_bytes(t.halftone) + offsets_tag_bytes(t.channel_offsets)
        + rendering_tag_bytes(t.rendering_method) + u32_bytes(0)
}

fn write_repeat(cur: &mut ByteCursor, t: Option<RepeatTag>)
    ensures
        final(cur).bytes() == old(cur).bytes() + repeat_tag_bytes(t),
{
    if let Some(r) = t {
        cur.write_u32(8);
        cur.write_u16(1);
        cur.write_i16(r.mode);
        cur.write_i16(r.dir);
        cur.write_i32(r.offset);
    }
    proof {
        assert(cur.bytes() =~= old(cur).bytes() + repeat_tag_bytes(t));
    }
}

fn write_halftone(cur: &mut ByteCursor, t: Option<HalftoneTag>)
    ensures
        final(cur).bytes() == old(cur).bytes() + halftone_tag_bytes(t),
{
    if let Some(h) = t {
        cur.write_u32(6);
        cur.write_u16(2);
        cur.write_i32(h.output_resolution);
        cur.write_i16(h.enable);
    }
    proof {
        assert(cur.bytes() =~= old(cur).bytes() + halftone_tag_bytes(t));
    }
}

fn write_offsets(cur: &mut ByteCursor, t: &Option<Vec<ChannelOffset>>)
    requires
        *t matches Some(o) ==> o@.len() <= 0x7FFF,
    ensures
        final(cur).bytes() == old(cur).bytes() + offsets_tag_bytes(match *t {
            Some(o) => Some(o@),
            None => None,
        }),
{
    match t {
        Some(o) => {
            let n = o.len();
            cur.write_u32((2 + 4 * n) as u32);
            cur.write_u16(3);
            cur.write_i16(n as i16);
            let ghost b0 = cur.bytes();
            let mut i: usize = 0;
            while i < n
                invariant
                    n == o@.len(),
                    i <= n,
                    cur.bytes() == b0 + offsets_bytes(o@.take(i as int)),
                decreases n - i,
            {
                cur.write_i16(o[i].x);
                cur.write_i16(o[i].y);
                i = i + 1;
                proof {
                    assert(o@.take(i as int).drop_last() =~= o@.take(i - 1));
                    assert(cur.bytes() =~= b0 + offsets_bytes(o@.take(i as int)));
                }
            }
            proof {
                assert(o@.take(i as int) =~= o@);
                assert(cur.bytes() =~= old(cur).bytes() + offsets_tag_bytes(Some(o@)));
            }
        },
        None => {
            proof {
                assert(cur.bytes() =~= old(cur).bytes() + offsets_tag_bytes(None));
            }
        },
    }
}

fn write_rendering(cur: &mut ByteCursor, t: Option<i32>)
    ensures
        final(cur).bytes() == old(cur).bytes() + rendering_tag_bytes(t),
{
    if let Some(m) = t {
        cur.write_u32(4);
        cur.write_u16(4);
        cur.write_i32(m);
    }
    proof {
        assert(cur.bytes() =~= old(cur).bytes() + rendering_tag_bytes(t));
    }
}

fn i16_of(b0: u8, b1: u8) -> (r: i16)
    ensures
        r == signed16(le16(b0, b1)) as i16,
{
    let u: u16 = b0 as u16 + 256 * (b1 as u16);
    if u >= 32768 { (u as i32 - 65536) as i16 } else { u as i16 }
}

fn read_offsets(cur: &mut ByteCursor, n: u16) -> (r: Result<Vec<ChannelOffset>, MifError>)
    ensures
        final(cur).bytes() == old(cur).bytes(),
        match parse_offsets(old(cur).rest(), n as nat) {
            Ok((v, rest)) => r matches Ok(o) && o@ == v && final(cur).rest() == rest,
            Err(e) => r is Err && r->Err_0 == e,
        },
{
    let ghost s = cur.rest();
    let raw = cur.read_bytes(4 * n as usize)?;
    let mut out: Vec<ChannelOffset> = Vec::new();
    let mut i: usize = 0;
    while i < n as usize
        invariant
            i <= n,
            raw@ == s.take(4 * n as int),
            s.len() >= 4 * n,
            out@ == Seq::new(i as nat, |j: int| offset_at(s, j)),
        decreases n - i,
    {
        let x = i16_of(raw[4 * i], raw[4 * i + 1]);
        let y = i16_of(raw[4 * i + 2], raw[4 * i + 3]);
        out.push(ChannelOffset { x, y });
        i = i + 1;
        proof {
            assert(out@ =~= Seq::new(i as nat, |j: int| offset_at(s, j)));
        }
    }
    Ok(out)
}

impl ImageTags {
    /// Reads an image-system tag table up to its terminator, or up to the
    /// first unknown id, which empties it.
    #[verifier::spinoff_prover]
    pub fn read(cur: &mut ByteCursor) -> (r: Result<ImageTags, MifError>)
        ensures
            final(cur).bytes() == old(cur).bytes(),
            match parse_image_tags(old(cur).rest()) {
                Ok((v, rest)) => r matches Ok(t) && t@ == v && final(cur).rest() == rest,
                Err(e) => r is Err && r->Err_0 == e,
            },
    {
        let mut acc = ImageTags { repeat: None, halftone: None, channel_offsets: None, rendering_method: None };
        loop
            invariant
                cur.bytes() == old(cur).bytes(),
                parse_image_tags(old(cur).rest()) == parse_image_tags_from(cur.rest(), acc@),
            decreases cur.rest().len(),
        {
            let ghost before = cur.rest();
            let size = cur.read_u32()?;
            if size == 0 {
                return Ok(acc);
            }
            let id = cur.read_u16()?;
            if id == 1 {
                let mode = cur.read_i16()?;
                let dir = cur.read_i16()?;
                let offset = cur.read_i32()?;
                acc.repeat = Some(RepeatTag { mode, dir, offset });
            } else if id == 2 {
                let output_resolution = cur.read_i32()?;
                let enable = cur.read_i16()?;
                acc.halftone = Some(HalftoneTag { output_resolution, enable });
            } else if id == 3 {
                let n = cur.read_i16()?;
                let k: u16 = if n < 0 { 0 } else { n as u16 };
                let offs = read_offsets(cur, k)?;
                acc.channel_offsets = Some(offs);
            } else if id == 4 {
                let m = cur.read_i32()?;
                acc.rendering_method = Some(m);
            } else {
                return Ok(ImageTags { repeat: None, halftone: None, channel_offsets: None, rendering_method: None });
            }
        }
    }

    /// Appends the tags that are set, each with its payload size and id,
    /// then the terminator.
    pub fn write(&self, cur: &mut ByteCursor)
        requires
            self.channel_offsets matches Some(o) ==> o@.len() <= 0x7FFF,
        ensures
            final(cur).bytes() == old(cur).bytes() + image_tags_bytes(self@),
    {
        let ghost v = self@;
        write_repeat(cur, self.repeat);
        write_halftone(cur, self.halftone);
        write_offsets(cur, &self.channel_offsets);
        write_rendering(cur, self.rendering_method);
        cur.write_u32(0);
        proof {
            assert(cur.bytes() =~= old(cur).bytes() + image_tags_bytes(v));
        }
    }
}

} // verus!
