//! The design header, in its four on-disk revisions.
use vstd::prelude::*;
use crate::cursor::{ByteCursor, parse_tag, parse_i16, parse_i32, parse_u16, parse_u32,
    parse_bytes, parse_string, tag_bytes, i16_bytes, i32_bytes, u16_bytes, string_bytes,
    writable_text, zeros, same_bytes, trim_zeros, lemma_i16_round_trip, lemma_i32_round_trip,
    lemma_u16_round_trip};
use crate::strings::{parse_strings, strings_bytes, texts_view, all_writable, read_strings,
    write_strings, lemma_string_round_trip, lemma_strings_round_trip};
use crate::tags::{ExtTag, ExtTagView, tags_view, parse_ext_tags, ext_tags_bytes, valid_ext_tags,
    read_ext_tags, write_ext_tags, lemma_ext_tags_round_trip};
use crate::error::MifError;

verus! {

/// The width of the header's fixed tag.
pub const HEADER_TAG_WIDTH: usize = 8;

/// The most parameter strings a header holds.
pub const MAX_PARAMETERS: i16 = 20;

/// The longest password a header holds, and the size of its buffer.
pub const PASSWORD_SIZE: usize = 100;

/// The bytes skipped before the parameter count is read again when the
/// stored count is out of range.
pub const RESYNC_SKIP: usize = 254;

/// The reserved block of a revision-4 header.
pub const RESERVED_SIZE: usize = 256;

/// The header tag of revision `v`: "MIFF001", "MIFF010", "MIFF020" and
/// "MIFF030" for revisions 1 to 4.
pub open spec fn header_tag(v: u8) -> Seq<u8> {
    seq![0x4Du8, 0x49u8, 0x46u8, 0x46u8, 0x30u8,
        if v == 1 { 0x30u8 } else if v == 2 { 0x31u8 } else if v == 3 { 0x32u8 } else { 0x33u8 },
        if v == 1 { 0x31u8 } else { 0x30u8 }]
}

/// The revision that a header tag names, if any.
pub open spec fn header_version(tag: Seq<u8>) -> Option<u8> {
    if tag == header_tag(1) {
        Some(1u8)
    } else if tag == header_tag(2) {
        Some(2u8)
    } else if tag == header_tag(3) {
        Some(3u8)
    } else if tag == header_tag(4) {
        Some(4u8)
    } else {
        None
    }
}

/// The header tag of revision `v`.
pub fn header_tag_bytes(v: u8) -> (r: Vec<u8>)
    ensures
        r@ == header_tag(v),
{
    let a: u8 = if v == 1 { 0x30 } else if v == 2 { 0x31 } else if v == 3 { 0x32 } else { 0x33 };
    let b: u8 = if v == 1 { 0x31 } else { 0x30 };
    let r = vec![0x4Du8, 0x49u8, 0x46u8, 0x46u8, 0x30u8, a, b];
    proof {
        assert(r@ =~= header_tag(v));
    }
    r
}

/// The revision that a header tag names, if any.
pub fn version_of_tag(tag: &[u8]) -> (r: Option<u8>)
    ensures
        r == header_version(tag@),
{
    let mut v: u8 = 1;
    while v <= 4
        invariant
            1 <= v <= 5,
            forall|w: u8| 1 <= w < v ==> tag@ != header_tag(w),
        decreases 5 - v,
    {
        let t = header_tag_bytes(v);
        if same_bytes(tag, t.as_slice()) {
            return Some(v);
        }
        v = v + 1;
    }
    None
}

/// The abstract content of a header.
pub struct HeaderView {
    pub version: u8,
    pub variant_count: i16,
    pub active_variant: i16,
    pub flags: i16,
    pub design_name: Seq<char>,
    pub design_file_name: Seq<char>,
    pub design_type: Seq<char>,
    pub parameters: Seq<Seq<char>>,
    pub password_len: u16,
    pub password: Seq<u8>,
    pub repeat_mode: i16,
    pub repeat_dir: i16,
    pub repeat_offset: i32,
    pub tags: Seq<ExtTagView>,
}

/// Whole-design metadata.
///
/// Revisions 1 to 3 hold a password in a 100-byte buffer (`password_len`
/// bytes of it are meaningful) and, from revision 2 on, the repeat fields;
/// revision 3 adds the raw tag list. Revision 4 holds a reserved block in
/// place of the password and always the tag list, but no repeat fields.
/// An older header that needed the resync fallback is read as revision 4,
/// with its repeat fields and tags, and is written in the revision-4 layout.
pub struct FormatHeader {
    pub version: u8,
    pub variant_count: i16,
    pub active_variant: i16,
    pub flags: i16,
    pub design_name: String,
    pub design_file_name: String,
    pub design_type: String,
    pub parameters: Vec<String>,
    pub password_len: u16,
    pub password: Vec<u8>,
    pub repeat_mode: i16,
    pub repeat_dir: i16,
    pub repeat_offset: i32,
    pub tags: Vec<ExtTag>,
}

impl View for FormatHeader {
    type V = HeaderView;

    open spec fn view(&self) -> HeaderView {
        HeaderView {
            version: self.version,
            variant_count: self.variant_count,
            active_variant: self.active_variant,
            flags: self.flags,
            design_name: self.design_name@,
            design_file_name: self.design_file_name@,
            design_type: self.design_type@,
            parameters: texts_view(self.parameters@),
            password_len: self.password_len,
            password: self.password@,
            repeat_mode: self.repeat_mode,
            repeat_dir: self.repeat_dir,
            repeat_offset: self.repeat_offset,
            tags: tags_view(self.tags@),
        }
    }
}

/// What every header read from bytes satisfies, and what writing needs:
/// a known revision; four parameters in revision 1, one to twenty in
/// revisions 2 and 3, at most twenty in revision 4; a full password buffer
/// holding at most 100 meaningful bytes in revisions 1 to 3 and none in
/// revision 4; no tag list before revision 3, and one that reads back as
/// written.
pub open spec fn header_ok(h: HeaderView) -> bool {
    &&& 1 <= h.version <= 4
    &&& h.version == 1 ==> h.parameters.len() == 4
    &&& (h.version == 2 || h.version == 3) ==> 1 <= h.parameters.len() <= 20
    &&& h.version == 4 ==> h.parameters.len() <= 20
    &&& h.version < 4 ==> h.password_len <= 100 && h.password.len() == 100
    &&& h.version == 4 ==> h.password_len == 0
    &&& h.version <= 2 ==> h.tags.len() == 0
    &&& valid_ext_tags(h.tags)
}

/// Every string of the header fits its 16-bit count.
pub open spec fn header_writable(h: HeaderView) -> bool {
    writable_text(h.design_name) && writable_text(h.design_file_name) && writable_text(h.design_type)
        && all_writable(h.parameters)
}

/// The three names that open the header body.
pub open spec fn parse_names(s: Seq<u8>) -> Result<((Seq<char>, Seq<char>, Seq<char>), Seq<u8>), MifError> {
    match parse_string(s) { Err(e) => Err(e), Ok((a, s)) =>
    match parse_string(s) { Err(e) => Err(e), Ok((b, s)) =>
    match parse_string(s) { Err(e) => Err(e), Ok((c, s)) =>
        Ok(((a, b, c), s))
    }}}
}

/// The parameter count of revisions 2 and 3, and whether the resync fallback
/// was taken: a count outside 1..=20 makes the reader skip 254 bytes and
/// read the count again, and a second count outside 1..=20 is corrupt.
pub open spec fn parse_param_count(s: Seq<u8>) -> Result<((i16, bool), Seq<u8>), MifError> {
    match parse_i16(s) {
        Err(e) => Err(e),
        Ok((c, s1)) => if 1 <= c <= 20 {
            Ok(((c, false), s1))
        } else {
            match parse_bytes(s1, 254) {
                Err(e) => Err(e),
                Ok((_, s2)) => match parse_i16(s2) {
                    Err(e) => Err(e),
                    Ok((c2, s3)) => if 1 <= c2 <= 20 {
                        Ok(((c2, true), s3))
                    } else {
                        Err(MifError::CorruptHeader)
                    },
                },
            }
        },
    }
}

/// A password: its 16-bit length, at most 100, and that many bytes, which
/// fill a 100-byte buffer from the left.
pub open spec fn parse_password(s: Seq<u8>) -> Result<((u16, Seq<u8>), Seq<u8>), MifError> {
    match parse_u16(s) {
        Err(e) => Err(e),
        Ok((n, s1)) => if n > 100 {
            Err(MifError::CorruptHeader)
        } else {
            match parse_bytes(s1, n as nat) {
                Err(e) => Err(e),
                Ok((b, s2)) => Ok(((n, b + zeros((100 - n) as nat)), s2)),
            }
        },
    }
}

/// The body of a revision-4 header: the reserved block, the parameter
/// count (0..=20) and strings, and the tag list.
#[verifier::opaque]
pub open spec fn parse_body_v4(s: Seq<u8>) -> Result<((Seq<Seq<char>>, Seq<ExtTagView>), Seq<u8>), MifError> {
    match parse_bytes(s, 256) {
        Err(e) => Err(e),
        Ok((_, s)) => match parse_i16(s) {
            Err(e) => Err(e),
            Ok((n, s)) => if n < 0 || n > 20 {
                Err(MifError::CorruptHeader)
            } else {
                match parse_strings(s, n as nat) {
                    Err(e) => Err(e),
                    Ok((ps, s)) => match parse_ext_tags(s) {
                        Err(e) => Err(e),
                        Ok((ts, s)) => Ok(((ps, ts), s)),
                    },
                }
            },
        },
    }
}

/// The rest of a header of revisions 1 to 3, after the names. `v` is the
/// revision of the tag; the resync fallback turns it into 4, which reads no
/// password. Revision 1 ends after the password; the others read the repeat
/// fields, and revisions 3 and 4 the tag list.
#[verifier::opaque]
pub open spec fn parse_body_old(
    s: Seq<u8>,
    v: u8,
    vc: i16,
    av: i16,
    fl: i16,
    names: (Seq<char>, Seq<char>, Seq<char>),
) -> Result<(HeaderView, Seq<u8>), MifError> {
    let counted = if v == 1 { Ok::<((i16, bool), Seq<u8>), MifError>(((4i16, false), s)) } else { parse_param_count(s) };
    match counted {
        Err(e) => Err(e),
        Ok(((n, resync), s)) => {
            let version: u8 = if resync { 4 } else { v };
            match parse_strings(s, n as nat) {
                Err(e) => Err(e),
                Ok((ps, s)) => {
                    let pw = if version != 4 { parse_password(s) } else {
                        Ok::<((u16, Seq<u8>), Seq<u8>), MifError>(((0u16, Seq::empty()), s))
                    };
                    match pw {
                        Err(e) => Err(e),
                        Ok(((pl, pb), s)) => {
                            let h = HeaderView {
                                version, variant_count: vc, active_variant: av, flags: fl,
                                design_name: names.0, design_file_name: names.1, design_type: names.2,
                                parameters: ps, password_len: pl, password: pb,
                                repeat_mode: 0, repeat_dir: 0, repeat_offset: 0, tags: Seq::empty(),
                            };
                            if version == 1 {
                                Ok((h, s))
                            } else {
                                match parse_i16(s) { Err(e) => Err(e), Ok((rm, s)) =>
                                match parse_i16(s) { Err(e) => Err(e), Ok((rd, s)) =>
                                match parse_i32(s) { Err(e) => Err(e), Ok((ro, s)) =>
                                    if version >= 3 {
                                        match parse_ext_tags(s) {
                                            Err(e) => Err(e),
                                            Ok((ts, s)) => Ok((HeaderView { repeat_mode: rm, repeat_dir: rd,
                                                repeat_offset: ro, tags: ts, ..h }, s)),
                                        }
                                    } else {
                                        Ok((HeaderView { repeat_mode: rm, repeat_dir: rd, repeat_offset: ro, ..h }, s))
                                    }
                                }}}
                            }
                        },
                    }
                },
            }
        },
    }
}

/// A header as read: the 8-byte tag naming the revision, the variant count,
/// active variant and flags, the three names, and the revision's body.
pub open spec fn parse_header(s: Seq<u8>) -> Result<(HeaderView, Seq<u8>), MifError> {
    match parse_tag(s, 8) {
        Err(e) => Err(e),
        Ok((tag, s)) => match header_version(tag) {
            None => Err(MifError::UnsupportedVersion),
            Some(v) =>
                match parse_i16(s) { Err(e) => Err(e), Ok((vc, s)) =>
                match parse_i16(s) { Err(e) => Err(e), Ok((av, s)) =>
                match parse_i16(s) { Err(e) => Err(e), Ok((fl, s)) =>
                match parse_names(s) { Err(e) => Err(e), Ok((names, s)) =>
                    if v == 4 {
                        match parse_body_v4(s) {
                            Err(e) => Err(e),
                            Ok(((ps, ts), s)) => Ok((HeaderView {
                                version: 4, variant_count: vc, active_variant: av, flags: fl,
                                design_name: names.0, design_file_name: names.1, design_type: names.2,
                                parameters: ps, password_len: 0, password: Seq::empty(),
                                repeat_mode: 0, repeat_dir: 0, repeat_offset: 0, tags: ts,
                            }, s)),
                        }
                    } else {
                        parse_body_old(s, v, vc, av, fl, names)
                    }
                }}}},
        },
    }
}

/// The opening of a header as written: the tag, the three 16-bit fields and
/// the three names.
pub open spec fn header_start(h: HeaderView) -> Seq<u8> {
    tag_bytes(header_tag(h.version), 8) + i16_bytes(h.variant_count)
        + i16_bytes(h.active_variant) + i16_bytes(h.flags) + string_bytes(h.design_name)
        + string_bytes(h.design_file_name) + string_bytes(h.design_type)
}

/// The body of a revision-4 header as written: the reserved block (zeros),
/// the parameter count and strings, and the tag list.
pub open spec fn body_v4_bytes(h: HeaderView) -> Seq<u8> {
    zeros(256) + i16_bytes(h.parameters.len() as i16) + strings_bytes(h.parameters)
        + ext_tags_bytes(h.tags)
}

/// The part of an older header's body that all of revisions 1 to 3 have:
/// the parameter count (not in revision 1) and strings, and the password.
pub open spec fn body_common_bytes(h: HeaderView) -> Seq<u8> {
    let counted = if h.version == 1 { Seq::empty() } else { i16_bytes(h.parameters.len() as i16) };
    counted + strings_bytes(h.parameters) + u16_bytes(h.password_len)
        + h.password.take(h.password_len as int)
}

/// The body of a header of revisions 1 to 3 as written: the common part,
/// and from revision 2 on the repeat fields and the tag list. (A reader
/// looks for the tag list from revision 3 on only; a revision-2 header is
/// written with one all the same.)
pub open spec fn body_old_bytes(h: HeaderView) -> Seq<u8> {
    if h.version == 1 {
        body_common_bytes(h)
    } else {
        body_common_bytes(h) + i16_bytes(h.repeat_mode) + i16_bytes(h.repeat_dir)
            + i32_bytes(h.repeat_offset) + ext_tags_bytes(h.tags)
    }
}

/// A header as written.
pub open spec fn header_bytes(h: HeaderView) -> Seq<u8> {
    header_start(h) + if h.version == 4 { body_v4_bytes(h) } else { body_old_bytes(h) }
}

fn read_names(cur: &mut ByteCursor) -> (r: Result<(String, String, String), MifError>)
    ensures
        final(cur).bytes() == old(cur).bytes(),
        match parse_names(old(cur).rest()) {
            Ok((v, rest)) => r matches Ok((a, b, c)) && a@ == v.0 && b@ == v.1 && c@ == v.2
                && final(cur).rest() == rest,
            Err(e) => r is Err && r->Err_0 == e,
        },
{
    let a = cur.read_string()?;
    let b = cur.read_string()?;
    let c = cur.read_string()?;
    Ok((a, b, c))
}

fn read_param_count(cur: &mut ByteCursor) -> (r: Result<(i16, bool), MifError>)
    ensures
        final(cur).bytes() == old(cur).bytes(),
        match parse_param_count(old(cur).rest()) {
            Ok((v, rest)) => r == Ok::<(i16, bool), MifError>(v) && final(cur).rest() == rest,
            Err(e) => r is Err && r->Err_0 == e,
        },
{
    let n = cur.read_i16()?;
    if 1 <= n && n <= MAX_PARAMETERS {
        return Ok((n, false));
    }
    // Resync fallback: some files carry a 254-byte block before the count.
    cur.skip(RESYNC_SKIP)?;
    let n2 = cur.read_i16()?;
    if 1 <= n2 && n2 <= MAX_PARAMETERS {
        Ok((n2, true))
    } else {
        Err(MifError::CorruptHeader)
    }
}

fn read_password(cur: &mut ByteCursor) -> (r: Result<(u16, Vec<u8>), MifError>)
    ensures
        final(cur).bytes() == old(cur).bytes(),
        match parse_password(old(cur).rest()) {
            Ok((v, rest)) => r matches Ok((n, b)) && n == v.0 && b@ == v.1 && final(cur).rest() == rest,
            Err(e) => r is Err && r->Err_0 == e,
        },
{
    let n = cur.read_u16()?;
    if n as usize > PASSWORD_SIZE {
        return Err(MifError::CorruptHeader);
    }
    let mut b = cur.read_bytes(n as usize)?;
    let ghost stored = b@;
    let mut i: usize = n as usize;
    while i < PASSWORD_SIZE
        invariant
            n <= i <= PASSWORD_SIZE,
            b@ == stored + zeros((i - n) as nat),
        decreases PASSWORD_SIZE - i,
    {
        b.push(0);
        i = i + 1;
        proof {
            assert(b@ =~= stored + zeros((i - n) as nat));
        }
    }
    Ok((n, b))
}

#[verifier::spinoff_prover]
fn read_body_v4(cur: &mut ByteCursor) -> (r: Result<(Vec<String>, Vec<ExtTag>), MifError>)
    ensures
        final(cur).bytes() == old(cur).bytes(),
        match parse_body_v4(old(cur).rest()) {
            Ok((v, rest)) => r matches Ok((ps, ts)) && texts_view(ps@) == v.0 && tags_view(ts@) == v.1
                && final(cur).rest() == rest,
            Err(e) => r is Err && r->Err_0 == e,
        },
{
    reveal(parse_body_v4);
    cur.skip(RESERVED_SIZE)?;
    let n = cur.read_i16()?;
    if n < 0 || n > MAX_PARAMETERS {
        return Err(MifError::CorruptHeader);
    }
    let parameters = read_strings(cur, n as usize)?;
    let tags = read_ext_tags(cur)?;
    Ok((parameters, tags))
}

#[verifier::spinoff_prover]
fn read_body_old(
    cur: &mut ByteCursor,
    v: u8,
    variant_count: i16,
    active_variant: i16,
    flags: i16,
    design_name: String,
    design_file_name: String,
    design_type: String,
) -> (r: Result<FormatHeader, MifError>)
    ensures
        final(cur).bytes() == old(cur).bytes(),
        match parse_body_old(old(cur).rest(), v, variant_count, active_variant, flags,
            (design_name@, design_file_name@, design_type@)) {
            Ok((h, rest)) => r matches Ok(x) && x@ == h && final(cur).rest() == rest,
            Err(e) => r is Err && r->Err_0 == e,
        },
{
    reveal(parse_body_old);
    let (n, resync) = if v == 1 { (4i16, false) } else { read_param_count(cur)? };
    let version: u8 = if resync { 4 } else { v };
    let parameters = read_strings(cur, n as usize)?;
    let (password_len, password) = if version != 4 {
        read_password(cur)?
    } else {
        (0u16, Vec::new())
    };
    let mut h = FormatHeader {
        version, variant_count, active_variant, flags,
        design_name, design_file_name, design_type, parameters,
        password_len, password,
        repeat_mode: 0, repeat_dir: 0, repeat_offset: 0, tags: Vec::new(),
    };
    proof {
        assert(tags_view(h.tags@) =~= Seq::<ExtTagView>::empty());
    }
    if version == 1 {
        return Ok(h);
    }
    h.repeat_mode = cur.read_i16()?;
    h.repeat_dir = cur.read_i16()?;
    h.repeat_offset = cur.read_i32()?;
    if version >= 3 {
        h.tags = read_ext_tags(cur)?;
    }
    Ok(h)
}

impl FormatHeader {
    /// Reads a header in any of its four revisions.
    #[verifier::spinoff_prover]
    pub fn read(cur: &mut ByteCursor) -> (r: Result<FormatHeader, MifError>)
        ensures
            final(cur).bytes() == old(cur).bytes(),
            match parse_header(old(cur).rest()) {
                Ok((v, rest)) => r matches Ok(h) && h@ == v && final(cur).rest() == rest,
                Err(e) => r is Err && r->Err_0 == e,
            },
    {
        let tag = cur.read_tag(HEADER_TAG_WIDTH)?;
        let v = match version_of_tag(tag.as_slice()) {
            Some(v) => v,
            None => return Err(MifError::UnsupportedVersion),
        };
        let variant_count = cur.read_i16()?;
        let active_variant = cur.read_i16()?;
        let flags = cur.read_i16()?;
        let (design_name, design_file_name, design_type) = read_names(cur)?;
        if v == 4 {
            let (parameters, tags) = read_body_v4(cur)?;
            Ok(FormatHeader {
                version: 4, variant_count, active_variant, flags,
                design_name, design_file_name, design_type, parameters,
                password_len: 0, password: Vec::new(),
                repeat_mode: 0, repeat_dir: 0, repeat_offset: 0, tags,
            })
        } else {
            read_body_old(cur, v, variant_count, active_variant, flags, design_name,
                design_file_name, design_type)
        }
    }

    /// Appends the header in the layout of its revision. A string too long
    /// for its 16-bit count is refused with an `IoError`.
    pub fn write(&self, cur: &mut ByteCursor) -> (r: Result<(), MifError>)
        requires
            header_ok(self@),
        ensures
            header_writable(self@) ==> r is Ok && final(cur).bytes() == old(cur).bytes()
                + header_bytes(self@),
            !header_writable(self@) ==> r == Err::<(), MifError>(MifError::IoError),
    {
        self.write_start(cur)?;
        if self.version == 4 {
            self.write_body_v4(cur)?;
        } else {
            self.write_body_old(cur)?;
        }
        proof {
            assert(cur.bytes() =~= old(cur).bytes() + header_bytes(self@));
        }
        Ok(())
    }

    fn write_start(&self, cur: &mut ByteCursor) -> (r: Result<(), MifError>)
        ensures
            writable_text(self.design_name@) && writable_text(self.design_file_name@)
                && writable_text(self.design_type@) ==> r is Ok && final(cur).bytes()
                == old(cur).bytes() + header_start(self@),
            !(writable_text(self.design_name@) && writable_text(self.design_file_name@)
                && writable_text(self.design_type@)) ==> r == Err::<(), MifError>(MifError::IoError),
    {
        let tag = header_tag_bytes(self.version);
        cur.write_tag(tag.as_slice(), HEADER_TAG_WIDTH);
        cur.write_i16(self.variant_count);
        cur.write_i16(self.active_variant);
        cur.write_i16(self.flags);
        cur.write_string(self.design_name.as_str())?;
        cur.write_string(self.design_file_name.as_str())?;
        cur.write_string(self.design_type.as_str())?;
        proof {
            assert(cur.bytes() =~= old(cur).bytes() + header_start(self@));
        }
        Ok(())
    }

    fn write_body_v4(&self, cur: &mut ByteCursor) -> (r: Result<(), MifError>)
        ensures
            all_writable(self@.parameters) ==> r is Ok && final(cur).bytes()
                == old(cur).bytes() + body_v4_bytes(self@),
            !all_writable(self@.parameters) ==> r == Err::<(), MifError>(MifError::IoError),
    {
        cur.write_zeros(RESERVED_SIZE);
        cur.write_i16(self.parameters.len() as i16);
        write_strings(cur, &self.parameters)?;
        write_ext_tags(cur, &self.tags);
        proof {
            assert(cur.bytes() =~= old(cur).bytes() + body_v4_bytes(self@));
        }
        Ok(())
    }

    #[verifier::spinoff_prover]
    fn write_body_common(&self, cur: &mut ByteCursor) -> (r: Result<(), MifError>)
        requires
            self.password_len as int <= self.password@.len(),
        ensures
            all_writable(self@.parameters) ==> r is Ok && final(cur).bytes()
                == old(cur).bytes() + body_common_bytes(self@),
            !all_writable(self@.parameters) ==> r == Err::<(), MifError>(MifError::IoError),
    {
        if self.version != 1 {
            cur.write_i16(self.parameters.len() as i16);
        }
        write_strings(cur, &self.parameters)?;
        cur.write_u16(self.password_len);
        cur.write_prefix(self.password.as_slice(), self.password_len as usize);
        proof {
            assert(cur.bytes() =~= old(cur).bytes() + body_common_bytes(self@));
        }
        Ok(())
    }

    #[verifier::spinoff_prover]
    fn write_body_old(&self, cur: &mut ByteCursor) -> (r: Result<(), MifError>)
        requires
            self.password_len as int <= self.password@.len(),
        ensures
            all_writable(self@.parameters) ==> r is Ok && final(cur).bytes()
                == old(cur).bytes() + body_old_bytes(self@),
            !all_writable(self@.parameters) ==> r == Err::<(), MifError>(MifError::IoError),
    {
        self.write_body_common(cur)?;
        if self.version == 1 {
            return Ok(());
        }
        cur.write_i16(self.repeat_mode);
        cur.write_i16(self.repeat_dir);
        cur.write_i32(self.repeat_offset);
        write_ext_tags(cur, &self.tags);
        proof {
            assert(cur.bytes() =~= old(cur).bytes() + body_old_bytes(self@));
        }
        Ok(())
    }
}

} // verus!

verus! {

/// A list of raw tags as read reads back as written.
pub proof fn lemma_parsed_tags_valid(s: Seq<u8>)
    requires
        parse_ext_tags(s) is Ok,
    ensures
        valid_ext_tags(parse_ext_tags(s)->Ok_0.0),
    decreases s.len(),
{
    let (size, s1) = parse_u32(s)->Ok_0;
    if size != 0 {
        let (id, s2) = parse_u16(s1)->Ok_0;
        let (payload, s3) = parse_bytes(s2, size as nat)->Ok_0;
        lemma_parsed_tags_valid(s3);
        let more = parse_ext_tags(s3)->Ok_0.0;
        let ts = seq![ExtTagView { id, size, payload }] + more;
        assert forall|i: int| 0 <= i < ts.len() implies #[trigger] ts[i].size > 0
            && ts[i].size == ts[i].payload.len() by {
            if i > 0 {
                assert(ts[i] == more[i - 1]);
            }
        }
    }
}

/// Reading `n` strings gives `n` strings.
pub proof fn lemma_parsed_strings_len(s: Seq<u8>, n: nat)
    requires
        parse_strings(s, n) is Ok,
    ensures
        parse_strings(s, n)->Ok_0.0.len() == n,
    decreases n,
{
    if n > 0 {
        let (t, s1) = parse_string(s)->Ok_0;
        lemma_parsed_strings_len(s1, (n - 1) as nat);
    }
}

/// The body of a revision-4 header as read has at most twenty parameters
/// and a valid tag list.
proof fn lemma_parsed_body_v4(s: Seq<u8>)
    requires
        parse_body_v4(s) is Ok,
    ensures
        parse_body_v4(s)->Ok_0.0.0.len() <= 20,
        valid_ext_tags(parse_body_v4(s)->Ok_0.0.1),
{
    reveal(parse_body_v4);
    let (_, t1) = parse_bytes(s, 256)->Ok_0;
    let (n, t2) = parse_i16(t1)->Ok_0;
    let (ps, t3) = parse_strings(t2, n as nat)->Ok_0;
    lemma_parsed_strings_len(t2, n as nat);
    lemma_parsed_tags_valid(t3);
}

/// The header of revisions 1 to 3 as read satisfies `header_ok`.
#[verifier::spinoff_prover]
proof fn lemma_parsed_body_old(
    s: Seq<u8>,
    v: u8,
    vc: i16,
    av: i16,
    fl: i16,
    names: (Seq<char>, Seq<char>, Seq<char>),
)
    requires
        1 <= v <= 3,
        parse_body_old(s, v, vc, av, fl, names) is Ok,
    ensures
        header_ok(parse_body_old(s, v, vc, av, fl, names)->Ok_0.0),
{
    reveal(parse_body_old);
    let counted = if v == 1 { Ok::<((i16, bool), Seq<u8>), MifError>(((4i16, false), s)) }
        else { parse_param_count(s) };
    let ((n, resync), t1) = counted->Ok_0;
    let version: u8 = if resync { 4 } else { v };
    lemma_parsed_strings_len(t1, n as nat);
    let (ps, t2) = parse_strings(t1, n as nat)->Ok_0;
    let pw = if version != 4 { parse_password(t2) } else {
        Ok::<((u16, Seq<u8>), Seq<u8>), MifError>(((0u16, Seq::empty()), t2))
    };
    let ((pl, pb), t3) = pw->Ok_0;
    if version != 1 {
        let (rm, u1) = parse_i16(t3)->Ok_0;
        let (rd, u2) = parse_i16(u1)->Ok_0;
        let (ro, u3) = parse_i32(u2)->Ok_0;
        if version >= 3 {
            lemma_parsed_tags_valid(u3);
        }
    }
}

/// Every header read from bytes satisfies `header_ok`.
pub proof fn lemma_parsed_header_ok(s: Seq<u8>)
    requires
        parse_header(s) is Ok,
    ensures
        header_ok(parse_header(s)->Ok_0.0),
{
    let (tag, s0) = parse_tag(s, 8)->Ok_0;
    let v = header_version(tag)->Some_0;
    let (vc, s1) = parse_i16(s0)->Ok_0;
    let (av, s2) = parse_i16(s1)->Ok_0;
    let (fl, s3) = parse_i16(s2)->Ok_0;
    let (names, s4) = parse_names(s3)->Ok_0;
    if v == 4 {
        lemma_parsed_body_v4(s4);
    } else {
        lemma_parsed_body_old(s4, v, vc, av, fl, names);
    }
}

/// A tag followed by zero bytes trims back to the tag, when the tag ends in
/// a nonzero byte.
proof fn lemma_trim_padding(t: Seq<u8>, k: nat)
    requires
        t.len() > 0,
        t.last() != 0,
    ensures
        trim_zeros(t + zeros(k)) == t,
    decreases k,
{
    if k == 0 {
        assert(t + zeros(0) =~= t);
    } else {
        assert((t + zeros(k)).drop_last() =~= t + zeros((k - 1) as nat));
        lemma_trim_padding(t, (k - 1) as nat);
    }
}

/// The header tag of a revision, written, reads back as that revision.
#[verifier::spinoff_prover]
proof fn lemma_header_tag_round_trip(v: u8, rest: Seq<u8>)
    requires
        1 <= v <= 4,
    ensures
        parse_tag(tag_bytes(header_tag(v), 8) + rest, 8) == Ok::<(Seq<u8>, Seq<u8>), MifError>((header_tag(v), rest)),
        header_version(header_tag(v)) == Some(v),
{
    let t = header_tag(v);
    let s = tag_bytes(t, 8) + rest;
    lemma_trim_padding(t, 1);
    assert(s.take(8) =~= t + zeros(1));
    assert(s.skip(8) =~= rest);
    assert(header_tag(1)[5] != header_tag(2)[5]);
    assert(header_tag(1)[5] != header_tag(3)[5]);
    assert(header_tag(1)[5] != header_tag(4)[5]);
    assert(header_tag(2)[5] != header_tag(3)[5]);
    assert(header_tag(2)[5] != header_tag(4)[5]);
    assert(header_tag(3)[5] != header_tag(4)[5]);
}

/// Three framable names, written, read back, with the bytes after them left
/// as they were.
proof fn lemma_names_round_trip(a: Seq<char>, b: Seq<char>, c: Seq<char>, rest: Seq<u8>)
    requires
        writable_text(a),
        writable_text(b),
        writable_text(c),
    ensures
        parse_names(string_bytes(a) + string_bytes(b) + string_bytes(c) + rest) is Ok,
        parse_names(string_bytes(a) + string_bytes(b) + string_bytes(c) + rest)->Ok_0.1 == rest,
{
    let s2 = string_bytes(c) + rest;
    let s1 = string_bytes(b) + s2;
    assert(string_bytes(a) + string_bytes(b) + string_bytes(c) + rest =~= string_bytes(a) + s1);
    lemma_string_round_trip(a, s1);
    lemma_string_round_trip(b, s2);
    lemma_string_round_trip(c, rest);
}

/// The body of a revision-4 header, written, reads back with its tag list.
#[verifier::spinoff_prover]
proof fn lemma_body_v4_round_trip(h: HeaderView, rest: Seq<u8>)
    requires
        header_ok(h),
        h.version == 4,
        all_writable(h.parameters),
    ensures
        parse_body_v4(body_v4_bytes(h) + rest) is Ok,
        parse_body_v4(body_v4_bytes(h) + rest)->Ok_0.0.1 == h.tags,
        parse_body_v4(body_v4_bytes(h) + rest)->Ok_0.1 == rest,
{
    reveal(parse_body_v4);
    let n = h.parameters.len() as i16;
    let s3 = ext_tags_bytes(h.tags) + rest;
    let s2 = strings_bytes(h.parameters) + s3;
    let s1 = i16_bytes(n) + s2;
    let s = body_v4_bytes(h) + rest;
    assert(s =~= zeros(256) + s1);
    assert(s.take(256) =~= zeros(256));
    assert(s.skip(256) =~= s1);
    lemma_i16_round_trip(n, s2);
    lemma_strings_round_trip(h.parameters, s3);
    lemma_ext_tags_round_trip(h.tags, rest);
}

/// The part common to revisions 1 to 3, written, reads back.
#[verifier::spinoff_prover]
proof fn lemma_body_common_round_trip(h: HeaderView, rest: Seq<u8>)
    requires
        header_ok(h),
        2 <= h.version <= 3,
        all_writable(h.parameters),
    ensures
        parse_param_count(body_common_bytes(h) + rest) is Ok,
        ({
            let ((n, resync), s1) = parse_param_count(body_common_bytes(h) + rest)->Ok_0;
            &&& !resync
            &&& n == h.parameters.len()
            &&& parse_strings(s1, n as nat) is Ok
            &&& parse_password(parse_strings(s1, n as nat)->Ok_0.1) is Ok
            &&& parse_password(parse_strings(s1, n as nat)->Ok_0.1)->Ok_0.1 == rest
        }),
{
    let n = h.parameters.len() as i16;
    let pw = h.password.take(h.password_len as int);
    let s3 = pw + rest;
    let s2 = u16_bytes(h.password_len) + s3;
    let s1 = strings_bytes(h.parameters) + s2;
    assert(body_common_bytes(h) + rest =~= i16_bytes(n) + s1);
    lemma_i16_round_trip(n, s1);
    lemma_strings_round_trip(h.parameters, s2);
    lemma_u16_round_trip(h.password_len, s3);
    assert(s3.take(h.password_len as int) =~= pw);
    assert(s3.skip(h.password_len as int) =~= rest);
}

/// The body of a revision-3 header, written, reads back with its tag list.
#[verifier::spinoff_prover]
proof fn lemma_body_old_round_trip(
    h: HeaderView,
    rest: Seq<u8>,
    names: (Seq<char>, Seq<char>, Seq<char>),
)
    requires
        header_ok(h),
        h.version == 3,
        all_writable(h.parameters),
    ensures
        parse_body_old(body_old_bytes(h) + rest, h.version, h.variant_count, h.active_variant,
            h.flags, names) is Ok,
        parse_body_old(body_old_bytes(h) + rest, h.version, h.variant_count, h.active_variant,
            h.flags, names)->Ok_0.0.tags == h.tags,
        parse_body_old(body_old_bytes(h) + rest, h.version, h.variant_count, h.active_variant,
            h.flags, names)->Ok_0.1 == rest,
{
    let r4 = ext_tags_bytes(h.tags) + rest;
    let r3 = i32_bytes(h.repeat_offset) + r4;
    let r2 = i16_bytes(h.repeat_dir) + r3;
    let r1 = i16_bytes(h.repeat_mode) + r2;
    lemma_body_old_split(h, rest);
    lemma_body_common_round_trip(h, r1);
    lemma_i16_round_trip(h.repeat_mode, r2);
    lemma_i16_round_trip(h.repeat_dir, r3);
    lemma_i32_round_trip(h.repeat_offset, r4);
    lemma_ext_tags_round_trip(h.tags, rest);
    reveal(parse_body_old);
}

/// The bytes of an older header's body, split after the common part.
proof fn lemma_body_old_split(h: HeaderView, rest: Seq<u8>)
    requires
        2 <= h.version <= 3,
    ensures
        body_old_bytes(h) + rest == body_common_bytes(h) + (i16_bytes(h.repeat_mode)
            + (i16_bytes(h.repeat_dir) + (i32_bytes(h.repeat_offset)
            + (ext_tags_bytes(h.tags) + rest)))),
{
    assert(body_old_bytes(h) + rest =~= body_common_bytes(h) + (i16_bytes(h.repeat_mode)
        + (i16_bytes(h.repeat_dir) + (i32_bytes(h.repeat_offset)
        + (ext_tags_bytes(h.tags) + rest)))));
}

/// The bytes of a header, split field by field.
proof fn lemma_header_bytes_split(h: HeaderView, rest: Seq<u8>)
    ensures
        header_bytes(h) + rest == tag_bytes(header_tag(h.version), 8) + (i16_bytes(h.variant_count)
            + (i16_bytes(h.active_variant) + (i16_bytes(h.flags) + (string_bytes(h.design_name)
            + string_bytes(h.design_file_name) + string_bytes(h.design_type)
            + ((if h.version == 4 { body_v4_bytes(h) } else { body_old_bytes(h) }) + rest))))),
{
    assert(header_bytes(h) + rest =~= tag_bytes(header_tag(h.version), 8) + (i16_bytes(h.variant_count)
        + (i16_bytes(h.active_variant) + (i16_bytes(h.flags) + (string_bytes(h.design_name)
        + string_bytes(h.design_file_name) + string_bytes(h.design_type)
        + ((if h.version == 4 { body_v4_bytes(h) } else { body_old_bytes(h) }) + rest))))));
}

/// A header of revision 3 or 4 whose strings can be framed, written, reads
/// back with the same tag list, and the bytes after it are left as they
/// were.
#[verifier::spinoff_prover]
#[verifier::rlimit(50)]
pub proof fn lemma_header_round_trip(h: HeaderView, rest: Seq<u8>)
    requires
        header_ok(h),
        header_writable(h),
        3 <= h.version,
    ensures
        parse_header(header_bytes(h) + rest) is Ok,
        parse_header(header_bytes(h) + rest)->Ok_0.0.tags == h.tags,
        parse_header(header_bytes(h) + rest)->Ok_0.1 == rest,
{
    let body = if h.version == 4 { body_v4_bytes(h) } else { body_old_bytes(h) };
    let b = body + rest;
    let n3 = string_bytes(h.design_name) + string_bytes(h.design_file_name)
        + string_bytes(h.design_type) + b;
    let i3 = i16_bytes(h.flags) + n3;
    let i2 = i16_bytes(h.active_variant) + i3;
    let i1 = i16_bytes(h.variant_count) + i2;
    lemma_header_bytes_split(h, rest);
    lemma_header_tag_round_trip(h.version, i1);
    lemma_i16_round_trip(h.variant_count, i2);
    lemma_i16_round_trip(h.active_variant, i3);
    lemma_i16_round_trip(h.flags, n3);
    lemma_names_round_trip(h.design_name, h.design_file_name, h.design_type, b);
    let x = header_bytes(h) + rest;
    assert(parse_tag(x, 8) == Ok::<(Seq<u8>, Seq<u8>), MifError>((header_tag(h.version), i1)));
    assert(parse_i16(i1) == Ok::<(i16, Seq<u8>), MifError>((h.variant_count, i2)));
    assert(parse_i16(i2) == Ok::<(i16, Seq<u8>), MifError>((h.active_variant, i3)));
    assert(parse_i16(i3) == Ok::<(i16, Seq<u8>), MifError>((h.flags, n3)));
    let names = parse_names(n3)->Ok_0.0;
    assert(parse_names(n3) == Ok::<((Seq<char>, Seq<char>, Seq<char>), Seq<u8>), MifError>((names, b)));
    if h.version == 4 {
        lemma_body_v4_round_trip(h, rest);
        assert(b == body_v4_bytes(h) + rest);
    } else {
        lemma_body_old_round_trip(h, rest, names);
        assert(b == body_old_bytes(h) + rest);
    }
}

/// Writing a header read from bytes keeps its tag list: where the bytes
/// hold a header with a non-empty tag list (so of revision 3 or 4) whose
/// strings can be framed again, the bytes that `write` gives for it read
/// back as a header with the same tags in the same order, with nothing left
/// over.
pub proof fn lemma_rewrite_keeps_tags(bytes: Seq<u8>)
    requires
        parse_header(bytes) is Ok,
        parse_header(bytes)->Ok_0.0.tags.len() > 0,
        header_writable(parse_header(bytes)->Ok_0.0),
    ensures
        parse_header(header_bytes(parse_header(bytes)->Ok_0.0)) is Ok,
        parse_header(header_bytes(parse_header(bytes)->Ok_0.0))->Ok_0.0.tags
            == parse_header(bytes)->Ok_0.0.tags,
        parse_header(header_bytes(parse_header(bytes)->Ok_0.0))->Ok_0.1.len() == 0,
{
    let h = parse_header(bytes)->Ok_0.0;
    lemma_parsed_header_ok(bytes);
    lemma_header_round_trip(h, Seq::empty());
    assert(header_bytes(h) + Seq::<u8>::empty() =~= header_bytes(h));
}

} // verus!
