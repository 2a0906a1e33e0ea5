//! Channel bitmaps: the scanline index of a stored channel, the decoding of
//! its lines, and the decoded channel.
use vstd::prelude::*;
use crate::cursor::{ByteCursor, parse_tag, parse_i32, parse_u16, parse_bytes, tag_bytes,
    i32_bytes, u16_bytes};
use crate::packbits::{unpack, decompress};
use crate::error::MifError;

verus! {

/// The width of a channel section's tag.
pub const SECTION_TAG_WIDTH: usize = 8;

/// The tag of a channel section, "IMGDATA", matched without regard to case.
pub open spec fn image_tag() -> Seq<u8> {
    seq![0x49u8, 0x4Du8, 0x47u8, 0x44u8, 0x41u8, 0x54u8, 0x41u8]
}

/// The tag of a channel section.
pub fn image_tag_bytes() -> (r: Vec<u8>)
    ensures
        r@ == image_tag(),
{
    let r = vec![0x49u8, 0x4Du8, 0x47u8, 0x44u8, 0x41u8, 0x54u8, 0x41u8];
    proof {
        assert(r@ =~= image_tag());
    }
    r
}

/// An ASCII letter in lower case; any other byte as it is.
pub open spec fn ascii_lower(b: u8) -> u8 {
    if 0x41 <= b <= 0x5A { (b + 32) as u8 } else { b }
}

/// Two byte strings equal but for the case of ASCII letters.
pub open spec fn same_ignoring_case(a: Seq<u8>, b: Seq<u8>) -> bool {
    a.len() == b.len() && forall|i: int| 0 <= i < a.len() ==> ascii_lower(#[trigger] a[i]) == ascii_lower(b[i])
}

fn lower_byte(b: u8) -> (r: u8)
    ensures
        r == ascii_lower(b),
{
    if 0x41 <= b && b <= 0x5A { b + 32 } else { b }
}

/// Whether two byte strings are equal but for the case of ASCII letters.
pub fn eq_ignoring_case(a: &[u8], b: &[u8]) -> (r: bool)
    ensures
        r == same_ignoring_case(a@, b@),
{
    if a.len() != b.len() {
        return false;
    }
    let mut i: usize = 0;
    while i < a.len()
        invariant
            a@.len() == b@.len(),
            i <= a@.len(),
            forall|j: int| 0 <= j < i ==> ascii_lower(#[trigger] a@[j]) == ascii_lower(b@[j]),
        decreases a@.len() - i,
    {
        if lower_byte(a[i]) != lower_byte(b[i]) {
            return false;
        }
        i = i + 1;
    }
    true
}

/// The number of scanlines of a bitmap of height `h`; a negative height has none.
pub open spec fn line_count(h: i32) -> nat {
    if h < 0 { 0 } else { h as nat }
}

/// `n` 16-bit values in a row.
pub open spec fn parse_u16s(s: Seq<u8>, n: nat) -> Result<(Seq<u16>, Seq<u8>), MifError>
    decreases n,
{
    if n == 0 {
        Ok((Seq::empty(), s))
    } else {
        match parse_u16(s) {
            Err(e) => Err(e),
            Ok((v, s1)) => match parse_u16s(s1, (n - 1) as nat) {
                Err(e) => Err(e),
                Ok((vs, s2)) => Ok((seq![v] + vs, s2)),
            },
        }
    }
}

/// 16-bit values as written, one after another.
pub open spec fn u16s_bytes(vs: Seq<u16>) -> Seq<u8>
    decreases vs.len(),
{
    if vs.len() == 0 { Seq::empty() } else { u16s_bytes(vs.drop_last()) + u16_bytes(vs.last()) }
}

/// The sum of the values.
pub open spec fn sum_u16(vs: Seq<u16>) -> nat
    decreases vs.len(),
{
    if vs.len() == 0 { 0 } else { sum_u16(vs.drop_last()) + vs.last() as nat }
}

/// The abstract content of a channel section's index.
pub struct SectionView {
    pub width: i32,
    pub height: i32,
    pub data_size: i32,
    pub line_sizes: Seq<u16>,
    pub line_flags: Seq<u8>,
}

/// The index of a channel section, up to where its scanline data begins:
/// the tag, the width, height and data size, then one 16-bit size and one
/// compression flag for each scanline. A tag other than the image tag is a
/// `TagMismatch`.
pub open spec fn parse_section_index(s: Seq<u8>) -> Result<(SectionView, Seq<u8>), MifError> {
    match parse_tag(s, 8) {
        Err(e) => Err(e),
        Ok((tag, s)) => if !same_ignoring_case(tag, image_tag()) {
            Err(MifError::TagMismatch)
        } else {
            match parse_i32(s) { Err(e) => Err(e), Ok((width, s)) =>
            match parse_i32(s) { Err(e) => Err(e), Ok((height, s)) =>
            match parse_i32(s) { Err(e) => Err(e), Ok((data_size, s)) =>
            match parse_u16s(s, line_count(height)) { Err(e) => Err(e), Ok((line_sizes, s)) =>
            match parse_bytes(s, line_count(height)) { Err(e) => Err(e), Ok((line_flags, s)) =>
                Ok((SectionView { width, height, data_size, line_sizes, line_flags }, s))
            }}}}}
        },
    }
}

/// A whole channel section: the index, then `data_size` bytes of scanline
/// data, which are passed over.
pub open spec fn parse_section(s: Seq<u8>) -> Result<(SectionView, Seq<u8>), MifError> {
    match parse_section_index(s) {
        Err(e) => Err(e),
        Ok((v, s)) => if v.data_size < 0 {
            Err(MifError::IoError)
        } else {
            match parse_bytes(s, v.data_size as nat) {
                Err(e) => Err(e),
                Ok((_, s)) => Ok((v, s)),
            }
        },
    }
}

/// Scanline `n` of a section whose data begins at `origin` in `bytes`: its
/// stored bytes, PackBits-decoded where its flag is 1. An index past the
/// last line is `CorruptData`, stored bytes past the end an `IoError`.
pub open spec fn scanline(bytes: Seq<u8>, origin: nat, sizes: Seq<u16>, flags: Seq<u8>, n: int) -> Result<Seq<u8>, MifError> {
    if n < 0 || n >= sizes.len() || n >= flags.len() {
        Err(MifError::CorruptData)
    } else {
        let start = origin + sum_u16(sizes.take(n));
        let end = start + sizes[n];
        if end > bytes.len() {
            Err(MifError::IoError)
        } else {
            let raw = bytes.subrange(start as int, end as int);
            if flags[n] == 1 {
                match unpack(raw) {
                    Some(t) => Ok(t),
                    None => Err(MifError::CorruptData),
                }
            } else {
                Ok(raw)
            }
        }
    }
}

/// The first `k` scanlines one after another, or the error of the first
/// that fails.
pub open spec fn scanlines(bytes: Seq<u8>, origin: nat, sizes: Seq<u16>, flags: Seq<u8>, k: nat) -> Result<Seq<u8>, MifError>
    decreases k,
{
    if k == 0 {
        Ok(Seq::empty())
    } else {
        match scanlines(bytes, origin, sizes, flags, (k - 1) as nat) {
            Err(e) => Err(e),
            Ok(p) => match scanline(bytes, origin, sizes, flags, k - 1) {
                Err(e) => Err(e),
                Ok(l) => Ok(p + l),
            },
        }
    }
}

/// A channel section as written, from its index and its encoded scanline
/// bytes: the tag, width, height, the length of the scanline bytes as the
/// data size, the line sizes and flags, and the scanline bytes.
pub open spec fn section_bytes(v: SectionView, data: Seq<u8>) -> Seq<u8> {
    tag_bytes(image_tag(), 8) + i32_bytes(v.width) + i32_bytes(v.height) + i32_bytes(data.len() as i32)
        + u16s_bytes(v.line_sizes) + v.line_flags + data
}

/// The index of a stored channel bitmap. It holds no pixels: scanlines are
/// read from the store on demand, starting at `data_origin`.
pub struct ChannelDataSection {
    pub width: i32,
    pub height: i32,
    pub data_size: i32,
    pub line_sizes: Vec<u16>,
    pub line_flags: Vec<u8>,
    pub data_origin: usize,
}

impl View for ChannelDataSection {
    type V = SectionView;

    open spec fn view(&self) -> SectionView {
        SectionView {
            width: self.width,
            height: self.height,
            data_size: self.data_size,
            line_sizes: self.line_sizes@,
            line_flags: self.line_flags@,
        }
    }
}

fn read_u16s(cur: &mut ByteCursor, n: usize) -> (r: Result<Vec<u16>, MifError>)
    ensures
        final(cur).bytes() == old(cur).bytes(),
        match parse_u16s(old(cur).rest(), n as nat) {
            Ok((v, rest)) => r matches Ok(vs) && vs@ == v && final(cur).rest() == rest
                && final(cur).pos() == old(cur).pos() + 2 * n,
            Err(e) => r is Err && r->Err_0 == e,
        },
{
    let mut out: Vec<u16> = Vec::new();
    let mut i: usize = 0;
    proof {
        if let Ok((v, rest)) = parse_u16s(cur.rest(), n as nat) {
            assert(out@ + v =~= v);
        }
    }
    while i < n
        invariant
            i <= n,
            cur.bytes() == old(cur).bytes(),
            cur.pos() == old(cur).pos() + 2 * i,
            parse_u16s(old(cur).rest(), n as nat) == match parse_u16s(cur.rest(), (n - i) as nat) {
                Ok((v, rest)) => Ok((out@ + v, rest)),
                Err(e) => Err::<(Seq<u16>, Seq<u8>), MifError>(e),
            },
        decreases n - i,
    {
        let ghost before = cur.rest();
        let v = cur.read_u16()?;
        let ghost out0 = out@;
        out.push(v);
        i = i + 1;
        proof {
            if let Ok((vs, rest)) = parse_u16s(cur.rest(), (n - i) as nat) {
                assert(out@ + vs =~= out0 + (seq![v] + vs));
            }
        }
    }
    proof {
        assert(out@ + Seq::<u16>::empty() =~= out@);
    }
    Ok(out)
}

/// Summing one more value of a prefix.
proof fn lemma_sum_step(vs: Seq<u16>, i: int)
    requires
        0 <= i < vs.len(),
    ensures
        sum_u16(vs.take(i + 1)) == sum_u16(vs.take(i)) + vs[i] as nat,
{
    assert(vs.take(i + 1).drop_last() =~= vs.take(i));
}

/// Sums of prefixes grow with the prefix.
proof fn lemma_sum_mono(vs: Seq<u16>, i: int, j: int)
    requires
        0 <= i <= j <= vs.len(),
    ensures
        sum_u16(vs.take(i)) <= sum_u16(vs.take(j)),
    decreases j - i,
{
    if i < j {
        lemma_sum_step(vs, j - 1);
        lemma_sum_mono(vs, i, j - 1);
    }
}

/// Once a scanline fails, every longer run of scanlines fails with its error.
proof fn lemma_scanlines_err(bytes: Seq<u8>, origin: nat, sizes: Seq<u16>, flags: Seq<u8>, j: nat, k: nat)
    requires
        j <= k,
        scanlines(bytes, origin, sizes, flags, j) is Err,
    ensures
        scanlines(bytes, origin, sizes, flags, k) == scanlines(bytes, origin, sizes, flags, j),
    decreases k - j,
{
    if j < k {
        lemma_scanlines_err(bytes, origin, sizes, flags, j, (k - 1) as nat);
    }
}

/// A section read from bytes has one size and one flag for each scanline.
pub proof fn lemma_parsed_section_lines(s: Seq<u8>)
    requires
        parse_section(s) is Ok,
    ensures
        parse_section(s)->Ok_0.0.line_sizes.len() == line_count(parse_section(s)->Ok_0.0.height),
        parse_section(s)->Ok_0.0.line_flags.len() == line_count(parse_section(s)->Ok_0.0.height),
{
    let (tag, s0) = parse_tag(s, 8)->Ok_0;
    let (w, s1) = parse_i32(s0)->Ok_0;
    let (h, s2) = parse_i32(s1)->Ok_0;
    let (d, s3) = parse_i32(s2)->Ok_0;
    lemma_parsed_u16s_len(s3, line_count(h));
}

proof fn lemma_parsed_u16s_len(s: Seq<u8>, n: nat)
    requires
        parse_u16s(s, n) is Ok,
    ensures
        parse_u16s(s, n)->Ok_0.0.len() == n,
    decreases n,
{
    if n > 0 {
        let (v, s1) = parse_u16(s)->Ok_0;
        lemma_parsed_u16s_len(s1, (n - 1) as nat);
    }
}

/// Asking a section read from bytes for a scanline at or past its height
/// fails with `CorruptData`, wherever its data lies and whatever the store
/// holds: the section's index has one entry per line and no more.
pub proof fn lemma_line_past_height(s: Seq<u8>, bytes: Seq<u8>, origin: nat, n: int)
    requires
        parse_section(s) is Ok,
        n >= parse_section(s)->Ok_0.0.height,
    ensures
        scanline(bytes, origin, parse_section(s)->Ok_0.0.line_sizes, parse_section(s)->Ok_0.0.line_flags, n)
            == Err::<Seq<u8>, MifError>(MifError::CorruptData),
{
    lemma_parsed_section_lines(s);
}

impl ChannelDataSection {
    /// Reads a section's index and passes over its scanline data, noting
    /// where that data begins.
    #[verifier::spinoff_prover]
    pub fn read(cur: &mut ByteCursor) -> (r: Result<ChannelDataSection, MifError>)
        ensures
            final(cur).bytes() == old(cur).bytes(),
            match parse_section(old(cur).rest()) {
                Ok((v, rest)) => r matches Ok(sec) && sec@ == v && final(cur).rest() == rest
                    && sec.data_origin == old(cur).pos() + 20 + 3 * line_count(v.height)
                    && final(cur).pos() == sec.data_origin + v.data_size,
                Err(e) => r is Err && r->Err_0 == e,
            },
    {
        let tag = cur.read_tag(SECTION_TAG_WIDTH)?;
        let expected = image_tag_bytes();
        if !eq_ignoring_case(tag.as_slice(), expected.as_slice()) {
            return Err(MifError::TagMismatch);
        }
        let width = cur.read_i32()?;
        let height = cur.read_i32()?;
        let data_size = cur.read_i32()?;
        let n: usize = if height < 0 { 0 } else { height as usize };
        let line_sizes = read_u16s(cur, n)?;
        let line_flags = cur.read_bytes(n)?;
        let data_origin = cur.position();
        if data_size < 0 {
            return Err(MifError::IoError);
        }
        cur.skip(data_size as usize)?;
        Ok(ChannelDataSection { width, height, data_size, line_sizes, line_flags, data_origin })
    }

    /// Reads and decodes scanline `n`.
    #[verifier::spinoff_prover]
    pub fn read_line(&self, cur: &mut ByteCursor, n: usize) -> (r: Result<Vec<u8>, MifError>)
        ensures
            final(cur).bytes() == old(cur).bytes(),
            final(cur).pos() == old(cur).pos(),
            match scanline(old(cur).bytes(), self.data_origin as nat, self.line_sizes@,
                self.line_flags@, n as int) {
                Ok(t) => r matches Ok(v) && v@ == t,
                Err(e) => r is Err && r->Err_0 == e,
            },
    {
        if n >= self.line_sizes.len() || n >= self.line_flags.len() {
            return Err(MifError::CorruptData);
        }
        let ghost sizes = self.line_sizes@;
        let total = cur.len();
        if self.data_origin > total {
            proof {
                lemma_sum_mono(sizes, 0, n as int);
            }
            return Err(MifError::IoError);
        }
        let mut start: usize = self.data_origin;
        let mut i: usize = 0;
        while i < n
            invariant
                n < sizes.len(),
                n < self.line_flags@.len(),
                sizes == self.line_sizes@,
                i <= n,
                total == old(cur).bytes().len(),
                start <= total,
                start == self.data_origin + sum_u16(sizes.take(i as int)),
            decreases n - i,
        {
            let sz = self.line_sizes[i] as usize;
            proof {
                lemma_sum_step(sizes, i as int);
            }
            if total - start < sz {
                proof {
                    lemma_sum_mono(sizes, i + 1, n as int);
                    assert(self.data_origin + sum_u16(sizes.take(n as int)) + sizes[n as int]
                        > old(cur).bytes().len());
                }
                return Err(MifError::IoError);
            }
            start = start + sz;
            i = i + 1;
        }
        let size = self.line_sizes[n] as usize;
        if total - start < size {
            return Err(MifError::IoError);
        }
        let saved = cur.position();
        let _ = cur.seek(start);
        let read = cur.read_bytes(size);
        cur.restore_position(saved);
        let raw = read?;
        proof {
            assert(raw@ =~= old(cur).bytes().subrange(start as int, start + size));
        }
        if self.line_flags[n] == 1 {
            decompress(raw.as_slice())
        } else {
            Ok(raw)
        }
    }

    /// Decodes every scanline, in order, into one buffer.
    pub fn read_all(&self, cur: &mut ByteCursor) -> (r: Result<Vec<u8>, MifError>)
        ensures
            final(cur).bytes() == old(cur).bytes(),
            final(cur).pos() == old(cur).pos(),
            match scanlines(old(cur).bytes(), self.data_origin as nat, self.line_sizes@,
                self.line_flags@, line_count(self.height)) {
                Ok(t) => r matches Ok(v) && v@ == t,
                Err(e) => r is Err && r->Err_0 == e,
            },
    {
        let n: usize = if self.height < 0 { 0 } else { self.height as usize };
        let mut out: Vec<u8> = Vec::new();
        let mut i: usize = 0;
        while i < n
            invariant
                n == line_count(self.height),
                i <= n,
                cur.bytes() == old(cur).bytes(),
                cur.pos() == old(cur).pos(),
                scanlines(old(cur).bytes(), self.data_origin as nat, self.line_sizes@,
                    self.line_flags@, i as nat) == Ok::<Seq<u8>, MifError>(out@),
            decreases n - i,
        {
            let res = self.read_line(cur, i);
            match res {
                Err(e) => {
                    proof {
                        lemma_scanlines_err(old(cur).bytes(), self.data_origin as nat,
                            self.line_sizes@, self.line_flags@, (i + 1) as nat, n as nat);
                    }
                    return Err(e);
                },
                Ok(mut line) => {
                    out.append(&mut line);
                },
            }
            i = i + 1;
        }
        Ok(out)
    }

    /// Appends the section with its encoded scanline bytes, which are
    /// written as they stand. A data size beyond the 32-bit range is
    /// refused with an `IoError`.
    pub fn write(&self, data: &[u8], out: &mut ByteCursor) -> (r: Result<(), MifError>)
        requires
            data@.len() == sum_u16(self.line_sizes@),
        ensures
            data@.len() <= 0x7FFF_FFFF ==> r is Ok && final(out).bytes() == old(out).bytes()
                + section_bytes(self@, data@),
            data@.len() > 0x7FFF_FFFF ==> r == Err::<(), MifError>(MifError::IoError)
                && final(out).bytes() == old(out).bytes(),
    {
        if data.len() > 0x7FFF_FFFF {
            return Err(MifError::IoError);
        }
        let tag = image_tag_bytes();
        out.write_tag(tag.as_slice(), SECTION_TAG_WIDTH);
        out.write_i32(self.width);
        out.write_i32(self.height);
        out.write_i32(data.len() as i32);
        let ghost b0 = out.bytes();
        let mut i: usize = 0;
        while i < self.line_sizes.len()
            invariant
                i <= self.line_sizes@.len(),
                out.bytes() == b0 + u16s_bytes(self.line_sizes@.take(i as int)),
            decreases self.line_sizes@.len() - i,
        {
            out.write_u16(self.line_sizes[i]);
            i = i + 1;
            proof {
                assert(self.line_sizes@.take(i as int).drop_last() =~= self.line_sizes@.take(i - 1));
                assert(out.bytes() =~= b0 + u16s_bytes(self.line_sizes@.take(i as int)));
            }
        }
        out.write_bytes(self.line_flags.as_slice());
        out.write_bytes(data);
        proof {
            assert(self.line_sizes@.take(i as int) =~= self.line_sizes@);
            assert(out.bytes() =~= old(out).bytes() + section_bytes(self@, data@));
        }
        Ok(())
    }
}

} // verus!
