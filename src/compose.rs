//! Compositing: a variant's channels, layered in order over the fabric
//! colour, make the preview raster.
//!
//! The per-pixel blend works in floating point and is handed in as a
//! function; this module decides which channels are applied, in which
//! order, to which pixels, and with which inputs.
use vstd::prelude::*;
use vstd::string::StringExecFns;
use crate::color::{Rgb, ColorRecord, display_of};
use crate::channel::{ChannelDataSection, SectionView, parse_section, scanlines, line_count};
use crate::cursor::ByteCursor;
use crate::variant::ChannelSpec;
use crate::error::MifError;

verus! {

/// A decoded channel: one intensity byte per pixel, row-major, with how it
/// is shown.
pub struct Channel {
    pub width: usize,
    pub height: usize,
    pub data: Vec<u8>,
    pub name: String,
    pub visible: bool,
    pub opacity_bits: u32,
    pub color: ColorRecord,
}

/// A preview raster, row-major.
pub struct Raster {
    pub width: usize,
    pub height: usize,
    pub pixels: Vec<Rgb>,
}

impl Channel {
    /// Decodes a stored channel and joins it with its specification. A
    /// bitmap whose decoded size is not its width times its height is
    /// `CorruptData`.
    pub fn materialize(section: &ChannelDataSection, spec: &ChannelSpec, cur: &mut ByteCursor) -> (r: Result<Channel, MifError>)
        ensures
            final(cur).bytes() == old(cur).bytes(),
            final(cur).pos() == old(cur).pos(),
            match scanlines(old(cur).bytes(), section.data_origin as nat, section.line_sizes@,
                section.line_flags@, line_count(section.height)) {
                Ok(t) => if section.width >= 0 && section.height >= 0
                    && t.len() == section.width * section.height {
                    r matches Ok(c) && c.data@ == t && c.width == section.width
                        && c.height == section.height && c.name@ == spec.name@
                        && c.visible == spec.visible && c.opacity_bits == spec.opacity_bits
                        && c.color@ == spec.color@
                } else {
                    r == Err::<Channel, MifError>(MifError::CorruptData)
                },
                Err(e) => r is Err && r->Err_0 == e,
            },
    {
        let data = section.read_all(cur)?;
        if section.width < 0 || section.height < 0 {
            return Err(MifError::CorruptData);
        }
        let w = section.width as usize;
        let h = section.height as usize;
        if w > 0 && data.len() / w != h || w > 0 && data.len() % w != 0 || w == 0 && data.len() != 0 {
            proof {
                if w > 0 {
                    assert(data@.len() != w * h) by (nonlinear_arith)
                        requires w > 0, (data@.len() as int) / (w as int) != h || (data@.len() as int) % (w as int) != 0;
                }
            }
            return Err(MifError::CorruptData);
        }
        proof {
            if w > 0 {
                assert(data@.len() == w * h) by (nonlinear_arith)
                    requires w > 0, (data@.len() as int) / (w as int) == h, (data@.len() as int) % (w as int) == 0;
            }
        }
        Ok(Channel { width: w, height: h, data, name: spec.name.clone(), visible: spec.visible,
            opacity_bits: spec.opacity_bits, color: spec.color.copied() })
    }
}

/// The bytes of `bytes` from position `p` on.
pub open spec fn rest_at(bytes: Seq<u8>, p: nat) -> Seq<u8> {
    if p <= bytes.len() { bytes.skip(p as int) } else { Seq::empty() }
}

/// Where the scanline data of section `v`, stored at `p`, begins.
pub open spec fn section_origin(v: SectionView, p: nat) -> nat {
    p + 20 + 3 * line_count(v.height)
}

/// Where section `v`, stored at `p`, ends.
pub open spec fn section_end(v: SectionView, p: nat) -> nat {
    (section_origin(v, p) + v.data_size) as nat
}

/// The position after `n` channel sections in a row from `p`, or the error
/// of the first that does not parse.
#[verifier::opaque]
pub open spec fn skip_sections(bytes: Seq<u8>, p: nat, n: nat) -> Result<nat, MifError>
    decreases n,
{
    if n == 0 {
        Ok(p)
    } else {
        match parse_section(rest_at(bytes, p)) {
            Err(e) => Err(e),
            Ok((v, _)) => skip_sections(bytes, section_end(v, p), (n - 1) as nat),
        }
    }
}

/// The position after `g` groups of `m` channel sections from `p`. A group
/// that would start where the store ends (with `m > 0`) is
/// `IndexOutOfRange`; otherwise the error is that of the first section
/// that does not parse.
pub open spec fn skip_groups(bytes: Seq<u8>, p: nat, g: nat, m: nat) -> Result<nat, MifError>
    decreases g,
{
    if g == 0 {
        Ok(p)
    } else if m > 0 && p >= bytes.len() {
        Err(MifError::IndexOutOfRange)
    } else {
        match skip_sections(bytes, p, m) {
            Err(e) => Err(e),
            Ok(q) => skip_groups(bytes, q, (g - 1) as nat, m),
        }
    }
}

/// A channel bitmap decoded from a section: its size and its pixels.
pub struct DecodedView {
    pub width: i32,
    pub height: i32,
    pub data: Seq<u8>,
}

/// The section stored at `p`, decoded, and where it ends. A bitmap whose
/// decoded size is not its width times its height is `CorruptData`.
#[verifier::opaque]
pub open spec fn decode_section(bytes: Seq<u8>, p: nat) -> Result<(DecodedView, nat), MifError> {
    match parse_section(rest_at(bytes, p)) {
        Err(e) => Err(e),
        Ok((v, _)) => match scanlines(bytes, section_origin(v, p), v.line_sizes, v.line_flags,
            line_count(v.height)) {
            Err(e) => Err(e),
            Ok(t) => if v.width >= 0 && v.height >= 0 && t.len() == v.width * v.height {
                Ok((DecodedView { width: v.width, height: v.height, data: t }, section_end(v, p)))
            } else {
                Err(MifError::CorruptData)
            },
        },
    }
}

/// `n` sections in a row from `p`, each decoded, or the error of the first
/// that fails.
pub open spec fn decode_sections(bytes: Seq<u8>, p: nat, n: nat) -> Result<Seq<DecodedView>, MifError>
    decreases n,
{
    if n == 0 {
        Ok(Seq::empty())
    } else {
        match decode_section(bytes, p) {
            Err(e) => Err(e),
            Ok((d, q)) => match decode_sections(bytes, q, (n - 1) as nat) {
                Err(e) => Err(e),
                Ok(ds) => Ok(seq![d] + ds),
            },
        }
    }
}

/// Layer `layer` of the channel sections stored from `p`: the sections come
/// in groups of `m`, one per channel; the groups before the layer are passed
/// over and the layer's own group is decoded. A layer that would start
/// where the store ends is `IndexOutOfRange`.
pub open spec fn layer_sections(bytes: Seq<u8>, p: nat, layer: nat, m: nat) -> Result<Seq<DecodedView>, MifError> {
    match skip_groups(bytes, p, layer, m) {
        Err(e) => Err(e),
        Ok(q) => if m > 0 && q >= bytes.len() {
            Err(MifError::IndexOutOfRange)
        } else {
            decode_sections(bytes, q, m)
        },
    }
}

/// The channel `c` is the decoded bitmap `d` joined with `spec`.
pub open spec fn channel_from(c: Channel, d: DecodedView, spec: ChannelSpec) -> bool {
    &&& c.width == d.width
    &&& c.height == d.height
    &&& c.data@ == d.data
    &&& c.name@ == spec.name@
    &&& c.visible == spec.visible
    &&& c.opacity_bits == spec.opacity_bits
    &&& c.color@ == spec.color@
}

/// Passes over `n` channel sections.
fn skip_section_run(cur: &mut ByteCursor, n: usize) -> (r: Result<(), MifError>)
    ensures
        final(cur).bytes() == old(cur).bytes(),
        match skip_sections(old(cur).bytes(), old(cur).pos(), n as nat) {
            Ok(q) => r is Ok && final(cur).pos() == q,
            Err(e) => r == Err::<(), MifError>(e),
        },
{
    reveal(skip_sections);
    let mut k: usize = 0;
    while k < n
        invariant
            k <= n,
            cur.bytes() == old(cur).bytes(),
            skip_sections(old(cur).bytes(), old(cur).pos(), n as nat)
                == skip_sections(cur.bytes(), cur.pos(), (n - k) as nat),
        decreases n - k,
    {
        reveal(skip_sections);
        let ghost p = cur.pos();
        let ghost b = cur.bytes();
        let res = ChannelDataSection::read(cur);
        match res {
            Err(e) => {
                proof {
                    assert(cur.bytes() == b);
                    assert(skip_sections(b, p, (n - k) as nat) == Err::<nat, MifError>(e));
                }
                return Err(e);
            },
            Ok(sec) => {
                proof {
                    let v = parse_section(rest_at(b, p))->Ok_0.0;
                    assert(cur.pos() == section_end(v, p));
                }
            },
        }
        k = k + 1;
    }
    Ok(())
}

/// Reads the channel section at the cursor, decodes it and joins it with
/// `spec`; the cursor ends after the section.
#[verifier::spinoff_prover]
fn read_decoded(cur: &mut ByteCursor, spec: &ChannelSpec) -> (r: Result<Channel, MifError>)
    ensures
        final(cur).bytes() == old(cur).bytes(),
        match decode_section(old(cur).bytes(), old(cur).pos()) {
            Ok((d, q)) => r matches Ok(c) && channel_from(c, d, *spec) && final(cur).pos() == q,
            Err(e) => r == Err::<Channel, MifError>(e),
        },
{
    reveal(decode_section);
    let section = ChannelDataSection::read(cur)?;
    let c = Channel::materialize(&section, spec, cur)?;
    Ok(c)
}

/// Reads group `layer` of the channel sections at the cursor and decodes
/// it. The sections come in groups of one per channel specification, in
/// the specifications' order; the groups before the chosen one are passed
/// over, and each section of the chosen one is decoded and joined with its
/// specification. A layer that would start where the store ends is
/// `IndexOutOfRange`; any other failure is that of the first section that
/// does not parse or decode.
#[verifier::spinoff_prover]
pub fn read_layer(cur: &mut ByteCursor, specs: &Vec<ChannelSpec>, layer: usize) -> (r: Result<Vec<Channel>, MifError>)
    ensures
        final(cur).bytes() == old(cur).bytes(),
        match layer_sections(old(cur).bytes(), old(cur).pos(), layer as nat, specs@.len()) {
            Ok(ds) => r matches Ok(chs) && chs@.len() == specs@.len() && ds.len() == specs@.len()
                && forall|k: int| 0 <= k < chs@.len() ==> channel_from(#[trigger] chs@[k], ds[k], specs@[k]),
            Err(e) => r == Err::<Vec<Channel>, MifError>(e),
        },
{
    let m = specs.len();
    let ghost b = cur.bytes();
    let ghost p0 = cur.pos();
    let mut g: usize = 0;
    while g < layer
        invariant
            g <= layer,
            m == specs@.len(),
            b == old(cur).bytes(),
            p0 == old(cur).pos(),
            cur.bytes() == b,
            skip_groups(b, p0, layer as nat, m as nat)
                == skip_groups(b, cur.pos(), (layer - g) as nat, m as nat),
        decreases layer - g,
    {
        if m > 0 && cur.position() >= cur.len() {
            return Err(MifError::IndexOutOfRange);
        }
        skip_section_run(cur, m)?;
        g = g + 1;
    }
    if m > 0 && cur.position() >= cur.len() {
        return Err(MifError::IndexOutOfRange);
    }
    let ghost q = cur.pos();
    let ghost mut done: Seq<DecodedView> = Seq::empty();
    let mut out: Vec<Channel> = Vec::new();
    let mut k: usize = 0;
    proof {
        if let Ok(ds) = decode_sections(b, q, m as nat) {
            assert(done + ds =~= ds);
        }
    }
    while k < m
        invariant
            k <= m,
            m == specs@.len(),
            b == old(cur).bytes(),
            p0 == old(cur).pos(),
            skip_groups(b, p0, layer as nat, m as nat) == Ok::<nat, MifError>(q),
            !(m > 0 && q >= b.len()),
            cur.bytes() == b,
            out@.len() == k,
            done.len() == k,
            decode_sections(b, q, m as nat) == match decode_sections(b, cur.pos(), (m - k) as nat) {
                Ok(ds) => Ok(done + ds),
                Err(e) => Err::<Seq<DecodedView>, MifError>(e),
            },
            forall|i: int| 0 <= i < k ==> channel_from(#[trigger] out@[i], done[i], specs@[i]),
        decreases m - k,
    {
        let ghost p = cur.pos();
        let res = read_decoded(cur, &specs[k]);
        let c = match res {
            Err(e) => {
                proof {
                    assert(decode_sections(b, p, (m - k) as nat) == Err::<Seq<DecodedView>, MifError>(e));
                }
                return Err(e);
            },
            Ok(c) => c,
        };
        let ghost d = decode_section(b, p)->Ok_0.0;
        proof {
            if let Ok(ds) = decode_sections(b, cur.pos(), (m - k - 1) as nat) {
                assert(done.push(d) + ds =~= done + (seq![d] + ds));
            }
            done = done.push(d);
        }
        out.push(c);
        k = k + 1;
    }
    proof {
        assert(done + Seq::<DecodedView>::empty() =~= done);
    }
    Ok(out)
}

/// The names of the three process colours.
pub open spec fn process_color_name(n: Seq<char>) -> bool {
    n == "Cyan"@ || n == "Magenta"@ || n == "Yellow"@
}

/// Whether a channel takes part in the composite: all do but the invisible
/// process-colour channels.
pub open spec fn applies(c: Channel) -> bool {
    c.visible || !process_color_name(c.name@)
}

/// Whether a channel takes part in the composite.
pub fn channel_applies(c: &Channel) -> (r: bool)
    ensures
        r == applies(*c),
{
    if c.visible {
        return true;
    }
    let cyan = String::from_str("Cyan");
    let magenta = String::from_str("Magenta");
    let yellow = String::from_str("Yellow");
    !(c.name == cyan || c.name == magenta || c.name == yellow)
}

/// What the blend gives for these inputs. The blend is deterministic, so
/// this is its one possible result.
pub open spec fn blend_of<F: Fn(Rgb, u8, Rgb, u32) -> Rgb>(blend: F, px: Rgb, v: u8, c: Rgb, op: u32) -> Rgb {
    choose|r: Rgb| blend.ensures((px, v, c, op), r)
}

/// A blend that may be called on any inputs and has one result for each.
pub open spec fn deterministic_blend<F: Fn(Rgb, u8, Rgb, u32) -> Rgb>(blend: F) -> bool {
    &&& forall|px: Rgb, v: u8, c: Rgb, op: u32| blend.requires((px, v, c, op))
    &&& forall|px: Rgb, v: u8, c: Rgb, op: u32, r1: Rgb, r2: Rgb|
        blend.ensures((px, v, c, op), r1) && blend.ensures((px, v, c, op), r2) ==> r1 == r2
}

/// The colour of one pixel after the first `k` channels, sampled at `src`,
/// have been blended over `base` in order.
pub open spec fn layered<F: Fn(Rgb, u8, Rgb, u32) -> Rgb>(blend: F, channels: Seq<Channel>, k: nat, base: Rgb, src: int) -> Rgb
    decreases k,
{
    if k == 0 || k > channels.len() {
        base
    } else {
        let p = layered(blend, channels, (k - 1) as nat, base, src);
        let c = channels[k - 1];
        if applies(c) {
            blend_of(blend, p, c.data@[src], display_of(c.color@), c.opacity_bits)
        } else {
            p
        }
    }
}

/// The channel pixel that output pixel `i` of a raster `out_w` wide samples
/// from a channel `w` wide at the given scale.
pub open spec fn source_index(i: int, out_w: int, w: int, scale: int) -> int {
    (i / out_w) * scale * w + (i % out_w) * scale
}

/// The channels can be composited: all have the first one's size, and each
/// holds one byte per pixel.
pub open spec fn same_size(channels: Seq<Channel>) -> bool {
    channels.len() > 0 && forall|k: int| 0 <= k < channels.len() ==> {
        &&& (#[trigger] channels[k]).width == channels[0].width
        &&& channels[k].height == channels[0].height
        &&& channels[k].data@.len() == channels[0].width * channels[0].height
    }
}

/// `r` is the composite of `channels` over `fabric` at `scale`: it is the
/// first channel's size divided by the scale, and each of its pixels is the
/// fabric colour with every channel that applies blended over it in order,
/// each sampled at the pixel's place times the scale.
pub open spec fn composed<F: Fn(Rgb, u8, Rgb, u32) -> Rgb>(r: Raster, channels: Seq<Channel>, fabric: ColorRecord, scale: usize, blend: F) -> bool {
    let w = channels[0].width;
    let h = channels[0].height;
    &&& r.width == w / scale
    &&& r.height == h / scale
    &&& r.pixels@.len() == r.width * r.height
    &&& forall|i: int| 0 <= i < r.pixels@.len() ==> #[trigger] r.pixels@[i] == layered(blend, channels,
        channels.len(), display_of(fabric@), source_index(i, r.width as int, w as int, scale as int))
}

/// Output pixel `i` of a raster `w / scale` by `h / scale` samples inside a
/// `w` by `h` bitmap.
proof fn lemma_source_in_bounds(i: int, w: int, h: int, scale: int)
    requires
        scale > 0,
        w / scale > 0,
        0 <= i < (w / scale) * (h / scale),
        w >= 0,
        h >= 0,
    ensures
        0 <= source_index(i, w / scale, w, scale) < w * h,
        0 <= (i / (w / scale)) * scale <= h,
        0 <= (i / (w / scale)) * scale * w <= w * h,
        0 <= (i % (w / scale)) * scale <= w,
{
    let ow = w / scale;
    let oh = h / scale;
    let y = i / ow;
    let x = i % ow;
    assert(0 <= y < oh) by (nonlinear_arith)
        requires ow > 0, 0 <= i < ow * oh, y == i / ow;
    assert(0 <= x < ow) by (nonlinear_arith)
        requires ow > 0, x == i % ow;
    assert(ow * scale <= w && oh * scale <= h) by (nonlinear_arith)
        requires scale > 0, ow == w / scale, oh == h / scale, w >= 0, h >= 0;
    assert(0 <= y * scale <= h - scale) by (nonlinear_arith)
        requires 0 <= y < oh, oh * scale <= h, scale > 0;
    assert(0 <= x * scale <= w - scale) by (nonlinear_arith)
        requires 0 <= x < ow, ow * scale <= w, scale > 0;
    assert(0 <= y * scale * w + x * scale < w * h) by (nonlinear_arith)
        requires 0 <= y * scale <= h - scale, 0 <= x * scale <= w - scale, scale > 0, w >= 0;
    let ys = y * scale;
    assert(0 <= ys * w <= h * w) by (nonlinear_arith)
        requires 0 <= ys <= h, w >= 0;
    assert(h * w == w * h) by (nonlinear_arith);
}

/// Whether `len` is `w * h`.
fn is_area(len: usize, w: usize, h: usize) -> (r: bool)
    ensures
        r == (len == w * h),
{
    if w == 0 {
        len == 0
    } else {
        let ok = len % w == 0 && len / w == h;
        proof {
            if ok {
                assert(len == w * h) by (nonlinear_arith)
                    requires w > 0, len % w == 0, len / w == h;
            } else {
                assert(len != w * h) by (nonlinear_arith)
                    requires w > 0, !(len % w == 0 && len / w == h);
            }
        }
        ok
    }
}

/// Composites `channels` over the display colour of `fabric`: the raster is
/// the first channel's size divided by `scale`, every pixel starts as the
/// fabric colour, and each channel that applies is blended over it in the
/// order given, each channel reading what the ones before it left. Channels
/// of unequal sizes, or whose data is not one byte per pixel, are
/// `CorruptData`.
#[verifier::spinoff_prover]
pub fn compose<F: Fn(Rgb, u8, Rgb, u32) -> Rgb>(
    channels: &Vec<Channel>,
    fabric: &ColorRecord,
    scale: usize,
    blend: F,
) -> (r: Result<Raster, MifError>)
    requires
        scale > 0,
        channels@.len() > 0,
        deterministic_blend(blend),
    ensures
        same_size(channels@) ==> (r matches Ok(ras) && composed(ras, channels@, *fabric, scale, blend)),
        !same_size(channels@) ==> r == Err::<Raster, MifError>(MifError::CorruptData),
{
    let w = channels[0].width;
    let h = channels[0].height;
    let mut k: usize = 0;
    while k < channels.len()
        invariant
            k <= channels@.len(),
            channels@.len() > 0,
            w == channels@[0].width,
            h == channels@[0].height,
            forall|j: int| 0 <= j < k ==> {
                &&& (#[trigger] channels@[j]).width == w
                &&& channels@[j].height == h
                &&& channels@[j].data@.len() == w * h
            },
        decreases channels@.len() - k,
    {
        let c = &channels[k];
        if c.width != w || c.height != h || !is_area(c.data.len(), w, h) {
            return Err(MifError::CorruptData);
        }
        k = k + 1;
    }
    let ow = w / scale;
    let oh = h / scale;
    let area = channels[0].data.len();
    proof {
        assert(channels@[0].data@.len() == w * h);
        assert(ow * oh <= w * h) by (nonlinear_arith)
            requires scale > 0, ow == w / scale, oh == h / scale;
    }
    let total = ow * oh;
    let base = fabric.display_rgb();
    let mut canvas: Vec<Rgb> = Vec::new();
    while canvas.len() < total
        invariant
            canvas@.len() <= total,
            forall|j: int| 0 <= j < canvas@.len() ==> #[trigger] canvas@[j] == base,
        decreases total - canvas@.len(),
    {
        canvas.push(base);
    }
    let ghost chans = channels@;
    let mut k: usize = 0;
    while k < channels.len()
        invariant
            chans == channels@,
            same_size(chans),
            w == chans[0].width,
            h == chans[0].height,
            ow == w / scale,
            oh == h / scale,
            total == ow * oh,
            scale > 0,
            deterministic_blend(blend),
            base == display_of(fabric@),
            k <= chans.len(),
            canvas@.len() == total,
            forall|j: int| 0 <= j < total ==> #[trigger] canvas@[j] == layered(blend, chans, k as nat,
                base, source_index(j, ow as int, w as int, scale as int)),
        decreases chans.len() - k,
    {
        let c = &channels[k];
        if channel_applies(c) {
            let rgb = c.color.display_rgb();
            let op = c.opacity_bits;
            let mut i: usize = 0;
            while i < total
                invariant
                    chans == channels@,
                    same_size(chans),
                    w == chans[0].width,
                    h == chans[0].height,
                    ow == w / scale,
                    oh == h / scale,
                    total == ow * oh,
                    scale > 0,
                    deterministic_blend(blend),
                    k < chans.len(),
                    c == chans[k as int],
                    applies(*c),
                    rgb == display_of(c.color@),
                    op == c.opacity_bits,
                    i <= total,
                    canvas@.len() == total,
                    forall|j: int| 0 <= j < i ==> #[trigger] canvas@[j] == layered(blend, chans,
                        (k + 1) as nat, base, source_index(j, ow as int, w as int, scale as int)),
                    forall|j: int| i <= j < total ==> #[trigger] canvas@[j] == layered(blend, chans,
                        k as nat, base, source_index(j, ow as int, w as int, scale as int)),
                decreases total - i,
            {
                proof {
                    assert(ow > 0) by (nonlinear_arith)
                        requires i < total, total == ow * oh;
                }
                let y = i / ow;
                let x = i % ow;
                let area = c.data.len();
                proof {
                    lemma_source_in_bounds(i as int, w as int, h as int, scale as int);
                    assert(area == w * h);
                }
                let src = y * scale * w + x * scale;
                let v = c.data[src];
                let p = canvas[i];
                let q = blend(p, v, rgb, op);
                proof {
                    assert(blend.ensures((p, v, rgb, op), q));
                    assert(blend.ensures((p, v, rgb, op), blend_of(blend, p, v, rgb, op)));
                }
                canvas.set(i, q);
                i = i + 1;
            }
        } else {
            proof {
                assert forall|j: int| 0 <= j < total implies #[trigger] canvas@[j] == layered(blend, chans,
                    (k + 1) as nat, base, source_index(j, ow as int, w as int, scale as int)) by {}
            }
        }
        k = k + 1;
    }
    proof {
        assert(chans.len() == k);
    }
    Ok(Raster { width: ow, height: oh, pixels: canvas })
}

/// Compositing is deterministic: two rasters that are both the composite of
/// the same channels over the same fabric at the same scale, with the same
/// blend, are the same raster, pixel for pixel.
pub proof fn lemma_compose_deterministic<F: Fn(Rgb, u8, Rgb, u32) -> Rgb>(
    r1: Raster,
    r2: Raster,
    channels: Seq<Channel>,
    fabric: ColorRecord,
    scale: usize,
    blend: F,
)
    requires
        composed(r1, channels, fabric, scale, blend),
        composed(r2, channels, fabric, scale, blend),
    ensures
        r1.width == r2.width,
        r1.height == r2.height,
        r1.pixels@ == r2.pixels@,
{
    assert(r1.pixels@ =~= r2.pixels@);
}

proof fn lemma_layered_blank<F: Fn(Rgb, u8, Rgb, u32) -> Rgb>(blend: F, channels: Seq<Channel>, k: nat, base: Rgb, src: int)
    requires
        forall|px: Rgb, c: Rgb, op: u32| blend_of(blend, px, 255u8, c, op) == px,
        forall|j: int| 0 <= j < channels.len() ==> (#[trigger] channels[j]).data@[src] == 255u8,
    ensures
        layered(blend, channels, k, base, src) == base,
    decreases k,
{
    if k > 0 && k <= channels.len() {
        lemma_layered_blank(blend, channels, (k - 1) as nat, base, src);
        let c = channels[k - 1];
        assert(c.data@[src] == 255u8);
    }
}

/// A channel value of 255 carries no ink. Where the blend gives a pixel
/// back unchanged for that value, as both blends of the engine do,
/// channels that hold 255 at every pixel leave the whole composite at the
/// fabric colour.
pub proof fn lemma_blank_channels_keep_fabric<F: Fn(Rgb, u8, Rgb, u32) -> Rgb>(
    r: Raster,
    channels: Seq<Channel>,
    fabric: ColorRecord,
    scale: usize,
    blend: F,
)
    requires
        scale > 0,
        same_size(channels),
        composed(r, channels, fabric, scale, blend),
        forall|px: Rgb, c: Rgb, op: u32| blend_of(blend, px, 255u8, c, op) == px,
        forall|k: int, i: int| 0 <= k < channels.len() && 0 <= i < channels[k].data@.len()
            ==> #[trigger] channels[k].data@[i] == 255u8,
    ensures
        forall|i: int| 0 <= i < r.pixels@.len() ==> #[trigger] r.pixels@[i] == display_of(fabric@),
{
    let w = channels[0].width as int;
    let h = channels[0].height as int;
    assert forall|i: int| 0 <= i < r.pixels@.len() implies #[trigger] r.pixels@[i] == display_of(fabric@) by {
        assert(r.width > 0) by (nonlinear_arith)
            requires 0 <= i < r.pixels@.len(), r.pixels@.len() == r.width * r.height;
        lemma_source_in_bounds(i, w, h, scale as int);
        let src = source_index(i, r.width as int, w, scale as int);
        assert forall|j: int| 0 <= j < channels.len() implies (#[trigger] channels[j]).data@[src] == 255u8 by {
            assert(channels[j].data@.len() == w * h);
        }
        lemma_layered_blank(blend, channels, channels.len(), display_of(fabric@), src);
    }
}

} // verus!
