//! Variant records: a colourway's metadata, its channel specifications,
//! preview and simulation properties, in four revisions.
use vstd::prelude::*;
use crate::cursor::{ByteCursor, parse_tag, parse_i16, parse_i32, parse_u32, parse_bool,
    parse_bytes, parse_string, same_bytes};
use crate::color::{ColorRecord, ColorView, parse_color};
use crate::strings::{parse_strings, texts_view, read_strings};
use crate::error::MifError;

verus! {

/// The width of a variant's fixed tag.
pub const VARIANT_TAG_WIDTH: usize = 8;

/// The width of the simulation block's tag.
pub const SIMULATION_TAG_WIDTH: usize = 8;

/// The size of each opaque block of the simulation properties.
pub const OPAQUE_BLOCK_SIZE: usize = 12;

/// The tag of variant revision `v`: "MIFV001", "MIFV010", "MIFV020" and
/// "MIFV030" for revisions 1 to 4.
pub open spec fn variant_tag(v: u8) -> Seq<u8> {
    seq![0x4Du8, 0x49u8, 0x46u8, 0x56u8, 0x30u8,
        if v == 1 { 0x30u8 } else if v == 2 { 0x31u8 } else if v == 3 { 0x32u8 } else { 0x33u8 },
        if v == 1 { 0x31u8 } else { 0x30u8 }]
}

/// The revision that a variant tag names, if any.
pub open spec fn variant_version(tag: Seq<u8>) -> Option<u8> {
    if tag == variant_tag(1) {
        Some(1u8)
    } else if tag == variant_tag(2) {
        Some(2u8)
    } else if tag == variant_tag(3) {
        Some(3u8)
    } else if tag == variant_tag(4) {
        Some(4u8)
    } else {
        None
    }
}

/// The tag of variant revision `v`.
pub fn variant_tag_bytes(v: u8) -> (r: Vec<u8>)
    ensures
        r@ == variant_tag(v),
{
    let a: u8 = if v == 1 { 0x30 } else if v == 2 { 0x31 } else if v == 3 { 0x32 } else { 0x33 };
    let b: u8 = if v == 1 { 0x31 } else { 0x30 };
    let r = vec![0x4Du8, 0x49u8, 0x46u8, 0x56u8, 0x30u8, a, b];
    proof {
        assert(r@ =~= variant_tag(v));
    }
    r
}

/// The revision that a variant tag names, if any.
pub fn variant_version_of_tag(tag: &[u8]) -> (r: Option<u8>)
    ensures
        r == variant_version(tag@),
{
    let mut v: u8 = 1;
    while v <= 4
        invariant
            1 <= v <= 5,
            forall|w: u8| 1 <= w < v ==> tag@ != variant_tag(w),
        decreases 5 - v,
    {
        let t = variant_tag_bytes(v);
        if same_bytes(tag, t.as_slice()) {
            return Some(v);
        }
        v = v + 1;
    }
    None
}

/// The view of an optional string.
pub open spec fn opt_text(t: Option<String>) -> Option<Seq<char>> {
    match t {
        Some(s) => Some(s@),
        None => None,
    }
}

/// The abstract content of a variant descriptor.
pub struct DescriptorView {
    pub version: u8,
    pub name: Seq<char>,
    pub description: Seq<char>,
    pub entry_date: Seq<char>,
    pub design_name: Option<Seq<char>>,
    pub design_type: Option<Seq<char>>,
    pub print_type: Option<Seq<char>>,
    pub factory_name: Option<Seq<char>>,
    pub channel_count1: i16,
    pub channel_count2: i16,
}

/// A variant's metadata. Revisions 1 to 3 store the design's name and type;
/// revision 1 also the print type and factory name.
pub struct VariantDescriptor {
    pub version: u8,
    pub name: String,
    pub description: String,
    pub entry_date: String,
    pub design_name: Option<String>,
    pub design_type: Option<String>,
    pub print_type: Option<String>,
    pub factory_name: Option<String>,
    pub channel_count1: i16,
    pub channel_count2: i16,
}

impl View for VariantDescriptor {
    type V = DescriptorView;

    open spec fn view(&self) -> DescriptorView {
        DescriptorView {
            version: self.version,
            name: self.name@,
            description: self.description@,
            entry_date: self.entry_date@,
            design_name: opt_text(self.design_name),
            design_type: opt_text(self.design_type),
            print_type: opt_text(self.print_type),
            factory_name: opt_text(self.factory_name),
            channel_count1: self.channel_count1,
            channel_count2: self.channel_count2,
        }
    }
}

/// The fields after the names: print type and factory name in revision 1,
/// then the two channel counts.
pub open spec fn parse_descriptor_tail(s: Seq<u8>, v: u8) -> Result<((Option<Seq<char>>, Option<Seq<char>>, i16, i16), Seq<u8>), MifError> {
    let extra = if v == 1 {
        match parse_string(s) { Err(e) => Err(e), Ok((p, s)) =>
        match parse_string(s) { Err(e) => Err(e), Ok((f, s)) =>
            Ok(((Some(p), Some(f)), s))
        }}
    } else {
        Ok::<((Option<Seq<char>>, Option<Seq<char>>), Seq<u8>), MifError>(((None, None), s))
    };
    match extra {
        Err(e) => Err(e),
        Ok(((p, f), s)) =>
            match parse_i16(s) { Err(e) => Err(e), Ok((c1, s)) =>
            match parse_i16(s) { Err(e) => Err(e), Ok((c2, s)) =>
                Ok(((p, f, c1, c2), s))
            }},
    }
}

/// A variant descriptor as read: the 8-byte tag naming the revision; then
/// description, name, entry date, design name and design type before
/// revision 4 (the description comes first there), or name, description
/// and entry date in revision 4; then the tail above.
#[verifier::opaque]
pub open spec fn parse_descriptor(s: Seq<u8>) -> Result<(DescriptorView, Seq<u8>), MifError> {
    match parse_tag(s, 8) {
        Err(e) => Err(e),
        Ok((tag, s)) => match variant_version(tag) {
            None => Err(MifError::UnsupportedVersion),
            Some(v) => if v < 4 {
                match parse_string(s) { Err(e) => Err(e), Ok((description, s)) =>
                match parse_string(s) { Err(e) => Err(e), Ok((name, s)) =>
                match parse_string(s) { Err(e) => Err(e), Ok((entry_date, s)) =>
                match parse_string(s) { Err(e) => Err(e), Ok((dn, s)) =>
                match parse_string(s) { Err(e) => Err(e), Ok((dt, s)) =>
                match parse_descriptor_tail(s, v) { Err(e) => Err(e), Ok(((p, f, c1, c2), s)) =>
                    Ok((DescriptorView { version: v, name, description, entry_date,
                        design_name: Some(dn), design_type: Some(dt), print_type: p, factory_name: f,
                        channel_count1: c1, channel_count2: c2 }, s))
                }}}}}}
            } else {
                match parse_string(s) { Err(e) => Err(e), Ok((name, s)) =>
                match parse_string(s) { Err(e) => Err(e), Ok((description, s)) =>
                match parse_string(s) { Err(e) => Err(e), Ok((entry_date, s)) =>
                match parse_descriptor_tail(s, v) { Err(e) => Err(e), Ok(((p, f, c1, c2), s)) =>
                    Ok((DescriptorView { version: v, name, description, entry_date,
                        design_name: None, design_type: None, print_type: p, factory_name: f,
                        channel_count1: c1, channel_count2: c2 }, s))
                }}}}
            },
        },
    }
}

fn read_descriptor_tail(cur: &mut ByteCursor, v: u8) -> (r: Result<(Option<String>, Option<String>, i16, i16), MifError>)
    ensures
        final(cur).bytes() == old(cur).bytes(),
        match parse_descriptor_tail(old(cur).rest(), v) {
            Ok((x, rest)) => r matches Ok((p, f, c1, c2)) && opt_text(p) == x.0 && opt_text(f) == x.1
                && c1 == x.2 && c2 == x.3 && final(cur).rest() == rest,
            Err(e) => r is Err && r->Err_0 == e,
        },
{
    let (p, f) = if v == 1 {
        let p = cur.read_string()?;
        let f = cur.read_string()?;
        (Some(p), Some(f))
    } else {
        (None, None)
    };
    let c1 = cur.read_i16()?;
    let c2 = cur.read_i16()?;
    Ok((p, f, c1, c2))
}

impl VariantDescriptor {
    /// Reads a variant descriptor in any of its four revisions.
    pub fn read(cur: &mut ByteCursor) -> (r: Result<VariantDescriptor, MifError>)
        ensures
            final(cur).bytes() == old(cur).bytes(),
            match parse_descriptor(old(cur).rest()) {
                Ok((v, rest)) => r matches Ok(d) && d@ == v && final(cur).rest() == rest,
                Err(e) => r is Err && r->Err_0 == e,
            },
    {
        reveal(parse_descriptor);
        let tag = cur.read_tag(VARIANT_TAG_WIDTH)?;
        let v = match variant_version_of_tag(tag.as_slice()) {
            Some(v) => v,
            None => return Err(MifError::UnsupportedVersion),
        };
        if v < 4 {
            let description = cur.read_string()?;
            let name = cur.read_string()?;
            let entry_date = cur.read_string()?;
            let dn = cur.read_string()?;
            let dt = cur.read_string()?;
            let (print_type, factory_name, channel_count1, channel_count2) = read_descriptor_tail(cur, v)?;
            Ok(VariantDescriptor { version: v, name, description, entry_date,
                design_name: Some(dn), design_type: Some(dt), print_type, factory_name,
                channel_count1, channel_count2 })
        } else {
            let name = cur.read_string()?;
            let description = cur.read_string()?;
            let entry_date = cur.read_string()?;
            let (print_type, factory_name, channel_count1, channel_count2) = read_descriptor_tail(cur, v)?;
            Ok(VariantDescriptor { version: v, name, description, entry_date,
                design_name: None, design_type: None, print_type, factory_name,
                channel_count1, channel_count2 })
        }
    }
}

/// The number of entries that a stored 16-bit count announces; a negative
/// count announces none.
pub open spec fn count_of(n: i16) -> nat {
    if n < 0 { 0 } else { n as nat }
}

/// The abstract content of a channel specification.
pub struct ChannelSpecView {
    pub name: Seq<char>,
    pub visible: bool,
    pub opacity_bits: u32,
    pub color: ColorView,
}

/// How one channel of a variant is shown: its name, whether it is visible,
/// its opacity (a 32-bit float, kept as its bit pattern), and its colour.
pub struct ChannelSpec {
    pub name: String,
    pub visible: bool,
    pub opacity_bits: u32,
    pub color: ColorRecord,
}

impl View for ChannelSpec {
    type V = ChannelSpecView;

    open spec fn view(&self) -> ChannelSpecView {
        ChannelSpecView { name: self.name@, visible: self.visible, opacity_bits: self.opacity_bits, color: self.color@ }
    }
}

/// The abstract content of a list of channel specifications.
pub open spec fn specs_view(cs: Seq<ChannelSpec>) -> Seq<ChannelSpecView> {
    cs.map_values(|c: ChannelSpec| c@)
}

/// A channel specification: the name, a one-byte visibility flag, the
/// opacity, and a colour record.
#[verifier::opaque]
pub open spec fn parse_channel_spec(s: Seq<u8>) -> Result<(ChannelSpecView, Seq<u8>), MifError> {
    match parse_string(s) { Err(e) => Err(e), Ok((name, s)) =>
    match parse_bool(s) { Err(e) => Err(e), Ok((visible, s)) =>
    match parse_u32(s) { Err(e) => Err(e), Ok((opacity_bits, s)) =>
    match parse_color(s) { Err(e) => Err(e), Ok((color, s)) =>
        Ok((ChannelSpecView { name, visible, opacity_bits, color }, s))
    }}}}
}

/// `n` channel specifications in a row.
pub open spec fn parse_channel_specs(s: Seq<u8>, n: nat) -> Result<(Seq<ChannelSpecView>, Seq<u8>), MifError>
    decreases n,
{
    if n == 0 {
        Ok((Seq::empty(), s))
    } else {
        match parse_channel_spec(s) {
            Err(e) => Err(e),
            Ok((c, s1)) => match parse_channel_specs(s1, (n - 1) as nat) {
                Err(e) => Err(e),
                Ok((cs, s2)) => Ok((seq![c] + cs, s2)),
            },
        }
    }
}

/// A blob with a 32-bit length before it; a negative length is an `IoError`.
pub open spec fn parse_blob(s: Seq<u8>) -> Result<(Seq<u8>, Seq<u8>), MifError> {
    match parse_i32(s) {
        Err(e) => Err(e),
        Ok((n, s)) => if n < 0 { Err(MifError::IoError) } else { parse_bytes(s, n as nat) },
    }
}

/// The abstract content of the simulation properties.
pub struct SimulationView {
    pub tag: Seq<u8>,
    pub name: Seq<char>,
    pub fabric_name: Seq<char>,
    pub fabric_color: ColorView,
    pub linear: (i32, i32, i32),
    pub flags: (i32, i32),
    pub blocks: (Seq<u8>, Seq<u8>, Seq<u8>),
    pub size: i32,
}

/// The simulation properties of a variant of revision 2 or later: the
/// fabric that the design is printed on and how it is rendered.
pub struct SimulationBlock {
    pub tag: Vec<u8>,
    pub name: String,
    pub fabric_name: String,
    pub fabric_color: ColorRecord,
    pub linear: (i32, i32, i32),
    pub flags: (i32, i32),
    pub blocks: (Vec<u8>, Vec<u8>, Vec<u8>),
    pub size: i32,
}

impl View for SimulationBlock {
    type V = SimulationView;

    open spec fn view(&self) -> SimulationView {
        SimulationView {
            tag: self.tag@,
            name: self.name@,
            fabric_name: self.fabric_name@,
            fabric_color: self.fabric_color@,
            linear: self.linear,
            flags: self.flags,
            blocks: (self.blocks.0@, self.blocks.1@, self.blocks.2@),
            size: self.size,
        }
    }
}

/// The simulation properties: an 8-byte tag, the name, the fabric name,
/// the fabric colour, three 32-bit linear values, two 32-bit flags, three
/// 12-byte opaque blocks and a 32-bit size.
#[verifier::opaque]
pub open spec fn parse_simulation(s: Seq<u8>) -> Result<(SimulationView, Seq<u8>), MifError> {
    match parse_tag(s, 8) { Err(e) => Err(e), Ok((tag, s)) =>
    match parse_string(s) { Err(e) => Err(e), Ok((name, s)) =>
    match parse_string(s) { Err(e) => Err(e), Ok((fabric_name, s)) =>
    match parse_color(s) { Err(e) => Err(e), Ok((fabric_color, s)) =>
    match parse_i32(s) { Err(e) => Err(e), Ok((l1, s)) =>
    match parse_i32(s) { Err(e) => Err(e), Ok((l2, s)) =>
    match parse_i32(s) { Err(e) => Err(e), Ok((l3, s)) =>
    match parse_i32(s) { Err(e) => Err(e), Ok((f1, s)) =>
    match parse_i32(s) { Err(e) => Err(e), Ok((f2, s)) =>
    match parse_bytes(s, 12) { Err(e) => Err(e), Ok((b1, s)) =>
    match parse_bytes(s, 12) { Err(e) => Err(e), Ok((b2, s)) =>
    match parse_bytes(s, 12) { Err(e) => Err(e), Ok((b3, s)) =>
    match parse_i32(s) { Err(e) => Err(e), Ok((size, s)) =>
        Ok((SimulationView { tag, name, fabric_name, fabric_color, linear: (l1, l2, l3),
            flags: (f1, f2), blocks: (b1, b2, b3), size }, s))
    }}}}}}}}}}}}}
}

/// A parameter list: a 16-bit count and that many strings.
pub open spec fn parse_param_list(s: Seq<u8>) -> Result<(Seq<Seq<char>>, Seq<u8>), MifError> {
    match parse_i16(s) {
        Err(e) => Err(e),
        Ok((n, s)) => parse_strings(s, count_of(n)),
    }
}

/// The abstract content of a variant.
pub struct VariantView {
    pub descriptor: DescriptorView,
    pub channels: Seq<ChannelSpecView>,
    pub preview: Seq<u8>,
    pub simulation: Option<SimulationView>,
    pub parameters: Seq<Seq<char>>,
}

/// A colourway: its descriptor, its channel specifications, a preview
/// bitmap, simulation properties (from revision 2 on) and a parameter list
/// (revision 4 only).
pub struct Variant {
    pub descriptor: VariantDescriptor,
    pub channels: Vec<ChannelSpec>,
    pub preview: Vec<u8>,
    pub simulation: Option<SimulationBlock>,
    pub parameters: Vec<String>,
}

impl View for Variant {
    type V = VariantView;

    open spec fn view(&self) -> VariantView {
        VariantView {
            descriptor: self.descriptor@,
            channels: specs_view(self.channels@),
            preview: self.preview@,
            simulation: match self.simulation {
                Some(b) => Some(b@),
                None => None,
            },
            parameters: texts_view(self.parameters@),
        }
    }
}

/// What follows a descriptor of revision `v` with `n` channels.
pub open spec fn parse_variant_body(s: Seq<u8>, v: u8, n: nat) -> Result<((Seq<ChannelSpecView>, Seq<u8>, Option<SimulationView>, Seq<Seq<char>>), Seq<u8>), MifError> {
    match parse_channel_specs(s, n) { Err(e) => Err(e), Ok((cs, s)) =>
    match parse_blob(s) { Err(e) => Err(e), Ok((preview, s)) =>
    match (if v > 1 {
        match parse_simulation(s) { Err(e) => Err(e), Ok((b, s)) => Ok((Some(b), s)) }
    } else {
        Ok::<(Option<SimulationView>, Seq<u8>), MifError>((None, s))
    }) { Err(e) => Err(e), Ok((sim, s)) =>
    match (if v == 4 { parse_param_list(s) } else {
        Ok::<(Seq<Seq<char>>, Seq<u8>), MifError>((Seq::empty(), s))
    }) { Err(e) => Err(e), Ok((ps, s)) =>
        Ok(((cs, preview, sim, ps), s))
    }}}}
}

/// A whole variant: the descriptor and, for its first channel count, that
/// many channel specifications, then the rest of the body.
#[verifier::opaque]
pub open spec fn parse_variant(s: Seq<u8>) -> Result<(VariantView, Seq<u8>), MifError> {
    match parse_descriptor(s) {
        Err(e) => Err(e),
        Ok((d, s)) => match parse_variant_body(s, d.version, count_of(d.channel_count1)) {
            Err(e) => Err(e),
            Ok(((cs, preview, sim, ps), s)) => Ok((VariantView { descriptor: d, channels: cs,
                preview, simulation: sim, parameters: ps }, s)),
        },
    }
}

impl ChannelSpec {
    /// Reads one channel specification.
    pub fn read(cur: &mut ByteCursor) -> (r: Result<ChannelSpec, MifError>)
        ensures
            final(cur).bytes() == old(cur).bytes(),
            match parse_channel_spec(old(cur).rest()) {
                Ok((v, rest)) => r matches Ok(c) && c@ == v && final(cur).rest() == rest,
                Err(e) => r is Err && r->Err_0 == e,
            },
    {
        reveal(parse_channel_spec);
        let name = cur.read_string()?;
        let visible = cur.read_bool()?;
        let opacity_bits = cur.read_f32_bits()?;
        let color = ColorRecord::read(cur)?;
        Ok(ChannelSpec { name, visible, opacity_bits, color })
    }
}

fn read_channel_specs(cur: &mut ByteCursor, n: usize) -> (r: Result<Vec<ChannelSpec>, MifError>)
    ensures
        final(cur).bytes() == old(cur).bytes(),
        match parse_channel_specs(old(cur).rest(), n as nat) {
            Ok((v, rest)) => r matches Ok(cs) && specs_view(cs@) == v && final(cur).rest() == rest,
            Err(e) => r is Err && r->Err_0 == e,
        },
{
    let mut out: Vec<ChannelSpec> = Vec::new();
    let mut i: usize = 0;
    proof {
        if let Ok((v, rest)) = parse_channel_specs(cur.rest(), n as nat) {
            assert(specs_view(out@) + v =~= v);
        }
    }
    while i < n
        invariant
            i <= n,
            cur.bytes() == old(cur).bytes(),
            parse_channel_specs(old(cur).rest(), n as nat) == match parse_channel_specs(cur.rest(), (n - i) as nat) {
                Ok((v, rest)) => Ok((specs_view(out@) + v, rest)),
                Err(e) => Err::<(Seq<ChannelSpecView>, Seq<u8>), MifError>(e),
            },
        decreases n - i,
    {
        let ghost before = cur.rest();
        let c = ChannelSpec::read(cur)?;
        let ghost cv = c@;
        let ghost out0 = out@;
        out.push(c);
        i = i + 1;
        proof {
            assert(parse_channel_spec(before) == Ok::<(ChannelSpecView, Seq<u8>), MifError>((cv, cur.rest())));
            assert(specs_view(out@) =~= specs_view(out0).push(cv));
            if let Ok((v, rest)) = parse_channel_specs(cur.rest(), (n - i) as nat) {
                assert(specs_view(out@) + v =~= specs_view(out0) + (seq![cv] + v));
            }
        }
    }
    proof {
        assert(specs_view(out@) + Seq::<ChannelSpecView>::empty() =~= specs_view(out@));
    }
    Ok(out)
}

fn read_blob(cur: &mut ByteCursor) -> (r: Result<Vec<u8>, MifError>)
    ensures
        final(cur).bytes() == old(cur).bytes(),
        match parse_blob(old(cur).rest()) {
            Ok((v, rest)) => r matches Ok(b) && b@ == v && final(cur).rest() == rest,
            Err(e) => r is Err && r->Err_0 == e,
        },
{
    let n = cur.read_i32()?;
    if n < 0 {
        return Err(MifError::IoError);
    }
    cur.read_bytes(n as usize)
}

impl SimulationBlock {
    /// Reads the simulation properties.
    #[verifier::spinoff_prover]
    pub fn read(cur: &mut ByteCursor) -> (r: Result<SimulationBlock, MifError>)
        ensures
            final(cur).bytes() == old(cur).bytes(),
            match parse_simulation(old(cur).rest()) {
                Ok((v, rest)) => r matches Ok(b) && b@ == v && final(cur).rest() == rest,
                Err(e) => r is Err && r->Err_0 == e,
            },
    {
        reveal(parse_simulation);
        let tag = cur.read_tag(SIMULATION_TAG_WIDTH)?;
        let name = cur.read_string()?;
        let fabric_name = cur.read_string()?;
        let fabric_color = ColorRecord::read(cur)?;
        let l1 = cur.read_i32()?;
        let l2 = cur.read_i32()?;
        let l3 = cur.read_i32()?;
        let f1 = cur.read_i32()?;
        let f2 = cur.read_i32()?;
        let b1 = cur.read_bytes(OPAQUE_BLOCK_SIZE)?;
        let b2 = cur.read_bytes(OPAQUE_BLOCK_SIZE)?;
        let b3 = cur.read_bytes(OPAQUE_BLOCK_SIZE)?;
        let size = cur.read_i32()?;
        Ok(SimulationBlock { tag, name, fabric_name, fabric_color, linear: (l1, l2, l3),
            flags: (f1, f2), blocks: (b1, b2, b3), size })
    }
}

fn read_param_list(cur: &mut ByteCursor) -> (r: Result<Vec<String>, MifError>)
    ensures
        final(cur).bytes() == old(cur).bytes(),
        match parse_param_list(old(cur).rest()) {
            Ok((v, rest)) => r matches Ok(ps) && texts_view(ps@) == v && final(cur).rest() == rest,
            Err(e) => r is Err && r->Err_0 == e,
        },
{
    let n = cur.read_i16()?;
    let k: usize = if n < 0 { 0 } else { n as usize };
    read_strings(cur, k)
}

impl Variant {
    /// Reads a whole variant: its descriptor, then as many channel
    /// specifications as the first channel count says, the preview, and the
    /// parts that its revision has.
    #[verifier::spinoff_prover]
    pub fn read(cur: &mut ByteCursor) -> (r: Result<Variant, MifError>)
        ensures
            final(cur).bytes() == old(cur).bytes(),
            match parse_variant(old(cur).rest()) {
                Ok((v, rest)) => r matches Ok(x) && x@ == v && final(cur).rest() == rest,
                Err(e) => r is Err && r->Err_0 == e,
            },
    {
        reveal(parse_variant);
        let descriptor = VariantDescriptor::read(cur)?;
        let v = descriptor.version;
        let n: usize = if descriptor.channel_count1 < 0 { 0 } else { descriptor.channel_count1 as usize };
        let channels = read_channel_specs(cur, n)?;
        let preview = read_blob(cur)?;
        let simulation = if v > 1 { Some(SimulationBlock::read(cur)?) } else { None };
        let parameters = if v == 4 { read_param_list(cur)? } else { Vec::new() };
        proof {
            assert(texts_view(parameters@) =~= (if v == 4 { texts_view(parameters@) } else { Seq::empty() }));
        }
        Ok(Variant { descriptor, channels, preview, simulation, parameters })
    }
}

} // verus!
