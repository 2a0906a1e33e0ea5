//! Colour records: a stored colour and the RGB it is displayed as.
use vstd::prelude::*;
use crate::cursor::{ByteCursor, parse_tag, parse_u16, parse_i32, parse_string, tag_bytes, u16_bytes, i32_bytes, string_bytes, writable_text, same_bytes};
use crate::error::MifError;

verus! {

/// An 8-bit RGB triple.
#[derive(Clone, Copy, Debug, PartialEq, Eq, Structural)]
pub struct Rgb {
    pub r: u8,
    pub g: u8,
    pub b: u8,
}

/// The tag that opens every colour record, "COLR".
pub open spec fn color_tag() -> Seq<u8> {
    seq![0x43u8, 0x4Fu8, 0x4Cu8, 0x52u8]
}

/// The tag that opens every colour record.
pub fn color_tag_bytes() -> (r: Vec<u8>)
    ensures
        r@ == color_tag(),
{
    let r = vec![0x43u8, 0x4Fu8, 0x4Cu8, 0x52u8];
    proof {
        assert(r@ =~= color_tag());
    }
    r
}

/// The abstract content of a colour record.
pub struct ColorView {
    pub red: u16,
    pub green: u16,
    pub blue: u16,
    pub l: u16,
    pub a: u16,
    pub b: u16,
    pub color_type: i32,
    pub name: Seq<char>,
    pub description: Seq<char>,
    pub extra_datasize: i32,
}

/// A stored colour: a perceptual triple (`color_type` 0) or a direct RGB
/// triple (`color_type` 1), each component on 16 bits.
pub struct ColorRecord {
    pub red: u16,
    pub green: u16,
    pub blue: u16,
    pub l: u16,
    pub a: u16,
    pub b: u16,
    pub color_type: i32,
    pub name: String,
    pub description: String,
    pub extra_datasize: i32,
}

impl View for ColorRecord {
    type V = ColorView;

    open spec fn view(&self) -> ColorView {
        ColorView {
            red: self.red,
            green: self.green,
            blue: self.blue,
            l: self.l,
            a: self.a,
            b: self.b,
            color_type: self.color_type,
            name: self.name@,
            description: self.description@,
            extra_datasize: self.extra_datasize,
        }
    }
}

/// A colour record on disk: the tag, red, green, blue, l, a, b as 16-bit
/// values, the colour type as a 32-bit value, name, description, and the
/// size of extra data.
#[verifier::opaque]
pub open spec fn parse_color(s: Seq<u8>) -> Result<(ColorView, Seq<u8>), MifError> {
    match parse_tag(s, 4) {
        Err(e) => Err(e),
        Ok((tag, s)) => if tag != color_tag() {
            Err(MifError::TagMismatch)
        } else {
            match parse_u16(s) { Err(e) => Err(e), Ok((red, s)) =>
            match parse_u16(s) { Err(e) => Err(e), Ok((green, s)) =>
            match parse_u16(s) { Err(e) => Err(e), Ok((blue, s)) =>
            match parse_u16(s) { Err(e) => Err(e), Ok((l, s)) =>
            match parse_u16(s) { Err(e) => Err(e), Ok((a, s)) =>
            match parse_u16(s) { Err(e) => Err(e), Ok((b, s)) =>
            match parse_i32(s) { Err(e) => Err(e), Ok((color_type, s)) =>
            match parse_string(s) { Err(e) => Err(e), Ok((name, s)) =>
            match parse_string(s) { Err(e) => Err(e), Ok((description, s)) =>
            match parse_i32(s) { Err(e) => Err(e), Ok((extra_datasize, s)) =>
                Ok((ColorView { red, green, blue, l, a, b, color_type, name, description, extra_datasize }, s))
            }}}}}}}}}}
        },
    }
}

/// A colour record as written.
pub open spec fn color_bytes(c: ColorView) -> Seq<u8> {
    tag_bytes(color_tag(), 4) + u16_bytes(c.red) + u16_bytes(c.green) + u16_bytes(c.blue)
        + u16_bytes(c.l) + u16_bytes(c.a) + u16_bytes(c.b) + i32_bytes(c.color_type)
        + string_bytes(c.name) + string_bytes(c.description) + i32_bytes(c.extra_datasize)
}

/// `v` held to 0..=255.
pub open spec fn clamp_u8(v: int) -> u8 {
    if v < 0 { 0 } else if v > 255 { 255 } else { v as u8 }
}

/// The display colour of a perceptual triple. This is an approximation
/// kept for compatibility, not a colorimetric conversion: each component is
/// scaled to 0..=100; lightness gives a grey level, and the two opponent
/// components, centred on 50, shift red, green and blue from it.
pub open spec fn perceptual_rgb(l: u16, a: u16, b: u16) -> Rgb {
    let ls = l as int * 100 / 65535;
    let as_ = a as int * 100 / 65535;
    let bs = b as int * 100 / 65535;
    let grey = ls * 255 / 100;
    Rgb {
        r: clamp_u8(grey + as_ - 50),
        g: clamp_u8(grey + 50 - (as_ + bs) / 2),
        b: clamp_u8(grey + 50 - bs),
    }
}

/// The colour a record is displayed as: the high bytes of red, green and
/// blue for a direct RGB record, the approximation above for a perceptual
/// one, and black for any other type.
pub open spec fn display_of(c: ColorView) -> Rgb {
    if c.color_type == 1 {
        Rgb { r: (c.red / 256) as u8, g: (c.green / 256) as u8, b: (c.blue / 256) as u8 }
    } else if c.color_type == 0 {
        perceptual_rgb(c.l, c.a, c.b)
    } else {
        Rgb { r: 0, g: 0, b: 0 }
    }
}

fn clamp_byte(v: i32) -> (r: u8)
    ensures
        r == clamp_u8(v as int),
{
    if v < 0 { 0 } else if v > 255 { 255 } else { v as u8 }
}

impl ColorRecord {
    /// Reads a colour record; a wrong tag is a `TagMismatch`.
    #[verifier::spinoff_prover]
    pub fn read(cur: &mut ByteCursor) -> (r: Result<ColorRecord, MifError>)
        ensures
            final(cur).bytes() == old(cur).bytes(),
            match parse_color(old(cur).rest()) {
                Ok((v, rest)) => r matches Ok(c) && c@ == v && final(cur).rest() == rest,
                Err(e) => r is Err && r->Err_0 == e,
            },
    {
        reveal(parse_color);
        let tag = cur.read_tag(4)?;
        let expected = color_tag_bytes();
        if !same_bytes(tag.as_slice(), expected.as_slice()) {
            return Err(MifError::TagMismatch);
        }
        let red = cur.read_u16()?;
        let green = cur.read_u16()?;
        let blue = cur.read_u16()?;
        let l = cur.read_u16()?;
        let a = cur.read_u16()?;
        let b = cur.read_u16()?;
        let color_type = cur.read_i32()?;
        let name = cur.read_string()?;
        let description = cur.read_string()?;
        let extra_datasize = cur.read_i32()?;
        Ok(ColorRecord { red, green, blue, l, a, b, color_type, name, description, extra_datasize })
    }

    /// Appends the record; a name or description too long for its 16-bit
    /// count is refused, and the bytes written up to it stay.
    #[verifier::spinoff_prover]
    pub fn write(&self, cur: &mut ByteCursor) -> (r: Result<(), MifError>)
        ensures
            writable_text(self.name@) && writable_text(self.description@) ==> r is Ok
                && final(cur).bytes() == old(cur).bytes() + color_bytes(self@),
            !(writable_text(self.name@) && writable_text(self.description@)) ==> r
                == Err::<(), MifError>(MifError::IoError),
    {
        let tag = color_tag_bytes();
        cur.write_tag(tag.as_slice(), 4);
        cur.write_u16(self.red);
        cur.write_u16(self.green);
        cur.write_u16(self.blue);
        cur.write_u16(self.l);
        cur.write_u16(self.a);
        cur.write_u16(self.b);
        cur.write_i32(self.color_type);
        cur.write_string(self.name.as_str())?;
        cur.write_string(self.description.as_str())?;
        cur.write_i32(self.extra_datasize);
        proof {
            assert(cur.bytes() =~= old(cur).bytes() + color_bytes(self@));
        }
        Ok(())
    }

    /// A copy of the record.
    pub fn copied(&self) -> (r: ColorRecord)
        ensures
            r@ == self@,
    {
        ColorRecord {
            red: self.red,
            green: self.green,
            blue: self.blue,
            l: self.l,
            a: self.a,
            b: self.b,
            color_type: self.color_type,
            name: self.name.clone(),
            description: self.description.clone(),
            extra_datasize: self.extra_datasize,
        }
    }

    /// The colour this record is displayed as.
    pub fn display_rgb(&self) -> (r: Rgb)
        ensures
            r == display_of(self@),
    {
        if self.color_type == 1 {
            Rgb { r: (self.red / 256) as u8, g: (self.green / 256) as u8, b: (self.blue / 256) as u8 }
        } else if self.color_type == 0 {
            let ls: i32 = (self.l as u32 * 100 / 65535) as i32;
            let as_: i32 = (self.a as u32 * 100 / 65535) as i32;
            let bs: i32 = (self.b as u32 * 100 / 65535) as i32;
            assert(ls <= 100) by (nonlinear_arith)
                requires ls == self.l as int * 100 / 65535, self.l <= 65535;
            assert(as_ <= 100) by (nonlinear_arith)
                requires as_ == self.a as int * 100 / 65535, self.a <= 65535;
            assert(bs <= 100) by (nonlinear_arith)
                requires bs == self.b as int * 100 / 65535, self.b <= 65535;
            let grey: i32 = ls * 255 / 100;
            Rgb {
                r: clamp_byte(grey + as_ - 50),
                g: clamp_byte(grey + 50 - (as_ + bs) / 2),
                b: clamp_byte(grey + 50 - bs),
            }
        } else {
            Rgb { r: 0, g: 0, b: 0 }
        }
    }
}

} // verus!
