//! Little-endian byte cursor: typed reads from a byte store with a position,
//! and typed writes that append to it.
//!
//! Each read is specified by a parser over the bytes that remain after the
//! position: the parser gives the value and the bytes left after it, or the
//! error. Each write is specified by the bytes it appends.
use vstd::prelude::*;
use vstd::utf8::encode_utf8;
use vstd::string::StringSliceAdditionalSpecFns;
use crate::error::MifError;
use crate::text::{decode_text, decode_text_bytes, trimmed_len};

verus! {

/// Little-endian value of two bytes.
pub open spec fn le16(b0: u8, b1: u8) -> nat {
    b0 as nat + 256 * (b1 as nat)
}

/// Little-endian value of the first four bytes of `s`.
pub open spec fn le32(s: Seq<u8>) -> nat {
    s[0] as nat + 256 * (s[1] as nat) + 65536 * (s[2] as nat) + 16777216 * (s[3] as nat)
}

/// Two's complement reading of a 16-bit pattern.
pub open spec fn signed16(u: nat) -> int {
    if u >= 32768 { u - 65536 } else { u as int }
}

/// Two's complement reading of a 32-bit pattern.
pub open spec fn signed32(u: nat) -> int {
    if u >= 0x8000_0000 { u - 0x1_0000_0000 } else { u as int }
}

pub open spec fn parse_u8(s: Seq<u8>) -> Result<(u8, Seq<u8>), MifError> {
    if s.len() < 1 { Err(MifError::IoError) } else { Ok((s[0], s.skip(1))) }
}

pub open spec fn parse_i8(s: Seq<u8>) -> Result<(i8, Seq<u8>), MifError> {
    if s.len() < 1 {
        Err(MifError::IoError)
    } else {
        Ok((if s[0] >= 128 { (s[0] - 256) as i8 } else { s[0] as i8 }, s.skip(1)))
    }
}

/// A single byte, nonzero meaning true.
pub open spec fn parse_bool(s: Seq<u8>) -> Result<(bool, Seq<u8>), MifError> {
    if s.len() < 1 { Err(MifError::IoError) } else { Ok((s[0] != 0, s.skip(1))) }
}

pub open spec fn parse_u16(s: Seq<u8>) -> Result<(u16, Seq<u8>), MifError> {
    if s.len() < 2 { Err(MifError::IoError) } else { Ok((le16(s[0], s[1]) as u16, s.skip(2))) }
}

pub open spec fn parse_i16(s: Seq<u8>) -> Result<(i16, Seq<u8>), MifError> {
    if s.len() < 2 {
        Err(MifError::IoError)
    } else {
        Ok((signed16(le16(s[0], s[1])) as i16, s.skip(2)))
    }
}

pub open spec fn parse_u32(s: Seq<u8>) -> Result<(u32, Seq<u8>), MifError> {
    if s.len() < 4 { Err(MifError::IoError) } else { Ok((le32(s) as u32, s.skip(4))) }
}

pub open spec fn parse_i32(s: Seq<u8>) -> Result<(i32, Seq<u8>), MifError> {
    if s.len() < 4 { Err(MifError::IoError) } else { Ok((signed32(le32(s)) as i32, s.skip(4))) }
}

/// The next `n` bytes, as they stand.
pub open spec fn parse_bytes(s: Seq<u8>, n: nat) -> Result<(Seq<u8>, Seq<u8>), MifError> {
    if s.len() < n { Err(MifError::IoError) } else { Ok((s.take(n as int), s.skip(n as int))) }
}

/// `s` without its trailing zero bytes.
pub open spec fn trim_zeros(s: Seq<u8>) -> Seq<u8>
    decreases s.len(),
{
    if s.len() > 0 && s.last() == 0 { trim_zeros(s.drop_last()) } else { s }
}

/// A fixed-width tag: `w` bytes with the NUL padding at the end removed.
pub open spec fn parse_tag(s: Seq<u8>, w: nat) -> Result<(Seq<u8>, Seq<u8>), MifError> {
    match parse_bytes(s, w) {
        Ok((b, rest)) => Ok((trim_zeros(b), rest)),
        Err(e) => Err(e),
    }
}

pub open spec fn u16_bytes(v: u16) -> Seq<u8> {
    seq![(v % 256) as u8, (v / 256) as u8]
}

/// The 16-bit pattern of a signed value.
pub open spec fn unsigned16(v: i16) -> u16 {
    if v < 0 { (v + 65536) as u16 } else { v as u16 }
}

/// The 8-bit pattern of a signed value.
pub open spec fn unsigned8(v: i8) -> u8 {
    if v < 0 { (v + 256) as u8 } else { v as u8 }
}

pub open spec fn i16_bytes(v: i16) -> Seq<u8> {
    u16_bytes(unsigned16(v))
}

pub open spec fn u32_bytes(v: u32) -> Seq<u8> {
    seq![(v % 256) as u8, ((v / 256) % 256) as u8, ((v / 65536) % 256) as u8, (v / 16777216) as u8]
}

/// The 32-bit pattern of a signed value.
pub open spec fn unsigned32(v: i32) -> u32 {
    if v < 0 { (v + 0x1_0000_0000) as u32 } else { v as u32 }
}

pub open spec fn i32_bytes(v: i32) -> Seq<u8> {
    u32_bytes(unsigned32(v))
}

/// `n` zero bytes.
pub open spec fn zeros(n: nat) -> Seq<u8> {
    Seq::new(n, |i: int| 0u8)
}

/// A tag of at most `w` bytes, NUL-padded to `w`.
pub open spec fn tag_bytes(t: Seq<u8>, w: nat) -> Seq<u8> {
    t + zeros((w - t.len()) as nat)
}

/// A length-prefixed string: a 16-bit byte count, then the bytes, decoded
/// as `decode_text` says.
pub open spec fn parse_string(s: Seq<u8>) -> Result<(Seq<char>, Seq<u8>), MifError> {
    match parse_u16(s) {
        Ok((n, r1)) => match parse_bytes(r1, n as nat) {
            Ok((b, r2)) => Ok((decode_text(b), r2)),
            Err(e) => Err(e),
        },
        Err(e) => Err(e),
    }
}

/// A string as written: its UTF-8 byte count, then its UTF-8 bytes.
pub open spec fn string_bytes(t: Seq<char>) -> Seq<u8> {
    u16_bytes(encode_utf8(t).len() as u16) + encode_utf8(t)
}

/// A string that a 16-bit byte count can frame.
pub open spec fn writable_text(t: Seq<char>) -> bool {
    encode_utf8(t).len() <= 0xFFFF
}

/// A byte store with a read position.
pub struct ByteCursor {
    data: Vec<u8>,
    pos: usize,
}

impl ByteCursor {
    /// All bytes of the store.
    pub closed spec fn bytes(&self) -> Seq<u8> {
        self.data@
    }

    /// The read position.
    pub closed spec fn pos(&self) -> nat {
        self.pos as nat
    }

    /// The bytes from the read position on.
    pub open spec fn rest(&self) -> Seq<u8> {
        if self.pos() <= self.bytes().len() {
            self.bytes().skip(self.pos() as int)
        } else {
            Seq::empty()
        }
    }

    /// A cursor at the start of `data`.
    pub fn new(data: Vec<u8>) -> (r: ByteCursor)
        ensures
            r.bytes() == data@,
            r.pos() == 0,
    {
        ByteCursor { data, pos: 0 }
    }

    /// An empty store, ready to be written.
    pub fn empty() -> (r: ByteCursor)
        ensures
            r.bytes() == Seq::<u8>::empty(),
            r.pos() == 0,
    {
        ByteCursor { data: Vec::new(), pos: 0 }
    }

    /// The current read position.
    pub fn position(&self) -> (r: usize)
        ensures
            r == self.pos(),
    {
        self.pos
    }

    /// The number of bytes in the store.
    pub fn len(&self) -> (r: usize)
        ensures
            r == self.bytes().len(),
    {
        self.data.len()
    }

    /// The store's bytes.
    pub fn as_bytes(&self) -> (r: &Vec<u8>)
        ensures
            r@ == self.bytes(),
    {
        &self.data
    }

    /// Gives up the cursor and hands back its bytes.
    pub fn into_bytes(self) -> (r: Vec<u8>)
        ensures
            r@ == self.bytes(),
    {
        self.data
    }

    /// Puts the read position back to `to`, a position taken earlier with
    /// `position`. Unlike `seek` it does not look at the store: a position
    /// past the end only makes every later read fail.
    pub fn restore_position(&mut self, to: usize)
        ensures
            final(self).bytes() == old(self).bytes(),
            final(self).pos() == to,
    {
        self.pos = to;
    }

    /// Moves the read position to `to`; an offset past the end is refused.
    pub fn seek(&mut self, to: usize) -> (r: Result<(), MifError>)
        ensures
            final(self).bytes() == old(self).bytes(),
            to <= old(self).bytes().len() ==> r is Ok && final(self).pos() == to,
            to > old(self).bytes().len() ==> r == Err::<(), MifError>(MifError::IoError)
                && final(self).pos() == old(self).pos(),
    {
        if to <= self.data.len() {
            self.pos = to;
            Ok(())
        } else {
            Err(MifError::IoError)
        }
    }

    /// Reads one byte.
    pub fn read_u8(&mut self) -> (r: Result<u8, MifError>)
        ensures
            final(self).bytes() == old(self).bytes(),
            match parse_u8(old(self).rest()) {
                Ok((v, rest)) => r == Ok::<u8, MifError>(v) && final(self).rest() == rest
                    && final(self).pos() == old(self).pos() + 1,
                Err(e) => r == Err::<u8, MifError>(e) && final(self).pos() == old(self).pos(),
            },
    {
        if self.pos > self.data.len() {
            return Err(MifError::IoError);
        }
        if self.pos < self.data.len() {
            let v = self.data[self.pos];
            self.pos = self.pos + 1;
            proof {
                assert(self.rest() =~= old(self).rest().skip(1));
            }
            Ok(v)
        } else {
            Err(MifError::IoError)
        }
    }

    /// Reads the next `n` bytes.
    pub fn read_bytes(&mut self, n: usize) -> (r: Result<Vec<u8>, MifError>)
        ensures
            final(self).bytes() == old(self).bytes(),
            match parse_bytes(old(self).rest(), n as nat) {
                Ok((v, rest)) => r matches Ok(b) && b@ == v && final(self).rest() == rest
                    && final(self).pos() == old(self).pos() + n,
                Err(e) => r == Err::<Vec<u8>, MifError>(e) && final(self).pos() == old(self).pos(),
            },
    {
        if n == 0 {
            proof {
                assert(self.rest().skip(0) =~= self.rest());
            }
            return Ok(Vec::new());
        }
        if self.pos > self.data.len() {
            return Err(MifError::IoError);
        }
        if self.data.len() - self.pos >= n {
            let mut out: Vec<u8> = Vec::new();
            let mut i: usize = 0;
            while i < n
                invariant
                    self.pos + n <= self.data.len(),
                    i <= n,
                    self.data@ == old(self).bytes(),
                    self.pos == old(self).pos(),
                    out@ == self.data@.skip(self.pos as int).take(i as int),
                decreases n - i,
            {
                out.push(self.data[self.pos + i]);
                i = i + 1;
                proof {
                    assert(out@ =~= self.data@.skip(self.pos as int).take(i as int));
                }
            }
            self.pos = self.pos + n;
            proof {
                assert(self.rest() =~= old(self).rest().skip(n as int));
            }
            Ok(out)
        } else {
            Err(MifError::IoError)
        }
    }

    /// Skips the next `n` bytes.
    pub fn skip(&mut self, n: usize) -> (r: Result<(), MifError>)
        ensures
            final(self).bytes() == old(self).bytes(),
            match parse_bytes(old(self).rest(), n as nat) {
                Ok((v, rest)) => r is Ok && final(self).rest() == rest
                    && final(self).pos() == old(self).pos() + n,
                Err(e) => r == Err::<(), MifError>(e) && final(self).pos() == old(self).pos(),
            },
    {
        if n == 0 {
            proof {
                assert(self.rest().skip(0) =~= self.rest());
            }
            return Ok(());
        }
        if self.pos > self.data.len() {
            return Err(MifError::IoError);
        }
        if self.data.len() - self.pos >= n {
            self.pos = self.pos + n;
            proof {
                assert(self.rest() =~= old(self).rest().skip(n as int));
            }
            Ok(())
        } else {
            Err(MifError::IoError)
        }
    }

    /// Reads a signed byte.
    pub fn read_i8(&mut self) -> (r: Result<i8, MifError>)
        ensures
            final(self).bytes() == old(self).bytes(),
            match parse_i8(old(self).rest()) {
                Ok((v, rest)) => r == Ok::<i8, MifError>(v) && final(self).rest() == rest
                    && final(self).pos() == old(self).pos() + 1,
                Err(e) => r == Err::<i8, MifError>(e) && final(self).pos() == old(self).pos(),
            },
    {
        let b = self.read_u8()?;
        if b >= 128 {
            Ok((b as i16 - 256) as i8)
        } else {
            Ok(b as i8)
        }
    }

    /// Reads a byte as a flag: nonzero is true.
    pub fn read_bool(&mut self) -> (r: Result<bool, MifError>)
        ensures
            final(self).bytes() == old(self).bytes(),
            match parse_bool(old(self).rest()) {
                Ok((v, rest)) => r == Ok::<bool, MifError>(v) && final(self).rest() == rest
                    && final(self).pos() == old(self).pos() + 1,
                Err(e) => r == Err::<bool, MifError>(e) && final(self).pos() == old(self).pos(),
            },
    {
        let b = self.read_u8()?;
        Ok(b != 0)
    }

    /// Reads a little-endian unsigned 16-bit value.
    pub fn read_u16(&mut self) -> (r: Result<u16, MifError>)
        ensures
            final(self).bytes() == old(self).bytes(),
            match parse_u16(old(self).rest()) {
                Ok((v, rest)) => r == Ok::<u16, MifError>(v) && final(self).rest() == rest
                    && final(self).pos() == old(self).pos() + 2,
                Err(e) => r == Err::<u16, MifError>(e) && final(self).pos() == old(self).pos(),
            },
    {
        if self.pos > self.data.len() {
            return Err(MifError::IoError);
        }
        if self.data.len() - self.pos >= 2 {
            let b0 = self.data[self.pos];
            let b1 = self.data[self.pos + 1];
            self.pos = self.pos + 2;
            proof {
                assert(self.rest() =~= old(self).rest().skip(2));
            }
            Ok(b0 as u16 + 256 * (b1 as u16))
        } else {
            Err(MifError::IoError)
        }
    }

    /// Reads a little-endian signed 16-bit value.
    pub fn read_i16(&mut self) -> (r: Result<i16, MifError>)
        ensures
            final(self).bytes() == old(self).bytes(),
            match parse_i16(old(self).rest()) {
                Ok((v, rest)) => r == Ok::<i16, MifError>(v) && final(self).rest() == rest
                    && final(self).pos() == old(self).pos() + 2,
                Err(e) => r == Err::<i16, MifError>(e) && final(self).pos() == old(self).pos(),
            },
    {
        let u = self.read_u16()?;
        if u >= 32768 {
            Ok((u as i32 - 65536) as i16)
        } else {
            Ok(u as i16)
        }
    }

    /// Reads a little-endian unsigned 32-bit value.
    pub fn read_u32(&mut self) -> (r: Result<u32, MifError>)
        ensures
            final(self).bytes() == old(self).bytes(),
            match parse_u32(old(self).rest()) {
                Ok((v, rest)) => r == Ok::<u32, MifError>(v) && final(self).rest() == rest
                    && final(self).pos() == old(self).pos() + 4,
                Err(e) => r == Err::<u32, MifError>(e) && final(self).pos() == old(self).pos(),
            },
    {
        if self.pos > self.data.len() {
            return Err(MifError::IoError);
        }
        if self.data.len() - self.pos >= 4 {
            let b0 = self.data[self.pos] as u32;
            let b1 = self.data[self.pos + 1] as u32;
            let b2 = self.data[self.pos + 2] as u32;
            let b3 = self.data[self.pos + 3] as u32;
            self.pos = self.pos + 4;
            proof {
                assert(self.rest() =~= old(self).rest().skip(4));
            }
            Ok(b0 + 256 * b1 + 65536 * b2 + 16777216 * b3)
        } else {
            Err(MifError::IoError)
        }
    }

    /// Reads a little-endian signed 32-bit value.
    pub fn read_i32(&mut self) -> (r: Result<i32, MifError>)
        ensures
            final(self).bytes() == old(self).bytes(),
            match parse_i32(old(self).rest()) {
                Ok((v, rest)) => r == Ok::<i32, MifError>(v) && final(self).rest() == rest
                    && final(self).pos() == old(self).pos() + 4,
                Err(e) => r == Err::<i32, MifError>(e) && final(self).pos() == old(self).pos(),
            },
    {
        let u = self.read_u32()?;
        if u >= 0x8000_0000 {
            Ok((u as i64 - 0x1_0000_0000) as i32)
        } else {
            Ok(u as i32)
        }
    }

    /// Reads a 32-bit float, handed back as its IEEE-754 bit pattern.
    pub fn read_f32_bits(&mut self) -> (r: Result<u32, MifError>)
        ensures
            final(self).bytes() == old(self).bytes(),
            match parse_u32(old(self).rest()) {
                Ok((v, rest)) => r == Ok::<u32, MifError>(v) && final(self).rest() == rest
                    && final(self).pos() == old(self).pos() + 4,
                Err(e) => r == Err::<u32, MifError>(e) && final(self).pos() == old(self).pos(),
            },
    {
        self.read_u32()
    }

    /// Reads a tag of `w` bytes and drops its NUL padding.
    pub fn read_tag(&mut self, w: usize) -> (r: Result<Vec<u8>, MifError>)
        ensures
            final(self).bytes() == old(self).bytes(),
            match parse_tag(old(self).rest(), w as nat) {
                Ok((v, rest)) => r matches Ok(b) && b@ == v && final(self).rest() == rest
                    && final(self).pos() == old(self).pos() + w,
                Err(e) => r == Err::<Vec<u8>, MifError>(e) && final(self).pos() == old(self).pos(),
            },
    {
        let raw = self.read_bytes(w)?;
        let n = trimmed_len(raw.as_slice());
        let mut out: Vec<u8> = Vec::new();
        let mut i: usize = 0;
        while i < n
            invariant
                n <= raw@.len(),
                i <= n,
                out@ == raw@.take(i as int),
            decreases n - i,
        {
            out.push(raw[i]);
            i = i + 1;
            proof {
                assert(out@ =~= raw@.take(i as int));
            }
        }
        Ok(out)
    }

    /// Reads a length-prefixed string.
    pub fn read_string(&mut self) -> (r: Result<String, MifError>)
        ensures
            final(self).bytes() == old(self).bytes(),
            match parse_string(old(self).rest()) {
                Ok((v, rest)) => r matches Ok(t) && t@ == v && final(self).rest() == rest,
                Err(e) => r is Err && r->Err_0 == e,
            },
    {
        let n = self.read_u16()?;
        let raw = self.read_bytes(n as usize)?;
        Ok(decode_text_bytes(raw.as_slice()))
    }

    /// Appends one byte and moves the position to the end.
    fn put(&mut self, b: u8)
        ensures
            final(self).bytes() == old(self).bytes().push(b),
            final(self).pos() == final(self).bytes().len(),
    {
        self.data.push(b);
        self.pos = self.data.len();
    }

    /// Appends bytes as they stand.
    pub fn write_bytes(&mut self, b: &[u8])
        ensures
            final(self).bytes() == old(self).bytes() + b@,
            final(self).pos() == final(self).bytes().len(),
    {
        let mut i: usize = 0;
        self.pos = self.data.len();
        while i < b.len()
            invariant
                i <= b@.len(),
                self.data@ == old(self).bytes() + b@.take(i as int),
                self.pos == self.data.len(),
            decreases b@.len() - i,
        {
            self.put(b[i]);
            i = i + 1;
            proof {
                assert(self.data@ =~= old(self).bytes() + b@.take(i as int));
            }
        }
        proof {
            assert(b@.take(i as int) =~= b@);
        }
    }

    /// Appends the first `n` bytes of `b`.
    pub fn write_prefix(&mut self, b: &[u8], n: usize)
        requires
            n <= b@.len(),
        ensures
            final(self).bytes() == old(self).bytes() + b@.take(n as int),
            final(self).pos() == final(self).bytes().len(),
    {
        let mut i: usize = 0;
        self.pos = self.data.len();
        while i < n
            invariant
                n <= b@.len(),
                i <= n,
                self.data@ == old(self).bytes() + b@.take(i as int),
                self.pos == self.data.len(),
            decreases n - i,
        {
            self.put(b[i]);
            i = i + 1;
            proof {
                assert(self.data@ =~= old(self).bytes() + b@.take(i as int));
            }
        }
    }

    /// Appends `n` zero bytes.
    pub fn write_zeros(&mut self, n: usize)
        ensures
            final(self).bytes() == old(self).bytes() + zeros(n as nat),
            final(self).pos() == final(self).bytes().len(),
    {
        let mut i: usize = 0;
        self.pos = self.data.len();
        while i < n
            invariant
                i <= n,
                self.data@ == old(self).bytes() + zeros(i as nat),
                self.pos == self.data.len(),
            decreases n - i,
        {
            self.put(0);
            i = i + 1;
            proof {
                assert(self.data@ =~= old(self).bytes() + zeros(i as nat));
            }
        }
    }

    /// Appends a signed byte in two's complement.
    pub fn write_i8(&mut self, v: i8)
        ensures
            final(self).bytes() == old(self).bytes().push(unsigned8(v)),
            final(self).pos() == final(self).bytes().len(),
    {
        let u: u8 = if v < 0 { (v as i16 + 256) as u8 } else { v as u8 };
        self.put(u);
    }

    /// Appends one byte.
    pub fn write_u8(&mut self, v: u8)
        ensures
            final(self).bytes() == old(self).bytes().push(v),
            final(self).pos() == final(self).bytes().len(),
    {
        self.put(v);
    }

    /// Appends a flag as one byte, 1 for true.
    pub fn write_bool(&mut self, v: bool)
        ensures
            final(self).bytes() == old(self).bytes().push(if v { 1u8 } else { 0u8 }),
            final(self).pos() == final(self).bytes().len(),
    {
        self.put(if v { 1 } else { 0 });
    }

    /// Appends a little-endian unsigned 16-bit value.
    pub fn write_u16(&mut self, v: u16)
        ensures
            final(self).bytes() == old(self).bytes() + u16_bytes(v),
            final(self).pos() == final(self).bytes().len(),
    {
        self.put((v % 256) as u8);
        self.put((v / 256) as u8);
        proof {
            assert(self.bytes() =~= old(self).bytes() + u16_bytes(v));
        }
    }

    /// Appends a little-endian signed 16-bit value.
    pub fn write_i16(&mut self, v: i16)
        ensures
            final(self).bytes() == old(self).bytes() + i16_bytes(v),
            final(self).pos() == final(self).bytes().len(),
    {
        let u: u16 = if v < 0 { (v as i32 + 65536) as u16 } else { v as u16 };
        self.write_u16(u);
    }

    /// Appends a little-endian unsigned 32-bit value.
    pub fn write_u32(&mut self, v: u32)
        ensures
            final(self).bytes() == old(self).bytes() + u32_bytes(v),
            final(self).pos() == final(self).bytes().len(),
    {
        self.put((v % 256) as u8);
        self.put(((v / 256) % 256) as u8);
        self.put(((v / 65536) % 256) as u8);
        self.put((v / 16777216) as u8);
        proof {
            assert(self.bytes() =~= old(self).bytes() + u32_bytes(v));
        }
    }

    /// Appends a little-endian signed 32-bit value.
    pub fn write_i32(&mut self, v: i32)
        ensures
            final(self).bytes() == old(self).bytes() + i32_bytes(v),
            final(self).pos() == final(self).bytes().len(),
    {
        let u: u32 = if v < 0 { (v as i64 + 0x1_0000_0000) as u32 } else { v as u32 };
        self.write_u32(u);
    }

    /// Appends a 32-bit float given as its IEEE-754 bit pattern.
    pub fn write_f32_bits(&mut self, v: u32)
        ensures
            final(self).bytes() == old(self).bytes() + u32_bytes(v),
            final(self).pos() == final(self).bytes().len(),
    {
        self.write_u32(v);
    }

    /// Appends a tag NUL-padded to `w` bytes.
    pub fn write_tag(&mut self, t: &[u8], w: usize)
        requires
            t@.len() <= w,
        ensures
            final(self).bytes() == old(self).bytes() + tag_bytes(t@, w as nat),
            final(self).pos() == final(self).bytes().len(),
    {
        self.write_bytes(t);
        let mut i: usize = t.len();
        while i < w
            invariant
                t@.len() <= i <= w,
                self.bytes() == old(self).bytes() + t@ + zeros((i - t@.len()) as nat),
                self.pos() == self.bytes().len(),
            decreases w - i,
        {
            self.put(0);
            i = i + 1;
            proof {
                assert(self.bytes() =~= old(self).bytes() + t@ + zeros((i - t@.len()) as nat));
            }
        }
        proof {
            assert(self.bytes() =~= old(self).bytes() + tag_bytes(t@, w as nat));
        }
    }

    /// Appends a length-prefixed string; one whose UTF-8 form is longer
    /// than a 16-bit count can say is refused and nothing is written.
    pub fn write_string(&mut self, t: &str) -> (r: Result<(), MifError>)
        ensures
            writable_text(t@) ==> r is Ok && final(self).bytes() == old(self).bytes()
                + string_bytes(t@) && final(self).pos() == final(self).bytes().len(),
            !writable_text(t@) ==> r == Err::<(), MifError>(MifError::IoError)
                && *final(self) == *old(self),
    {
        let b = t.as_bytes();
        if b.len() > 0xFFFF {
            return Err(MifError::IoError);
        }
        self.write_u16(b.len() as u16);
        self.write_bytes(b);
        proof {
            assert(self.bytes() =~= old(self).bytes() + string_bytes(t@));
        }
        Ok(())
    }
}

} // verus!

verus! {

/// Whether two byte strings are equal.
pub fn same_bytes(a: &[u8], b: &[u8]) -> (r: bool)
    ensures
        r == (a@ == b@),
{
    if a.len() != b.len() {
        return false;
    }
    let mut i: usize = 0;
    while i < a.len()
        invariant
            a@.len() == b@.len(),
            i <= a@.len(),
            a@.take(i as int) == b@.take(i as int),
        decreases a@.len() - i,
    {
        if a[i] != b[i] {
            return false;
        }
        i = i + 1;
        proof {
            assert(a@.take(i as int) =~= a@.take(i - 1).push(a@[i - 1]));
            assert(b@.take(i as int) =~= b@.take(i - 1).push(b@[i - 1]));
        }
    }
    proof {
        assert(a@ =~= a@.take(i as int));
        assert(b@ =~= b@.take(i as int));
    }
    true
}

} // verus!

verus! {

/// A 16-bit value, written, reads back.
pub proof fn lemma_u16_round_trip(v: u16, rest: Seq<u8>)
    ensures
        parse_u16(u16_bytes(v) + rest) == Ok::<(u16, Seq<u8>), MifError>((v, rest)),
{
    let s = u16_bytes(v) + rest;
    assert(s.skip(2) =~= rest);
    assert(le16(s[0], s[1]) == v) by (nonlinear_arith)
        requires s[0] == (v % 256) as u8, s[1] == (v / 256) as u8, v <= 0xFFFF;
}

/// A signed 16-bit value, written, reads back.
pub proof fn lemma_i16_round_trip(v: i16, rest: Seq<u8>)
    ensures
        parse_i16(i16_bytes(v) + rest) == Ok::<(i16, Seq<u8>), MifError>((v, rest)),
{
    lemma_u16_round_trip(unsigned16(v), rest);
}

/// A 32-bit value, written, reads back.
pub proof fn lemma_u32_round_trip(v: u32, rest: Seq<u8>)
    ensures
        parse_u32(u32_bytes(v) + rest) == Ok::<(u32, Seq<u8>), MifError>((v, rest)),
{
    let s = u32_bytes(v) + rest;
    assert(s.skip(4) =~= rest);
    assert(le32(s) == v) by (nonlinear_arith)
        requires
            s[0] == (v % 256) as u8,
            s[1] == ((v / 256) % 256) as u8,
            s[2] == ((v / 65536) % 256) as u8,
            s[3] == (v / 16777216) as u8,
            v <= 0xFFFF_FFFF,
    {
        assert(v == v % 256 + 256 * ((v / 256) % 256) + 65536 * ((v / 65536) % 256)
            + 16777216 * (v / 16777216)) by (nonlinear_arith) requires v >= 0;
    }
}

/// A signed 32-bit value, written, reads back.
pub proof fn lemma_i32_round_trip(v: i32, rest: Seq<u8>)
    ensures
        parse_i32(i32_bytes(v) + rest) == Ok::<(i32, Seq<u8>), MifError>((v, rest)),
{
    lemma_u32_round_trip(unsigned32(v), rest);
}

} // verus!
