//! Length-prefixed text: UTF-8 where the bytes are valid UTF-8, otherwise a
//! legacy single-byte code page.
use vstd::prelude::*;
use vstd::utf8::{valid_utf8, decode_utf8};
use crate::cursor::trim_zeros;

verus! {

/// The legacy code page: the Windows-1252 characters of 0x80..=0x9F, and
/// every other byte (the five that the code page leaves undefined included)
/// as the character of the same number.
pub open spec fn legacy_char(b: u8) -> char {
    match b {
        0x80u8 => '\u{20AC}',
        0x82u8 => '\u{201A}',
        0x83u8 => '\u{0192}',
        0x84u8 => '\u{201E}',
        0x85u8 => '\u{2026}',
        0x86u8 => '\u{2020}',
        0x87u8 => '\u{2021}',
        0x88u8 => '\u{02C6}',
        0x89u8 => '\u{2030}',
        0x8Au8 => '\u{0160}',
        0x8Bu8 => '\u{2039}',
        0x8Cu8 => '\u{0152}',
        0x8Eu8 => '\u{017D}',
        0x91u8 => '\u{2018}',
        0x92u8 => '\u{2019}',
        0x93u8 => '\u{201C}',
        0x94u8 => '\u{201D}',
        0x95u8 => '\u{2022}',
        0x96u8 => '\u{2013}',
        0x97u8 => '\u{2014}',
        0x98u8 => '\u{02DC}',
        0x99u8 => '\u{2122}',
        0x9Au8 => '\u{0161}',
        0x9Bu8 => '\u{203A}',
        0x9Cu8 => '\u{0153}',
        0x9Eu8 => '\u{017E}',
        0x9Fu8 => '\u{0178}',
        _ => b as char,
    }
}

/// The text that stored bytes stand for: the trailing NUL bytes are dropped,
/// and what is left is read as UTF-8 where it is valid UTF-8 and through the
/// legacy code page where it is not. (A NUL character is encoded by a zero
/// byte alone in both, so this is decoding first and trimming NULs after.)
pub open spec fn decode_text(b: Seq<u8>) -> Seq<char> {
    let t = trim_zeros(b);
    if valid_utf8(t) {
        decode_utf8(t)
    } else {
        t.map_values(|x: u8| legacy_char(x))
    }
}

/// Relies on `String::from_utf8`: the bytes are taken as a `String` exactly
/// when they are valid UTF-8.
#[verifier::external_body]
fn utf8_string(b: Vec<u8>) -> (r: Option<String>)
    ensures
        r is Some <==> valid_utf8(b@),
        r matches Some(s) ==> s@ == decode_utf8(b@),
{
    String::from_utf8(b).ok()
}

/// Relies on `String::push`: appends one character.
#[verifier::external_body]
fn push_char(s: &mut String, c: char)
    ensures
        final(s)@ == old(s)@.push(c),
{
    s.push(c)
}

/// One byte through the legacy code page.
pub fn legacy_char_of(b: u8) -> (c: char)
    ensures
        c == legacy_char(b),
{
    match b {
        0x80u8 => '\u{20AC}',
        0x82u8 => '\u{201A}',
        0x83u8 => '\u{0192}',
        0x84u8 => '\u{201E}',
        0x85u8 => '\u{2026}',
        0x86u8 => '\u{2020}',
        0x87u8 => '\u{2021}',
        0x88u8 => '\u{02C6}',
        0x89u8 => '\u{2030}',
        0x8Au8 => '\u{0160}',
        0x8Bu8 => '\u{2039}',
        0x8Cu8 => '\u{0152}',
        0x8Eu8 => '\u{017D}',
        0x91u8 => '\u{2018}',
        0x92u8 => '\u{2019}',
        0x93u8 => '\u{201C}',
        0x94u8 => '\u{201D}',
        0x95u8 => '\u{2022}',
        0x96u8 => '\u{2013}',
        0x97u8 => '\u{2014}',
        0x98u8 => '\u{02DC}',
        0x99u8 => '\u{2122}',
        0x9Au8 => '\u{0161}',
        0x9Bu8 => '\u{203A}',
        0x9Cu8 => '\u{0153}',
        0x9Eu8 => '\u{017E}',
        0x9Fu8 => '\u{0178}',
        _ => b as char,
    }
}

/// The number of bytes of `b` before its trailing zero bytes.
pub fn trimmed_len(b: &[u8]) -> (n: usize)
    ensures
        n <= b@.len(),
        b@.take(n as int) == trim_zeros(b@),
{
    let mut n: usize = b.len();
    proof {
        assert(b@.take(n as int) =~= b@);
    }
    while n > 0 && b[n - 1] == 0
        invariant
            n <= b@.len(),
            trim_zeros(b@.take(n as int)) == trim_zeros(b@),
        decreases n,
    {
        proof {
            assert(b@.take(n as int).drop_last() =~= b@.take(n - 1));
        }
        n = n - 1;
    }
    n
}

/// Decodes stored text bytes.
pub fn decode_text_bytes(b: &[u8]) -> (r: String)
    ensures
        r@ == decode_text(b@),
{
    let n = trimmed_len(b);
    let mut t: Vec<u8> = Vec::new();
    let mut i: usize = 0;
    while i < n
        invariant
            n <= b@.len(),
            i <= n,
            t@ == b@.take(i as int),
        decreases n - i,
    {
        t.push(b[i]);
        i = i + 1;
        proof {
            assert(t@ =~= b@.take(i as int));
        }
    }
    let ghost tv = t@;
    match utf8_string(t.clone()) {
        Some(s) => s,
        None => {
            let mut s = String::new();
            let mut j: usize = 0;
            while j < t.len()
                invariant
                    t@ == tv,
                    j <= t@.len(),
                    s@ == t@.take(j as int).map_values(|x: u8| legacy_char(x)),
                decreases t@.len() - j,
            {
                let c = legacy_char_of(t[j]);
                push_char(&mut s, c);
                j = j + 1;
                proof {
                    assert(s@ =~= t@.take(j as int).map_values(|x: u8| legacy_char(x)));
                }
            }
            proof {
                assert(t@.take(j as int) =~= t@);
            }
            s
        },
    }
}

} // verus!
