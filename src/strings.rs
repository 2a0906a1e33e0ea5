//! Counted lists of length-prefixed strings.
use vstd::prelude::*;
use crate::cursor::{ByteCursor, parse_string, string_bytes, writable_text};
use crate::error::MifError;

verus! {

/// The abstract content of a list of strings.
pub open spec fn texts_view(ts: Seq<String>) -> Seq<Seq<char>> {
    ts.map_values(|t: String| t@)
}

/// `n` strings in a row.
pub open spec fn parse_strings(s: Seq<u8>, n: nat) -> Result<(Seq<Seq<char>>, Seq<u8>), MifError>
    decreases n,
{
    if n == 0 {
        Ok((Seq::empty(), s))
    } else {
        match parse_string(s) {
            Err(e) => Err(e),
            Ok((t, s1)) => match parse_strings(s1, (n - 1) as nat) {
                Err(e) => Err(e),
                Ok((ts, s2)) => Ok((seq![t] + ts, s2)),
            },
        }
    }
}

/// Strings as written, one after another.
pub open spec fn strings_bytes(ts: Seq<Seq<char>>) -> Seq<u8>
    decreases ts.len(),
{
    if ts.len() == 0 {
        Seq::empty()
    } else {
        strings_bytes(ts.drop_last()) + string_bytes(ts.last())
    }
}

/// Every string of the list can be framed by a 16-bit count.
pub open spec fn all_writable(ts: Seq<Seq<char>>) -> bool {
    forall|i: int| 0 <= i < ts.len() ==> writable_text(#[trigger] ts[i])
}

/// Reads `n` strings.
pub fn read_strings(cur: &mut ByteCursor, n: usize) -> (r: Result<Vec<String>, MifError>)
    ensures
        final(cur).bytes() == old(cur).bytes(),
        match parse_strings(old(cur).rest(), n as nat) {
            Ok((v, rest)) => r matches Ok(ts) && texts_view(ts@) == v && final(cur).rest() == rest,
            Err(e) => r is Err && r->Err_0 == e,
        },
{
    let mut out: Vec<String> = Vec::new();
    let mut i: usize = 0;
    proof {
        if let Ok((v, rest)) = parse_strings(cur.rest(), n as nat) {
            assert(texts_view(out@) + v =~= v);
        }
    }
    while i < n
        invariant
            i <= n,
            cur.bytes() == old(cur).bytes(),
            parse_strings(old(cur).rest(), n as nat) == match parse_strings(cur.rest(), (n - i) as nat) {
                Ok((v, rest)) => Ok((texts_view(out@) + v, rest)),
                Err(e) => Err::<(Seq<Seq<char>>, Seq<u8>), MifError>(e),
            },
        decreases n - i,
    {
        let ghost before = cur.rest();
        let t = cur.read_string()?;
        let ghost out0 = out@;
        out.push(t);
        i = i + 1;
        proof {
            assert(parse_string(before) == Ok::<(Seq<char>, Seq<u8>), MifError>((t@, cur.rest())));
            assert(texts_view(out@) =~= texts_view(out0).push(t@));
            if let Ok((v, rest)) = parse_strings(cur.rest(), (n - i) as nat) {
                assert(texts_view(out@) + v =~= texts_view(out0) + (seq![t@] + v));
            }
        }
    }
    proof {
        assert(texts_view(out@) + Seq::<Seq<char>>::empty() =~= texts_view(out@));
    }
    Ok(out)
}

/// Appends strings one after another; the first that is too long for its
/// 16-bit count stops the writing with an error.
pub fn write_strings(cur: &mut ByteCursor, ts: &Vec<String>) -> (r: Result<(), MifError>)
    ensures
        all_writable(texts_view(ts@)) ==> r is Ok && final(cur).bytes() == old(cur).bytes()
            + strings_bytes(texts_view(ts@)),
        !all_writable(texts_view(ts@)) ==> r == Err::<(), MifError>(MifError::IoError),
{
    let mut i: usize = 0;
    proof {
        assert(cur.bytes() =~= old(cur).bytes() + strings_bytes(texts_view(ts@.take(0))));
    }
    while i < ts.len()
        invariant
            i <= ts@.len(),
            all_writable(texts_view(ts@.take(i as int))),
            cur.bytes() == old(cur).bytes() + strings_bytes(texts_view(ts@.take(i as int))),
        decreases ts@.len() - i,
    {
        let r = cur.write_string(ts[i].as_str());
        if r.is_err() {
            proof {
                assert(!writable_text(texts_view(ts@)[i as int]));
            }
            return Err(MifError::IoError);
        }
        i = i + 1;
        proof {
            let v = texts_view(ts@.take(i as int));
            assert(v.drop_last() =~= texts_view(ts@.take(i - 1)));
            assert(v.last() == ts@[i - 1]@);
            assert(cur.bytes() =~= old(cur).bytes() + strings_bytes(v));
            assert forall|j: int| 0 <= j < v.len() implies writable_text(#[trigger] v[j]) by {
                if j < i - 1 {
                    assert(v[j] == texts_view(ts@.take(i - 1))[j]);
                }
            }
        }
    }
    proof {
        assert(ts@.take(i as int) =~= ts@);
    }
    Ok(())
}

/// A string that can be framed, written, is read back with the bytes after
/// it left as they were.
pub proof fn lemma_string_round_trip(t: Seq<char>, rest: Seq<u8>)
    requires
        writable_text(t),
    ensures
        parse_string(string_bytes(t) + rest) is Ok,
        parse_string(string_bytes(t) + rest)->Ok_0.1 == rest,
{
    let b = vstd::utf8::encode_utf8(t);
    let s = string_bytes(t) + rest;
    let s1 = b + rest;
    assert(s =~= crate::cursor::u16_bytes(b.len() as u16) + s1);
    crate::cursor::lemma_u16_round_trip(b.len() as u16, s1);
    assert(s1.skip(b.len() as int) =~= rest);
}

/// The bytes of a non-empty list split after its first string.
proof fn lemma_strings_front(ts: Seq<Seq<char>>)
    requires
        ts.len() > 0,
    ensures
        strings_bytes(ts) == string_bytes(ts[0]) + strings_bytes(ts.skip(1)),
    decreases ts.len(),
{
    if ts.len() == 1 {
        assert(ts.drop_last() =~= Seq::<Seq<char>>::empty());
        assert(ts.skip(1) =~= Seq::<Seq<char>>::empty());
        assert(strings_bytes(ts) =~= string_bytes(ts[0]) + strings_bytes(ts.skip(1)));
    } else {
        lemma_strings_front(ts.drop_last());
        assert(ts.drop_last().skip(1) =~= ts.skip(1).drop_last());
        assert(ts.drop_last()[0] == ts[0]);
        assert(ts.skip(1).last() == ts.last());
        assert(strings_bytes(ts) =~= string_bytes(ts[0]) + strings_bytes(ts.skip(1)));
    }
}

/// Framable strings, written, are read back as as many strings, with the
/// bytes after them left as they were.
pub proof fn lemma_strings_round_trip(ts: Seq<Seq<char>>, rest: Seq<u8>)
    requires
        all_writable(ts),
    ensures
        parse_strings(strings_bytes(ts) + rest, ts.len()) is Ok,
        parse_strings(strings_bytes(ts) + rest, ts.len())->Ok_0.0.len() == ts.len(),
        parse_strings(strings_bytes(ts) + rest, ts.len())->Ok_0.1 == rest,
    decreases ts.len(),
{
    if ts.len() == 0 {
        assert(strings_bytes(ts) + rest =~= rest);
    } else {
        lemma_strings_front(ts);
        let tail = ts.skip(1);
        assert(all_writable(tail)) by {
            assert forall|i: int| 0 <= i < tail.len() implies writable_text(#[trigger] tail[i]) by {
                assert(tail[i] == ts[i + 1]);
            }
        }
        assert(writable_text(ts[0]));
        lemma_strings_round_trip(tail, rest);
        let s1 = strings_bytes(tail) + rest;
        assert(strings_bytes(ts) + rest =~= string_bytes(ts[0]) + s1);
        lemma_string_round_trip(ts[0], s1);
    }
}

} // verus!
