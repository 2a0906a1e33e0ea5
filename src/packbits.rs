//! PackBits run-length decoding of single scanlines.
use vstd::prelude::*;
use crate::error::MifError;

verus! {

/// `n` copies of `b`.
pub open spec fn repeat_byte(b: u8, n: nat) -> Seq<u8> {
    Seq::new(n, |i: int| b)
}

/// The decoded form of `s`, or `None` where a run overruns the input.
///
/// Each control byte `c`, read as a signed byte, is followed by `c + 1`
/// literal bytes when `c >= 0`; stands alone when it is -128; and is
/// followed by one byte to be repeated `1 - c` times otherwise.
pub open spec fn unpack(s: Seq<u8>) -> Option<Seq<u8>>
    decreases s.len(),
{
    if s.len() == 0 {
        Some(Seq::empty())
    } else if s[0] < 128 {
        let n = s[0] as int + 1;
        if s.len() < 1 + n {
            None
        } else {
            match unpack(s.skip(1 + n)) {
                Some(t) => Some(s.subrange(1, 1 + n) + t),
                None => None,
            }
        }
    } else if s[0] == 128 {
        unpack(s.skip(1))
    } else if s.len() < 2 {
        None
    } else {
        match unpack(s.skip(2)) {
            Some(t) => Some(repeat_byte(s[1], (257 - s[0]) as nat) + t),
            None => None,
        }
    }
}

/// Decodes one PackBits-coded scanline.
pub fn decompress(s: &[u8]) -> (r: Result<Vec<u8>, MifError>)
    ensures
        match unpack(s@) {
            Some(t) => r matches Ok(v) && v@ == t,
            None => r == Err::<Vec<u8>, MifError>(MifError::CorruptData),
        },
{
    let mut out: Vec<u8> = Vec::new();
    let mut i: usize = 0;
    proof {
        assert(s@.skip(0) =~= s@);
        assert(out@ + unpack(s@)->Some_0 =~= unpack(s@)->Some_0);
    }
    while i < s.len()
        invariant
            i <= s@.len(),
            unpack(s@) == match unpack(s@.skip(i as int)) {
                Some(t) => Some(out@ + t),
                None => None::<Seq<u8>>,
            },
        decreases s@.len() - i,
    {
        let c = s[i];
        let ghost tail = s@.skip(i as int);
        if c < 128 {
            let n: usize = c as usize + 1;
            if s.len() - i - 1 < n {
                return Err(MifError::CorruptData);
            }
            let mut k: usize = 0;
            let ghost out0 = out@;
            while k < n
                invariant
                    i + 1 + n <= s.len(),
                    k <= n,
                    out@ == out0 + s@.subrange(i + 1, i + 1 + k),
                decreases n - k,
            {
                out.push(s[i + 1 + k]);
                k = k + 1;
                proof {
                    assert(out@ =~= out0 + s@.subrange(i + 1, i + 1 + k));
                }
            }
            proof {
                assert(tail.skip(1 + n) =~= s@.skip(i + 1 + n));
                assert(tail.subrange(1, 1 + n) =~= s@.subrange(i + 1, i + 1 + n));
                if let Some(t) = unpack(s@.skip(i + 1 + n)) {
                    assert(out0 + (s@.subrange(i + 1, i + 1 + n) + t) =~= out@ + t);
                }
            }
            i = i + 1 + n;
        } else if c == 128 {
            proof {
                assert(tail.skip(1) =~= s@.skip(i + 1));
            }
            i = i + 1;
        } else {
            if s.len() - i < 2 {
                return Err(MifError::CorruptData);
            }
            let b = s[i + 1];
            let n: usize = 257 - c as usize;
            let mut k: usize = 0;
            let ghost out0 = out@;
            while k < n
                invariant
                    k <= n,
                    out@ == out0 + repeat_byte(b, k as nat),
                decreases n - k,
            {
                out.push(b);
                k = k + 1;
                proof {
                    assert(out@ =~= out0 + repeat_byte(b, k as nat));
                }
            }
            proof {
                assert(tail.skip(2) =~= s@.skip(i + 2));
                if let Some(t) = unpack(s@.skip(i + 2)) {
                    assert(out0 + (repeat_byte(b, n as nat) + t) =~= out@ + t);
                }
            }
            i = i + 2;
        }
    }
    proof {
        assert(s@.skip(i as int) =~= Seq::<u8>::empty());
        assert(out@ + Seq::<u8>::empty() =~= out@);
    }
    Ok(out)
}

} // verus!
