//! A whole design: the header and the variants that follow it.
use vstd::prelude::*;
use crate::cursor::ByteCursor;
use crate::header::{FormatHeader, HeaderView, parse_header};
use crate::variant::{Variant, VariantView, parse_variant, count_of};
use crate::error::MifError;

verus! {

/// The abstract content of a list of variants.
pub open spec fn variants_view(vs: Seq<Variant>) -> Seq<VariantView> {
    vs.map_values(|v: Variant| v@)
}

/// `n` variants in a row.
pub open spec fn parse_variants(s: Seq<u8>, n: nat) -> Result<(Seq<VariantView>, Seq<u8>), MifError>
    decreases n,
{
    if n == 0 {
        Ok((Seq::empty(), s))
    } else {
        match parse_variant(s) {
            Err(e) => Err(e),
            Ok((v, s1)) => match parse_variants(s1, (n - 1) as nat) {
                Err(e) => Err(e),
                Ok((vs, s2)) => Ok((seq![v] + vs, s2)),
            },
        }
    }
}

/// The abstract content of a design.
pub struct DesignView {
    pub header: HeaderView,
    pub variants: Seq<VariantView>,
}

/// A design as read: the header, then as many variants as it counts.
pub open spec fn parse_design(s: Seq<u8>) -> Result<(DesignView, Seq<u8>), MifError> {
    match parse_header(s) {
        Err(e) => Err(e),
        Ok((h, s)) => match parse_variants(s, count_of(h.variant_count)) {
            Err(e) => Err(e),
            Ok((vs, s)) => Ok((DesignView { header: h, variants: vs }, s)),
        },
    }
}

/// A design file's header and variants.
pub struct Design {
    pub header: FormatHeader,
    pub variants: Vec<Variant>,
}

impl View for Design {
    type V = DesignView;

    open spec fn view(&self) -> DesignView {
        DesignView { header: self.header@, variants: variants_view(self.variants@) }
    }
}

fn read_variants(cur: &mut ByteCursor, n: usize) -> (r: Result<Vec<Variant>, MifError>)
    ensures
        final(cur).bytes() == old(cur).bytes(),
        match parse_variants(old(cur).rest(), n as nat) {
            Ok((v, rest)) => r matches Ok(vs) && variants_view(vs@) == v && final(cur).rest() == rest,
            Err(e) => r is Err && r->Err_0 == e,
        },
{
    let mut out: Vec<Variant> = Vec::new();
    let mut i: usize = 0;
    proof {
        if let Ok((v, rest)) = parse_variants(cur.rest(), n as nat) {
            assert(variants_view(out@) + v =~= v);
        }
    }
    while i < n
        invariant
            i <= n,
            cur.bytes() == old(cur).bytes(),
            parse_variants(old(cur).rest(), n as nat) == match parse_variants(cur.rest(), (n - i) as nat) {
                Ok((v, rest)) => Ok((variants_view(out@) + v, rest)),
                Err(e) => Err::<(Seq<VariantView>, Seq<u8>), MifError>(e),
            },
        decreases n - i,
    {
        let ghost before = cur.rest();
        let v = Variant::read(cur)?;
        let ghost vv = v@;
        let ghost out0 = out@;
        out.push(v);
        i = i + 1;
        proof {
            assert(parse_variant(before) == Ok::<(VariantView, Seq<u8>), MifError>((vv, cur.rest())));
            assert(variants_view(out@) =~= variants_view(out0).push(vv));
            if let Ok((x, rest)) = parse_variants(cur.rest(), (n - i) as nat) {
                assert(variants_view(out@) + x =~= variants_view(out0) + (seq![vv] + x));
            }
        }
    }
    proof {
        assert(variants_view(out@) + Seq::<VariantView>::empty() =~= variants_view(out@));
    }
    Ok(out)
}

impl Design {
    /// Reads the header and the variants it counts; a negative count reads none.
    pub fn read(cur: &mut ByteCursor) -> (r: Result<Design, MifError>)
        ensures
            final(cur).bytes() == old(cur).bytes(),
            match parse_design(old(cur).rest()) {
                Ok((v, rest)) => r matches Ok(d) && d@ == v && final(cur).rest() == rest,
                Err(e) => r is Err && r->Err_0 == e,
            },
    {
        let header = FormatHeader::read(cur)?;
        let n: usize = if header.variant_count < 0 { 0 } else { header.variant_count as usize };
        let variants = read_variants(cur, n)?;
        Ok(Design { header, variants })
    }

    /// The variant at `index`; an index past the last is `IndexOutOfRange`.
    pub fn variant(&self, index: usize) -> (r: Result<&Variant, MifError>)
        ensures
            index < self.variants@.len() ==> (r matches Ok(v) && *v == self.variants@[index as int]),
            index >= self.variants@.len() ==> r == Err::<&Variant, MifError>(MifError::IndexOutOfRange),
    {
        if index < self.variants.len() {
            Ok(&self.variants[index])
        } else {
            Err(MifError::IndexOutOfRange)
        }
    }
}

} // verus!
