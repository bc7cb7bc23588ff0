//! Text-encoding validity, stated over plain bytes and code units.
//!
//! UTF-8 well-formedness is written out as a spec predicate (the byte-pattern
//! table of RFC 3629), so the decoder's contracts are exact. UTF-16 decoding
//! produces UTF-8 bytes through the standard library; its result is named by
//! an uninterpreted function, since spelling the transcoding out would state
//! nothing that anyone could check more easily than the original.

use vstd::prelude::*;

verus! {

/// A UTF-8 continuation byte: `0x80..=0xBF`.
pub open spec fn utf8_cont(x: u8) -> bool {
    0x80 <= x <= 0xbf
}

/// Well-formed UTF-8, per the byte-pattern table of RFC 3629: each leading
/// byte fixes the length and admissible ranges of its continuation bytes;
/// overlong forms, surrogates and values above U+10FFFF are excluded.
pub open spec fn utf8_valid(b: Seq<u8>) -> bool
    decreases b.len(),
{
    if b.len() == 0 {
        true
    } else if b[0] <= 0x7f {
        utf8_valid(b.skip(1))
    } else if 0xc2 <= b[0] <= 0xdf {
        b.len() >= 2 && utf8_cont(b[1]) && utf8_valid(b.skip(2))
    } else if b[0] == 0xe0 {
        b.len() >= 3 && 0xa0 <= b[1] <= 0xbf && utf8_cont(b[2]) && utf8_valid(b.skip(3))
    } else if 0xe1 <= b[0] <= 0xec {
        b.len() >= 3 && utf8_cont(b[1]) && utf8_cont(b[2]) && utf8_valid(b.skip(3))
    } else if b[0] == 0xed {
        b.len() >= 3 && 0x80 <= b[1] <= 0x9f && utf8_cont(b[2]) && utf8_valid(b.skip(3))
    } else if 0xee <= b[0] <= 0xef {
        b.len() >= 3 && utf8_cont(b[1]) && utf8_cont(b[2]) && utf8_valid(b.skip(3))
    } else if b[0] == 0xf0 {
        b.len() >= 4 && 0x90 <= b[1] <= 0xbf && utf8_cont(b[2]) && utf8_cont(b[3])
            && utf8_valid(b.skip(4))
    } else if 0xf1 <= b[0] <= 0xf3 {
        b.len() >= 4 && utf8_cont(b[1]) && utf8_cont(b[2]) && utf8_cont(b[3])
            && utf8_valid(b.skip(4))
    } else if b[0] == 0xf4 {
        b.len() >= 4 && 0x80 <= b[1] <= 0x8f && utf8_cont(b[2]) && utf8_cont(b[3])
            && utf8_valid(b.skip(4))
    } else {
        false
    }
}

/// Every all-ASCII byte sequence is well-formed UTF-8.
pub proof fn lemma_ascii_utf8_valid(s: Seq<u8>)
    requires
        forall|i: int| 0 <= i < s.len() ==> s[i] <= 0x7f,
    ensures
        utf8_valid(s),
    decreases s.len(),
{
    if s.len() > 0 {
        lemma_ascii_utf8_valid(s.skip(1));
    }
}

/// Well-formed UTF-16: every high surrogate (`0xD800..=0xDBFF`) is
/// immediately followed by a low surrogate (`0xDC00..=0xDFFF`), and no low
/// surrogate stands alone.
pub open spec fn utf16_valid(u: Seq<u16>) -> bool
    decreases u.len(),
{
    if u.len() == 0 {
        true
    } else if u[0] < 0xd800 || u[0] >= 0xe000 {
        utf16_valid(u.skip(1))
    } else if u[0] < 0xdc00 {
        u.len() >= 2 && 0xdc00 <= u[1] < 0xe000 && utf16_valid(u.skip(2))
    } else {
        false
    }
}

/// The UTF-8 bytes of the text denoted by a well-formed UTF-16 code-unit
/// sequence, or `None` when the sequence is ill-formed. The result is a
/// function of the code units alone; it is given a name rather than a
/// definition, and the trusted item below ties the name to the standard
/// library's transcoding.
pub uninterp spec fn utf16_transcode(units: Seq<u16>) -> Option<Seq<u8>>;

/// The big-endian 16-bit code units packed in a byte sequence of even length.
pub open spec fn be_units(b: Seq<u8>) -> Seq<u16> {
    Seq::new((b.len() / 2) as nat, |i: int| (b[2 * i] * 0x100 + b[2 * i + 1]) as u16)
}

/// Relies on `core::str::from_utf8`: it returns `Ok` exactly on byte
/// sequences that are well-formed UTF-8 as RFC 3629 defines it, which is what
/// `utf8_valid` spells out.
#[verifier::external_body]
pub(crate) fn utf8_check(b: &[u8]) -> (r: bool)
    ensures
        r == utf8_valid(b@),
{
    core::str::from_utf8(b).is_ok()
}

/// Relies on `alloc::string::String::from_utf16`: it succeeds exactly on
/// well-formed UTF-16 (no unpaired surrogates), its result depends on the
/// code units alone, and the bytes of the returned `String` — handed out
/// unchanged by `String::into_bytes` — are themselves valid UTF-8.
#[verifier::external_body]
pub(crate) fn utf16_to_utf8(units: &[u16]) -> (r: Option<Vec<u8>>)
    ensures
        (match r {
            Some(v) => utf16_transcode(units@) == Some(v@) && utf8_valid(v@),
            None => utf16_transcode(units@) is None,
        }),
        r is Some <==> utf16_valid(units@),
{
    match std::string::String::from_utf16(units) {
        Ok(s) => Some(s.into_bytes()),
        Err(_) => None,
    }
}

/// Packs pairs of bytes into big-endian 16-bit code units.
pub(crate) fn bytes_to_units(b: &[u8]) -> (r: Vec<u16>)
    requires
        b@.len() % 2 == 0,
    ensures
        r@ == be_units(b@),
{
    let n = b.len() / 2;
    proof {
        assert(2 * n == b@.len());
    }
    let mut units: Vec<u16> = Vec::new();
    let mut i: usize = 0;
    while i < n
        invariant
            i <= n,
            n == b@.len() / 2,
            2 * n == b@.len(),
            b@.len() <= usize::MAX,
            units@.len() == i,
            forall|j: int| 0 <= j < i ==> units@[j] == be_units(b@)[j],
        decreases n - i,
    {
        let hi = b[2 * i];
        let lo = b[2 * i + 1];
        units.push((hi as u16) * 0x100 + (lo as u16));
        i = i + 1;
    }
    proof {
        assert(units@ =~= be_units(b@));
    }
    units
}

} // verus!
