//! The wire format, as spec-level functions.
//!
//! `message_bytes` gives the exact serialization of a record sequence, and
//! `decode_msg` gives the exact parse (or error) of any byte sequence. The
//! executable encoder and decoder are proved to agree with these functions
//! byte for byte and error for error.

use vstd::prelude::*;

use crate::error::ErrorView;
use crate::header::hdr_id_present;
use crate::header::hdr_short_record;
use crate::header::hdr_tnf;
use crate::header::tnf_of_bits;
use crate::record::RecordTypeView;
use crate::record::RecordView;
use crate::record::cbor_type_ident;
use crate::record::payload_bytes;
use crate::record::type_ident;
use crate::utf8::be_units;
use crate::utf8::utf16_transcode;
use crate::utf8::utf8_valid;

verus! {

/// The four big-endian bytes of `n` modulo 2^32.
pub open spec fn be32_bytes(n: int) -> Seq<u8> {
    let m = n % 0x1_0000_0000;
    seq![
        (m / 0x1000000) as u8,
        ((m / 0x10000) % 0x100) as u8,
        ((m / 0x100) % 0x100) as u8,
        (m % 0x100) as u8,
    ]
}

/// The integer held in four big-endian bytes.
pub open spec fn be32_value(b: Seq<u8>) -> int {
    b[0] * 0x1000000 + b[1] * 0x10000 + b[2] * 0x100 + b[3]
}

/// Reading back the four big-endian bytes of a value below 2^32 yields the
/// value.
pub proof fn lemma_be32_round_trip(n: int)
    requires
        0 <= n < 0x1_0000_0000,
    ensures
        be32_value(be32_bytes(n)) == n,
{
    assert(n == 0x1000000 * (n / 0x1000000) + 0x10000 * ((n / 0x10000) % 0x100) + 0x100 * ((n
        / 0x100) % 0x100) + n % 0x100) by (nonlinear_arith)
        requires
            0 <= n < 0x1_0000_0000,
    ;
}

/// The payload-length field: one byte when the header's short-record flag is
/// set, else four big-endian bytes.
pub open spec fn len_field(h: u8, pl: int) -> Seq<u8> {
    if hdr_short_record(h) {
        seq![(pl % 0x100) as u8]
    } else {
        be32_bytes(pl)
    }
}

/// The serialized bytes of one record: header byte, type length, payload
/// length, identifier length (present exactly when the header's
/// identifier-present flag is set), then the type identifier, the identifier,
/// and the payload, with no padding.
pub open spec fn record_bytes(r: RecordView) -> Seq<u8> {
    let ty = type_ident(r.payload);
    let pd = payload_bytes(r.payload);
    seq![r.header, (ty.len() % 0x100) as u8] + len_field(r.header, pd.len() as int) + (match r.id {
        Some(id) => seq![(id.len() % 0x100) as u8],
        None => Seq::<u8>::empty(),
    }) + ty + (match r.id {
        Some(id) => id,
        None => Seq::<u8>::empty(),
    }) + pd
}

/// The serialized bytes of a record sequence: the records' bytes
/// concatenated, with no separators.
pub open spec fn message_bytes(rs: Seq<RecordView>) -> Seq<u8>
    decreases rs.len(),
{
    if rs.len() == 0 {
        Seq::empty()
    } else {
        record_bytes(rs[0]) + message_bytes(rs.skip(1))
    }
}

/// Appending one record to a sequence appends its bytes to the
/// serialization.
pub proof fn lemma_message_bytes_push(rs: Seq<RecordView>, r: RecordView)
    ensures
        message_bytes(rs.push(r)) == message_bytes(rs) + record_bytes(r),
    decreases rs.len(),
{
    if rs.len() == 0 {
        assert(rs.push(r)[0] == r);
        assert(rs.push(r).skip(1) =~= Seq::<RecordView>::empty());
        assert(message_bytes(rs.push(r).skip(1)) == Seq::<u8>::empty());
        assert(message_bytes(rs.push(r)) == record_bytes(r) + Seq::<u8>::empty());
        assert(record_bytes(r) + Seq::<u8>::empty() =~= record_bytes(r));
        assert(message_bytes(rs) + record_bytes(r) =~= record_bytes(r));
    } else {
        assert(rs.push(r)[0] == rs[0]);
        assert(rs.push(r).skip(1) =~= rs.skip(1).push(r));
        lemma_message_bytes_push(rs.skip(1), r);
        assert(record_bytes(rs[0]) + (message_bytes(rs.skip(1)) + record_bytes(r)) =~= (
        record_bytes(rs[0]) + message_bytes(rs.skip(1))) + record_bytes(r));
    }
}

/// The position of the first `:` byte in `s`, or `s.len()` when there is
/// none.
pub open spec fn colon_pos(s: Seq<u8>) -> int
    decreases s.len(),
{
    if s.len() == 0 {
        0
    } else if s[0] == 0x3a {
        0
    } else {
        1 + colon_pos(s.skip(1))
    }
}

/// `colon_pos` finds the first `:`: nothing before it is a `:`, and it points
/// at one unless it equals the length.
pub proof fn lemma_colon_pos(s: Seq<u8>)
    ensures
        0 <= colon_pos(s) <= s.len(),
        colon_pos(s) < s.len() ==> s[colon_pos(s)] == 0x3a,
        forall|j: int| 0 <= j < colon_pos(s) ==> s[j] != 0x3a,
    decreases s.len(),
{
    if s.len() > 0 && s[0] != 0x3a {
        lemma_colon_pos(s.skip(1));
        assert forall|j: int| 0 <= j < colon_pos(s) implies s[j] != 0x3a by {
            if j > 0 {
                assert(s.skip(1)[j - 1] == s[j]);
            }
        }
    }
}

/// The parse of a text payload region: the first byte holds the language-tag
/// length in its low five bits and the UTF-16 flag in its top bit; the tag
/// bytes follow, then the text, UTF-8 or big-endian UTF-16.
pub open spec fn decode_text(p: Seq<u8>) -> Result<RecordTypeView, ErrorView> {
    if p.len() == 0 {
        Err(ErrorView::SliceTooShort)
    } else {
        let enc_len = (p[0] & 0x1f) as int;
        if p.len() < enc_len + 1 {
            Err(ErrorView::SliceTooShort)
        } else {
            let enc = p.subrange(1, enc_len + 1);
            if !utf8_valid(enc) {
                Err(ErrorView::UTF8Decode)
            } else {
                let rest = p.subrange(enc_len + 1, p.len() as int);
                if p[0] & 0x80 == 0x80 {
                    if rest.len() % 2 != 0 {
                        Err(ErrorView::UTF16OddLength(rest.len() as int))
                    } else {
                        match utf16_transcode(be_units(rest)) {
                            Some(txt) => Ok(RecordTypeView::Text { enc, txt }),
                            None => Err(ErrorView::UTF16Decode),
                        }
                    }
                } else {
                    if !utf8_valid(rest) {
                        Err(ErrorView::UTF8Decode)
                    } else {
                        Ok(RecordTypeView::Text { enc, txt: rest })
                    }
                }
            }
        }
    }
}

/// The parse of an external payload: the reserved identifier selects the
/// generic binary variant; any other identifier splits at its first `:` into
/// domain and type, and an identifier without `:` is rejected.
pub open spec fn decode_external(ty: Seq<u8>, p: Seq<u8>) -> Result<RecordTypeView, ErrorView> {
    if ty == cbor_type_ident() {
        Ok(RecordTypeView::Cbor(p))
    } else {
        let cp = colon_pos(ty);
        if cp < ty.len() {
            Ok(
                RecordTypeView::External {
                    domain: ty.subrange(0, cp),
                    type_: ty.subrange(cp + 1, ty.len() as int),
                    data: p,
                },
            )
        } else {
            Err(ErrorView::InvalidExternalType(ty))
        }
    }
}

/// The parse of one record from the front of `b`: on success the record and
/// the number of bytes it occupies; otherwise the exact error, with every
/// bounds check made before the corresponding bytes are touched.
pub open spec fn decode_record(b: Seq<u8>) -> Result<(RecordView, int), ErrorView> {
    if b.len() < 2 {
        Err(ErrorView::SliceTooShort)
    } else {
        let h = b[0];
        let tl = b[1] as int;
        let pl_width: int = if hdr_short_record(h) {
            1
        } else {
            4
        };
        if b.len() < 2 + pl_width {
            Err(ErrorView::SliceTooShort)
        } else {
            let pl: int = if hdr_short_record(h) {
                b[2] as int
            } else {
                be32_value(b.subrange(2, 6))
            };
            let off0 = 2 + pl_width;
            if hdr_id_present(h) && b.len() < off0 + 1 {
                Err(ErrorView::SliceTooShort)
            } else {
                let il: int = if hdr_id_present(h) {
                    b[off0] as int
                } else {
                    0
                };
                let off1 = if hdr_id_present(h) {
                    off0 + 1
                } else {
                    off0
                };
                if b.len() < off1 + tl {
                    Err(ErrorView::SliceTooShort)
                } else {
                    let ty = b.subrange(off1, off1 + tl);
                    if !utf8_valid(ty) {
                        Err(ErrorView::UTF8Decode)
                    } else {
                        let off2 = off1 + tl;
                        if b.len() < off2 + il {
                            Err(ErrorView::SliceTooShort)
                        } else {
                            let id = if hdr_id_present(h) {
                                Some(b.subrange(off2, off2 + il))
                            } else {
                                None
                            };
                            let off3 = off2 + il;
                            if b.len() < off3 + pl {
                                Err(ErrorView::SliceTooShort)
                            } else {
                                let pd = b.subrange(off3, off3 + pl);
                                if hdr_tnf(h) == 1 {
                                    if ty != seq![0x54u8] {
                                        Err(ErrorView::UnsupportedRecordType(ty))
                                    } else {
                                        match decode_text(pd) {
                                            Ok(rt) => Ok(
                                                (RecordView { header: h, id, payload: rt }, off3
                                                    + pl),
                                            ),
                                            Err(e) => Err(e),
                                        }
                                    }
                                } else if hdr_tnf(h) == 4 {
                                    match decode_external(ty, pd) {
                                        Ok(rt) => Ok(
                                            (RecordView { header: h, id, payload: rt }, off3 + pl),
                                        ),
                                        Err(e) => Err(e),
                                    }
                                } else {
                                    Err(
                                        ErrorView::UnsupportedTypeNameFormat(
                                            tnf_of_bits(hdr_tnf(h)),
                                        ),
                                    )
                                }
                            }
                        }
                    }
                }
            }
        }
    }
}

/// The parse of a byte sequence into records: records are peeled off the
/// front until the sequence is exhausted; any failure discards the whole
/// parse.
pub open spec fn decode_records(b: Seq<u8>) -> Result<Seq<RecordView>, ErrorView>
    decreases b.len(),
{
    if b.len() == 0 {
        Ok(Seq::empty())
    } else {
        match decode_record(b) {
            Ok((r, n)) => if 0 < n <= b.len() {
                match decode_records(b.skip(n)) {
                    Ok(rs) => Ok(seq![r] + rs),
                    Err(e) => Err(e),
                }
            } else {
                // unreachable: a parsed record occupies 1..=b.len() bytes
                Err(ErrorView::SliceTooShort)
            },
            Err(e) => Err(e),
        }
    }
}

/// The parse of a whole message: an empty input is itself too short.
pub open spec fn decode_msg(b: Seq<u8>) -> Result<Seq<RecordView>, ErrorView> {
    if b.len() == 0 {
        Err(ErrorView::SliceTooShort)
    } else {
        decode_records(b)
    }
}

} // verus!
