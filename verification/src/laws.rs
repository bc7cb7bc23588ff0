//! The codec's laws: decoding inverts encoding, and truncated encodings are
//! rejected.
//!
//! Both are stated over the spec-level wire functions; together with the
//! contracts of `Message::to_vec` and `Message::try_from`, which tie the
//! executable code to those functions byte for byte, they carry over to the
//! executable encoder and decoder.

use vstd::prelude::*;

use crate::error::ErrorView;
use crate::header::hdr_id_present;
use crate::header::hdr_short_record;
use crate::header::hdr_tnf;
use crate::message::records_wf;
use crate::record::RecordTypeView;
use crate::record::RecordView;
use crate::record::cbor_type_ident;
use crate::record::payload_bytes;
use crate::record::payload_wf;
use crate::record::record_wf;
use crate::record::type_ident;
use crate::utf8::lemma_ascii_utf8_valid;
use crate::utf8::utf8_valid;
use crate::wire::be32_value;
use crate::wire::colon_pos;
use crate::wire::decode_external;
use crate::wire::decode_msg;
use crate::wire::decode_record;
use crate::wire::decode_records;
use crate::wire::decode_text;
use crate::wire::lemma_be32_round_trip;
use crate::wire::lemma_colon_pos;
use crate::wire::message_bytes;
use crate::wire::record_bytes;

verus! {

/// An external payload whose synthesized type identifier is not the reserved
/// generic-binary identifier. A record that violates this decodes back as the
/// generic binary variant rather than as an external one, so the round-trip
/// law excludes it; the other variants satisfy it trivially.
pub open spec fn external_distinct(r: RecordView) -> bool {
    r.payload matches RecordTypeView::External { domain, type_, .. } ==> domain + seq![0x3au8]
        + type_ != cbor_type_ident()
}

/// The width of the payload-length field of `r`.
spec fn lf_w(r: RecordView) -> int {
    if hdr_short_record(r.header) {
        1
    } else {
        4
    }
}

/// The width of the identifier-length field of `r`: one byte when an
/// identifier is present, else nothing.
spec fn idl_w(r: RecordView) -> int {
    if r.id is Some {
        1
    } else {
        0
    }
}

/// The length of the identifier of `r`, zero when there is none.
spec fn id_len(r: RecordView) -> int {
    match r.id {
        Some(id) => id.len() as int,
        None => 0,
    }
}

/// The offset of the type identifier within `record_bytes(r)`.
spec fn ty_off(r: RecordView) -> int {
    2 + lf_w(r) + idl_w(r)
}

/// The offset of the identifier within `record_bytes(r)`.
spec fn id_off(r: RecordView) -> int {
    ty_off(r) + type_ident(r.payload).len()
}

/// The offset of the payload within `record_bytes(r)`.
spec fn pd_off(r: RecordView) -> int {
    id_off(r) + id_len(r)
}

/// The total length of `record_bytes(r)`.
spec fn rec_len(r: RecordView) -> int {
    pd_off(r) + payload_bytes(r.payload).len()
}

/// The synthesized type identifier of a well-formed payload is valid UTF-8
/// and fits its one-byte length field.
proof fn lemma_type_ident_wf(p: RecordTypeView)
    requires
        payload_wf(p),
    ensures
        type_ident(p).len() <= 255,
        utf8_valid(type_ident(p)),
{
    match p {
        RecordTypeView::Text { .. } => {
            lemma_ascii_utf8_valid(type_ident(p));
        },
        RecordTypeView::External { .. } => {
        },
        RecordTypeView::Cbor(_) => {
            lemma_ascii_utf8_valid(type_ident(p));
        },
    }
}

/// Where each field of a well-formed record lies within its serialized
/// bytes, and what the length fields hold.
proof fn lemma_record_bytes_parts(r: RecordView)
    requires
        record_wf(r),
    ensures
        record_bytes(r).len() == rec_len(r),
        rec_len(r) >= 3,
        record_bytes(r)[0] == r.header,
        type_ident(r.payload).len() <= 255,
        utf8_valid(type_ident(r.payload)),
        record_bytes(r)[1] as int == type_ident(r.payload).len(),
        hdr_short_record(r.header) ==> record_bytes(r)[2] as int == payload_bytes(
            r.payload,
        ).len(),
        !hdr_short_record(r.header) ==> be32_value(record_bytes(r).subrange(2, 6))
            == payload_bytes(r.payload).len(),
        r.id is Some ==> record_bytes(r)[2 + lf_w(r)] as int == id_len(r),
        record_bytes(r).subrange(ty_off(r), id_off(r)) == type_ident(r.payload),
        r.id is Some ==> record_bytes(r).subrange(id_off(r), pd_off(r)) == r.id->0,
        record_bytes(r).subrange(pd_off(r), rec_len(r)) == payload_bytes(r.payload),
{
    let ty = type_ident(r.payload);
    let pd = payload_bytes(r.payload);
    let a = record_bytes(r);
    lemma_type_ident_wf(r.payload);
    assert(a.len() == rec_len(r));
    if !hdr_short_record(r.header) {
        assert(a.subrange(2, 6) =~= crate::wire::be32_bytes(pd.len() as int));
        lemma_be32_round_trip(pd.len() as int);
    }
    assert(a.subrange(ty_off(r), id_off(r)) =~= ty);
    if r.id is Some {
        assert(a.subrange(id_off(r), pd_off(r)) =~= r.id->0);
    }
    assert(a.subrange(pd_off(r), rec_len(r)) =~= pd);
}

/// Parsing the serialized text payload of a well-formed text record
/// reconstructs it exactly.
proof fn lemma_decode_text_of_wf(p: RecordTypeView)
    requires
        p is Text,
        payload_wf(p),
    ensures
        decode_text(payload_bytes(p)) == Ok::<RecordTypeView, ErrorView>(p),
{
    match p {
        RecordTypeView::Text { enc, txt } => {
            let pd = payload_bytes(p);
            let e = pd[0];
            assert(e == (enc.len() % 0x100) as u8);
            assert(e as int == enc.len());
            assert(e & 0x1f == e && e & 0x80 != 0x80) by (bit_vector)
                requires
                    e <= 31,
            ;
            assert(pd.subrange(1, enc.len() as int + 1) =~= enc);
            assert(pd.subrange(enc.len() as int + 1, pd.len() as int) =~= txt);
        },
        _ => {
        },
    }
}

/// Parsing the type identifier and payload of a well-formed external record
/// (whose identifier is not the reserved one) reconstructs it exactly.
proof fn lemma_decode_external_of_wf(p: RecordTypeView)
    requires
        p is External,
        payload_wf(p),
        type_ident(p) != cbor_type_ident(),
    ensures
        decode_external(type_ident(p), payload_bytes(p)) == Ok::<RecordTypeView, ErrorView>(p),
{
    match p {
        RecordTypeView::External { domain, type_, data } => {
            let ty = type_ident(p);
            lemma_colon_pos(ty);
            let cp = colon_pos(ty);
            assert(ty[domain.len() as int] == 0x3a);
            if cp < domain.len() {
                assert(ty[cp] == domain[cp]);
                assert(false);
            }
            if cp > domain.len() {
                assert(ty[domain.len() as int] != 0x3a);
                assert(false);
            }
            assert(ty.subrange(0, cp) =~= domain);
            assert(ty.subrange(cp + 1, ty.len() as int) =~= type_);
        },
        _ => {
        },
    }
}

/// Parsing the front of `record_bytes(r) + tail` yields exactly `r`, and
/// consumes exactly `record_bytes(r)`.
proof fn lemma_decode_record_prefix(r: RecordView, tail: Seq<u8>)
    requires
        record_wf(r),
        external_distinct(r),
    ensures
        decode_record(record_bytes(r) + tail) == Ok::<(RecordView, int), ErrorView>(
            (r, record_bytes(r).len() as int),
        ),
{
    lemma_record_bytes_parts(r);
    let a = record_bytes(r);
    let b = a + tail;
    let ty = type_ident(r.payload);
    let pd = payload_bytes(r.payload);
    assert(b.len() == a.len() + tail.len());
    assert(forall|i: int| 0 <= i < a.len() ==> b[i] == a[i]);
    assert(b[0] == r.header);
    if !hdr_short_record(r.header) {
        assert(b.subrange(2, 6) =~= a.subrange(2, 6));
    }
    assert(b.subrange(ty_off(r), id_off(r)) =~= a.subrange(ty_off(r), id_off(r)));
    if r.id is Some {
        assert(b.subrange(id_off(r), pd_off(r)) =~= a.subrange(id_off(r), pd_off(r)));
    }
    assert(b.subrange(pd_off(r), rec_len(r)) =~= a.subrange(pd_off(r), rec_len(r)));
    assert(hdr_id_present(r.header) <==> r.id is Some);
    match r.payload {
        RecordTypeView::Text { .. } => {
            assert(hdr_tnf(r.header) == 1);
            assert(ty =~= seq![0x54u8]);
            lemma_decode_text_of_wf(r.payload);
        },
        RecordTypeView::External { .. } => {
            assert(hdr_tnf(r.header) == 4);
            lemma_decode_external_of_wf(r.payload);
        },
        RecordTypeView::Cbor(_) => {
            assert(hdr_tnf(r.header) == 4);
            assert(decode_external(ty, pd) == Ok::<RecordTypeView, ErrorView>(r.payload));
        },
    }
}

/// Decoding the serialization of any well-formed record sequence yields the
/// sequence back.
proof fn lemma_round_trip_records(rs: Seq<RecordView>)
    requires
        records_wf(rs),
        forall|i: int| 0 <= i < rs.len() ==> external_distinct(#[trigger] rs[i]),
    ensures
        decode_records(message_bytes(rs)) == Ok::<Seq<RecordView>, ErrorView>(rs),
    decreases rs.len(),
{
    if rs.len() == 0 {
        assert(message_bytes(rs) == Seq::<u8>::empty());
        assert(decode_records(message_bytes(rs)) == Ok::<Seq<RecordView>, ErrorView>(
            Seq::<RecordView>::empty(),
        ));
        assert(rs =~= Seq::<RecordView>::empty());
    } else {
        let r0 = rs[0];
        let rest = rs.skip(1);
        assert(record_wf(r0)) by {
            assert(records_wf(rs));
        }
        lemma_record_bytes_parts(r0);
        lemma_decode_record_prefix(r0, message_bytes(rest));
        let n = record_bytes(r0).len() as int;
        let b = message_bytes(rs);
        assert(b == record_bytes(r0) + message_bytes(rest));
        assert(b.len() >= n > 0);
        assert(b.skip(n) =~= message_bytes(rest));
        assert(records_wf(rest)) by {
            assert(forall|i: int| 0 <= i < rest.len() ==> rest[i] == rs[i + 1]);
        }
        assert(forall|i: int| 0 <= i < rest.len() ==> external_distinct(#[trigger] rest[i])) by {
            assert(forall|i: int| 0 <= i < rest.len() ==> rest[i] == rs[i + 1]);
        }
        lemma_round_trip_records(rest);
        assert(seq![r0] + rest =~= rs);
    }
}

/// Round trip: decoding the serialization of any non-empty, well-formed
/// record sequence — every record valid, headers agreeing with payload and
/// identifier shape, and no external record borrowing the reserved
/// generic-binary identifier — yields exactly that sequence: bit-for-bit
/// headers, identical records, identical order.
pub proof fn lemma_round_trip(rs: Seq<RecordView>)
    requires
        rs.len() > 0,
        records_wf(rs),
        forall|i: int| 0 <= i < rs.len() ==> external_distinct(#[trigger] rs[i]),
    ensures
        decode_msg(message_bytes(rs)) == Ok::<Seq<RecordView>, ErrorView>(rs),
{
    assert(record_wf(rs[0])) by {
        assert(records_wf(rs));
    }
    lemma_record_bytes_parts(rs[0]);
    assert(message_bytes(rs).len() > 0) by {
        assert(message_bytes(rs) == record_bytes(rs[0]) + message_bytes(rs.skip(1)));
    }
    lemma_round_trip_records(rs);
}

/// Parsing a strict, non-empty prefix of a well-formed record's bytes fails
/// with `SliceTooShort`.
proof fn lemma_record_truncated(r: RecordView, k: int)
    requires
        record_wf(r),
        0 < k < rec_len(r),
    ensures
        decode_record(record_bytes(r).take(k)) == Err::<(RecordView, int), ErrorView>(
            ErrorView::SliceTooShort,
        ),
{
    lemma_record_bytes_parts(r);
    let a = record_bytes(r);
    let t = a.take(k);
    assert(t.len() == k);
    assert(forall|i: int| 0 <= i < k ==> t[i] == a[i]);
    if k < 2 {
    } else {
        assert(t[0] == r.header);
        let w = lf_w(r);
        if k < 2 + w {
        } else {
            if !hdr_short_record(r.header) {
                assert(t.subrange(2, 6) =~= a.subrange(2, 6));
            }
            if hdr_id_present(r.header) && k < 2 + w + 1 {
            } else {
                if k < id_off(r) {
                } else {
                    assert(t.subrange(ty_off(r), id_off(r)) =~= a.subrange(
                        ty_off(r),
                        id_off(r),
                    ));
                    if k < pd_off(r) {
                    } else {
                        assert(k < rec_len(r));
                    }
                }
            }
        }
    }
}

/// `message_bytes` of a sequence decomposes around its first record.
proof fn lemma_message_bytes_take_decompose(rs: Seq<RecordView>, j: int)
    requires
        rs.len() > 0,
        1 <= j + 1 <= rs.len(),
    ensures
        message_bytes(rs.take(j + 1)) == record_bytes(rs[0]) + message_bytes(rs.skip(1).take(j)),
{
    let p = rs.take(j + 1);
    assert(p.len() == j + 1);
    assert(p[0] == rs[0]);
    assert(p.skip(1) =~= rs.skip(1).take(j));
    assert(message_bytes(p) == record_bytes(p[0]) + message_bytes(p.skip(1)));
}

/// Truncating the serialization of a well-formed record sequence anywhere
/// except at a record boundary is rejected with `SliceTooShort`.
#[verifier::rlimit(100)]
#[verifier::spinoff_prover]
proof fn lemma_truncation_records(rs: Seq<RecordView>, k: int)
    requires
        rs.len() > 0,
        records_wf(rs),
        forall|i: int| 0 <= i < rs.len() ==> external_distinct(#[trigger] rs[i]),
        0 < k < message_bytes(rs).len(),
        forall|j: int| 0 < j < rs.len() ==> k != message_bytes(#[trigger] rs.take(j)).len(),
    ensures
        decode_records(message_bytes(rs).take(k)) == Err::<Seq<RecordView>, ErrorView>(
            ErrorView::SliceTooShort,
        ),
    decreases rs.len(),
{
    let r0 = rs[0];
    assert(record_wf(r0)) by {
        assert(records_wf(rs));
    }
    lemma_record_bytes_parts(r0);
    let n0 = record_bytes(r0).len() as int;
    let b = message_bytes(rs);
    assert(b == record_bytes(r0) + message_bytes(rs.skip(1)));
    if k < n0 {
        assert(b.take(k) =~= record_bytes(r0).take(k));
        lemma_record_truncated(r0, k);
        assert(b.take(k).len() == k > 0);
    } else if k == n0 {
        // k would be the boundary after the first record: excluded, since a
        // later record exists (k is less than the total length)
        if rs.len() == 1 {
            assert(message_bytes(rs.skip(1)) == Seq::<u8>::empty());
            assert(b.len() == n0);
            assert(false);
        } else {
            lemma_message_bytes_take_decompose(rs, 0);
            assert(rs.skip(1).take(0) =~= Seq::<RecordView>::empty());
            assert(message_bytes(Seq::<RecordView>::empty()) == Seq::<u8>::empty());
            assert(message_bytes(rs.take(1)).len() == n0);
            assert(false);
        }
    } else {
        let rest = rs.skip(1);
        assert(rest.len() > 0) by {
            if rest.len() == 0 {
                assert(message_bytes(rest) == Seq::<u8>::empty());
                assert(b.len() == n0);
            }
        }
        assert(b.take(k) =~= record_bytes(r0) + message_bytes(rest).take(k - n0));
        lemma_decode_record_prefix(r0, message_bytes(rest).take(k - n0));
        assert(b.take(k).skip(n0) =~= message_bytes(rest).take(k - n0));
        assert(records_wf(rest)) by {
            assert(forall|i: int| 0 <= i < rest.len() ==> rest[i] == rs[i + 1]);
        }
        assert(forall|i: int| 0 <= i < rest.len() ==> external_distinct(#[trigger] rest[i])) by {
            assert(forall|i: int| 0 <= i < rest.len() ==> rest[i] == rs[i + 1]);
        }
        assert(forall|j: int| 0 < j < rest.len() ==> k - n0 != message_bytes(
            #[trigger] rest.take(j),
        ).len()) by {
            assert forall|j: int| 0 < j < rest.len() implies k - n0 != message_bytes(
                #[trigger] rest.take(j),
            ).len() by {
                lemma_message_bytes_take_decompose(rs, j);
                assert(message_bytes(rs.take(j + 1)).len() == n0 + message_bytes(
                    rest.take(j),
                ).len());
            }
        }
        lemma_truncation_records(rest, k - n0);
    }
}

/// Malformed-input rejection: truncating the serialization of a non-empty,
/// well-formed record sequence at any byte boundary before its final byte
/// yields `SliceTooShort` — except at a boundary between two records, where
/// the prefix is itself a complete serialization. Truncating to nothing
/// (`k == 0`) is the empty-input case, also rejected as too short.
pub proof fn lemma_truncation_rejected(rs: Seq<RecordView>, k: int)
    requires
        rs.len() > 0,
        records_wf(rs),
        forall|i: int| 0 <= i < rs.len() ==> external_distinct(#[trigger] rs[i]),
        0 <= k < message_bytes(rs).len(),
        forall|j: int| 0 < j < rs.len() ==> k != message_bytes(#[trigger] rs.take(j)).len(),
    ensures
        decode_msg(message_bytes(rs).take(k)) == Err::<Seq<RecordView>, ErrorView>(
            ErrorView::SliceTooShort,
        ),
{
    if k == 0 {
        assert(message_bytes(rs).take(0) =~= Seq::<u8>::empty());
    } else {
        lemma_truncation_records(rs, k);
    }
}

} // verus!
