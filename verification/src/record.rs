//! The tagged-union payload model and the record that couples a header, an
//! optional opaque identifier, and a payload.
//!
//! All text is held as validated UTF-8 bytes, so a record's serialized form
//! is a concrete spec-level function of its fields.

use vstd::prelude::*;

use crate::bytes::clone_bytes;
use crate::bytes::push_bytes;
use crate::header::Header;
use crate::header::TypeNameFormat;
use crate::header::hdr_id_present;
use crate::header::hdr_message_begin;
use crate::header::hdr_message_end;
use crate::header::hdr_short_record;
use crate::header::hdr_tnf;
use crate::header::tnf_value;
use crate::utf8::utf8_valid;

verus! {

/// The spec-level mirror of [`RecordType`]: each byte vector becomes a
/// sequence.
pub enum RecordTypeView {
    Text { enc: Seq<u8>, txt: Seq<u8> },
    External { domain: Seq<u8>, type_: Seq<u8>, data: Seq<u8> },
    Cbor(Seq<u8>),
}

/// The spec-level mirror of [`Record`]: the raw header byte, the optional
/// identifier bytes, and the payload model.
pub struct RecordView {
    pub header: u8,
    pub id: Option<Seq<u8>>,
    pub payload: RecordTypeView,
}

/// A record's semantic content.
#[derive(Debug, PartialEq, Eq)]
pub enum RecordType {
    /// Plain text: `enc` is a short language tag (at most 31 bytes), `txt`
    /// the UTF-8 bytes of the text. Text is always emitted as UTF-8; UTF-16
    /// is accepted on decode only and materialized here as UTF-8.
    Text { enc: Vec<u8>, txt: Vec<u8> },
    /// An externally-namespaced opaque blob; the wire type identifier is
    /// `domain`, a `:` separator, and `type_`.
    External { domain: Vec<u8>, type_: Vec<u8>, data: Vec<u8> },
    /// A generic binary object (a self-describing CBOR encoding, treated as
    /// opaque bytes); its wire type identifier is the fixed reserved one.
    Cbor(Vec<u8>),
}

impl View for RecordType {
    type V = RecordTypeView;

    open spec fn view(&self) -> RecordTypeView {
        match self {
            RecordType::Text { enc, txt } => (RecordTypeView::Text { enc: enc@, txt: txt@ }),
            RecordType::External { domain, type_, data } => (RecordTypeView::External {
                domain: domain@,
                type_: type_@,
                data: data@,
            }),
            RecordType::Cbor(data) => RecordTypeView::Cbor(data@),
        }
    }
}

/// A record payload; the single variant carries a [`RecordType`].
#[derive(Debug, PartialEq, Eq)]
pub enum Payload {
    RTD(RecordType),
}

impl View for Payload {
    type V = RecordTypeView;

    open spec fn view(&self) -> RecordTypeView {
        match self {
            Payload::RTD(rt) => rt@,
        }
    }
}

/// The view of an optional identifier.
pub open spec fn opt_bytes_view(id: Option<Vec<u8>>) -> Option<Seq<u8>> {
    match id {
        Some(v) => Some(v@),
        None => None,
    }
}

/// The fixed reserved wire type identifier of the generic binary-object
/// variant: the bytes of `cbor.io:cbor`.
pub open spec fn cbor_type_ident() -> Seq<u8> {
    seq![0x63u8, 0x62, 0x6f, 0x72, 0x2e, 0x69, 0x6f, 0x3a, 0x63, 0x62, 0x6f, 0x72]
}

/// The type-name-format implied by a payload: text is well-known; external
/// and generic binary payloads are externally namespaced.
pub open spec fn payload_tnf(p: RecordTypeView) -> TypeNameFormat {
    match p {
        RecordTypeView::Text { .. } => TypeNameFormat::NfcWellKnown,
        RecordTypeView::External { .. } => TypeNameFormat::NfcExternal,
        RecordTypeView::Cbor(_) => TypeNameFormat::NfcExternal,
    }
}

/// The serialized payload bytes. Text serializes as one byte holding the
/// language-tag length, then the tag bytes, then the text bytes; the other
/// variants serialize as their raw bytes unchanged.
pub open spec fn payload_bytes(p: RecordTypeView) -> Seq<u8> {
    match p {
        RecordTypeView::Text { enc, txt } => seq![(enc.len() % 0x100) as u8] + enc + txt,
        RecordTypeView::External { data, .. } => data,
        RecordTypeView::Cbor(data) => data,
    }
}

/// The synthesized wire type identifier of a payload. It is written into the
/// record's type field and is not part of the payload bytes.
pub open spec fn type_ident(p: RecordTypeView) -> Seq<u8> {
    match p {
        RecordTypeView::Text { .. } => seq![0x54u8],
        RecordTypeView::External { domain, type_, .. } => domain + seq![0x3au8] + type_,
        RecordTypeView::Cbor(_) => cbor_type_ident(),
    }
}

/// Field-level validity of a payload: the language tag fits its five-bit
/// length field, text fields hold valid UTF-8, an external domain contains no
/// `:` separator of its own, the synthesized type identifier is valid UTF-8
/// and fits its one-byte length field, and the serialized payload fits the
/// four-byte length field.
pub open spec fn payload_wf(p: RecordTypeView) -> bool {
    match p {
        RecordTypeView::Text { enc, txt } => {
            &&& enc.len() <= 31
            &&& utf8_valid(enc)
            &&& utf8_valid(txt)
            &&& 1 + enc.len() + txt.len() < 0x1_0000_0000
        },
        RecordTypeView::External { domain, type_, data } => {
            &&& forall|i: int| 0 <= i < domain.len() ==> domain[i] != 0x3a
            &&& utf8_valid(domain + seq![0x3au8] + type_)
            &&& domain.len() + 1 + type_.len() <= 255
            &&& data.len() < 0x1_0000_0000
        },
        RecordTypeView::Cbor(data) => data.len() < 0x1_0000_0000,
    }
}

/// The header byte derived at record construction: the payload's
/// type-name-format in bits 2-0, the identifier-present bit when an
/// identifier is given, and the short-record bit when the serialized payload
/// is shorter than 256 bytes. The chaining bits are left clear.
pub open spec fn derived_header(p: RecordTypeView, has_id: bool) -> u8 {
    (tnf_value(payload_tnf(p)) | (if has_id {
        0x08u8
    } else {
        0x00u8
    })) | (if payload_bytes(p).len() < 256 {
        0x10u8
    } else {
        0x00u8
    })
}

/// A well-formed record: a valid payload, an identifier that fits its
/// one-byte length field, and a header that agrees with the payload and
/// identifier shape. The chaining bits are unconstrained.
pub open spec fn record_wf(r: RecordView) -> bool {
    &&& payload_wf(r.payload)
    &&& (r.id matches Some(id) ==> id.len() <= 255)
    &&& hdr_tnf(r.header) == tnf_value(payload_tnf(r.payload))
    &&& (hdr_short_record(r.header) <==> payload_bytes(r.payload).len() < 256)
    &&& (hdr_id_present(r.header) <==> r.id is Some)
}

/// Bit-level facts about a header assembled from a type-name-format value
/// and the two derived flags.
proof fn lemma_derived_header_bits(t: u8, a: u8, s: u8)
    by (bit_vector)
    requires
        t < 8,
        a == 0x00 || a == 0x08,
        s == 0x00 || s == 0x10,
    ensures
        ((t | a) | s) & 0x07 == t,
        ((t | a) | s) & 0x08 == 0x08 <==> a == 0x08,
        ((t | a) | s) & 0x10 == 0x10 <==> s == 0x10,
        ((t | a) | s) & 0x80 != 0x80,
        ((t | a) | s) & 0x40 != 0x40,
{
}

/// The header properties that `Record::new` derives, stated over the spec
/// value [`derived_header`].
pub proof fn lemma_derived_header(p: RecordTypeView, has_id: bool)
    ensures
        hdr_tnf(derived_header(p, has_id)) == tnf_value(payload_tnf(p)),
        hdr_id_present(derived_header(p, has_id)) == has_id,
        hdr_short_record(derived_header(p, has_id)) <==> payload_bytes(p).len() < 256,
        !hdr_message_begin(derived_header(p, has_id)),
        !hdr_message_end(derived_header(p, has_id)),
{
    let t = tnf_value(payload_tnf(p));
    let a: u8 = if has_id {
        0x08
    } else {
        0x00
    };
    let s: u8 = if payload_bytes(p).len() < 256 {
        0x10
    } else {
        0x00
    };
    lemma_derived_header_bits(t, a, s);
}

impl RecordType {
    /// The serialized length in bytes of this payload.
    pub fn len(&self) -> (r: usize)
        requires
            payload_bytes(self@).len() <= usize::MAX,
        ensures
            r == payload_bytes(self@).len(),
    {
        match self {
            RecordType::Text { enc, txt } => 1 + enc.len() + txt.len(),
            RecordType::External { data, .. } => data.len(),
            RecordType::Cbor(data) => data.len(),
        }
    }

    /// The serialized payload bytes.
    pub fn to_vec(&self) -> (r: Vec<u8>)
        ensures
            r@ == payload_bytes(self@),
    {
        match self {
            RecordType::Text { enc, txt } => {
                let mut data: Vec<u8> = Vec::new();
                data.push((enc.len() % 0x100) as u8);
                push_bytes(&mut data, enc.as_slice());
                push_bytes(&mut data, txt.as_slice());
                proof {
                    assert(data@ =~= payload_bytes(self@));
                }
                data
            },
            RecordType::External { data, .. } => clone_bytes(data),
            RecordType::Cbor(data) => clone_bytes(data),
        }
    }
}

impl Clone for RecordType {
    /// Clones the payload content; the copy has the same view.
    fn clone(&self) -> (r: Self)
        ensures
            r@ == self@,
    {
        match self {
            RecordType::Text { enc, txt } => (RecordType::Text {
                enc: clone_bytes(enc),
                txt: clone_bytes(txt),
            }),
            RecordType::External { domain, type_, data } => (RecordType::External {
                domain: clone_bytes(domain),
                type_: clone_bytes(type_),
                data: clone_bytes(data),
            }),
            RecordType::Cbor(data) => RecordType::Cbor(clone_bytes(data)),
        }
    }
}

impl Payload {
    /// The serialized length in bytes of this payload.
    pub fn len(&self) -> (r: usize)
        requires
            payload_bytes(self@).len() <= usize::MAX,
        ensures
            r == payload_bytes(self@).len(),
    {
        match self {
            Payload::RTD(rtd) => rtd.len(),
        }
    }

    /// The serialized payload bytes.
    pub fn to_vec(&self) -> (r: Vec<u8>)
        ensures
            r@ == payload_bytes(self@),
    {
        match self {
            Payload::RTD(rtd) => rtd.to_vec(),
        }
    }
}

impl Clone for Payload {
    /// Clones the payload; the copy has the same view.
    fn clone(&self) -> (r: Self)
        ensures
            r@ == self@,
    {
        match self {
            Payload::RTD(rtd) => Payload::RTD(rtd.clone()),
        }
    }
}

impl TypeNameFormat {
    /// The type-name-format implied by a payload.
    pub fn from(pl: &Payload) -> (r: TypeNameFormat)
        ensures
            r == payload_tnf(pl@),
    {
        match pl {
            Payload::RTD(RecordType::External { .. }) => TypeNameFormat::NfcExternal,
            Payload::RTD(RecordType::Cbor(_)) => TypeNameFormat::NfcExternal,
            Payload::RTD(_) => TypeNameFormat::NfcWellKnown,
        }
    }
}

/// A record: a header, an optional opaque identifier, and a payload. The
/// header is derived from the payload and identifier shape at construction,
/// so the two can never disagree; only the chaining bits are mutated later,
/// by the owning message.
#[derive(Debug, PartialEq, Eq)]
pub struct Record {
    pub header: Header,
    pub id: Option<Vec<u8>>,
    pub payload: Payload,
}

impl View for Record {
    type V = RecordView;

    open spec fn view(&self) -> RecordView {
        RecordView {
            header: self.header.0,
            id: match &self.id {
                Some(v) => Some(v@),
                None => None,
            },
            payload: self.payload@,
        }
    }
}

impl Record {
    /// Builds a record, deriving the header entirely from the payload and
    /// from whether an identifier is present; the chaining bits are left
    /// clear for the owning message to set.
    pub fn new(id: Option<Vec<u8>>, payload: Payload) -> (r: Record)
        requires
            payload_bytes(payload@).len() <= usize::MAX,
        ensures
            r@.payload == payload@,
            r@.id == opt_bytes_view(id),
            r@.header == derived_header(payload@, id is Some),
            hdr_short_record(r@.header) <==> payload_bytes(payload@).len() < 256,
            payload_wf(payload@) && (id matches Some(v) ==> v@.len() <= 255) ==> record_wf(r@),
    {
        let mut header = Header::default();
        header.set_type_name_format(TypeNameFormat::from(&payload));
        if id.is_some() {
            header.set_id_length();
        }
        if payload.len() < 256 {
            header.set_short_record();
        }
        proof {
            let t = tnf_value(payload_tnf(payload@));
            assert(forall|x: u8| #[trigger] (x | 0x00) == x) by (bit_vector);
            assert((0u8 & 0xf8) | t == t) by (bit_vector);
            lemma_derived_header(payload@, id is Some);
        }
        Record { header, id, payload }
    }

    /// Whether the payload is the generic binary-object variant.
    pub fn is_type_cbor(&self) -> (r: bool)
        ensures
            r == (self@.payload is Cbor),
    {
        matches!(&self.payload, Payload::RTD(RecordType::Cbor(_)))
    }

    /// The synthesized wire type identifier of this record's payload.
    pub fn get_type(&self) -> (r: Vec<u8>)
        ensures
            r@ == type_ident(self@.payload),
    {
        match &self.payload {
            Payload::RTD(rtd) => match rtd {
                RecordType::Text { .. } => {
                    let mut v: Vec<u8> = Vec::new();
                    v.push(0x54);
                    proof {
                        assert(v@ =~= type_ident(self@.payload));
                    }
                    v
                },
                RecordType::External { domain, type_, .. } => {
                    let mut v: Vec<u8> = Vec::new();
                    push_bytes(&mut v, domain.as_slice());
                    v.push(0x3a);
                    push_bytes(&mut v, type_.as_slice());
                    proof {
                        assert(v@ =~= type_ident(self@.payload));
                    }
                    v
                },
                RecordType::Cbor(_) => cbor_type_ident_vec(),
            },
        }
    }

    /// The serialized payload bytes of this record.
    pub fn payload(&self) -> (r: Vec<u8>)
        ensures
            r@ == payload_bytes(self@.payload),
    {
        self.payload.to_vec()
    }
}

impl Clone for Record {
    /// Clones the record; the copy has the same view.
    fn clone(&self) -> (r: Self)
        ensures
            r@ == self@,
    {
        Record {
            header: self.header,
            id: match &self.id {
                Some(v) => Some(clone_bytes(v)),
                None => None,
            },
            payload: self.payload.clone(),
        }
    }
}

/// The fixed reserved wire type identifier, as a byte vector.
pub(crate) fn cbor_type_ident_vec() -> (r: Vec<u8>)
    ensures
        r@ == cbor_type_ident(),
{
    let mut v: Vec<u8> = Vec::new();
    v.push(0x63);
    v.push(0x62);
    v.push(0x6f);
    v.push(0x72);
    v.push(0x2e);
    v.push(0x69);
    v.push(0x6f);
    v.push(0x3a);
    v.push(0x63);
    v.push(0x62);
    v.push(0x6f);
    v.push(0x72);
    proof {
        assert(v@ =~= cbor_type_ident());
    }
    v
}

} // verus!
