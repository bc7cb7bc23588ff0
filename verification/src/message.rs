//! Messages: ordered sequences of records, the chaining rules across them,
//! and the whole-message encode and decode entry points.

use vstd::prelude::*;

use crate::bytes::copy_range;
use crate::bytes::push_bytes;
use crate::error::Error;
use crate::error::ErrorView;
use crate::header::Header;
use crate::header::TypeNameFormat;
use crate::header::hdr_message_begin;
use crate::header::hdr_message_end;
use crate::record::Payload;
use crate::record::Record;
use crate::record::RecordType;
use crate::record::RecordTypeView;
use crate::record::RecordView;
use crate::record::cbor_type_ident;
use crate::record::cbor_type_ident_vec;
use crate::record::record_wf;
use crate::utf8::bytes_to_units;
use crate::utf8::utf16_to_utf8;
use crate::utf8::utf8_check;
use crate::wire::be32_value;
use crate::wire::colon_pos;
use crate::wire::decode_external;
use crate::wire::decode_msg;
use crate::wire::decode_record;
use crate::wire::decode_records;
use crate::wire::decode_text;
use crate::wire::lemma_colon_pos;
use crate::wire::lemma_message_bytes_push;
use crate::wire::message_bytes;

verus! {

/// The chaining invariant of a record sequence: when it is non-empty, exactly
/// the first record carries the message-begin flag and exactly the last
/// carries the message-end flag.
pub open spec fn well_chained(rs: Seq<RecordView>) -> bool {
    rs.len() > 0 ==> {
        &&& hdr_message_begin(rs[0].header)
        &&& forall|i: int| 1 <= i < rs.len() ==> !hdr_message_begin(rs[i].header)
        &&& hdr_message_end(rs[rs.len() - 1].header)
        &&& forall|i: int| 0 <= i < rs.len() - 1 ==> !hdr_message_end(rs[i].header)
    }
}

/// Every record of the sequence is well-formed.
pub open spec fn records_wf(rs: Seq<RecordView>) -> bool {
    forall|i: int| 0 <= i < rs.len() ==> record_wf(rs[i])
}

/// Setting or clearing the chaining bits of a header touches nothing else.
proof fn lemma_chain_bits(h: u8)
    by (bit_vector)
    ensures
        ((h | 0x80) | 0x40) & 0x80 == 0x80,
        ((h | 0x80) | 0x40) & 0x40 == 0x40,
        ((h | 0x80) | 0x40) & 0x07 == h & 0x07,
        ((h | 0x80) | 0x40) & 0x08 == h & 0x08,
        ((h | 0x80) | 0x40) & 0x10 == h & 0x10,
        (h | 0x40) & 0x40 == 0x40,
        (h | 0x40) & 0x80 == h & 0x80,
        (h | 0x40) & 0x07 == h & 0x07,
        (h | 0x40) & 0x08 == h & 0x08,
        (h | 0x40) & 0x10 == h & 0x10,
        (h & 0xbf) & 0x40 != 0x40,
        (h & 0xbf) & 0x80 == h & 0x80,
        (h & 0xbf) & 0x07 == h & 0x07,
        (h & 0xbf) & 0x08 == h & 0x08,
        (h & 0xbf) & 0x10 == h & 0x10,
{
}

/// Changing only the chaining bits of a record's header preserves its
/// well-formedness.
proof fn lemma_wf_chain_bits(r: RecordView, r2: RecordView)
    requires
        record_wf(r),
        r2.id == r.id,
        r2.payload == r.payload,
        r2.header == (r.header | 0x40) || r2.header == ((r.header | 0x80) | 0x40) || r2.header == (
        r.header & 0xbf),
    ensures
        record_wf(r2),
{
    lemma_chain_bits(r.header);
}

/// An ordered sequence of records. A message starts empty; records are
/// appended one at a time, and each append re-derives the chaining bits of
/// the newly appended record and of the previously-last record.
#[derive(Debug, PartialEq, Eq)]
pub struct Message {
    pub records: Vec<Record>,
}

impl View for Message {
    type V = Seq<RecordView>;

    open spec fn view(&self) -> Seq<RecordView> {
        self.records@.map_values(|r: Record| r@)
    }
}

impl Default for Message {
    /// An empty message.
    fn default() -> (r: Self)
        ensures
            r@ == Seq::<RecordView>::empty(),
    {
        let m = Message { records: Vec::new() };
        proof {
            assert(m@ =~= Seq::<RecordView>::empty());
        }
        m
    }
}

impl Message {
    /// Appends a record: the previously-last record (if any) loses its
    /// message-end flag, the appended record gains it — and the
    /// message-begin flag too when the message was empty — and a copy of the
    /// record is pushed at the back. Only chaining bits change, so the
    /// chaining invariant is established or preserved, and well-formed
    /// records stay well-formed.
    pub fn append_record(&mut self, record: &mut Record)
        ensures
            final(self)@.len() == old(self)@.len() + 1,
            final(record)@.id == old(record)@.id,
            final(record)@.payload == old(record)@.payload,
            final(record)@.header == (if old(self)@.len() == 0 {
                (old(record)@.header | 0x80) | 0x40
            } else {
                old(record)@.header | 0x40
            }),
            final(self)@[old(self)@.len() as int] == final(record)@,
            forall|i: int| 0 <= i < old(self)@.len() - 1 ==> final(self)@[i] == old(self)@[i],
            old(self)@.len() > 0 ==> final(self)@[old(self)@.len() - 1] == (RecordView {
                header: old(self)@[old(self)@.len() - 1].header & 0xbf,
                id: old(self)@[old(self)@.len() - 1].id,
                payload: old(self)@[old(self)@.len() - 1].payload,
            }),
            old(self)@.len() == 0 ==> well_chained(final(self)@),
            well_chained(old(self)@) && !hdr_message_begin(old(record)@.header) ==> well_chained(
                final(self)@,
            ),
            records_wf(old(self)@) && record_wf(old(record)@) ==> records_wf(final(self)@),
    {
        let n = self.records.len();
        if n == 0 {
            record.header.set_message_begin();
        } else {
            self.records[n - 1].header.clr_message_end();
        }
        record.header.set_message_end();
        self.records.push(record.clone());
        proof {
            let rs0 = old(self)@;
            let rs1 = final(self)@;
            let m = rs0.len() as int;
            lemma_chain_bits(old(record)@.header);
            if m > 0 {
                lemma_chain_bits(rs0[m - 1].header);
            }
            assert(forall|i: int| 0 <= i < m - 1 ==> rs1[i] == rs0[i]);
            if records_wf(rs0) && record_wf(old(record)@) {
                assert forall|i: int| 0 <= i < rs1.len() implies record_wf(rs1[i]) by {
                    if i == m {
                        lemma_wf_chain_bits(old(record)@, rs1[i]);
                    } else if i == m - 1 {
                        lemma_wf_chain_bits(rs0[i], rs1[i]);
                    }
                }
            }
            if well_chained(rs0) && !hdr_message_begin(old(record)@.header) && m > 0 {
                assert(hdr_message_begin(rs1[0].header));
                assert(hdr_message_end(rs1[rs1.len() - 1].header));
                assert forall|i: int| 1 <= i < rs1.len() implies !hdr_message_begin(
                    rs1[i].header,
                ) by {}
                assert forall|i: int| 0 <= i < rs1.len() - 1 implies !hdr_message_end(
                    rs1[i].header,
                ) by {}
            }
        }
    }

    /// Serializes the message: for each record in order, the header byte, the
    /// type-identifier length, the payload length (one byte when the record's
    /// short-record flag is set, else four big-endian bytes), the identifier
    /// length when an identifier is present, then the type identifier, the
    /// identifier, and the payload bytes, concatenated without padding.
    #[verifier::rlimit(50)]
    pub fn to_vec(&self) -> (r: Vec<u8>)
        ensures
            r@ == message_bytes(self@),
    {
        let mut buf: Vec<u8> = Vec::new();
        let mut i: usize = 0;
        while i < self.records.len()
            invariant
                i <= self.records@.len(),
                buf@ == message_bytes(self@.take(i as int)),
            decreases self.records@.len() - i,
        {
            let rec = &self.records[i];
            let ty = rec.get_type();
            let pd = rec.payload();
            buf.push(rec.header.0);
            buf.push((ty.len() % 0x100) as u8);
            if rec.header.short_record() {
                buf.push((pd.len() % 0x100) as u8);
            } else {
                let l = pd.len() as u64;
                let m = l % 0x1_0000_0000;
                buf.push((m / 0x1000000) as u8);
                buf.push(((m / 0x10000) % 0x100) as u8);
                buf.push(((m / 0x100) % 0x100) as u8);
                buf.push((m % 0x100) as u8);
            }
            if let Some(id) = &rec.id {
                buf.push((id.len() % 0x100) as u8);
            }
            push_bytes(&mut buf, ty.as_slice());
            if let Some(id) = &rec.id {
                push_bytes(&mut buf, id.as_slice());
            }
            push_bytes(&mut buf, pd.as_slice());
            proof {
                assert(self@.take(i + 1) =~= self@.take(i as int).push(self@[i as int]));
                lemma_message_bytes_push(self@.take(i as int), self@[i as int]);
                assert(buf@ =~= message_bytes(self@.take(i + 1)));
            }
            i = i + 1;
        }
        proof {
            assert(self@.take(self@.len() as int) =~= self@);
        }
        buf
    }

    /// Decodes a message from raw bytes: one record's worth of bytes is
    /// peeled off the front per iteration until the input is exhausted. Any
    /// failure — a field running past the end, an unknown format, invalid
    /// text — discards the whole decode; an empty input is itself too short.
    /// The result is exactly what the spec-level parser [`decode_msg`]
    /// returns.
    pub fn try_from(slice: &[u8]) -> (res: Result<Message, Error>)
        ensures
            (match res {
                Ok(m) => decode_msg(slice@) == Ok::<Seq<RecordView>, ErrorView>(m@),
                Err(e) => decode_msg(slice@) == Err::<Seq<RecordView>, ErrorView>(e@),
            }),
    {
        if slice.len() == 0 {
            return Err(Error::SliceTooShort);
        }
        let mut records: Vec<Record> = Vec::new();
        let mut offset: usize = 0;
        proof {
            assert(slice@.skip(0) =~= slice@);
            assert(records@.map_values(|rec: Record| rec@) =~= Seq::<RecordView>::empty());
            if decode_records(slice@) is Ok {
                assert(Seq::<RecordView>::empty() + decode_records(slice@)->Ok_0 =~= decode_records(
                    slice@,
                )->Ok_0);
            }
        }
        while offset < slice.len()
            invariant
                offset <= slice@.len(),
                0 < slice@.len(),
                (match decode_records(slice@.skip(offset as int)) {
                    Ok(rest) => decode_records(slice@) == Ok::<Seq<RecordView>, ErrorView>(
                        records@.map_values(|rec: Record| rec@) + rest,
                    ),
                    Err(e) => decode_records(slice@) == Err::<Seq<RecordView>, ErrorView>(e),
                }),
            decreases slice@.len() - offset,
        {
            let ghost rem = slice@.skip(offset as int);
            match parse_record(slice, offset) {
                Ok((rec, end)) => {
                    proof {
                        assert(rem.skip(end - offset) =~= slice@.skip(end as int));
                    }
                    let ghost before = records@.map_values(|r: Record| r@);
                    records.push(rec);
                    proof {
                        assert(records@.map_values(|r: Record| r@) =~= before.push(rec@));
                        if decode_records(slice@.skip(end as int)) is Ok {
                            let rest2 = decode_records(slice@.skip(end as int))->Ok_0;
                            assert(decode_records(rem) == Ok::<Seq<RecordView>, ErrorView>(
                                seq![rec@] + rest2,
                            ));
                            assert(before.push(rec@) + rest2 =~= before + (seq![rec@] + rest2));
                        }
                    }
                    offset = end;
                },
                Err(e) => {
                    return Err(e);
                },
            }
        }
        proof {
            assert(slice@.skip(slice@.len() as int) =~= Seq::<u8>::empty());
            assert(records@.map_values(|rec: Record| rec@) + Seq::<RecordView>::empty()
                =~= records@.map_values(|rec: Record| rec@));
        }
        Ok(Message { records })
    }
}

/// Compares a type identifier against the fixed reserved identifier of the
/// generic binary-object variant.
fn is_cbor_ident(ty: &Vec<u8>) -> (r: bool)
    ensures
        r == (ty@ == cbor_type_ident()),
{
    proof {
        assert(cbor_type_ident().len() == 12);
    }
    if ty.len() != 12 {
        return false;
    }
    let c = cbor_type_ident_vec();
    let mut i: usize = 0;
    while i < 12
        invariant
            i <= 12,
            ty@.len() == 12,
            c@ == cbor_type_ident(),
            forall|j: int| 0 <= j < i ==> ty@[j] == cbor_type_ident()[j],
        decreases 12 - i,
    {
        if ty[i] != c[i] {
            return false;
        }
        i = i + 1;
    }
    proof {
        assert(ty@ =~= cbor_type_ident());
    }
    true
}

/// Parses a text payload region, as [`decode_text`] describes it.
fn parse_text(pd: &Vec<u8>) -> (res: Result<RecordType, Error>)
    ensures
        (match res {
            Ok(rt) => decode_text(pd@) == Ok::<RecordTypeView, ErrorView>(rt@),
            Err(e) => decode_text(pd@) == Err::<RecordTypeView, ErrorView>(e@),
        }),
{
    if pd.len() == 0 {
        return Err(Error::SliceTooShort);
    }
    let b0 = pd[0];
    let enc_len = (b0 & 0x1f) as usize;
    if pd.len() < enc_len + 1 {
        return Err(Error::SliceTooShort);
    }
    let enc = copy_range(pd.as_slice(), 1, enc_len + 1);
    if !utf8_check(enc.as_slice()) {
        return Err(Error::UTF8Decode);
    }
    let rest = copy_range(pd.as_slice(), enc_len + 1, pd.len());
    if b0 & 0x80 == 0x80 {
        if rest.len() % 2 != 0 {
            return Err(Error::UTF16OddLength(rest.len()));
        }
        let units = bytes_to_units(rest.as_slice());
        match utf16_to_utf8(units.as_slice()) {
            Some(txt) => Ok(RecordType::Text { enc, txt }),
            None => Err(Error::UTF16Decode),
        }
    } else {
        if !utf8_check(rest.as_slice()) {
            return Err(Error::UTF8Decode);
        }
        Ok(RecordType::Text { enc, txt: rest })
    }
}

/// Parses an external payload from its type identifier and payload region, as
/// [`decode_external`] describes it.
fn parse_external(ty: Vec<u8>, data: Vec<u8>) -> (res: Result<RecordType, Error>)
    ensures
        (match res {
            Ok(rt) => decode_external(ty@, data@) == Ok::<RecordTypeView, ErrorView>(rt@),
            Err(e) => decode_external(ty@, data@) == Err::<RecordTypeView, ErrorView>(e@),
        }),
{
    if is_cbor_ident(&ty) {
        return Ok(RecordType::Cbor(data));
    }
    proof {
        lemma_colon_pos(ty@);
    }
    let mut i: usize = 0;
    while i < ty.len()
        invariant
            i <= ty@.len(),
            ty@ != cbor_type_ident(),
            forall|j: int| 0 <= j < i ==> ty@[j] != 0x3a,
        decreases ty@.len() - i,
    {
        if ty[i] == 0x3a {
            proof {
                lemma_colon_pos(ty@);
                assert(colon_pos(ty@) == i);
            }
            let domain = copy_range(ty.as_slice(), 0, i);
            let type_ = copy_range(ty.as_slice(), i + 1, ty.len());
            return Ok(RecordType::External { domain, type_, data });
        }
        i = i + 1;
    }
    proof {
        lemma_colon_pos(ty@);
        assert(colon_pos(ty@) == ty@.len());
    }
    Err(Error::InvalidExternalType(ty))
}

/// Parses one record starting at `offset`; returns the record and the offset
/// just past its payload, or the exact error that [`decode_record`] gives for
/// the bytes from `offset` on.
#[verifier::rlimit(100)]
fn parse_record(slice: &[u8], offset: usize) -> (res: Result<(Record, usize), Error>)
    requires
        offset < slice@.len(),
    ensures
        (match res {
            Ok((rec, end)) => {
                &&& offset < end <= slice@.len()
                &&& decode_record(slice@.skip(offset as int)) == Ok::<(RecordView, int), ErrorView>(
                    (rec@, end - offset),
                )
            },
            Err(e) => decode_record(slice@.skip(offset as int)) == Err::<
                (RecordView, int),
                ErrorView,
            >(e@),
        }),
{
    let ghost b = slice@.skip(offset as int);
    let len = slice.len();
    proof {
        assert(b.len() == len - offset);
    }
    // header byte and type-identifier length
    if len - offset < 2 {
        return Err(Error::SliceTooShort);
    }
    let header = Header(slice[offset]);
    let tl = slice[offset + 1] as usize;
    proof {
        assert(b[0] == slice@[offset as int]);
        assert(b[1] == slice@[offset + 1]);
    }
    // payload length: one byte or four big-endian bytes
    let short = header.short_record();
    let pos0 = offset + 2;
    let pl_width: usize = if short {
        1
    } else {
        4
    };
    if len - pos0 < pl_width {
        return Err(Error::SliceTooShort);
    }
    let pl: usize;
    let pos1: usize;
    if short {
        pl = slice[pos0] as usize;
        pos1 = pos0 + 1;
        proof {
            assert(b[2] == slice@[pos0 as int]);
        }
    } else {
        let w0 = slice[pos0] as u32;
        let w1 = slice[pos0 + 1] as u32;
        let w2 = slice[pos0 + 2] as u32;
        let w3 = slice[pos0 + 3] as u32;
        let v: u32 = w0 * 0x1000000 + w1 * 0x10000 + w2 * 0x100 + w3;
        pl = v as usize;
        pos1 = pos0 + 4;
        proof {
            assert(b.subrange(2, 6) =~= slice@.subrange(pos0 as int, pos0 + 4));
            assert(b.subrange(2, 6)[0] == slice@[pos0 as int]);
            assert(b.subrange(2, 6)[1] == slice@[pos0 + 1]);
            assert(b.subrange(2, 6)[2] == slice@[pos0 + 2]);
            assert(b.subrange(2, 6)[3] == slice@[pos0 + 3]);
            assert(pl as int == be32_value(b.subrange(2, 6)));
        }
    }
    // identifier length, present only when the header says so
    let id_flag = header.id_length();
    let il: usize;
    let pos2: usize;
    if id_flag {
        if len - pos1 < 1 {
            return Err(Error::SliceTooShort);
        }
        il = slice[pos1] as usize;
        pos2 = pos1 + 1;
        proof {
            assert(b[pos1 - offset] == slice@[pos1 as int]);
        }
    } else {
        il = 0;
        pos2 = pos1;
    }
    // type identifier, which must be valid UTF-8
    if len - pos2 < tl {
        return Err(Error::SliceTooShort);
    }
    let ty = copy_range(slice, pos2, pos2 + tl);
    proof {
        assert(ty@ =~= b.subrange(pos2 - offset, pos2 - offset + tl));
    }
    if !utf8_check(ty.as_slice()) {
        return Err(Error::UTF8Decode);
    }
    let pos3 = pos2 + tl;
    // identifier bytes
    if len - pos3 < il {
        return Err(Error::SliceTooShort);
    }
    let id: Option<Vec<u8>> = if id_flag {
        let idv = copy_range(slice, pos3, pos3 + il);
        proof {
            assert(idv@ =~= b.subrange(pos3 - offset, pos3 - offset + il));
        }
        Some(idv)
    } else {
        None
    };
    let pos4 = pos3 + il;
    // payload region
    if len - pos4 < pl {
        return Err(Error::SliceTooShort);
    }
    let pd = copy_range(slice, pos4, pos4 + pl);
    proof {
        assert(pd@ =~= b.subrange(pos4 - offset, pos4 - offset + pl));
    }
    let end = pos4 + pl;
    // dispatch on the type-name-format
    match header.type_name_format() {
        TypeNameFormat::NfcWellKnown => {
            if ty.len() != 1 || ty[0] != 0x54 {
                return Err(Error::UnsupportedRecordType(ty));
            }
            proof {
                assert(ty@ =~= seq![0x54u8]);
            }
            match parse_text(&pd) {
                Ok(rt) => Ok((Record { header, id, payload: Payload::RTD(rt) }, end)),
                Err(e) => Err(e),
            }
        },
        TypeNameFormat::NfcExternal => {
            match parse_external(ty, pd) {
                Ok(rt) => Ok((Record { header, id, payload: Payload::RTD(rt) }, end)),
                Err(e) => Err(e),
            }
        },
        tnf => Err(Error::UnsupportedTypeNameFormat(tnf)),
    }
}

} // verus!
