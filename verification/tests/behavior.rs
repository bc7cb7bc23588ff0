use ndef::{Error, Header, Message, Payload, Record, RecordType, TypeNameFormat};

fn text_record(enc: &[u8], txt: &[u8]) -> Record {
    Record::new(
        None,
        Payload::RTD(RecordType::Text {
            enc: enc.to_vec(),
            txt: txt.to_vec(),
        }),
    )
}

#[test]
fn short_record_threshold() {
    // serialized text payload length is 1 + enc + txt; exactly 255 sets the
    // short-record flag, 256 clears it
    let rec255 = text_record(b"fr", &vec![b'a'; 252]);
    assert!(rec255.header.short_record());
    let rec256 = text_record(b"fr", &vec![b'a'; 253]);
    assert!(!rec256.header.short_record());
}

#[test]
fn long_record_round_trip() {
    // a payload of 256 bytes forces the four-byte big-endian length field
    let mut msg = Message::default();
    let mut rec = text_record(b"fr", &vec![b'a'; 253]);
    msg.append_record(&mut rec);
    let raw = msg.to_vec();
    assert_eq!(raw[0], 0xC1); // begin | end | WellKnown, short-record clear
    assert_eq!(&raw[2..6], &[0x00, 0x00, 0x01, 0x00]); // length 256, big-endian
    assert_eq!(msg, Message::try_from(raw.as_slice()).unwrap());
}

#[test]
fn text_wire_example() {
    // a sole short text record, byte for byte
    let raw = [0xD1, 0x01, 0x06, 0x54, 0x02, 0x66, 0x72, 0x54, 0x68, 0x74];
    let mut msg = Message::default();
    let mut rec = text_record(b"fr", b"Tht");
    msg.append_record(&mut rec);
    assert_eq!(&raw, msg.to_vec().as_slice());
    assert_eq!(msg, Message::try_from(raw.as_slice()).unwrap());
}

#[test]
fn empty_input_rejected() {
    assert_eq!(Message::try_from(&[]), Err(Error::SliceTooShort));
}

#[test]
fn truncation_rejected() {
    let raw = [
        0xD4, 0x08, 0x01, 0x65, 0x78, 0x2e, 0x63, 0x6f, 0x6d, 0x3a, 0x74, 0x61,
    ];
    for k in 0..raw.len() {
        assert_eq!(Message::try_from(&raw[..k]), Err(Error::SliceTooShort));
    }
    let raw = [0xD1, 0x01, 0x06, 0x54, 0x02, 0x66, 0x72, 0x54, 0x68, 0x74];
    for k in 0..raw.len() {
        assert_eq!(Message::try_from(&raw[..k]), Err(Error::SliceTooShort));
    }
}

#[test]
fn record_boundary_prefix_decodes() {
    // truncating a two-record message exactly at the record boundary leaves a
    // complete one-record serialization, which decodes successfully: the one
    // cut the truncation law must except
    let mut msg = Message::default();
    let mut rec1 = text_record(b"fr", b"Tht");
    let mut rec2 = Record::new(
        None,
        Payload::RTD(RecordType::External {
            domain: b"ex.com".to_vec(),
            type_: b"t".to_vec(),
            data: vec![0x61],
        }),
    );
    msg.append_record(&mut rec1);
    msg.append_record(&mut rec2);
    let raw = msg.to_vec();
    assert_eq!(msg, Message::try_from(raw.as_slice()).unwrap());
    // first record: 4 fixed bytes + 1 type byte + 6 payload bytes
    let boundary = 10;
    let prefix = Message::try_from(&raw[..boundary]).unwrap();
    assert_eq!(prefix.records.len(), 1);
    // strictly inside either record, decoding still fails
    for k in 1..raw.len() {
        if k != boundary {
            assert_eq!(Message::try_from(&raw[..k]), Err(Error::SliceTooShort));
        }
    }
}

#[test]
fn chaining_flags() {
    let mut msg = Message::default();
    let mut rec1 = text_record(b"en", b"one");
    msg.append_record(&mut rec1);
    assert!(msg.records[0].header.message_begin());
    assert!(msg.records[0].header.message_end());
    let mut rec2 = text_record(b"en", b"two");
    msg.append_record(&mut rec2);
    assert!(msg.records[0].header.message_begin());
    assert!(!msg.records[0].header.message_end());
    assert!(!msg.records[1].header.message_begin());
    assert!(msg.records[1].header.message_end());
}

#[test]
fn utf16_odd_length_rejected() {
    let raw = [0xD1, 0x01, 0x04, 0x54, 0x82, 0x66, 0x72, 0x00];
    assert_eq!(Message::try_from(&raw), Err(Error::UTF16OddLength(1)));
}

#[test]
fn utf16_surrogate_pair_decodes() {
    // a big-endian surrogate pair decodes to the single code point U+1F980,
    // materialized as UTF-8
    let raw = [
        0xD1, 0x01, 0x07, 0x54, 0x82, 0x66, 0x72, 0xd8, 0x3e, 0xdd, 0x80,
    ];
    let decoded = Message::try_from(&raw).unwrap();
    let mut expected = Message::default();
    let mut rec = text_record(b"fr", "🦀".as_bytes());
    expected.append_record(&mut rec);
    assert_eq!(decoded, expected);
}

#[test]
fn utf16_unpaired_surrogate_rejected() {
    let raw = [0xD1, 0x01, 0x03, 0x54, 0x80, 0xd8, 0x3e];
    assert_eq!(Message::try_from(&raw), Err(Error::UTF16Decode));
}

#[test]
fn unsupported_tnf_rejected() {
    // TNF bits 3 (AbsoluteURI) are not interpreted by this codec
    let raw = [0xD3, 0x00, 0x00];
    assert_eq!(
        Message::try_from(&raw),
        Err(Error::UnsupportedTypeNameFormat(TypeNameFormat::AbsoluteUri))
    );
}

#[test]
fn unsupported_record_type_rejected() {
    let raw = [0xD1, 0x01, 0x00, 0x55];
    assert_eq!(
        Message::try_from(&raw),
        Err(Error::UnsupportedRecordType(vec![0x55]))
    );
}

#[test]
fn invalid_external_type_rejected() {
    let raw = [0xD4, 0x03, 0x00, 0x61, 0x62, 0x63];
    assert_eq!(
        Message::try_from(&raw),
        Err(Error::InvalidExternalType(b"abc".to_vec()))
    );
}

#[test]
fn invalid_utf8_rejected() {
    // in the type identifier
    let raw = [0xD1, 0x01, 0x00, 0xFF];
    assert_eq!(Message::try_from(&raw), Err(Error::UTF8Decode));
    // in the text region
    let raw = [0xD1, 0x01, 0x02, 0x54, 0x00, 0xFF];
    assert_eq!(Message::try_from(&raw), Err(Error::UTF8Decode));
}

#[test]
fn record_with_id_round_trips() {
    let mut msg = Message::default();
    let mut rec = Record::new(
        Some(vec![0xAA, 0xBB]),
        Payload::RTD(RecordType::External {
            domain: b"ex.com".to_vec(),
            type_: b"t".to_vec(),
            data: vec![0x61, 0x62],
        }),
    );
    assert!(rec.header.id_length());
    msg.append_record(&mut rec);
    let raw = msg.to_vec();
    assert_eq!(raw[0], 0xDC); // begin | end | short | id-present | External
    assert_eq!(raw[3], 0x02); // identifier length
    assert_eq!(msg, Message::try_from(raw.as_slice()).unwrap());
}

#[test]
fn record_accessors() {
    let rec = Record::new(
        None,
        Payload::RTD(RecordType::External {
            domain: b"ex.com".to_vec(),
            type_: b"t".to_vec(),
            data: vec![0x61],
        }),
    );
    assert_eq!(rec.get_type(), b"ex.com:t".to_vec());
    assert_eq!(rec.payload(), vec![0x61]);
    assert!(!rec.is_type_cbor());
    let cbor = Record::new(None, Payload::RTD(RecordType::Cbor(vec![0x01])));
    assert!(cbor.is_type_cbor());
    assert_eq!(cbor.get_type(), b"cbor.io:cbor".to_vec());
    let text = text_record(b"fr", b"Tht");
    assert_eq!(text.get_type(), b"T".to_vec());
    assert_eq!(text.payload(), vec![0x02, 0x66, 0x72, 0x54, 0x68, 0x74]);
}

#[test]
fn payload_lengths() {
    let text = RecordType::Text {
        enc: b"fr".to_vec(),
        txt: b"Tht".to_vec(),
    };
    assert_eq!(text.len(), 6);
    let ext = RecordType::External {
        domain: b"ex.com".to_vec(),
        type_: b"t".to_vec(),
        data: vec![0x61],
    };
    assert_eq!(ext.len(), 1);
    assert_eq!(Payload::RTD(ext).len(), 1);
}

#[test]
fn header_bit_codec() {
    let mut h = Header::default();
    assert_eq!(h.0, 0);
    h.set_type_name_format(TypeNameFormat::NfcExternal);
    assert_eq!(h.0, 0x04);
    assert_eq!(h.type_name_format(), TypeNameFormat::NfcExternal);
    h.set_message_begin();
    h.set_message_end();
    h.set_short_record();
    h.set_id_length();
    assert_eq!(h.0, 0xDC);
    // rewriting the TNF touches only the low three bits
    h.set_type_name_format(TypeNameFormat::AbsoluteUri);
    assert_eq!(h.0, 0xDB);
    assert_eq!(h.type_name_format(), TypeNameFormat::AbsoluteUri);
    h.clr_message_end();
    assert_eq!(h.0, 0x9B);
    assert!(h.message_begin());
    assert!(!h.message_end());
    assert!(h.short_record());
    assert!(h.id_length());
}
