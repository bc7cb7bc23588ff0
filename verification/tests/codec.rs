use ndef::{Message, Payload, Record, RecordType};

#[test]
fn test_rtd_text_utf8() {
    let raw = [
        0xD1, 0x01, 0x12, 0x54, 0x02, 0x66, 0x72, 0x55, 0x54, 0x46, 0x2D, 0x38, 0x20, 0x74, 0x65,
        0x78, 0x74, 0x20, 0xf0, 0x9f, 0xa6, 0x80,
    ];
    let mut msg = Message::default();
    let txt = "UTF-8 text 🦀";
    let mut rec1 = Record::new(
        None,
        Payload::RTD(RecordType::Text {
            enc: b"fr".to_vec(),
            txt: txt.as_bytes().to_vec(),
        }),
    );
    msg.append_record(&mut rec1);
    assert_eq!(msg, Message::try_from(raw.as_slice()).unwrap());
    assert_eq!(&raw, msg.to_vec().as_slice());
}

#[test]
fn test_rtd_text_utf16() {
    let raw = [
        0xD1, 0x01, 0x1F, 0x54, 0x82, 0x66, 0x72, 0x00, 0x55, 0x00, 0x54, 0x00, 0x46, 0x00, 0x2D,
        0x00, 0x31, 0x00, 0x36, 0x00, 0x20, 0x00, 0x74, 0x00, 0x65, 0x00, 0x78, 0x00, 0x74, 0x00,
        0x20, 0xd8, 0x3e, 0xdd, 0x80,
    ];
    let mut msg = Message::default();
    let mut rec1 = Record::new(
        None,
        Payload::RTD(RecordType::Text {
            enc: b"fr".to_vec(),
            txt: "UTF-16 text 🦀".as_bytes().to_vec(),
        }),
    );
    msg.append_record(&mut rec1);
    assert_eq!(msg, Message::try_from(raw.as_slice()).unwrap());
}

#[test]
fn test_rtd_external() {
    let raw = [
        0xD4, 0x08, 0x01, 0x65, 0x78, 0x2e, 0x63, 0x6f, 0x6d, 0x3a, 0x74, 0x61,
    ];
    let mut msg = Message::default();
    let mut rec1 = Record::new(
        None,
        Payload::RTD(RecordType::External {
            domain: b"ex.com".to_vec(),
            type_: b"t".to_vec(),
            data: vec![0x61],
        }),
    );
    msg.append_record(&mut rec1);
    assert_eq!(msg, Message::try_from(raw.as_slice()).unwrap());
    assert_eq!(&raw, msg.to_vec().as_slice());
}

#[test]
fn test_cbor() {
    let raw = [
        0xD4, 0x0c, 0x01, 0x63, 0x62, 0x6f, 0x72, 0x2e, 0x69, 0x6f, 0x3a, 0x63, 0x62, 0x6f, 0x72,
        0x61,
    ];
    let mut msg = Message::default();
    let mut rec1 = Record::new(None, Payload::RTD(RecordType::Cbor(vec![0x61])));
    msg.append_record(&mut rec1);
    assert_eq!(msg, Message::try_from(raw.as_slice()).unwrap());
    assert_eq!(&raw, msg.to_vec().as_slice());
}
