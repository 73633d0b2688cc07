use rew::codec::payload_bytes;
use rew::codec::{from_base64, to_base64, Base64DecodeOptions, Payload, ByteItem, CodecError, Decoded};

#[test]
fn encodes_text_and_bytes() {
    assert_eq!(to_base64(&Payload::Text("hello".to_string())), Ok("aGVsbG8=".to_string()));
    assert_eq!(
        to_base64(&Payload::Bytes(vec![ByteItem::Int(104), ByteItem::Int(105)])),
        Ok("aGk=".to_string())
    );
    assert_eq!(to_base64(&Payload::Bytes(vec![ByteItem::Int(256 + 65)])), Ok("QQ==".to_string()));
    assert_eq!(to_base64(&Payload::Bytes(vec![])), Ok("".to_string()));
}

#[test]
fn encode_errors() {
    assert_eq!(
        to_base64(&Payload::Bytes(vec![ByteItem::Int(1), ByteItem::OtherNumber, ByteItem::NotNumber])),
        Err(CodecError::InvalidByte)
    );
    assert_eq!(
        to_base64(&Payload::Bytes(vec![ByteItem::NotNumber, ByteItem::OtherNumber])),
        Err(CodecError::NotANumber)
    );
    assert_eq!(to_base64(&Payload::Other), Err(CodecError::NotTextOrBytes));
}

#[test]
fn decodes_to_bytes_or_text() {
    match from_base64("aGk=", None) {
        Ok(Decoded::Bytes(b)) => assert_eq!(b, vec![104u8, 105]),
        _ => panic!("expected bytes"),
    }
    match from_base64("aGk=", Some(Base64DecodeOptions { as_string: true })) {
        Ok(Decoded::Text(t)) => assert_eq!(t, "hi"),
        _ => panic!("expected text"),
    }
    match from_base64("aGk=", Some(Base64DecodeOptions { as_string: false })) {
        Ok(Decoded::Bytes(b)) => assert_eq!(b, vec![104u8, 105]),
        _ => panic!("expected bytes"),
    }
}

#[test]
fn decode_errors() {
    assert!(matches!(from_base64("!!!", None), Err(CodecError::InvalidBase64)));
    assert!(matches!(
        from_base64("/w==", Some(Base64DecodeOptions { as_string: true })),
        Err(CodecError::InvalidUtf8)
    ));
}

#[test]
fn write_payloads() {
    assert_eq!(payload_bytes(false, &Payload::Text("hé".to_string())), Ok(vec![104u8, 195, 169]));
    assert_eq!(payload_bytes(true, &Payload::Bytes(vec![ByteItem::Int(7)])), Ok(vec![7u8]));
    assert_eq!(payload_bytes(true, &Payload::Text("x".to_string())), Err(CodecError::ExpectedBytes));
    assert_eq!(payload_bytes(false, &Payload::Bytes(vec![])), Err(CodecError::ExpectedText));
    assert_eq!(payload_bytes(false, &Payload::Other), Err(CodecError::ExpectedText));
    assert_eq!(payload_bytes(true, &Payload::Bytes(vec![ByteItem::NotNumber])), Err(CodecError::NotANumber));
}
