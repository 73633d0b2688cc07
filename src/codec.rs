//! Base64 conversions offered to scripts: text or an array of byte values to
//! base64, and base64 back to bytes or text.
use vstd::prelude::*;
use vstd::utf8::{decode_utf8, encode_utf8, valid_utf8};

verus! {

/// The standard, padded base64 encoding of the bytes.
pub uninterp spec fn base64_of(b: Seq<u8>) -> Seq<char>;

/// The bytes that a standard, padded base64 text decodes to, if it is valid.
pub uninterp spec fn base64_decoded(s: Seq<char>) -> Option<Seq<u8>>;

/// Relies on base64's `Engine::encode` with the `STANDARD` engine.
#[verifier::external_body]
fn encode_standard(b: &[u8]) -> (r: String)
    ensures
        r@ == base64_of(b@),
{
    base64::Engine::encode(&base64::engine::general_purpose::STANDARD, b)
}

/// Relies on base64's `Engine::decode` with the `STANDARD` engine; its error is
/// dropped.
#[verifier::external_body]
fn decode_standard(s: &str) -> (r: Option<Vec<u8>>)
    ensures
        match r {
            Some(v) => base64_decoded(s@) == Some(v@),
            None => base64_decoded(s@) is None,
        },
{
    base64::Engine::decode(&base64::engine::general_purpose::STANDARD, s.as_bytes()).ok()
}

/// Relies on `String::from_utf8`: the text where the bytes are valid UTF-8;
/// its error is dropped.
#[verifier::external_body]
fn utf8_decode(b: Vec<u8>) -> (r: Option<String>)
    ensures
        match r {
            Some(t) => valid_utf8(b@) && t@ == decode_utf8(b@),
            None => !valid_utf8(b@),
        },
{
    String::from_utf8(b).ok()
}

/// What one element of a byte array holds.
#[derive(Clone, Copy, Debug, PartialEq, Eq, Structural)]
pub enum ByteItem {
    /// A number that fits in 64 unsigned bits; only its low byte is kept.
    Int(u64),
    /// Any other number.
    OtherNumber,
    /// Anything but a number.
    NotNumber,
}

/// Why a conversion failed.
#[derive(Clone, Copy, Debug, PartialEq, Eq, Structural)]
pub enum CodecError {
    /// A byte array held a number that is no unsigned 64-bit integer.
    InvalidByte,
    /// A byte array held something other than a number.
    NotANumber,
    /// The value to encode was neither text nor an array.
    NotTextOrBytes,
    /// The text to decode is no valid base64.
    InvalidBase64,
    /// The decoded bytes are no valid UTF-8, and text was asked for.
    InvalidUtf8,
    /// Bytes were to be written, and the value is no array.
    ExpectedBytes,
    /// Text was to be written, and the value is no text.
    ExpectedText,
}

/// A value handed over by a script: text, an array of byte values, or
/// anything else.
pub enum Payload {
    Text(String),
    Bytes(Vec<ByteItem>),
    Other,
}

/// What decoding yields.
pub enum Decoded {
    Text(String),
    Bytes(Vec<u8>),
}

/// How to hand back decoded bytes.
#[derive(Clone, Copy, Debug, PartialEq, Eq, Structural)]
pub struct Base64DecodeOptions {
    /// As text, rather than as bytes.
    pub as_string: bool,
}

/// The bytes of an array of byte values; the first element that is no byte
/// value decides the error.
pub open spec fn bytes_of_items(items: Seq<ByteItem>) -> Result<Seq<u8>, CodecError>
    decreases items.len(),
{
    if items.len() == 0 {
        Ok(Seq::empty())
    } else {
        match items[0] {
            ByteItem::Int(n) => match bytes_of_items(items.drop_first()) {
                Ok(rest) => Ok(seq![n as u8] + rest),
                Err(e) => Err(e),
            },
            ByteItem::OtherNumber => Err(CodecError::InvalidByte),
            ByteItem::NotNumber => Err(CodecError::NotANumber),
        }
    }
}

spec fn after(done: Seq<u8>, r: Result<Seq<u8>, CodecError>) -> Result<Seq<u8>, CodecError> {
    match r {
        Ok(rest) => Ok(done + rest),
        Err(e) => Err(e),
    }
}

/// The bytes of an array of byte values.
pub fn bytes_from_items(items: &Vec<ByteItem>) -> (r: Result<Vec<u8>, CodecError>)
    ensures
        match r {
            Ok(b) => bytes_of_items(items@) == Ok::<Seq<u8>, CodecError>(b@),
            Err(e) => bytes_of_items(items@) == Err::<Seq<u8>, CodecError>(e),
        },
{
    let mut out: Vec<u8> = Vec::new();
    let mut i: usize = 0;
    assert(items@.subrange(0, items@.len() as int) =~= items@);
    assert(out@ + Seq::<u8>::empty() =~= out@);
    while i < items.len()
        invariant
            i <= items.len(),
            bytes_of_items(items@) == after(out@, bytes_of_items(items@.subrange(i as int, items@.len() as int))),
        decreases items.len() - i,
    {
        let ghost rest = items@.subrange(i as int, items@.len() as int);
        assert(rest.drop_first() =~= items@.subrange(i + 1, items@.len() as int));
        match items[i] {
            ByteItem::Int(n) => {
                let ghost prev = out@;
                out.push(n as u8);
                proof {
                    match bytes_of_items(rest.drop_first()) {
                        Ok(t) => {
                            assert(prev + (seq![n as u8] + t) =~= out@ + t);
                        },
                        Err(_) => {},
                    }
                }
            },
            ByteItem::OtherNumber => {
                return Err(CodecError::InvalidByte);
            },
            ByteItem::NotNumber => {
                return Err(CodecError::NotANumber);
            },
        }
        i = i + 1;
    }
    assert(out@ + Seq::<u8>::empty() =~= out@);
    Ok(out)
}

/// The base64 of a text's UTF-8 bytes, or of an array of byte values.
pub fn to_base64(data: &Payload) -> (r: Result<String, CodecError>)
    ensures
        match data {
            Payload::Text(t) => r is Ok && r->Ok_0@ == base64_of(encode_utf8(t@)),
            Payload::Bytes(items) => match bytes_of_items(items@) {
                Ok(b) => r is Ok && r->Ok_0@ == base64_of(b),
                Err(e) => r == Err::<String, CodecError>(e),
            },
            Payload::Other => r == Err::<String, CodecError>(CodecError::NotTextOrBytes),
        },
{
    match data {
        Payload::Text(t) => Ok(encode_standard(t.as_str().as_bytes())),
        Payload::Bytes(items) => match bytes_from_items(items) {
            Ok(b) => Ok(encode_standard(b.as_slice())),
            Err(e) => Err(e),
        },
        Payload::Other => Err(CodecError::NotTextOrBytes),
    }
}

/// Decodes standard base64, into text where `options` ask for it, else into bytes.
pub fn from_base64(encoded: &str, options: Option<Base64DecodeOptions>) -> (r: Result<Decoded, CodecError>)
    ensures
        match base64_decoded(encoded@) {
            None => r == Err::<Decoded, CodecError>(CodecError::InvalidBase64),
            Some(b) => if options is Some && options->0.as_string {
                if valid_utf8(b) {
                    r is Ok && r->Ok_0 is Text && r->Ok_0->Text_0@ == decode_utf8(b)
                } else {
                    r == Err::<Decoded, CodecError>(CodecError::InvalidUtf8)
                }
            } else {
                r is Ok && r->Ok_0 is Bytes && r->Ok_0->Bytes_0@ == b
            },
        },
{
    let as_string = match options {
        Some(o) => o.as_string,
        None => false,
    };
    match decode_standard(encoded) {
        None => Err(CodecError::InvalidBase64),
        Some(b) => {
            if as_string {
                match utf8_decode(b) {
                    Some(t) => Ok(Decoded::Text(t)),
                    None => Err(CodecError::InvalidUtf8),
                }
            } else {
                Ok(Decoded::Bytes(b))
            }
        },
    }
}

/// The bytes to write for a payload: an array of byte values in binary mode,
/// the UTF-8 bytes of a text otherwise.
pub fn payload_bytes(binary: bool, content: &Payload) -> (r: Result<Vec<u8>, CodecError>)
    ensures
        binary ==> match content {
            Payload::Bytes(items) => match bytes_of_items(items@) {
                Ok(b) => r is Ok && r->Ok_0@ == b,
                Err(e) => r == Err::<Vec<u8>, CodecError>(e),
            },
            _ => r == Err::<Vec<u8>, CodecError>(CodecError::ExpectedBytes),
        },
        !binary ==> match content {
            Payload::Text(t) => r is Ok && r->Ok_0@ == encode_utf8(t@),
            _ => r == Err::<Vec<u8>, CodecError>(CodecError::ExpectedText),
        },
{
    match content {
        Payload::Bytes(items) => {
            if binary {
                bytes_from_items(items)
            } else {
                Err(CodecError::ExpectedText)
            }
        },
        Payload::Text(t) => {
            if binary {
                Err(CodecError::ExpectedBytes)
            } else {
                Ok(vstd::slice::slice_to_vec(t.as_str().as_bytes()))
            }
        },
        Payload::Other => {
            if binary {
                Err(CodecError::ExpectedBytes)
            } else {
                Err(CodecError::ExpectedText)
            }
        },
    }
}

} // verus!
