//! Framing of a stored table: its JSON text is gzip-compressed, then
//! base64-encoded.

use std::io::Read;
use vstd::prelude::*;
use vstd::utf8::*;
use crate::model::opt_chars;

verus! {

/// `base64::DecodeError`, the error of a failed base64 decoding.
#[verifier::external_type_specification]
#[verifier::external_body]
pub struct ExDecodeError(base64::DecodeError);

/// `std::io::Error`, the error of a failed read of a gzip stream.
#[verifier::external_type_specification]
#[verifier::external_body]
pub struct ExIoError(std::io::Error);

/// What standard base64 decoding (`base64::decode`) makes of a text: its
/// bytes, or `None` when the text is not valid base64.
pub uninterp spec fn base64_decoding(text: Seq<char>) -> Option<Seq<u8>>;

/// The character of a 6-bit value in the standard base64 alphabet
/// `A`-`Z`, `a`-`z`, `0`-`9`, `+`, `/`.
pub open spec fn base64_digit(v: int) -> char {
    if v < 26 {
        (65 + v) as char
    } else if v < 52 {
        (71 + v) as char
    } else if v < 62 {
        (v - 4) as char
    } else if v == 62 {
        '+'
    } else {
        '/'
    }
}

/// Standard base64 encoding with padding: every three bytes become four
/// characters of six bits each; a final one or two bytes are padded with `=`.
pub open spec fn base64_encoding(bytes: Seq<u8>) -> Seq<char>
    decreases bytes.len(),
{
    if bytes.len() == 0 {
        Seq::empty()
    } else if bytes.len() == 1 {
        let b0 = bytes[0] as int;
        seq![base64_digit(b0 / 4), base64_digit((b0 % 4) * 16), '=', '=']
    } else if bytes.len() == 2 {
        let b0 = bytes[0] as int;
        let b1 = bytes[1] as int;
        seq![
            base64_digit(b0 / 4),
            base64_digit((b0 % 4) * 16 + b1 / 16),
            base64_digit((b1 % 16) * 4),
            '=',
        ]
    } else {
        let b0 = bytes[0] as int;
        let b1 = bytes[1] as int;
        let b2 = bytes[2] as int;
        seq![
            base64_digit(b0 / 4),
            base64_digit((b0 % 4) * 16 + b1 / 16),
            base64_digit((b1 % 16) * 4 + b2 / 64),
            base64_digit(b2 % 64),
        ] + base64_encoding(bytes.skip(3))
    }
}

/// What reading a gzip stream yields (`libflate::gzip::Decoder::new`, then
/// `read_to_end`): `None` when the header cannot be read, otherwise the
/// bytes decoded before the end of the stream or the first error.
pub uninterp spec fn gzip_decoding(data: Seq<u8>) -> Option<Seq<u8>>;

/// What `String::from_utf8_lossy` makes of some bytes.
pub uninterp spec fn lossy_text(bytes: Seq<u8>) -> Seq<char>;

/// Calls `base64::decode` (standard alphabet, padding). Claims that the
/// result is the named decoding of the text, and that the call fails
/// exactly when that decoding is undefined.
#[verifier::external_body]
fn base64_decode(text: &str) -> (r: Result<Vec<u8>, base64::DecodeError>)
    ensures
        match r {
            Ok(bytes) => base64_decoding(text@) == Some(bytes@),
            Err(_) => base64_decoding(text@) is None,
        },
{
    base64::decode(text)
}

/// Calls `base64::encode` (standard alphabet, padding). Claims that the
/// result is the standard padded base64 encoding of the bytes and that
/// decoding it gives the bytes back. The crate computes the encoded length
/// with checked arithmetic that can only overflow for more than `isize::MAX`
/// bytes, which the `requires` rules out; beyond that it only allocates the
/// encoded text, a memory limit left unmodelled here as in vstd's own
/// specifications of `String` and `Vec` growth.
#[verifier::external_body]
fn base64_encode(bytes: &[u8]) -> (r: String)
    requires
        bytes@.len() <= isize::MAX,
    ensures
        r@ == base64_encoding(bytes@),
        base64_decoding(r@) == Some(bytes@),
{
    base64::encode(bytes)
}

/// Calls `libflate::gzip::Decoder::new` on the bytes and reads the decoder
/// to its end with `read_to_end`, returning the bytes read together with the
/// outcome of that read (the bytes stay what was read before an error).
/// Claims that the call fails exactly when the named decoding is undefined,
/// and that the bytes read are that decoding otherwise.
#[verifier::external_body]
fn gzip_read(data: &[u8]) -> (r: Result<(Vec<u8>, Result<usize, std::io::Error>), std::io::Error>)
    ensures
        match r {
            Ok((out, _)) => gzip_decoding(data@) == Some(out@),
            Err(_) => gzip_decoding(data@) is None,
        },
{
    match libflate::gzip::Decoder::new(data) {
        Ok(mut decoder) => {
            let mut out = Vec::new();
            let outcome = decoder.read_to_end(&mut out);
            Ok((out, outcome))
        },
        Err(e) => Err(e),
    }
}

/// Compresses the bytes with `libflate::gzip::Encoder` (default options),
/// copying them in with `std::io::copy` and finishing the stream. The gzip
/// header records the current time, so the output differs from call to
/// call and is not named; what is claimed is that reading it back as a gzip
/// stream yields the input, and that the output, being a `Vec<u8>`, holds
/// at most `isize::MAX` bytes, as std documents of every `Vec`'s capacity.
/// Writing into a `Vec` does not fail, so the unwraps do not panic.
#[verifier::external_body]
fn gzip_encode(data: &[u8]) -> (r: Vec<u8>)
    ensures
        gzip_decoding(r@) == Some(data@),
        r@.len() <= isize::MAX,
{
    let mut encoder = libflate::gzip::Encoder::new(Vec::new()).unwrap();
    std::io::copy(&mut &data[..], &mut encoder).unwrap();
    encoder.finish().into_result().unwrap_or_default()
}

/// Calls `String::from_utf8_lossy` and takes the text as an owned string.
/// Claims that the result is the named lossy text of the bytes and, as the
/// documentation states, that valid UTF-8 is decoded as such.
#[verifier::external_body]
fn utf8_lossy(bytes: &[u8]) -> (r: String)
    ensures
        r@ == lossy_text(bytes@),
        valid_utf8(bytes@) ==> r@ == decode_utf8(bytes@),
{
    String::from_utf8_lossy(bytes).into_owned()
}

/// Bytes read as text: decoded when they are valid UTF-8, and with the
/// invalid sequences replaced otherwise.
pub open spec fn utf8_text(raw: Seq<u8>) -> Seq<char> {
    if valid_utf8(raw) {
        decode_utf8(raw)
    } else {
        lossy_text(raw)
    }
}

/// The JSON text a stored payload holds: base64-decoded, gzip-decoded, then
/// read as UTF-8 with invalid sequences replaced; `None` when it is not
/// base64 or not a gzip stream.
pub open spec fn payload_text(encoded: Seq<char>) -> Option<Seq<char>> {
    match base64_decoding(encoded) {
        None => None,
        Some(packed) => match gzip_decoding(packed) {
            None => None,
            Some(raw) => Some(utf8_text(raw)),
        },
    }
}

/// `encoded` is the base64 encoding of a gzip stream that holds `text`, and
/// decodes back to that stream.
pub open spec fn frames(encoded: Seq<char>, text: Seq<char>) -> bool {
    exists|packed: Seq<u8>|
        #![trigger gzip_decoding(packed)]
        encoded == base64_encoding(packed) && base64_decoding(encoded) == Some(packed)
            && gzip_decoding(packed) == Some(encode_utf8(text))
}

/// Unpacks a stored payload into the JSON text it holds.
pub fn decode_payload(encoded: &str) -> (r: Option<String>)
    ensures
        opt_chars(r) == payload_text(encoded@),
{
    match base64_decode(encoded) {
        Err(_) => None,
        Ok(packed) => match gzip_read(packed.as_slice()) {
            Err(_) => None,
            // a stream that breaks off keeps what was read before the break
            Ok((raw, _outcome)) => Some(utf8_lossy(raw.as_slice())),
        },
    }
}

/// Base64-encodes the compressed bytes of a payload: their standard padded
/// base64 encoding, which decodes back to them, whenever the bytes fit in
/// memory (at most `isize::MAX` of them, as every slice does), and `None`
/// otherwise.
pub fn frame_packed(packed: &[u8]) -> (r: Option<String>)
    ensures
        match r {
            Some(s) => packed@.len() <= isize::MAX && s@ == base64_encoding(packed@) && base64_decoding(s@)
                == Some(packed@),
            None => packed@.len() > isize::MAX,
        },
{
    if packed.len() <= isize::MAX as usize {
        Some(base64_encode(packed))
    } else {
        None
    }
}

/// Packs a JSON text into a stored payload: its UTF-8 bytes, gzip-compressed,
/// then base64-encoded. Unpacking the payload gives the text back.
pub fn encode_payload(text: &str) -> (r: String)
    ensures
        frames(r@, text@),
        payload_text(r@) == Some(text@),
{
    let bytes = text.as_bytes();
    let packed = gzip_encode(bytes);
    match frame_packed(packed.as_slice()) {
        Some(s) => {
            proof {
                encode_utf8_valid_utf8(text@);
                encode_utf8_decode_utf8(text@);
                assert(gzip_decoding(packed@) == Some(encode_utf8(text@)));
            }
            s
        },
        None => {
            proof {
                assert(false);
            }
            String::new()
        },
    }
}

/// The payload of an empty table: the JSON text `[]`, packed.
pub fn empty_payload() -> (r: String)
    ensures
        frames(r@, "[]"@),
        payload_text(r@) == Some("[]"@),
{
    encode_payload("[]")
}

} // verus!
