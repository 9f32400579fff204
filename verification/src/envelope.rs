//! The text envelope that carries an encoded record.
//!
//! An envelope is `$`, two decimal digits of a format version, `s`, a
//! payload, and `$e`. The payload is the base64 text of the zlib stream of
//! the ciphered record bytes. Base64 and zlib are the work of the `base64`
//! and `flate2` crates; the framing and the cipher are done here.

use crate::text::{text_chars, text_piece};
use std::io::Read;
use vstd::prelude::*;
use vstd::string::*;

verus! {

/// `std::io::Error`, carried through as it comes from the compression.
#[verifier::external_type_specification]
#[verifier::external_body]
pub struct ExIoError(std::io::Error);

/// Why an envelope could not be opened or made.
#[derive(Debug)]
pub enum SaveError {
    /// The text is not `$`, two digits, `s`, a payload on one line and `$e`.
    InvalidSaveString,
    /// The payload is not base64 text.
    InvalidBase64,
    /// The compressed stream could not be read or written.
    CompressError(std::io::Error),
}

/// The compression level of the payload.
pub const COMPRESSION_LEVEL: u32 = 6;

/// What `base64::decode` gives for a text: the bytes it stands for, or
/// nothing when it is not base64 text.
pub uninterp spec fn base64_decoding(text: Seq<char>) -> Option<Seq<u8>>;

/// What `base64::encode` gives for bytes.
pub uninterp spec fn base64_encoding(data: Seq<u8>) -> Seq<char>;

/// What reading a `flate2::read::ZlibDecoder` over `data` to its end gives:
/// the inflated bytes, or nothing when `data` is no zlib stream.
pub uninterp spec fn zlib_inflation(data: Seq<u8>) -> Option<Seq<u8>>;

/// What reading a `flate2::read::ZlibEncoder` over `data` at compression
/// level `level` to its end gives: the zlib stream, or nothing when the
/// read fails.
pub uninterp spec fn zlib_deflation(data: Seq<u8>, level: u32) -> Option<Seq<u8>>;

/// `base64::decode` with the standard alphabet and padding. The result is
/// a function of the text alone.
#[verifier::external_body]
fn base64_decode(text: &str) -> (r: Option<Vec<u8>>)
    ensures
        match r {
            Some(data) => base64_decoding(text@) == Some(data@),
            None => base64_decoding(text@).is_none(),
        },
{
    base64::decode(text).ok()
}

/// `base64::encode` with the standard alphabet and padding. The result is
/// a function of the bytes alone.
#[verifier::external_body]
fn base64_encode(data: &Vec<u8>) -> (text: String)
    ensures
        text@ == base64_encoding(data@),
{
    base64::encode(data)
}

/// `std::io::Read::read_to_end` on a `flate2::read::ZlibDecoder` over
/// `data`. The bytes read, or the failure, are a function of `data` alone.
#[verifier::external_body]
fn zlib_inflate(data: &Vec<u8>) -> (r: Result<Vec<u8>, std::io::Error>)
    ensures
        match r {
            Ok(out) => zlib_inflation(data@) == Some(out@),
            Err(_) => zlib_inflation(data@).is_none(),
        },
{
    let mut out = Vec::new();
    flate2::read::ZlibDecoder::new(&data[..]).read_to_end(&mut out)?;
    Ok(out)
}

/// `std::io::Read::read_to_end` on a `flate2::read::ZlibEncoder` over
/// `data` at the given level, which the crate documents on a scale of 0 to
/// 9. The bytes read, or the failure, are a function of `data` and the
/// level.
#[verifier::external_body]
fn zlib_deflate(data: &Vec<u8>, level: u32) -> (r: Result<Vec<u8>, std::io::Error>)
    requires
        level <= 9,
    ensures
        match r {
            Ok(out) => zlib_deflation(data@, level) == Some(out@),
            Err(_) => zlib_deflation(data@, level).is_none(),
        },
{
    let mut out = Vec::new();
    flate2::read::ZlibEncoder::new(&data[..], flate2::Compression::new(level)).read_to_end(&mut out)?;
    Ok(out)
}

/// The key of the cipher, which repeats over the data.
pub open spec fn cipher_key() -> Seq<u8> {
    seq![116u8, 104u8, 101u8, 114u8, 101u8, 97u8, 108u8, 109u8, 105u8, 115u8, 97u8, 108u8, 105u8, 101u8]
}

/// The bytes `data` with the repeating key added bit by bit. Applying the
/// cipher twice gives the data back.
pub open spec fn ciphered(data: Seq<u8>) -> Seq<u8> {
    Seq::new(data.len(), |i: int| data[i] ^ cipher_key()[i % 14])
}

pub open spec fn is_decimal_digit(c: char) -> bool {
    '0' <= c && c <= '9'
}

/// Whether `text` is an envelope: `$`, two decimal digits, `s`, a payload
/// without a line feed, and `$e`.
pub open spec fn framed(text: Seq<char>) -> bool {
    &&& text.len() >= 6
    &&& text[0] == '$'
    &&& is_decimal_digit(text[1])
    &&& is_decimal_digit(text[2])
    &&& text[3] == 's'
    &&& text[text.len() - 2] == '$'
    &&& text[text.len() - 1] == 'e'
    &&& forall|i: int| 4 <= i < text.len() - 2 ==> text[i] != '\n'
}

/// The payload of an envelope.
pub open spec fn payload_of(text: Seq<char>) -> Seq<char> {
    text.subrange(4, text.len() - 2)
}

/// The decimal digit for `d`.
pub open spec fn digit_char(d: nat) -> char {
    if d == 0 {
        '0'
    } else if d == 1 {
        '1'
    } else if d == 2 {
        '2'
    } else if d == 3 {
        '3'
    } else if d == 4 {
        '4'
    } else if d == 5 {
        '5'
    } else if d == 6 {
        '6'
    } else if d == 7 {
        '7'
    } else if d == 8 {
        '8'
    } else {
        '9'
    }
}

/// The version tag of an envelope: the two decimal digits of a version
/// below one hundred, tens first.
pub open spec fn version_tag(version: u16) -> Seq<char> {
    seq![digit_char((version / 10) as nat), digit_char((version % 10) as nat)]
}

/// The envelope around `payload`.
pub open spec fn framing(version: u16, payload: Seq<char>) -> Seq<char> {
    seq!['$'] + version_tag(version) + seq!['s'] + payload + seq!['$', 'e']
}

fn is_digit(c: char) -> (r: bool)
    ensures
        r == is_decimal_digit(c),
{
    c >= '0' && c <= '9'
}

/// Takes the payload out of an envelope; `None` when the text is no
/// envelope.
pub fn save_payload(save: &str) -> (r: Option<String>)
    ensures
        match r {
            Some(payload) => framed(save@) && payload@ == payload_of(save@),
            None => !framed(save@),
        },
{
    let chars = text_chars(save);
    let n = chars.len();
    if n < 6 {
        return None;
    }
    if chars[0] != '$' || !is_digit(chars[1]) || !is_digit(chars[2]) || chars[3] != 's' || chars[n - 2] != '$'
        || chars[n - 1] != 'e' {
        return None;
    }
    let mut i: usize = 4;
    while i < n - 2
        invariant
            4 <= i <= n - 2,
            n == chars@.len(),
            chars@ == save@,
            forall|j: int| 4 <= j < i ==> save@[j] != '\n',
        decreases n - i,
    {
        if chars[i] == '\n' {
            return None;
        }
        i += 1;
    }
    Some(text_piece(save, 4, n - 2))
}

/// One byte of the key.
fn key_byte(i: usize) -> (b: u8)
    requires
        i < 14,
    ensures
        b == cipher_key()[i as int],
{
    if i == 0 {
        116
    } else if i == 1 {
        104
    } else if i == 2 {
        101
    } else if i == 3 {
        114
    } else if i == 4 {
        101
    } else if i == 5 {
        97
    } else if i == 6 {
        108
    } else if i == 7 {
        109
    } else if i == 8 {
        105
    } else if i == 9 {
        115
    } else if i == 10 {
        97
    } else if i == 11 {
        108
    } else if i == 12 {
        105
    } else {
        101
    }
}

/// Applies the cipher to `data`.
pub fn apply_cipher(data: &[u8]) -> (out: Vec<u8>)
    ensures
        out@ == ciphered(data@),
{
    let mut out: Vec<u8> = Vec::new();
    let mut i: usize = 0;
    while i < data.len()
        invariant
            i <= data@.len(),
            out@.len() == i,
            forall|j: int| 0 <= j < i ==> out@[j] == data@[j] ^ cipher_key()[j % 14],
        decreases data@.len() - i,
    {
        out.push(data[i] ^ key_byte(i % 14));
        i += 1;
    }
    assert(out@ =~= ciphered(data@));
    out
}

/// The cipher undoes itself.
pub proof fn lemma_cipher_involution(data: Seq<u8>)
    ensures
        ciphered(ciphered(data)) == data,
{
    assert forall|i: int| 0 <= i < data.len() implies ciphered(ciphered(data))[i] == data[i] by {
        let a = data[i];
        let k = cipher_key()[i % 14];
        assert((a ^ k) ^ k == a) by (bit_vector);
    }
    assert(ciphered(ciphered(data)) =~= data);
}

/// The text of one decimal digit.
fn digit_text(d: u16) -> (t: &'static str)
    requires
        d < 10,
    ensures
        t@ == seq![digit_char(d as nat)],
{
    proof {
        reveal_strlit("0");
        reveal_strlit("1");
        reveal_strlit("2");
        reveal_strlit("3");
        reveal_strlit("4");
        reveal_strlit("5");
        reveal_strlit("6");
        reveal_strlit("7");
        reveal_strlit("8");
        reveal_strlit("9");
    }
    let t = if d == 0 {
        "0"
    } else if d == 1 {
        "1"
    } else if d == 2 {
        "2"
    } else if d == 3 {
        "3"
    } else if d == 4 {
        "4"
    } else if d == 5 {
        "5"
    } else if d == 6 {
        "6"
    } else if d == 7 {
        "7"
    } else if d == 8 {
        "8"
    } else {
        "9"
    };
    assert(t@ =~= seq![digit_char(d as nat)]);
    t
}

/// Puts `payload` into an envelope of the given version, which has two
/// digits.
pub fn frame(version: u16, payload: &str) -> (text: String)
    requires
        version < 100,
    ensures
        text@ == framing(version, payload@),
{
    proof {
        reveal_strlit("$");
        reveal_strlit("s");
        reveal_strlit("$e");
    }
    let mut text = String::from_str("$");
    text.append(digit_text(version / 10));
    text.append(digit_text(version % 10));
    text.append("s");
    text.append(payload);
    text.append("$e");
    proof {
        assert("$"@ =~= seq!['$']);
        assert("s"@ =~= seq!['s']);
        assert("$e"@ =~= seq!['$', 'e']);
        assert(text@ =~= framing(version, payload@));
    }
    text
}

/// An envelope that was made can be opened again: for a version below one
/// hundred and a payload on one line, the framing is an envelope, and its
/// payload is the payload that was put in.
pub proof fn lemma_framing_is_framed(version: u16, payload: Seq<char>)
    requires
        version < 100,
        forall|i: int| 0 <= i < payload.len() ==> payload[i] != '\n',
    ensures
        framed(framing(version, payload)),
        payload_of(framing(version, payload)) == payload,
{
    let tag = version_tag(version);
    assert(tag.len() == 2);
    assert(is_decimal_digit(tag[0]) && is_decimal_digit(tag[1]));
    let text = framing(version, payload);
    assert(text.len() == payload.len() + 6);
    assert(text[0] == '$' && text[1] == tag[0] && text[2] == tag[1] && text[3] == 's');
    assert forall|i: int| 4 <= i < text.len() - 2 implies text[i] != '\n' by {
        assert(text[i] == payload[i - 4]);
    }
    assert(payload_of(text) =~= payload);
}

/// Opens an envelope: takes the payload out of the frame, reads it as
/// base64, inflates it and undoes the cipher.
pub fn decode_to_raw(save: &str) -> (r: Result<Vec<u8>, SaveError>)
    ensures
        match r {
            Ok(raw) => framed(save@) && (base64_decoding(payload_of(save@)) matches Some(packed) && (zlib_inflation(
                packed,
            ) matches Some(plain) && raw@ == ciphered(plain))),
            Err(SaveError::InvalidSaveString) => !framed(save@),
            Err(SaveError::InvalidBase64) => framed(save@) && base64_decoding(payload_of(save@)).is_none(),
            Err(SaveError::CompressError(_)) => framed(save@) && (base64_decoding(payload_of(save@)) matches Some(
                packed,
            ) && zlib_inflation(packed).is_none()),
        },
{
    let payload = match save_payload(save) {
        Some(payload) => payload,
        None => {
            return Err(SaveError::InvalidSaveString);
        },
    };
    let packed = match base64_decode(payload.as_str()) {
        Some(packed) => packed,
        None => {
            return Err(SaveError::InvalidBase64);
        },
    };
    match zlib_inflate(&packed) {
        Ok(plain) => Ok(apply_cipher(plain.as_slice())),
        Err(e) => Err(SaveError::CompressError(e)),
    }
}

/// Makes an envelope: applies the cipher, deflates, writes base64 and puts
/// the text into the frame of the given version, which has two digits. The
/// envelope is owed whenever the compression gives a stream.
pub fn encode_from_raw(data: &[u8], version: u16) -> (r: Result<String, SaveError>)
    requires
        version < 100,
    ensures
        match zlib_deflation(ciphered(data@), COMPRESSION_LEVEL) {
            Some(packed) => r matches Ok(text) && text@ == framing(version, base64_encoding(packed)),
            None => r matches Err(e) && e is CompressError,
        },
{
    let hidden = apply_cipher(data);
    match zlib_deflate(&hidden, COMPRESSION_LEVEL) {
        Ok(packed) => {
            let payload = base64_encode(&packed);
            Ok(frame(version, payload.as_str()))
        },
        Err(e) => Err(SaveError::CompressError(e)),
    }
}

} // verus!
