//! Windows-1252, the one encoding in which the active plugins file is read and
//! written, whatever the game and the system.
use encoding::all::WINDOWS_1252;
use crate::enums::LoadOrderError;
use encoding::{DecoderTrap, EncoderTrap, Encoding};
use vstd::prelude::*;
use vstd::utf8::is_ascii_chars;

verus! {

/// The bytes that stand for `text` in Windows-1252, as the `encoding` crate
/// encodes it; `None` where `text` holds a character that the code page lacks.
pub uninterp spec fn windows_1252_encoding(text: Seq<char>) -> Option<Seq<u8>>;

/// The text that `bytes` stand for in Windows-1252, as the `encoding` crate
/// decodes them, one character for each byte.
pub uninterp spec fn windows_1252_decoding(bytes: Seq<u8>) -> Seq<char>;

/// The bytes of ASCII characters: each character's own number.
pub open spec fn ascii_bytes(text: Seq<char>) -> Seq<u8> {
    text.map_values(|letter: char| letter as u8)
}

/// The characters of ASCII bytes: each the character of the byte's number.
pub open spec fn ascii_text(bytes: Seq<u8>) -> Seq<char> {
    bytes.map_values(|byte: u8| byte as char)
}

/// Whether every byte is below 0x80.
pub open spec fn is_ascii_bytes(bytes: Seq<u8>) -> bool {
    forall|index: int| 0 <= index < bytes.len() ==> #[trigger] bytes[index] <= 0x7F
}

/// Calls `Encoding::encode` of the `encoding` crate on its `WINDOWS_1252`, with
/// the strict trap: the first character without a byte ends the call with an
/// error, whose message is handed on. The outcome is a function of the text
/// alone. An ASCII character is encoded as the byte of its number.
#[verifier::external_body]
fn encode(text: &str) -> (encoded: Result<Vec<u8>, String>)
    ensures
        match encoded {
            Ok(bytes) => windows_1252_encoding(text@) == Some(bytes@),
            Err(_) => windows_1252_encoding(text@) is None,
        },
        is_ascii_chars(text@) ==> match encoded {
            Ok(bytes) => bytes@ == ascii_bytes(text@),
            Err(_) => false,
        },
{
    WINDOWS_1252.encode(text, EncoderTrap::Strict).map_err(|cause| cause.into_owned())
}

/// Calls `Encoding::decode` of the `encoding` crate on its `WINDOWS_1252`, with
/// the strict trap. The call cannot fail: the crate's table for this code page
/// holds a character for every byte from 0x80 on, and the bytes below stand
/// for the ASCII characters of their numbers. The text is a function of the
/// bytes alone.
#[verifier::external_body]
fn decode(bytes: &[u8]) -> (decoded: Result<String, String>)
    ensures
        match decoded {
            Ok(text) => text@ == windows_1252_decoding(bytes@),
            Err(_) => false,
        },
        is_ascii_bytes(bytes@) ==> match decoded {
            Ok(text) => text@ == ascii_text(bytes@),
            Err(_) => false,
        },
{
    WINDOWS_1252.decode(bytes, DecoderTrap::Strict).map_err(|cause| cause.into_owned())
}

/// `text` in Windows-1252; the error where `text` holds a character that the
/// code page lacks.
pub fn encode_windows_1252(text: &str) -> (encoded: Result<Vec<u8>, LoadOrderError>)
    ensures
        match encoded {
            Ok(bytes) => windows_1252_encoding(text@) == Some(bytes@),
            Err(error) => error is EncodeError && windows_1252_encoding(text@) is None,
        },
        is_ascii_chars(text@) ==> match encoded {
            Ok(bytes) => bytes@ == ascii_bytes(text@),
            Err(_) => false,
        },
{
    match encode(text) {
        Ok(bytes) => Ok(bytes),
        Err(cause) => Err(LoadOrderError::EncodeError(cause)),
    }
}

/// The text that `bytes` stand for in Windows-1252.
pub fn decode_windows_1252(bytes: &[u8]) -> (text: String)
    ensures
        text@ == windows_1252_decoding(bytes@),
        is_ascii_bytes(bytes@) ==> text@ == ascii_text(bytes@),
{
    decode(bytes).unwrap()
}

} // verus!
