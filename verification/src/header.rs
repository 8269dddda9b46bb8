//! HTTP header values: what can be one, and what one reads.

use vstd::prelude::*;
use vstd::utf8;

verus! {

/// The bytes of header values: all but control characters, with the tab.
pub open spec fn is_header_byte(byte: u8) -> bool {
    byte >= 32 && byte != 127 || byte == 9
}

/// The bytes of header values that read as text: the visible ASCII ones.
pub open spec fn is_visible_byte(byte: u8) -> bool {
    32 <= byte < 127 || byte == 9
}

/// A text that can be sent as a header value.
pub open spec fn is_header_text(text: Seq<char>) -> bool {
    forall|i: int|
        0 <= i < utf8::encode_utf8(text).len() ==> is_header_byte(
            #[trigger] utf8::encode_utf8(text)[i],
        )
}

/// A header value that reads as text.
pub open spec fn is_visible(raw: Seq<u8>) -> bool {
    forall|i: int| 0 <= i < raw.len() ==> is_visible_byte(#[trigger] raw[i])
}

/// What a header value of visible bytes reads.
pub open spec fn visible_chars(raw: Seq<u8>) -> Seq<char> {
    raw.map_values(|byte: u8| byte as char)
}

/// Making a header value of a text (`reqwest::header::HeaderValue::from_str`):
/// it succeeds exactly where every byte can stand in one, and keeps the text;
/// its error always reads the same.
#[verifier::external_body]
pub(crate) fn header_value(text: &str) -> (r: Result<String, String>)
    ensures
        r is Ok <==> is_header_text(text@),
        r matches Ok(value) ==> value@ == text@,
        r matches Err(message) ==> message@ == "failed to parse header value"@,
{
    match reqwest::header::HeaderValue::from_str(text) {
        Ok(value) => Ok(String::from_utf8_lossy(value.as_bytes()).into_owned()),
        Err(e) => Err(e.to_string()),
    }
}

/// Reading a header value as text (`reqwest::header::HeaderValue::to_str`):
/// it succeeds exactly where every byte is visible, and gives those
/// characters.
#[verifier::external_body]
pub(crate) fn header_text(raw: &[u8]) -> (r: Option<String>)
    ensures
        r is Some <==> is_visible(raw@),
        r matches Some(text) ==> text@ == visible_chars(raw@),
{
    let value = reqwest::header::HeaderValue::from_bytes(raw).ok()?;
    value.to_str().ok().map(|text| text.to_string())
}

/// What a header reads, where the response has it and it reads as text.
pub open spec fn header_reads(raw: Option<Seq<u8>>) -> Option<Seq<char>> {
    match raw {
        Some(bytes) => if is_visible(bytes) {
            Some(visible_chars(bytes))
        } else {
            None
        },
        None => None,
    }
}

/// The bytes of a header that may be missing.
pub open spec fn raw_view(raw: Option<Vec<u8>>) -> Option<Seq<u8>> {
    match raw {
        Some(bytes) => Some(bytes@),
        None => None,
    }
}

/// What a header reads, where the response has it and it reads as text.
pub fn read_header(raw: &Option<Vec<u8>>) -> (r: Option<String>)
    ensures
        match r {
            Some(text) => header_reads(raw_view(*raw)) == Some(text@),
            None => header_reads(raw_view(*raw)) is None,
        },
{
    match raw {
        Some(bytes) => header_text(bytes.as_slice()),
        None => None,
    }
}

/// A header of visible ASCII characters reads as those, one for each byte;
/// one with any other byte, and a missing one, reads as nothing.
pub proof fn visible_headers_are_read(raw: Option<Seq<u8>>, text: Seq<char>)
    ensures
        header_reads(raw) == Some(text) <==> (raw matches Some(bytes) && bytes.len() == text.len()
            && forall|i: int|
            0 <= i < bytes.len() ==> (#[trigger] bytes[i]) as char == text[i] && (bytes[i] == 9 || (
            32 <= bytes[i] <= 126))),
        raw is None ==> header_reads(raw) is None,
{
    if let Some(bytes) = raw {
        if bytes.len() == text.len() && forall|i: int|
            0 <= i < bytes.len() ==> (#[trigger] bytes[i]) as char == text[i] && (bytes[i] == 9 || (
            32 <= bytes[i] <= 126)) {
            assert(visible_chars(bytes) =~= text);
        }
        if header_reads(raw) == Some(text) {
            assert forall|i: int| 0 <= i < bytes.len() implies (#[trigger] bytes[i]) as char
                == text[i] && (bytes[i] == 9 || (32 <= bytes[i] <= 126)) by {
                assert(visible_chars(bytes)[i] == bytes[i] as char);
                assert(is_visible_byte(bytes[i]));
            }
        }
    }
}

/// A text can be sent exactly where no byte of it is a control character
/// other than the tab.
pub proof fn sendable_texts_hold_no_controls(text: Seq<char>)
    ensures
        is_header_text(text) <==> forall|i: int|
            0 <= i < utf8::encode_utf8(text).len() ==> (#[trigger] utf8::encode_utf8(text)[i]) == 9
                || (utf8::encode_utf8(text)[i] >= 32 && utf8::encode_utf8(text)[i] != 127),
{
    if is_header_text(text) {
        assert forall|i: int| 0 <= i < utf8::encode_utf8(text).len() implies (
        #[trigger] utf8::encode_utf8(text)[i]) == 9 || (utf8::encode_utf8(text)[i] >= 32
            && utf8::encode_utf8(text)[i] != 127) by {
            assert(is_header_byte(utf8::encode_utf8(text)[i]));
        }
    }
}

} // verus!
