//! The codec: unsigned integers and strings as length-prefixed payloads.
//!
//! A payload is the byte length of a value's textual form in decimal, one
//! space, and the textual form itself. The length makes the payload
//! self-delimiting whatever bytes the textual form holds.

use crate::decimal::{decimal, lemma_decimal, lemma_number_at_decimal, number_at, push_decimal, scan_number};
use crate::error::ReplayError;
use crate::outside::{number_text, number_value, ron_number_value, ron_string_text, ron_string_value, string_text, string_value};
use vstd::prelude::*;
use vstd::slice::{slice_subrange, slice_to_vec};

verus! {

/// The byte that parts the fields of an event.
pub const SPACE: u8 = 32;

/// The byte that ends an event.
pub const NEWLINE: u8 = 10;

/// The payload that carries the textual form `body`.
pub open spec fn payload(body: Seq<u8>) -> Seq<u8> {
    decimal(body.len()) + seq![SPACE] + body
}

/// The payload that starts at `from`: the textual form it carries and the
/// index just behind it. There is none where no length stands at `from`,
/// where no space follows the length, or where fewer bytes follow than the
/// length says.
pub open spec fn payload_at(s: Seq<u8>, from: int) -> Option<(Seq<u8>, int)> {
    match number_at(s, from) {
        Some((len, end)) => {
            if end < s.len() && s[end as int] == SPACE && end + 1 + len <= s.len() {
                Some((s.subrange(end + 1, end + 1 + len), end + 1 + len))
            } else {
                None
            }
        },
        None => None,
    }
}

/// The textual form that `text` carries where `text` is one payload and
/// nothing else.
pub open spec fn payload_body(text: Seq<u8>) -> Option<Seq<u8>> {
    match payload_at(text, 0) {
        Some((body, end)) => if end == text.len() {
            Some(body)
        } else {
            None
        },
        None => None,
    }
}

/// The payload of a number: its decimal digits behind their count.
pub open spec fn number_payload(n: u32) -> Seq<u8> {
    payload(decimal(n as nat))
}

/// The payload of a string: the serializer's text behind its byte count.
pub open spec fn text_payload(s: Seq<char>) -> Seq<u8> {
    payload(ron_string_text(s))
}

/// Length-prefix correctness: wherever a payload stands in a text, reading
/// at its start gives back the textual form it carries, byte for byte, and
/// the place just behind it, whatever bytes the textual form holds and
/// whatever follows.
pub proof fn lemma_payload_at(s: Seq<u8>, from: int, body: Seq<u8>)
    requires
        0 <= from,
        from + payload(body).len() <= s.len(),
        s.subrange(from, from + payload(body).len()) == payload(body),
        s.len() <= usize::MAX,
    ensures
        payload_at(s, from) == Some((body, from + payload(body).len())),
{
    let digits = decimal(body.len());
    let p = payload(body);
    lemma_decimal(body.len());
    assert forall|k: int| 0 <= k < p.len() implies s[from + k] == #[trigger] p[k] by {
        assert(s.subrange(from, from + p.len())[k] == s[from + k]);
    }
    assert(s.subrange(from, from + digits.len()) =~= digits) by {
        assert forall|k: int| 0 <= k < digits.len() implies s[from + k] == digits[k] by {
            assert(p[k] == digits[k]);
        }
    }
    assert(s[from + digits.len()] == SPACE) by {
        assert(p[digits.len() as int] == SPACE);
    }
    lemma_number_at_decimal(s, from, body.len());
    let start = from + digits.len() + 1;
    assert(s.subrange(start, start + body.len()) =~= body) by {
        assert forall|k: int| 0 <= k < body.len() implies s[start + k] == body[k] by {
            assert(p[digits.len() + 1 + k] == body[k]);
        }
    }
}

/// A payload that stands alone carries its textual form.
pub proof fn lemma_payload_body(body: Seq<u8>)
    requires
        payload(body).len() <= usize::MAX,
    ensures
        payload_body(payload(body)) == Some(body),
{
    let p = payload(body);
    assert(p.subrange(0, p.len() as int) =~= p);
    lemma_payload_at(p, 0, body);
}

/// Appends the payload that carries `body` to `out`.
pub fn push_payload(out: &mut Vec<u8>, body: &[u8])
    ensures
        final(out)@ == old(out)@ + payload(body@),
{
    push_decimal(out, body.len() as u64);
    out.push(SPACE);
    out.extend_from_slice(body);
    assert(out@ =~= old(out)@ + payload(body@));
}

/// Reads the payload that starts at `from`.
pub fn read_payload(text: &[u8], from: usize) -> (r: Option<(Vec<u8>, usize)>)
    ensures
        match payload_at(text@, from as int) {
            Some((body, end)) => r matches Some((b, e)) && b@ == body && e == end,
            None => r is None,
        },
        r matches Some((_, e)) ==> from < e <= text@.len(),
{
    match scan_number(text, from) {
        None => None,
        Some((len, end)) => {
            if end < text.len() && text[end] == SPACE && len <= (text.len() - end - 1) as u64 {
                let start: usize = end + 1;
                let stop: usize = start + len as usize;
                let body = slice_to_vec(slice_subrange(text, start, stop));
                Some((body, stop))
            } else {
                None
            }
        },
    }
}

/// The payload of a number: its length-prefixed textual form. The
/// serializer has a text for every number, so there always is one.
pub fn encode_number(n: u32) -> (r: Option<Vec<u8>>)
    ensures
        r matches Some(v) && v@ == number_payload(n),
{
    match number_text(n) {
        Some(body) => {
            let mut out: Vec<u8> = Vec::new();
            push_payload(&mut out, body.as_slice());
            assert(out@ =~= payload(body@));
            Some(out)
        },
        None => None,
    }
}

/// The payload of a string: its length-prefixed textual form. The
/// serializer has a text for every string, so there always is one.
pub fn encode_text(s: &str) -> (r: Option<Vec<u8>>)
    ensures
        r matches Some(v) && v@ == text_payload(s@),
{
    match string_text(s) {
        Some(body) => {
            let mut out: Vec<u8> = Vec::new();
            push_payload(&mut out, body.as_slice());
            assert(out@ =~= payload(body@));
            Some(out)
        },
        None => None,
    }
}

/// The number that a decoded textual form stands for.
pub open spec fn number_of_body(body: Seq<u8>) -> Result<u32, ReplayError> {
    match ron_number_value(body) {
        Some(n) => Ok(n),
        None => Err(ReplayError::Malformed),
    }
}

/// The string that a decoded textual form stands for.
pub open spec fn text_of_body(body: Seq<u8>) -> Result<Seq<char>, ReplayError> {
    match ron_string_value(body) {
        Some(s) => Ok(s),
        None => Err(ReplayError::Malformed),
    }
}

/// The number that a payload standing alone carries.
pub open spec fn decoded_number(text: Seq<u8>) -> Result<u32, ReplayError> {
    match payload_body(text) {
        Some(body) => number_of_body(body),
        None => Err(ReplayError::Malformed),
    }
}

/// The string that a payload standing alone carries.
pub open spec fn decoded_text(text: Seq<u8>) -> Result<Seq<char>, ReplayError> {
    match payload_body(text) {
        Some(body) => text_of_body(body),
        None => Err(ReplayError::Malformed),
    }
}

/// Reads a number from the textual form that a payload carried.
pub fn number_from_body(body: &[u8]) -> (r: Result<u32, ReplayError>)
    ensures
        r == number_of_body(body@),
{
    match number_value(body) {
        Some(n) => Ok(n),
        None => Err(ReplayError::Malformed),
    }
}

/// Reads a string from the textual form that a payload carried.
pub fn text_from_body(body: &[u8]) -> (r: Result<String, ReplayError>)
    ensures
        match text_of_body(body@) {
            Ok(s) => r matches Ok(t) && t@ == s,
            Err(e) => r == Err::<String, ReplayError>(e),
        },
{
    match string_value(body) {
        Some(s) => Ok(s),
        None => Err(ReplayError::Malformed),
    }
}

/// Whether `text` is one payload and nothing else, and the form it carries.
fn whole_payload(text: &[u8]) -> (r: Option<Vec<u8>>)
    ensures
        match payload_body(text@) {
            Some(body) => r matches Some(b) && b@ == body,
            None => r is None,
        },
{
    match read_payload(text, 0) {
        Some((body, end)) => if end == text.len() {
            Some(body)
        } else {
            None
        },
        None => None,
    }
}

/// Decodes a payload that holds a number. The payload's length field must
/// count exactly the bytes that follow it.
pub fn decode_number(text: &[u8]) -> (r: Result<u32, ReplayError>)
    ensures
        r == decoded_number(text@),
{
    match whole_payload(text) {
        Some(body) => number_from_body(body.as_slice()),
        None => Err(ReplayError::Malformed),
    }
}

/// Decodes a payload that holds a string. The payload's length field must
/// count exactly the bytes that follow it.
pub fn decode_text(text: &[u8]) -> (r: Result<String, ReplayError>)
    ensures
        match decoded_text(text@) {
            Ok(s) => r matches Ok(t) && t@ == s,
            Err(e) => r == Err::<String, ReplayError>(e),
        },
{
    match whole_payload(text) {
        Some(body) => text_from_body(body.as_slice()),
        None => Err(ReplayError::Malformed),
    }
}

/// Decoding a payload that stands alone reads the textual form that the
/// payload carries, whatever bytes that form holds.
pub proof fn lemma_payload_decodes(body: Seq<u8>)
    requires
        payload(body).len() <= usize::MAX,
    ensures
        decoded_number(payload(body)) == number_of_body(body),
        decoded_text(payload(body)) == text_of_body(body),
{
    lemma_payload_body(body);
}

/// Round trip of the codec: decoding the payload of a value gives the value
/// back wherever the parser reads from the value's textual form what the
/// serializer wrote into it. The length prefix itself never loses a byte.
pub proof fn lemma_codec_round_trip(n: u32, s: Seq<char>)
    ensures
        number_payload(n).len() <= usize::MAX ==> decoded_number(number_payload(n))
            == number_of_body(decimal(n as nat)),
        text_payload(s).len() <= usize::MAX ==> decoded_text(text_payload(s)) == text_of_body(
            ron_string_text(s),
        ),
        number_payload(n).len() <= usize::MAX && ron_number_value(decimal(n as nat)) == Some(n)
            ==> decoded_number(number_payload(n)) == Ok::<u32, ReplayError>(n),
        text_payload(s).len() <= usize::MAX && ron_string_value(ron_string_text(s)) == Some(s)
            ==> decoded_text(text_payload(s)) == Ok::<Seq<char>, ReplayError>(s),
{
    if number_payload(n).len() <= usize::MAX {
        lemma_payload_decodes(decimal(n as nat));
    }
    if text_payload(s).len() <= usize::MAX {
        lemma_payload_decodes(ron_string_text(s));
    }
}

} // verus!
