//! What the library takes on trust: the serializer and the parser of the
//! `ron` crate, the thread's random number generator of the `rand` crate,
//! and `str::trim`. Nothing here is proved; every contract below is a claim
//! about code that the verifier does not read.

use crate::decimal::decimal;
use rand::Rng;
use vstd::prelude::*;

verus! {

/// The textual form that `ron::ser::to_string` gives a string.
pub uninterp spec fn ron_string_text(s: Seq<char>) -> Seq<u8>;

/// The `u32` that `ron::de::from_bytes` reads from a text, if it reads one.
pub uninterp spec fn ron_number_value(text: Seq<u8>) -> Option<u32>;

/// The string that `ron::de::from_bytes` reads from a text, if it reads one.
pub uninterp spec fn ron_string_value(text: Seq<u8>) -> Option<Seq<char>>;

/// What `str::trim` leaves of a string: the string without the white space
/// at its two ends.
pub uninterp spec fn trim_of(s: Seq<char>) -> Seq<char>;

/// Calls `ron::ser::to_string` on a `u32` and hands out the bytes of the
/// text. Trusted: there is a text for every number, since the serializer
/// writes an unsigned integer into a `String` and has no way to fail on
/// that; and the text is the number in decimal, which is how the serializer
/// writes an unsigned integer when no pretty configuration is given.
#[verifier::external_body]
pub(crate) fn number_text(n: u32) -> (r: Option<Vec<u8>>)
    ensures
        r is Some,
        r matches Some(v) ==> v@ == decimal(n as nat),
{
    ron::ser::to_string(&n).ok().map(String::into_bytes)
}

/// Calls `ron::ser::to_string` on a string and hands out the bytes of the
/// text. Trusted: there is a text for every string, since the serializer
/// writes the quoted and escaped characters into a `String` and has no way
/// to fail on that; and the text is a function of the string alone.
#[verifier::external_body]
pub(crate) fn string_text(s: &str) -> (r: Option<Vec<u8>>)
    ensures
        r is Some,
        r matches Some(v) ==> v@ == ron_string_text(s@),
{
    ron::ser::to_string(s).ok().map(String::into_bytes)
}

/// Calls `ron::de::from_bytes` for a `u32`. Trusted: what is read is a
/// function of the bytes alone.
#[verifier::external_body]
pub(crate) fn number_value(text: &[u8]) -> (r: Option<u32>)
    ensures
        r == ron_number_value(text@),
{
    ron::de::from_bytes::<u32>(text).ok()
}

/// Calls `ron::de::from_bytes` for a `String`. Trusted: what is read is a
/// function of the bytes alone.
#[verifier::external_body]
pub(crate) fn string_value(text: &[u8]) -> (r: Option<String>)
    ensures
        r matches Some(s) ==> ron_string_value(text@) == Some(s@),
        r is None ==> ron_string_value(text@) is None,
{
    ron::de::from_bytes::<String>(text).ok()
}

/// Calls `random_range` of the `rand` crate on the generator of the current
/// thread, with the inclusive range from `low` to `high`. Trusted: the
/// number drawn lies in the range. The call panics on an empty range, which
/// the precondition leaves out.
#[verifier::external_body]
pub(crate) fn fresh_number(low: u32, high: u32) -> (r: u32)
    requires
        low <= high,
    ensures
        low <= r <= high,
{
    rand::rng().random_range(low..=high)
}

/// Whether `part` stands in `whole` as one unbroken run of characters.
pub open spec fn is_part_of(part: Seq<char>, whole: Seq<char>) -> bool {
    exists|i: int, j: int| 0 <= i <= j <= whole.len() && part == #[trigger] whole.subrange(i, j)
}

/// Calls `str::trim`. Trusted: the slice handed out is a function of the
/// string alone, and it is a slice of that string.
#[verifier::external_body]
pub(crate) fn trimmed(s: &str) -> (r: &str)
    ensures
        r@ == trim_of(s@),
        is_part_of(r@, s@),
{
    s.trim()
}

} // verus!
