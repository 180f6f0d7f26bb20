//! Decimal numbers as they stand in the log: formatting, scanning, and the
//! proof that scanning a formatted number gives the number back.

use vstd::prelude::*;

verus! {

/// Whether `b` is one of the bytes `0` to `9`.
pub open spec fn is_digit(b: u8) -> bool {
    48 <= b && b <= 57
}

/// The decimal digits of `n`, most significant first, without leading zeros.
pub open spec fn decimal(n: nat) -> Seq<u8>
    decreases n,
{
    if n < 10 {
        seq![(48 + n) as u8]
    } else {
        decimal(n / 10).push((48 + n % 10) as u8)
    }
}

/// The number that a sequence of digits denotes.
pub open spec fn digits_value(s: Seq<u8>) -> nat
    decreases s.len(),
{
    if s.len() == 0 {
        0
    } else {
        digits_value(s.drop_last()) * 10 + (s.last() - 48) as nat
    }
}

/// The index of the first byte at or after `from` that is no digit, or the
/// length of `s` where only digits follow.
pub open spec fn digits_end(s: Seq<u8>, from: int) -> int
    decreases s.len() - from,
{
    if 0 <= from < s.len() && is_digit(s[from]) {
        digits_end(s, from + 1)
    } else {
        from
    }
}

/// The number that starts at `from`: its value and the index just behind its
/// last digit. There is none where no digit stands at `from`, or where the
/// value does not fit in 64 bits.
pub open spec fn number_at(s: Seq<u8>, from: int) -> Option<(u64, usize)> {
    let end = digits_end(s, from);
    let v = digits_value(s.subrange(from, end));
    if end > from && v <= u64::MAX {
        Some((v as u64, end as usize))
    } else {
        None
    }
}

/// `digits_end` stays inside the text, passes digits only and stops at the
/// first byte that is none.
pub proof fn lemma_digits_end(s: Seq<u8>, from: int)
    requires
        0 <= from <= s.len(),
    ensures
        from <= digits_end(s, from) <= s.len(),
        forall|k: int| from <= k < digits_end(s, from) ==> is_digit(#[trigger] s[k]),
        digits_end(s, from) < s.len() ==> !is_digit(s[digits_end(s, from)]),
    decreases s.len() - from,
{
    if from < s.len() && is_digit(s[from]) {
        lemma_digits_end(s, from + 1);
    }
}

/// Where only digits stand between `from` and `to`, the digits that start at
/// `from` end where those that start at `to` end.
pub proof fn lemma_digits_end_skip(s: Seq<u8>, from: int, to: int)
    requires
        0 <= from <= to <= s.len(),
        forall|k: int| from <= k < to ==> is_digit(#[trigger] s[k]),
    ensures
        digits_end(s, from) == digits_end(s, to),
    decreases to - from,
{
    if from < to {
        lemma_digits_end_skip(s, from + 1, to);
    }
}

/// A longer run of digits denotes no smaller number.
pub proof fn lemma_digits_value_grows(s: Seq<u8>, from: int, mid: int, to: int)
    requires
        0 <= from <= mid <= to <= s.len(),
        forall|k: int| from <= k < to ==> is_digit(#[trigger] s[k]),
    ensures
        digits_value(s.subrange(from, mid)) <= digits_value(s.subrange(from, to)),
    decreases to - mid,
{
    if mid < to {
        lemma_digits_value_grows(s, from, mid, to - 1);
        assert(s.subrange(from, to).drop_last() =~= s.subrange(from, to - 1));
        assert(s.subrange(from, to).last() == s[to - 1]);
    }
}

/// The digits of `n` are digits, at least one of them, and denote `n`.
pub proof fn lemma_decimal(n: nat)
    ensures
        decimal(n).len() >= 1,
        forall|k: int| 0 <= k < decimal(n).len() ==> is_digit(#[trigger] decimal(n)[k]),
        digits_value(decimal(n)) == n,
    decreases n,
{
    if n < 10 {
        assert(decimal(n).drop_last() =~= Seq::<u8>::empty());
        assert(digits_value(decimal(n).drop_last()) == 0);
    } else {
        lemma_decimal(n / 10);
        assert(decimal(n).drop_last() =~= decimal(n / 10));
        assert(decimal(n).last() == (48 + n % 10) as u8);
    }
}

/// Scanning a text at the place where the digits of `n` stand, followed by
/// a byte that is no digit or by the end, gives `n` and the place behind them.
pub proof fn lemma_number_at_decimal(s: Seq<u8>, from: int, n: nat)
    requires
        0 <= from,
        from + decimal(n).len() <= s.len(),
        s.subrange(from, from + decimal(n).len()) == decimal(n),
        from + decimal(n).len() < s.len() ==> !is_digit(s[from + decimal(n).len()]),
        n <= u64::MAX,
        s.len() <= usize::MAX,
    ensures
        number_at(s, from) == Some((n as u64, (from + decimal(n).len()) as usize)),
{
    let to = from + decimal(n).len();
    lemma_decimal(n);
    assert forall|k: int| from <= k < to implies is_digit(#[trigger] s[k]) by {
        assert(s[k] == s.subrange(from, to)[k - from]);
    }
    lemma_digits_end_skip(s, from, to);
}

/// Appends the decimal digits of `n` to `out`.
pub fn push_decimal(out: &mut Vec<u8>, n: u64)
    ensures
        final(out)@ == old(out)@ + decimal(n as nat),
    decreases n,
{
    if n >= 10 {
        push_decimal(out, n / 10);
    }
    let digit: u8 = (n % 10) as u8;
    out.push(48 + digit);
    proof {
        if n >= 10 {
            assert(old(out)@ + decimal(n as nat) =~= (old(out)@ + decimal((n / 10) as nat)).push(
                (48 + digit) as u8,
            ));
        } else {
            assert(old(out)@ + decimal(n as nat) =~= old(out)@.push((48 + digit) as u8));
        }
    }
}

/// Reads the decimal number that starts at `from`.
pub fn scan_number(text: &[u8], from: usize) -> (r: Option<(u64, usize)>)
    ensures
        r == number_at(text@, from as int),
        r matches Some((_, end)) ==> from < end <= text@.len(),
{
    if from > text.len() {
        return None;
    }
    let mut i: usize = from;
    let mut acc: u64 = 0;
    proof {
        lemma_digits_end(text@, from as int);
    }
    while i < text.len() && 48 <= text[i] && text[i] <= 57
        invariant
            from <= i <= text@.len(),
            forall|k: int| from <= k < i ==> is_digit(#[trigger] text@[k]),
            acc == digits_value(text@.subrange(from as int, i as int)),
        decreases text@.len() - i,
    {
        let digit: u64 = (text[i] - 48) as u64;
        proof {
            assert(text@.subrange(from as int, i + 1).drop_last() =~= text@.subrange(
                from as int,
                i as int,
            ));
            assert(text@.subrange(from as int, i + 1).last() == text@[i as int]);
            lemma_digits_end_skip(text@, from as int, i + 1);
            lemma_digits_end(text@, i + 1);
        }
        if acc > (u64::MAX - digit) / 10 {
            proof {
                lemma_digits_value_grows(
                    text@,
                    from as int,
                    i + 1,
                    digits_end(text@, from as int),
                );
            }
            return None;
        }
        acc = acc * 10 + digit;
        i = i + 1;
    }
    proof {
        lemma_digits_end_skip(text@, from as int, i as int);
    }
    if i == from {
        None
    } else {
        Some((acc, i))
    }
}

} // verus!
