//! Events and the layout of the log: one event per line, made of the time
//! since the session's start in milliseconds, the tag of the operation that
//! made the event, and the event's payload.

use crate::codec::{lemma_payload_at, payload, payload_at, push_payload, read_payload, NEWLINE, SPACE};
use crate::decimal::{decimal, lemma_decimal, lemma_digits_end, lemma_number_at_decimal, number_at, push_decimal, scan_number};
use crate::error::ReplayError;
use vstd::prelude::*;

verus! {

/// The operation that an event belongs to.
#[derive(Clone, Copy, Debug, PartialEq, Eq, Structural)]
pub enum Interface {
    /// The sentinel that opens every log.
    Start,
    /// The random source.
    Random,
    /// The input source.
    Input,
    /// The output sink.
    Output,
}

impl Interface {
    /// The tag that stands for the operation in the log: `---`, `random`,
    /// `input` or `output`.
    pub open spec fn tag(self) -> Seq<u8> {
        match self {
            Interface::Start => seq![45u8, 45u8, 45u8],
            Interface::Random => seq![114u8, 97u8, 110u8, 100u8, 111u8, 109u8],
            Interface::Input => seq![105u8, 110u8, 112u8, 117u8, 116u8],
            Interface::Output => seq![111u8, 117u8, 116u8, 112u8, 117u8, 116u8],
        }
    }

    /// The tag as text.
    pub open spec fn name_text(self) -> Seq<char> {
        match self {
            Interface::Start => "---"@,
            Interface::Random => "random"@,
            Interface::Input => "input"@,
            Interface::Output => "output"@,
        }
    }

    /// The tag as text.
    pub fn name(&self) -> (r: &'static str)
        ensures
            r@ == self.name_text(),
    {
        match self {
            Interface::Start => "---",
            Interface::Random => "random",
            Interface::Input => "input",
            Interface::Output => "output",
        }
    }

    /// The character that tells an onlooker which event was played back:
    /// the first letter of the tag.
    pub open spec fn letter_of(self) -> char {
        match self {
            Interface::Start => '-',
            Interface::Random => 'r',
            Interface::Input => 'i',
            Interface::Output => 'o',
        }
    }

    /// The first letter of the tag, for the diagnostic output of a playback.
    pub fn letter(&self) -> (r: char)
        ensures
            r == self.letter_of(),
            r == self.name_text()[0],
    {
        proof {
            reveal_strlit("---");
            reveal_strlit("random");
            reveal_strlit("input");
            reveal_strlit("output");
        }
        match self {
            Interface::Start => '-',
            Interface::Random => 'r',
            Interface::Input => 'i',
            Interface::Output => 'o',
        }
    }

    /// Appends the tag to `out`.
    pub fn push_tag(&self, out: &mut Vec<u8>)
        ensures
            final(out)@ == old(out)@ + self.tag(),
    {
        match self {
            Interface::Start => {
                out.push(45);
                out.push(45);
                out.push(45);
            },
            Interface::Random => {
                out.push(114);
                out.push(97);
                out.push(110);
                out.push(100);
                out.push(111);
                out.push(109);
            },
            Interface::Input => {
                out.push(105);
                out.push(110);
                out.push(112);
                out.push(117);
                out.push(116);
            },
            Interface::Output => {
                out.push(111);
                out.push(117);
                out.push(116);
                out.push(112);
                out.push(117);
                out.push(116);
            },
        }
        assert(out@ =~= old(out)@ + self.tag());
    }
}

/// The tag is the name, letter for letter.
pub proof fn lemma_tag_spells_name(interface: Interface)
    ensures
        interface.tag().len() == interface.name_text().len(),
        forall|k: int|
            0 <= k < interface.tag().len() ==> #[trigger] interface.tag()[k]
                == interface.name_text()[k] as u8,
{
    reveal_strlit("---");
    reveal_strlit("random");
    reveal_strlit("input");
    reveal_strlit("output");
}

/// No tag holds a space, and two operations never share a tag.
pub proof fn lemma_tags(a: Interface, b: Interface)
    ensures
        forall|k: int| 0 <= k < a.tag().len() ==> #[trigger] a.tag()[k] != SPACE,
        a.tag() == b.tag() <==> a == b,
{
    if a != b {
        assert(a.tag()[0] != b.tag()[0] || a.tag()[1] != b.tag()[1]);
    }
}

/// The line that records one event: the elapsed time, the tag and the
/// payload of `body`, parted by single spaces and ended by a newline.
pub open spec fn event_line(elapsed_ms: nat, tag: Seq<u8>, body: Seq<u8>) -> Seq<u8> {
    decimal(elapsed_ms) + seq![SPACE] + tag + seq![SPACE] + payload(body) + seq![NEWLINE]
}

/// The index of the first space at or after `from`, or the length of `s`
/// where there is none.
pub open spec fn space_from(s: Seq<u8>, from: int) -> int
    decreases s.len() - from,
{
    if 0 <= from < s.len() && s[from] != SPACE {
        space_from(s, from + 1)
    } else {
        from
    }
}

/// What reading the event at `pos` gives to a caller that expects the tag
/// `expected`: the textual form that the event's payload carries together
/// with the place of the next event, or the reason why there is neither.
///
/// The checks come in this order: whether any byte is left; the elapsed
/// time and the space behind it; the tag up to its space; whether the tag is
/// the expected one; the payload and the newline behind it.
pub open spec fn event_at(log: Seq<u8>, pos: int, expected: Seq<u8>) -> Result<
    (Seq<u8>, int),
    ReplayError,
> {
    if pos >= log.len() {
        Err(ReplayError::Exhausted)
    } else {
        match number_at(log, pos) {
            None => Err(ReplayError::Malformed),
            Some((_, stamp_end)) => {
                let tag_end = space_from(log, stamp_end + 1);
                if stamp_end >= log.len() || log[stamp_end as int] != SPACE {
                    Err(ReplayError::Malformed)
                } else if tag_end >= log.len() {
                    Err(ReplayError::Malformed)
                } else if log.subrange(stamp_end + 1, tag_end) != expected {
                    Err(ReplayError::SequenceMismatch)
                } else {
                    match payload_at(log, tag_end + 1) {
                        Some((body, end)) => {
                            if end < log.len() && log[end] == NEWLINE {
                                Ok((body, end + 1))
                            } else {
                                Err(ReplayError::Malformed)
                            }
                        },
                        None => Err(ReplayError::Malformed),
                    }
                }
            },
        }
    }
}

/// The elapsed time that the event at `pos` carries, where one stands there.
pub open spec fn stamp_at(log: Seq<u8>, pos: int) -> Option<u64> {
    match number_at(log, pos) {
        Some((stamp, _)) => Some(stamp),
        None => None,
    }
}

/// `space_from` stays inside the text, passes no space and stops at one.
pub proof fn lemma_space_from(s: Seq<u8>, from: int)
    requires
        0 <= from <= s.len(),
    ensures
        from <= space_from(s, from) <= s.len(),
        forall|k: int| from <= k < space_from(s, from) ==> #[trigger] s[k] != SPACE,
        space_from(s, from) < s.len() ==> s[space_from(s, from)] == SPACE,
    decreases s.len() - from,
{
    if from < s.len() && s[from] != SPACE {
        lemma_space_from(s, from + 1);
    }
}

/// Where no space stands between `from` and `to` and one stands at `to`,
/// the first space at or after `from` is the one at `to`.
pub proof fn lemma_space_from_found(s: Seq<u8>, from: int, to: int)
    requires
        0 <= from <= to < s.len(),
        forall|k: int| from <= k < to ==> #[trigger] s[k] != SPACE,
        s[to] == SPACE,
    ensures
        space_from(s, from) == to,
    decreases to - from,
{
    if from < to {
        lemma_space_from_found(s, from + 1, to);
    }
}

/// Appends the line of one event to `out`.
pub fn push_event(out: &mut Vec<u8>, elapsed_ms: u64, interface: Interface, body: &[u8])
    ensures
        final(out)@ == old(out)@ + event_line(elapsed_ms as nat, interface.tag(), body@),
{
    push_decimal(out, elapsed_ms);
    out.push(SPACE);
    interface.push_tag(out);
    out.push(SPACE);
    push_payload(out, body);
    out.push(NEWLINE);
    assert(out@ =~= old(out)@ + event_line(elapsed_ms as nat, interface.tag(), body@));
}

/// Whether the bytes of `text` from `from` up to `to` are the tag of
/// `interface`.
fn tag_stands_at(text: &[u8], from: usize, to: usize, interface: Interface) -> (r: bool)
    requires
        from <= to <= text@.len(),
    ensures
        r == (text@.subrange(from as int, to as int) == interface.tag()),
{
    let mut tag: Vec<u8> = Vec::new();
    interface.push_tag(&mut tag);
    assert(tag@ =~= interface.tag());
    if tag.len() != to - from {
        return false;
    }
    let mut k: usize = 0;
    while k < tag.len()
        invariant
            from <= to <= text@.len(),
            tag@ == interface.tag(),
            tag@.len() == to - from,
            k <= tag@.len(),
            forall|j: int| 0 <= j < k ==> text@[from + j] == tag@[j],
        decreases tag@.len() - k,
    {
        if text[from + k] != tag[k] {
            assert(text@.subrange(from as int, to as int)[k as int] != tag@[k as int]);
            return false;
        }
        k = k + 1;
    }
    assert(text@.subrange(from as int, to as int) =~= tag@);
    true
}

/// Finds the first space at or after `from`.
fn find_space(text: &[u8], from: usize) -> (r: usize)
    requires
        from <= text@.len(),
    ensures
        r == space_from(text@, from as int),
        from <= r <= text@.len(),
{
    let mut i: usize = from;
    proof {
        lemma_space_from(text@, from as int);
    }
    while i < text.len() && text[i] != SPACE
        invariant
            from <= i <= text@.len(),
            space_from(text@, i as int) == space_from(text@, from as int),
        decreases text@.len() - i,
    {
        i = i + 1;
    }
    i
}

/// Reads the event that starts at `pos` for a caller that expects an event
/// of `expected`. On success it hands out the textual form that the payload
/// carries and the place of the next event.
pub fn read_event_at(log: &[u8], pos: usize, expected: Interface) -> (r: Result<
    (Vec<u8>, usize),
    ReplayError,
>)
    ensures
        match event_at(log@, pos as int, expected.tag()) {
            Ok((body, next)) => r matches Ok((b, n)) && b@ == body && n == next,
            Err(e) => r == Err::<(Vec<u8>, usize), ReplayError>(e),
        },
        r matches Ok((_, n)) ==> pos < n <= log@.len(),
{
    if pos >= log.len() {
        return Err(ReplayError::Exhausted);
    }
    let stamp_end: usize = match scan_number(log, pos) {
        None => {
            return Err(ReplayError::Malformed);
        },
        Some((_, end)) => end,
    };
    proof {
        lemma_digits_end(log@, pos as int);
    }
    if stamp_end >= log.len() || log[stamp_end] != SPACE {
        return Err(ReplayError::Malformed);
    }
    let tag_end: usize = find_space(log, stamp_end + 1);
    if tag_end >= log.len() {
        return Err(ReplayError::Malformed);
    }
    if !tag_stands_at(log, stamp_end + 1, tag_end, expected) {
        return Err(ReplayError::SequenceMismatch);
    }
    match read_payload(log, tag_end + 1) {
        None => Err(ReplayError::Malformed),
        Some((body, end)) => {
            if end < log.len() && log[end] == NEWLINE {
                Ok((body, end + 1))
            } else {
                Err(ReplayError::Malformed)
            }
        },
    }
}

/// What the layout of a recorded line gives a reader: the places of its
/// fields. Shared by the two laws below.
proof fn lemma_line_fields(log: Seq<u8>, pos: int, elapsed_ms: nat, tag: Seq<u8>, body: Seq<u8>)
    requires
        0 <= pos,
        pos + event_line(elapsed_ms, tag, body).len() <= log.len(),
        log.subrange(pos, pos + event_line(elapsed_ms, tag, body).len()) == event_line(
            elapsed_ms,
            tag,
            body,
        ),
        forall|k: int| 0 <= k < tag.len() ==> #[trigger] tag[k] != SPACE,
        elapsed_ms <= u64::MAX,
        log.len() <= usize::MAX,
    ensures
        number_at(log, pos) == Some(
            (elapsed_ms as u64, (pos + decimal(elapsed_ms).len()) as usize),
        ),
        log[pos + decimal(elapsed_ms).len()] == SPACE,
        space_from(log, pos + decimal(elapsed_ms).len() + 1) == pos + decimal(elapsed_ms).len()
            + 1 + tag.len(),
        log.subrange(
            pos + decimal(elapsed_ms).len() + 1,
            pos + decimal(elapsed_ms).len() + 1 + tag.len(),
        ) == tag,
        payload_at(log, pos + decimal(elapsed_ms).len() + 1 + tag.len() + 1) == Some(
            (body, pos + event_line(elapsed_ms, tag, body).len() - 1),
        ),
        log[pos + event_line(elapsed_ms, tag, body).len() - 1] == NEWLINE,
{
    let line = event_line(elapsed_ms, tag, body);
    let digits = decimal(elapsed_ms);
    let p = payload(body);
    lemma_decimal(elapsed_ms);
    assert forall|k: int| 0 <= k < line.len() implies log[pos + k] == #[trigger] line[k] by {
        assert(log.subrange(pos, pos + line.len())[k] == log[pos + k]);
    }
    let tag_start = pos + digits.len() + 1;
    let tag_end = tag_start + tag.len();
    assert(log.subrange(pos, pos + digits.len()) =~= digits) by {
        assert forall|k: int| 0 <= k < digits.len() implies log[pos + k] == digits[k] by {
            assert(line[k] == digits[k]);
        }
    }
    assert(log[pos + digits.len()] == SPACE) by {
        assert(line[digits.len() as int] == SPACE);
    }
    lemma_number_at_decimal(log, pos, elapsed_ms);
    assert forall|k: int| tag_start <= k < tag_end implies #[trigger] log[k] != SPACE by {
        assert(line[k - pos] == tag[k - tag_start]);
    }
    assert(log[tag_end] == SPACE) by {
        assert(line[tag_end - pos] == SPACE);
    }
    lemma_space_from_found(log, tag_start, tag_end);
    assert(log.subrange(tag_start, tag_end) =~= tag) by {
        assert forall|k: int| 0 <= k < tag.len() implies log[tag_start + k] == tag[k] by {
            assert(line[tag_start - pos + k] == tag[k]);
        }
    }
    assert(log.subrange(tag_end + 1, tag_end + 1 + p.len()) =~= p) by {
        assert forall|k: int| 0 <= k < p.len() implies log[tag_end + 1 + k] == p[k] by {
            assert(line[tag_end + 1 - pos + k] == p[k]);
        }
    }
    lemma_payload_at(log, tag_end + 1, body);
    assert(log[pos + line.len() - 1] == NEWLINE) by {
        assert(line[line.len() - 1] == NEWLINE);
    }
}

/// Round trip of one event: where the line of an event stands at `pos`, a
/// reader that expects the event's tag gets the textual form that was
/// written, byte for byte, and stands at the line's end afterwards.
pub proof fn lemma_recorded_event_replays(
    log: Seq<u8>,
    pos: int,
    elapsed_ms: nat,
    tag: Seq<u8>,
    body: Seq<u8>,
)
    requires
        0 <= pos,
        pos + event_line(elapsed_ms, tag, body).len() <= log.len(),
        log.subrange(pos, pos + event_line(elapsed_ms, tag, body).len()) == event_line(
            elapsed_ms,
            tag,
            body,
        ),
        forall|k: int| 0 <= k < tag.len() ==> #[trigger] tag[k] != SPACE,
        elapsed_ms <= u64::MAX,
        log.len() <= usize::MAX,
    ensures
        event_at(log, pos, tag) == Ok::<(Seq<u8>, int), ReplayError>(
            (body, pos + event_line(elapsed_ms, tag, body).len()),
        ),
        stamp_at(log, pos) == Some(elapsed_ms as u64),
{
    lemma_line_fields(log, pos, elapsed_ms, tag, body);
}

/// Sequence sensitivity: where the line of an event stands at `pos`, a
/// reader that expects any other tag fails with a sequence mismatch.
pub proof fn lemma_other_tag_mismatches(
    log: Seq<u8>,
    pos: int,
    elapsed_ms: nat,
    tag: Seq<u8>,
    body: Seq<u8>,
    expected: Seq<u8>,
)
    requires
        0 <= pos,
        pos + event_line(elapsed_ms, tag, body).len() <= log.len(),
        log.subrange(pos, pos + event_line(elapsed_ms, tag, body).len()) == event_line(
            elapsed_ms,
            tag,
            body,
        ),
        forall|k: int| 0 <= k < tag.len() ==> #[trigger] tag[k] != SPACE,
        elapsed_ms <= u64::MAX,
        log.len() <= usize::MAX,
        expected != tag,
    ensures
        event_at(log, pos, expected) == Err::<(Seq<u8>, int), ReplayError>(
            ReplayError::SequenceMismatch,
        ),
{
    lemma_line_fields(log, pos, elapsed_ms, tag, body);
}

/// Exhaustion: a reader that stands at the end of the log gets no event,
/// whatever it expects.
pub proof fn lemma_end_of_log_is_exhausted(log: Seq<u8>, expected: Seq<u8>)
    ensures
        event_at(log, log.len() as int, expected) == Err::<(Seq<u8>, int), ReplayError>(
            ReplayError::Exhausted,
        ),
{
}

} // verus!
