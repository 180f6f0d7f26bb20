//! What holds between a recording and its playback.
//!
//! The laws speak of the same models as the contracts of the operations:
//! the log that a recording session leaves, and what a playback session
//! reads from it.

use crate::codec::{number_of_body, text_of_body};
use crate::decimal::decimal;
use crate::error::ReplayError;
use crate::outside::{ron_number_value, ron_string_text, ron_string_value};
use crate::event::{event_line, lemma_other_tag_mismatches, lemma_recorded_event_replays, lemma_tags, Interface};
use crate::session::{advanced, appended, replayed_body, replayed_number, replayed_output, replayed_sentinel, replayed_text, sentinel_text, stamp, SessionView};
use vstd::prelude::*;

verus! {

/// A playback session stands at an event that a recording session wrote:
/// its log starts with the recorder's log up to and including that event,
/// and its next event is the one that the recorder appended last.
pub open spec fn stands_at_appended(
    player: SessionView,
    recorder: SessionView,
    elapsed_ms: u64,
    interface: Interface,
    body: Seq<u8>,
) -> bool {
    let written = appended(recorder, elapsed_ms, interface, body).log;
    &&& player.cursor == recorder.log.len()
    &&& written.len() <= player.log.len() <= usize::MAX
    &&& player.log.subrange(0, written.len() as int) == written
}

proof fn lemma_line_stands(
    player: SessionView,
    recorder: SessionView,
    elapsed_ms: u64,
    interface: Interface,
    body: Seq<u8>,
)
    requires
        stands_at_appended(player, recorder, elapsed_ms, interface, body),
    ensures
        player.cursor + event_line(
            stamp(recorder, elapsed_ms) as nat,
            interface.tag(),
            body,
        ).len() <= player.log.len(),
        player.log.subrange(
            player.cursor,
            player.cursor + event_line(
                stamp(recorder, elapsed_ms) as nat,
                interface.tag(),
                body,
            ).len(),
        ) == event_line(stamp(recorder, elapsed_ms) as nat, interface.tag(), body),
{
    let line = event_line(stamp(recorder, elapsed_ms) as nat, interface.tag(), body);
    let written = recorder.log + line;
    assert forall|k: int| 0 <= k < line.len() implies player.log[player.cursor + k] == line[k] by {
        assert(player.log.subrange(0, written.len() as int)[player.cursor + k] == written[
            player.cursor + k
        ]);
    }
    assert(player.log.subrange(player.cursor, player.cursor + line.len()) =~= line);
}

/// Round trip: the call that a recording session appended is played back
/// with the textual form that was written, whatever bytes it holds, and the
/// playback session then stands behind it, at the place that the recorder's
/// log had reached. The value played back is the value recorded wherever
/// the parser reads from a textual form what the serializer wrote into it.
pub proof fn lemma_recorded_call_replays(
    player: SessionView,
    recorder: SessionView,
    elapsed_ms: u64,
    interface: Interface,
    body: Seq<u8>,
)
    requires
        stands_at_appended(player, recorder, elapsed_ms, interface, body),
    ensures
        replayed_body(player, interface) == Ok::<Seq<u8>, ReplayError>(body),
        advanced(player, interface) == (SessionView {
            cursor: appended(recorder, elapsed_ms, interface, body).log.len() as int,
            ..player
        }),
        interface == Interface::Random ==> replayed_number(player) == number_of_body(body),
        replayed_text(player, interface) == text_of_body(body),
        forall|text: Seq<char>|
            interface == Interface::Output && text_of_body(body) == Ok::<Seq<char>, ReplayError>(
                text,
            ) ==> #[trigger] replayed_output(player, text) == Ok::<(), ReplayError>(()),
        interface == Interface::Start && text_of_body(body) == Ok::<Seq<char>, ReplayError>(
            sentinel_text(),
        ) ==> replayed_sentinel(player) == Ok::<(), ReplayError>(()),
{
    lemma_line_stands(player, recorder, elapsed_ms, interface, body);
    lemma_tags(interface, interface);
    lemma_recorded_event_replays(
        player.log,
        player.cursor,
        stamp(recorder, elapsed_ms) as nat,
        interface.tag(),
        body,
    );
}

/// Sequence sensitivity: where the recorder appended a call of one
/// operation and the replaying program calls another, playback fails with a
/// sequence mismatch, whichever operation is called, and the session stays
/// where it was.
pub proof fn lemma_call_out_of_order_fails(
    player: SessionView,
    recorder: SessionView,
    elapsed_ms: u64,
    interface: Interface,
    body: Seq<u8>,
    called: Interface,
    text: Seq<char>,
)
    requires
        stands_at_appended(player, recorder, elapsed_ms, interface, body),
        called != interface,
    ensures
        replayed_body(player, called) == Err::<Seq<u8>, ReplayError>(
            ReplayError::SequenceMismatch,
        ),
        advanced(player, called) == player,
        called == Interface::Random ==> replayed_number(player) == Err::<u32, ReplayError>(
            ReplayError::SequenceMismatch,
        ),
        replayed_text(player, called) == Err::<Seq<char>, ReplayError>(
            ReplayError::SequenceMismatch,
        ),
        called == Interface::Output ==> replayed_output(player, text) == Err::<(), ReplayError>(
            ReplayError::SequenceMismatch,
        ),
{
    lemma_line_stands(player, recorder, elapsed_ms, interface, body);
    lemma_tags(interface, called);
    lemma_tags(called, interface);
    lemma_other_tag_mismatches(
        player.log,
        player.cursor,
        stamp(recorder, elapsed_ms) as nat,
        interface.tag(),
        body,
        called.tag(),
    );
}

/// Content sensitivity: where the recorder appended a call of the output
/// sink and the text recorded can be read, playback with any other text
/// fails with a content mismatch.
pub proof fn lemma_other_output_fails(
    player: SessionView,
    recorder: SessionView,
    elapsed_ms: u64,
    body: Seq<u8>,
    recorded: Seq<char>,
    text: Seq<char>,
)
    requires
        stands_at_appended(player, recorder, elapsed_ms, Interface::Output, body),
        text_of_body(body) == Ok::<Seq<char>, ReplayError>(recorded),
        text != recorded,
    ensures
        replayed_output(player, text) == Err::<(), ReplayError>(ReplayError::ContentMismatch),
{
    lemma_recorded_call_replays(player, recorder, elapsed_ms, Interface::Output, body);
}

/// Exhaustion: a playback session that stands at the end of its log fails
/// every call with an exhausted log, and stays where it is.
pub proof fn lemma_call_past_end_fails(player: SessionView, called: Interface, text: Seq<char>)
    requires
        player.cursor == player.log.len(),
    ensures
        replayed_body(player, called) == Err::<Seq<u8>, ReplayError>(ReplayError::Exhausted),
        replayed_number(player) == Err::<u32, ReplayError>(ReplayError::Exhausted),
        replayed_text(player, called) == Err::<Seq<char>, ReplayError>(ReplayError::Exhausted),
        replayed_output(player, text) == Err::<(), ReplayError>(ReplayError::Exhausted),
        replayed_sentinel(player) == Err::<(), ReplayError>(ReplayError::Exhausted),
        advanced(player, called) == player,
{
}

/// The times in a log never go back: of two events appended one after the
/// other, the second carries a time that is no less than the first's, and
/// each carries the time of the caller's clock unless that clock went back.
pub proof fn lemma_times_never_go_back(
    recorder: SessionView,
    first_ms: u64,
    first: Interface,
    first_body: Seq<u8>,
    second_ms: u64,
    second: Interface,
    second_body: Seq<u8>,
)
    ensures
        ({
            let one = appended(recorder, first_ms, first, first_body);
            let two = appended(one, second_ms, second, second_body);
            &&& recorder.last_ms <= one.last_ms <= two.last_ms
            &&& first_ms >= recorder.last_ms ==> one.last_ms == first_ms
            &&& second_ms >= one.last_ms ==> two.last_ms == second_ms
            &&& two.log == recorder.log + event_line(one.last_ms as nat, first.tag(), first_body)
                + event_line(two.last_ms as nat, second.tag(), second_body)
        }),
{
}

/// One recorded call: the time that its event carries, the operation that
/// was called, and the textual form of the value that crossed the boundary.
pub struct Recorded {
    /// The time since the session's start, in milliseconds.
    pub elapsed_ms: u64,
    /// The operation that was called.
    pub interface: Interface,
    /// The textual form of the value that crossed the boundary.
    pub body: Seq<u8>,
}

/// The log that a recording session leaves after the calls `calls`, made in
/// this order on a log that held `start`: for a session just opened, the
/// sentinel's line.
pub open spec fn log_of(start: Seq<u8>, calls: Seq<Recorded>) -> Seq<u8>
    decreases calls.len(),
{
    if calls.len() == 0 {
        start
    } else {
        log_of(start, calls.drop_last()) + event_line(
            calls.last().elapsed_ms as nat,
            calls.last().interface.tag(),
            calls.last().body,
        )
    }
}

/// A recording session whose clock does not go back leaves the log of its
/// calls: appending one more call gives the log of one more call.
pub proof fn lemma_appended_is_log_of(
    recorder: SessionView,
    start: Seq<u8>,
    calls: Seq<Recorded>,
    next: Recorded,
)
    requires
        recorder.log == log_of(start, calls),
        next.elapsed_ms >= recorder.last_ms,
    ensures
        appended(recorder, next.elapsed_ms, next.interface, next.body).log == log_of(
            start,
            calls.push(next),
        ),
        appended(recorder, next.elapsed_ms, next.interface, next.body).last_ms == next.elapsed_ms,
{
    assert(calls.push(next).drop_last() =~= calls);
}

/// The log grows by appending only: the log of the first `n` calls is the
/// start of the log of all of them.
pub proof fn lemma_log_grows(start: Seq<u8>, calls: Seq<Recorded>, n: int)
    requires
        0 <= n <= calls.len(),
    ensures
        start.len() <= log_of(start, calls.take(n)).len() <= log_of(start, calls).len(),
        log_of(start, calls).subrange(0, log_of(start, calls.take(n)).len() as int) == log_of(
            start,
            calls.take(n),
        ),
    decreases calls.len(),
{
    if n == calls.len() {
        assert(calls.take(n) =~= calls);
        assert(log_of(start, calls).subrange(0, log_of(start, calls).len() as int) =~= log_of(
            start,
            calls,
        ));
        if calls.len() > 0 {
            lemma_log_grows(start, calls.drop_last(), n - 1);
        }
    } else {
        lemma_log_grows(start, calls.drop_last(), n);
        assert(calls.drop_last().take(n) =~= calls.take(n));
        let short = log_of(start, calls.drop_last());
        let begin = log_of(start, calls.take(n));
        assert(log_of(start, calls).subrange(0, begin.len() as int) =~= short.subrange(
            0,
            begin.len() as int,
        ));
    }
}

/// Whether a playback session holds the log of `calls` and stands behind
/// the first `i` of them.
pub open spec fn stands_behind(
    player: SessionView,
    start: Seq<u8>,
    calls: Seq<Recorded>,
    i: int,
) -> bool {
    &&& 0 <= i <= calls.len()
    &&& player.log == log_of(start, calls)
    &&& player.log.len() <= usize::MAX
    &&& player.cursor == log_of(start, calls.take(i)).len()
}

/// Round trip of a whole session: in the log of any sequence of calls, a
/// playback that makes the same calls in the same order finds each of them.
/// Standing behind the first `i` calls and calling the operation of call
/// `i`, it reads the textual form of call `i`, whatever bytes that holds,
/// and then stands behind the first `i + 1` calls. Calling any other
/// operation there, it fails with a sequence mismatch. Standing behind all
/// the calls, it finds the log exhausted, whatever it calls.
pub proof fn lemma_session_replays(
    player: SessionView,
    start: Seq<u8>,
    calls: Seq<Recorded>,
    i: int,
    called: Interface,
)
    requires
        stands_behind(player, start, calls, i),
    ensures
        i < calls.len() ==> replayed_body(player, calls[i].interface) == Ok::<
            Seq<u8>,
            ReplayError,
        >(calls[i].body) && stands_behind(advanced(player, calls[i].interface), start, calls, i + 1),
        i < calls.len() ==> replayed_text(player, calls[i].interface) == text_of_body(
            calls[i].body,
        ),
        i < calls.len() && calls[i].interface == Interface::Random ==> replayed_number(player)
            == number_of_body(calls[i].body),
        i < calls.len() && called != calls[i].interface ==> replayed_body(player, called) == Err::<
            Seq<u8>,
            ReplayError,
        >(ReplayError::SequenceMismatch) && advanced(player, called) == player,
        i == calls.len() ==> replayed_body(player, called) == Err::<Seq<u8>, ReplayError>(
            ReplayError::Exhausted,
        ) && advanced(player, called) == player,
{
    if i == calls.len() {
        assert(calls.take(i) =~= calls);
    } else {
        let log = log_of(start, calls);
        let before = log_of(start, calls.take(i));
        let call = calls[i];
        let line = event_line(call.elapsed_ms as nat, call.interface.tag(), call.body);
        assert(calls.take(i + 1).drop_last() =~= calls.take(i));
        assert(calls.take(i + 1).last() == call);
        assert(log_of(start, calls.take(i + 1)) == before + line);
        lemma_log_grows(start, calls, i + 1);
        assert forall|k: int| 0 <= k < line.len() implies log[before.len() + k] == line[k] by {
            assert(log.subrange(0, (before + line).len() as int)[before.len() + k] == (before
                + line)[before.len() + k]);
        }
        assert(log.subrange(before.len() as int, (before.len() + line.len()) as int) =~= line);
        lemma_tags(call.interface, called);
        lemma_tags(called, call.interface);
        lemma_recorded_event_replays(
            log,
            before.len() as int,
            call.elapsed_ms as nat,
            call.interface.tag(),
            call.body,
        );
        if called != call.interface {
            lemma_other_tag_mismatches(
                log,
                before.len() as int,
                call.elapsed_ms as nat,
                call.interface.tag(),
                call.body,
                called.tag(),
            );
        }
    }
}

/// Round trip of the values: the number, the line and the text that a
/// recording session appended are what a playback session gets that stands
/// at their event, and the sentinel that opened the recording opens the
/// playback, wherever the parser reads from the serializer's text the value
/// that was written into it.
pub proof fn lemma_recorded_values_replay(
    player: SessionView,
    recorder: SessionView,
    elapsed_ms: u64,
    n: u32,
    text: Seq<char>,
)
    ensures
        stands_at_appended(player, recorder, elapsed_ms, Interface::Random, decimal(n as nat))
            && ron_number_value(decimal(n as nat)) == Some(n) ==> replayed_number(player) == Ok::<
            u32,
            ReplayError,
        >(n) && advanced(player, Interface::Random).cursor == appended(
            recorder,
            elapsed_ms,
            Interface::Random,
            decimal(n as nat),
        ).log.len(),
        stands_at_appended(player, recorder, elapsed_ms, Interface::Input, ron_string_text(text))
            && ron_string_value(ron_string_text(text)) == Some(text) ==> replayed_text(
            player,
            Interface::Input,
        ) == Ok::<Seq<char>, ReplayError>(text) && advanced(player, Interface::Input).cursor
            == appended(recorder, elapsed_ms, Interface::Input, ron_string_text(text)).log.len(),
        stands_at_appended(player, recorder, elapsed_ms, Interface::Output, ron_string_text(text))
            && ron_string_value(ron_string_text(text)) == Some(text) ==> replayed_output(
            player,
            text,
        ) == Ok::<(), ReplayError>(()) && advanced(player, Interface::Output).cursor == appended(
            recorder,
            elapsed_ms,
            Interface::Output,
            ron_string_text(text),
        ).log.len(),
        stands_at_appended(
            player,
            recorder,
            elapsed_ms,
            Interface::Start,
            ron_string_text(sentinel_text()),
        ) && ron_string_value(ron_string_text(sentinel_text())) == Some(sentinel_text())
            ==> replayed_sentinel(player) == Ok::<(), ReplayError>(()),
{
    if stands_at_appended(player, recorder, elapsed_ms, Interface::Random, decimal(n as nat)) {
        lemma_recorded_call_replays(
            player,
            recorder,
            elapsed_ms,
            Interface::Random,
            decimal(n as nat),
        );
    }
    if stands_at_appended(player, recorder, elapsed_ms, Interface::Input, ron_string_text(text)) {
        lemma_recorded_call_replays(
            player,
            recorder,
            elapsed_ms,
            Interface::Input,
            ron_string_text(text),
        );
    }
    if stands_at_appended(player, recorder, elapsed_ms, Interface::Output, ron_string_text(text)) {
        lemma_recorded_call_replays(
            player,
            recorder,
            elapsed_ms,
            Interface::Output,
            ron_string_text(text),
        );
    }
    if stands_at_appended(
        player,
        recorder,
        elapsed_ms,
        Interface::Start,
        ron_string_text(sentinel_text()),
    ) {
        lemma_recorded_call_replays(
            player,
            recorder,
            elapsed_ms,
            Interface::Start,
            ron_string_text(sentinel_text()),
        );
    }
}

/// The session after the first `k` operations of `called` were called on
/// it, one after the other.
pub open spec fn played(player: SessionView, called: Seq<Interface>, k: int) -> SessionView
    decreases k,
{
    if k <= 0 {
        player
    } else {
        advanced(played(player, called, k - 1), called[k - 1])
    }
}

/// Whether the first `k` operations that the playback calls are those of
/// the first `k` recorded calls, in the same order.
pub open spec fn same_calls(calls: Seq<Recorded>, called: Seq<Interface>, k: int) -> bool {
    &&& 0 <= k <= calls.len()
    &&& k <= called.len()
    &&& forall|i: int| 0 <= i < k ==> #[trigger] called[i] == calls[i].interface
}

/// A playback that has made the first `k` recorded calls stands behind them.
pub proof fn lemma_run_stands(
    player: SessionView,
    start: Seq<u8>,
    calls: Seq<Recorded>,
    called: Seq<Interface>,
    k: int,
)
    requires
        stands_behind(player, start, calls, 0),
        same_calls(calls, called, k),
    ensures
        stands_behind(played(player, called, k), start, calls, k),
    decreases k,
{
    if k > 0 {
        assert(called[k - 1] == calls[k - 1].interface);
        lemma_run_stands(player, start, calls, called, k - 1);
        lemma_session_replays(played(player, called, k - 1), start, calls, k - 1, called[k - 1]);
    }
}

/// A whole run of a playback, up to its first divergent call. Where the
/// playback starts behind the log's start and its first `k` calls are the
/// first `k` recorded calls, each of them reads the textual form that was
/// recorded for it. Call `k` is then the first that can fail: it fails with
/// a sequence mismatch where the log holds a call of another operation at
/// that place, and with an exhausted log where the log holds no further
/// call; where it is the recorded call once more, it succeeds like the
/// others.
pub proof fn lemma_run_fails_at_first_divergence(
    player: SessionView,
    start: Seq<u8>,
    calls: Seq<Recorded>,
    called: Seq<Interface>,
    k: int,
)
    requires
        stands_behind(player, start, calls, 0),
        same_calls(calls, called, k),
        k < called.len(),
    ensures
        forall|i: int|
            0 <= i < k ==> replayed_body(#[trigger] played(player, called, i), called[i]) == Ok::<
                Seq<u8>,
                ReplayError,
            >(calls[i].body),
        k < calls.len() && called[k] != calls[k].interface ==> replayed_body(
            played(player, called, k),
            called[k],
        ) == Err::<Seq<u8>, ReplayError>(ReplayError::SequenceMismatch),
        k < calls.len() && called[k] == calls[k].interface ==> replayed_body(
            played(player, called, k),
            called[k],
        ) == Ok::<Seq<u8>, ReplayError>(calls[k].body),
        k == calls.len() ==> replayed_body(played(player, called, k), called[k]) == Err::<
            Seq<u8>,
            ReplayError,
        >(ReplayError::Exhausted),
{
    assert forall|i: int| 0 <= i < k implies replayed_body(
        #[trigger] played(player, called, i),
        called[i],
    ) == Ok::<Seq<u8>, ReplayError>(calls[i].body) by {
        assert(called[i] == calls[i].interface);
        lemma_run_stands(player, start, calls, called, i);
        lemma_session_replays(played(player, called, i), start, calls, i, called[i]);
    }
    lemma_run_stands(player, start, calls, called, k);
    lemma_session_replays(played(player, called, k), start, calls, k, called[k]);
}

} // verus!
