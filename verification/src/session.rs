//! The session and the operations at the program's boundary: the random
//! source, the input source and the output sink, each in the three modes.
//!
//! A session is made by `init_log_file`, which writes or reads the sentinel,
//! so that every session that exists has been opened. The session owns the
//! log as bytes. In a recording session the caller writes the log's growth
//! to durable storage after every operation; in a playback session the
//! caller hands in the log that was recorded. The caller also measures the
//! time since the session's start.

use crate::codec::{number_from_body, number_of_body, text_from_body, text_of_body};
use crate::decimal::decimal;
use crate::error::ReplayError;
use crate::event::{event_at, event_line, push_event, read_event_at, Interface};
use crate::outside::{fresh_number, is_part_of, number_text, ron_string_text, string_text, trim_of, trimmed};
use vstd::prelude::*;

verus! {

/// What a session does with the calls at the boundary.
#[derive(Clone, Copy, Debug, PartialEq, Eq, Structural)]
pub enum Mode {
    /// The calls pass through; no log is kept.
    Normal,
    /// The calls pass through and each is appended to the log.
    Recording,
    /// The calls are answered from the log.
    Playback,
}

/// The least number that the random source gives.
pub const RANDOM_LOW: u32 = 1;

/// The greatest number that the random source gives.
pub const RANDOM_HIGH: u32 = 100;

/// The text that the first event of every log carries.
pub open spec fn sentinel_text() -> Seq<char> {
    "Log initialized"@
}

/// A session as contracts see it.
pub struct SessionView {
    /// The session's mode, fixed when the session is made.
    pub mode: Mode,
    /// The log: what was recorded so far, or what is played back.
    pub log: Seq<u8>,
    /// The place in the log of the next event to play back.
    pub cursor: int,
    /// The elapsed time of the event that was appended last, zero before
    /// the first.
    pub last_ms: u64,
}

/// One run of the host program in one mode, with the log it writes or reads.
pub struct Session {
    mode: Mode,
    log: Vec<u8>,
    cursor: usize,
    last_ms: u64,
}

impl View for Session {
    type V = SessionView;

    closed spec fn view(&self) -> SessionView {
        SessionView {
            mode: self.mode,
            log: self.log@,
            cursor: self.cursor as int,
            last_ms: self.last_ms,
        }
    }
}

/// A session before it is opened: a recording session with an empty log,
/// or a playback session at the first byte of `recorded`.
pub open spec fn initial_view(recording: bool, recorded: Seq<u8>) -> SessionView {
    if recording {
        SessionView { mode: Mode::Recording, log: Seq::empty(), cursor: 0, last_ms: 0 }
    } else {
        SessionView { mode: Mode::Playback, log: recorded, cursor: 0, last_ms: 0 }
    }
}

/// The session that keeps no log.
pub open spec fn normal_view() -> SessionView {
    SessionView { mode: Mode::Normal, log: Seq::empty(), cursor: 0, last_ms: 0 }
}

/// The elapsed time that an event gets when the caller's clock says
/// `elapsed_ms`: that time, but never less than the time of the event
/// before it, so that the times in a log never go back.
pub open spec fn stamp(s: SessionView, elapsed_ms: u64) -> u64 {
    if elapsed_ms >= s.last_ms {
        elapsed_ms
    } else {
        s.last_ms
    }
}

/// The session after an event was appended to its log.
pub open spec fn appended(s: SessionView, elapsed_ms: u64, interface: Interface, body: Seq<u8>) -> SessionView {
    SessionView {
        log: s.log + event_line(stamp(s, elapsed_ms) as nat, interface.tag(), body),
        last_ms: stamp(s, elapsed_ms),
        ..s
    }
}

/// The session after an attempt to play back an event of `interface`: behind
/// the event where one was read, unchanged where none was.
pub open spec fn advanced(s: SessionView, interface: Interface) -> SessionView {
    match event_at(s.log, s.cursor, interface.tag()) {
        Ok((_, next)) => SessionView { cursor: next, ..s },
        Err(_) => s,
    }
}

/// What playing back an event of `interface` gives: the textual form that
/// the event carries.
pub open spec fn replayed_body(s: SessionView, interface: Interface) -> Result<Seq<u8>, ReplayError> {
    match event_at(s.log, s.cursor, interface.tag()) {
        Ok((body, _)) => Ok(body),
        Err(e) => Err(e),
    }
}

/// What playing back a call of the random source gives.
pub open spec fn replayed_number(s: SessionView) -> Result<u32, ReplayError> {
    match replayed_body(s, Interface::Random) {
        Ok(body) => number_of_body(body),
        Err(e) => Err(e),
    }
}

/// What playing back an event that carries a string gives.
pub open spec fn replayed_text(s: SessionView, interface: Interface) -> Result<Seq<char>, ReplayError> {
    match replayed_body(s, interface) {
        Ok(body) => text_of_body(body),
        Err(e) => Err(e),
    }
}

/// What playing back a call of the output sink with `text` gives: success
/// where the recorded text is `text`, a content mismatch where it is another.
pub open spec fn replayed_output(s: SessionView, text: Seq<char>) -> Result<(), ReplayError> {
    match replayed_text(s, Interface::Output) {
        Ok(recorded) => if recorded == text {
            Ok(())
        } else {
            Err(ReplayError::ContentMismatch)
        },
        Err(e) => Err(e),
    }
}

/// What playing back the sentinel gives: success where the first event
/// carries the sentinel text, a malformed log where it carries another.
pub open spec fn replayed_sentinel(s: SessionView) -> Result<(), ReplayError> {
    match replayed_text(s, Interface::Start) {
        Ok(recorded) => if recorded == sentinel_text() {
            Ok(())
        } else {
            Err(ReplayError::Malformed)
        },
        Err(e) => Err(e),
    }
}

/// Whether the log of a recording session opens with the sentinel: the
/// line of an event of `---` at time zero that carries the sentinel text.
pub open spec fn sentinel_written(log: Seq<u8>) -> bool {
    let line = event_line(0, Interface::Start.tag(), ron_string_text(sentinel_text()));
    line.len() <= log.len() && log.subrange(0, line.len() as int) == line
}

/// Whether a playback session has read the sentinel: the log's first event
/// is one of `---` that carries the sentinel text, and the session stands
/// behind it.
pub open spec fn sentinel_read(log: Seq<u8>, cursor: int) -> bool {
    event_at(log, 0, Interface::Start.tag()) matches Ok((body, next)) && text_of_body(body) == Ok::<
        Seq<char>,
        ReplayError,
    >(sentinel_text()) && next <= cursor
}

/// Whether a session was opened as its mode asks: a normal session has no
/// log, the log of a recording session opens with the sentinel, and a
/// playback session has found the sentinel at the start of its log.
pub open spec fn opened(s: SessionView) -> bool {
    match s.mode {
        Mode::Normal => s.log.len() == 0,
        Mode::Recording => sentinel_written(s.log),
        Mode::Playback => sentinel_read(s.log, s.cursor),
    }
}

impl Session {
    /// The place of the next event lies inside the log.
    pub open spec fn bounded(&self) -> bool {
        0 <= self@.cursor <= self@.log.len() <= usize::MAX
    }

    /// The session was opened, and the place of its next event lies inside
    /// the log. Every session that `init_log_file` hands out is so, and
    /// every operation keeps it so.
    pub open spec fn wf(&self) -> bool {
        self.bounded() && opened(self@)
    }

    /// The session's mode.
    pub fn mode(&self) -> (r: Mode)
        ensures
            r == self@.mode,
    {
        self.mode
    }

    /// The log as it stands.
    pub fn log(&self) -> (r: &[u8])
        ensures
            r@ == self@.log,
    {
        self.log.as_slice()
    }

    /// The place in the log of the next event to play back.
    pub fn cursor(&self) -> (r: usize)
        ensures
            r == self@.cursor,
    {
        self.cursor
    }

    /// The elapsed time of the event that was appended last.
    pub fn last_ms(&self) -> (r: u64)
        ensures
            r == self@.last_ms,
    {
        self.last_ms
    }
}

/// Appends the line of one event to a log that is being recorded.
fn append_line(session: &mut Session, elapsed_ms: u64, interface: Interface, body: &[u8])
    requires
        old(session).bounded(),
    ensures
        final(session).bounded(),
        final(session)@ == appended(old(session)@, elapsed_ms, interface, body@),
{
    let at: u64 = if elapsed_ms >= session.last_ms {
        elapsed_ms
    } else {
        session.last_ms
    };
    push_event(&mut session.log, at, interface, body);
    session.last_ms = at;
    // The length of a vector fits in `usize`.
    let _size: usize = session.log.len();
}

/// Reads the event at the session's place and moves behind it.
fn take_event(session: &mut Session, expected: Interface) -> (r: Result<Vec<u8>, ReplayError>)
    requires
        old(session).bounded(),
    ensures
        final(session).bounded(),
        final(session)@ == advanced(old(session)@, expected),
        final(session)@.cursor >= old(session)@.cursor,
        match replayed_body(old(session)@, expected) {
            Ok(body) => r matches Ok(b) && b@ == body,
            Err(e) => r matches Err(f) && f == e,
        },
{
    match read_event_at(session.log.as_slice(), session.cursor, expected) {
        Ok((body, next)) => {
            session.cursor = next;
            Ok(body)
        },
        Err(e) => Err(e),
    }
}

/// Opens a session in the mode that the two switches select.
///
/// Both switches on is a configuration error. With neither, the session is
/// a normal one and keeps no log. A recording session starts a log of its
/// own, whatever `recorded` holds, and writes the sentinel as its first
/// event, at time zero. A playback session reads `recorded` from its first
/// byte: the first event must be the sentinel, else the log is refused, as
/// exhausted where it is empty, with a sequence mismatch where it opens
/// with another event, and as malformed otherwise.
pub fn init_log_file(recording: bool, playback: bool, recorded: Vec<u8>) -> (r: Result<
    Session,
    ReplayError,
>)
    ensures
        r matches Ok(s) ==> s.wf(),
        recording && playback ==> (r matches Err(e) && e == ReplayError::Configuration),
        !recording && !playback ==> (r matches Ok(s) && s@ == normal_view()),
        recording && !playback ==> (r matches Ok(s) && s@ == appended(
            initial_view(true, recorded@),
            0,
            Interface::Start,
            ron_string_text(sentinel_text()),
        )),
        !recording && playback ==> match replayed_sentinel(initial_view(false, recorded@)) {
            Ok(_) => r matches Ok(s) && s@ == advanced(
                initial_view(false, recorded@),
                Interface::Start,
            ),
            Err(e) => r matches Err(f) && f == e,
        },
{
    if recording && playback {
        Err(ReplayError::Configuration)
    } else if recording {
        let mut session = Session { mode: Mode::Recording, log: Vec::new(), cursor: 0, last_ms: 0 };
        match string_text("Log initialized") {
            Some(body) => {
                append_line(&mut session, 0, Interface::Start, body.as_slice());
                proof {
                    let line = event_line(0, Interface::Start.tag(), body@);
                    assert(session@.log =~= line);
                    assert(session@.log.subrange(0, line.len() as int) =~= line);
                }
                Ok(session)
            },
            None => Err(ReplayError::Encoding),
        }
    } else if playback {
        // The length of a vector fits in `usize`.
        let _size: usize = recorded.len();
        let mut session = Session { mode: Mode::Playback, log: recorded, cursor: 0, last_ms: 0 };
        let body = match take_event(&mut session, Interface::Start) {
            Ok(body) => body,
            Err(e) => {
                return Err(e);
            },
        };
        match text_from_body(body.as_slice()) {
            Ok(found) => {
                let sentinel: String = "Log initialized".to_owned();
                if found == sentinel {
                    Ok(session)
                } else {
                    Err(ReplayError::Malformed)
                }
            },
            Err(e) => Err(e),
        }
    } else {
        Ok(Session { mode: Mode::Normal, log: Vec::new(), cursor: 0, last_ms: 0 })
    }
}

/// Whether the input source reads the real input channel in this session:
/// in every mode but playback.
pub fn needs_live_input(session: &Session) -> (r: bool)
    ensures
        r == (session@.mode != Mode::Playback),
{
    match session.mode {
        Mode::Playback => false,
        _ => true,
    }
}

/// Appends one event to the log of a recording session. `body` is the
/// textual form of the event's value; the line holds its length before it.
/// The event's time is `elapsed_ms`, or the time of the event before it
/// where the caller's clock went back. In any other mode nothing is
/// appended.
pub fn write_event(session: &mut Session, elapsed_ms: u64, interface: Interface, body: &[u8]) -> (r:
    Result<(), ReplayError>)
    requires
        old(session).wf(),
    ensures
        final(session).wf(),
        old(session)@.mode == Mode::Recording ==> r is Ok && final(session)@ == appended(
            old(session)@,
            elapsed_ms,
            interface,
            body@,
        ),
        old(session)@.mode != Mode::Recording ==> r == Err::<(), ReplayError>(
            ReplayError::WrongMode,
        ) && final(session)@ == old(session)@,
{
    match session.mode {
        Mode::Recording => {
            append_line(session, elapsed_ms, interface, body);
            proof {
                let first = event_line(
                    0,
                    Interface::Start.tag(),
                    ron_string_text(sentinel_text()),
                );
                assert(session@.log.subrange(0, first.len() as int) =~= old(session)@.log.subrange(
                    0,
                    first.len() as int,
                ));
            }
            Ok(())
        },
        _ => Err(ReplayError::WrongMode),
    }
}

/// Appends the event of a value whose textual form is handed in as it
/// came from the serializer: an encoding error where there is none. The
/// operations of this library never hand in `None`, since the serializer
/// has a text for every number and every string.
pub fn write_encoded(
    session: &mut Session,
    elapsed_ms: u64,
    interface: Interface,
    encoded: Option<Vec<u8>>,
) -> (r: Result<(), ReplayError>)
    requires
        old(session).wf(),
    ensures
        final(session).wf(),
        old(session)@.mode != Mode::Recording ==> r == Err::<(), ReplayError>(
            ReplayError::WrongMode,
        ) && final(session)@ == old(session)@,
        old(session)@.mode == Mode::Recording ==> match encoded {
            Some(body) => r is Ok && final(session)@ == appended(
                old(session)@,
                elapsed_ms,
                interface,
                body@,
            ),
            None => r == Err::<(), ReplayError>(ReplayError::Encoding) && final(session)@ == old(session)@,
        },
{
    match session.mode {
        Mode::Recording => match encoded {
            Some(body) => write_event(session, elapsed_ms, interface, body.as_slice()),
            None => Err(ReplayError::Encoding),
        },
        _ => Err(ReplayError::WrongMode),
    }
}

/// Plays back the next event of the log for a caller that expects an event
/// of `expected`, and hands out the textual form that it carries. The
/// session moves behind the event only where one was read. In any mode but
/// playback nothing is read.
pub fn read_event(session: &mut Session, expected: Interface) -> (r: Result<Vec<u8>, ReplayError>)
    requires
        old(session).wf(),
    ensures
        final(session).wf(),
        old(session)@.mode != Mode::Playback ==> (r matches Err(e) && e == ReplayError::WrongMode)
            && final(session)@ == old(session)@,
        old(session)@.mode == Mode::Playback ==> final(session)@ == advanced(
            old(session)@,
            expected,
        ) && match replayed_body(old(session)@, expected) {
            Ok(body) => r matches Ok(b) && b@ == body,
            Err(e) => r matches Err(f) && f == e,
        },
{
    match session.mode {
        Mode::Playback => take_event(session, expected),
        _ => Err(ReplayError::WrongMode),
    }
}

/// What the random source does with a number that was drawn, in a session
/// that does not play back: it hands the number on, and a recording session
/// appends it to the log first.
pub fn random_drawn(session: &mut Session, elapsed_ms: u64, n: u32) -> (r: Result<u32, ReplayError>)
    requires
        old(session).wf(),
    ensures
        final(session).wf(),
        match old(session)@.mode {
            Mode::Normal => r == Ok::<u32, ReplayError>(n) && final(session)@ == old(session)@,
            Mode::Recording => r == Ok::<u32, ReplayError>(n) && final(session)@ == appended(
                old(session)@,
                elapsed_ms,
                Interface::Random,
                decimal(n as nat),
            ),
            Mode::Playback => r == Err::<u32, ReplayError>(ReplayError::WrongMode) && final(session)@ == old(session)@,
        },
{
    match session.mode {
        Mode::Normal => Ok(n),
        Mode::Recording => {
            match write_encoded(session, elapsed_ms, Interface::Random, number_text(n)) {
                Ok(()) => Ok(n),
                Err(e) => Err(e),
            }
        },
        Mode::Playback => Err(ReplayError::WrongMode),
    }
}

/// The random source. A playback session answers from the log without
/// drawing. Any other session draws a number between `RANDOM_LOW` and
/// `RANDOM_HIGH`, both included, and a recording session appends it to the
/// log.
pub fn gen_random_number(session: &mut Session, elapsed_ms: u64) -> (r: Result<u32, ReplayError>)
    requires
        old(session).wf(),
    ensures
        final(session).wf(),
        match old(session)@.mode {
            Mode::Normal => (r matches Ok(n) && RANDOM_LOW <= n <= RANDOM_HIGH) && final(session)@ == old(session)@,
            Mode::Recording => r matches Ok(n) && RANDOM_LOW <= n <= RANDOM_HIGH
                && final(session)@ == appended(
                old(session)@,
                elapsed_ms,
                Interface::Random,
                decimal(n as nat),
            ),
            Mode::Playback => r == replayed_number(old(session)@) && final(session)@ == advanced(
                old(session)@,
                Interface::Random,
            ),
        },
{
    match session.mode {
        Mode::Playback => {
            match read_event(session, Interface::Random) {
                Ok(body) => number_from_body(body.as_slice()),
                Err(e) => Err(e),
            }
        },
        _ => {
            let n: u32 = fresh_number(RANDOM_LOW, RANDOM_HIGH);
            random_drawn(session, elapsed_ms, n)
        },
    }
}

/// What the input source does with a line that was read and trimmed, in a
/// session that does not play back: it hands the line on, and a recording
/// session appends it to the log first.
pub fn input_taken(session: &mut Session, elapsed_ms: u64, line: &str) -> (r: Result<
    String,
    ReplayError,
>)
    requires
        old(session).wf(),
    ensures
        final(session).wf(),
        match old(session)@.mode {
            Mode::Normal => (r matches Ok(t) && t@ == line@) && final(session)@ == old(session)@,
            Mode::Recording => (r matches Ok(t) && t@ == line@) && final(session)@ == appended(
                old(session)@,
                elapsed_ms,
                Interface::Input,
                ron_string_text(line@),
            ),
            Mode::Playback => (r matches Err(e) && e == ReplayError::WrongMode) && final(session)@
                == old(session)@,
        },
{
    match session.mode {
        Mode::Normal => Ok(line.to_owned()),
        Mode::Recording => {
            match write_encoded(session, elapsed_ms, Interface::Input, string_text(line)) {
                Ok(()) => Ok(line.to_owned()),
                Err(e) => Err(e),
            }
        },
        Mode::Playback => Err(ReplayError::WrongMode),
    }
}

/// The input source. A playback session answers from the log and does not
/// look at `live`. Any other session hands out `live`, the line read from
/// the real input channel, without the white space around it, and a
/// recording session appends that to the log.
pub fn get_user_input(session: &mut Session, elapsed_ms: u64, live: &str) -> (r: Result<
    String,
    ReplayError,
>)
    requires
        old(session).wf(),
    ensures
        final(session).wf(),
        old(session)@.mode != Mode::Playback ==> (r matches Ok(t) && t@ == trim_of(live@)
            && is_part_of(t@, live@)),
        match old(session)@.mode {
            Mode::Normal => final(session)@ == old(session)@,
            Mode::Recording => final(session)@ == appended(
                old(session)@,
                elapsed_ms,
                Interface::Input,
                ron_string_text(trim_of(live@)),
            ),
            Mode::Playback => final(session)@ == advanced(old(session)@, Interface::Input)
                && match replayed_text(old(session)@, Interface::Input) {
                Ok(s) => r matches Ok(t) && t@ == s,
                Err(e) => r matches Err(f) && f == e,
            },
        },
{
    match session.mode {
        Mode::Playback => {
            match read_event(session, Interface::Input) {
                Ok(body) => text_from_body(body.as_slice()),
                Err(e) => Err(e),
            }
        },
        _ => input_taken(session, elapsed_ms, trimmed(live)),
    }
}

/// Whether the output sink writes to the real output channel in this
/// session: in every mode but playback.
pub fn emits_output(session: &Session) -> (r: bool)
    ensures
        r == (session@.mode != Mode::Playback),
{
    match session.mode {
        Mode::Playback => false,
        _ => true,
    }
}

/// The output sink. The result says whether the caller writes `text` to
/// the real output channel: it does in a normal and in a recording session,
/// which also appends `text` to the log, and does not in a playback
/// session, which instead holds `text` against the text recorded and fails
/// with a content mismatch where they differ.
pub fn console_output(session: &mut Session, elapsed_ms: u64, text: &str) -> (r: Result<
    bool,
    ReplayError,
>)
    requires
        old(session).wf(),
    ensures
        final(session).wf(),
        match old(session)@.mode {
            Mode::Normal => r == Ok::<bool, ReplayError>(true) && final(session)@ == old(session)@,
            Mode::Recording => r == Ok::<bool, ReplayError>(true) && final(session)@ == appended(
                old(session)@,
                elapsed_ms,
                Interface::Output,
                ron_string_text(text@),
            ),
            Mode::Playback => final(session)@ == advanced(old(session)@, Interface::Output)
                && match replayed_output(old(session)@, text@) {
                Ok(_) => r == Ok::<bool, ReplayError>(false),
                Err(e) => r == Err::<bool, ReplayError>(e),
            },
        },
{
    match session.mode {
        Mode::Playback => {
            let body = match read_event(session, Interface::Output) {
                Ok(body) => body,
                Err(e) => {
                    return Err(e);
                },
            };
            match text_from_body(body.as_slice()) {
                Ok(recorded) => {
                    let given: String = text.to_owned();
                    if recorded == given {
                        Ok(false)
                    } else {
                        Err(ReplayError::ContentMismatch)
                    }
                },
                Err(e) => Err(e),
            }
        },
        Mode::Normal => Ok(true),
        Mode::Recording => {
            match write_encoded(session, elapsed_ms, Interface::Output, string_text(text)) {
                Ok(()) => Ok(true),
                Err(e) => Err(e),
            }
        },
    }
}

} // verus!
