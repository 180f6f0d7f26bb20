use record_playback::error::ReplayError;
use record_playback::event::Interface;
use record_playback::session::{
    console_output, emits_output, gen_random_number, get_user_input, init_log_file, input_taken,
    needs_live_input, random_drawn, read_event, write_encoded, write_event, Mode, Session,
    RANDOM_HIGH, RANDOM_LOW,
};

const OUTPUTS: [&str; 4] =
    ["Guess the number!\n", "Please input your guess.\n", "You guessed: 42\n", "You win!\n"];

const SENTINEL: &str = "0 --- 17 \"Log initialized\"\n";

fn recorder() -> Session {
    init_log_file(true, false, Vec::new()).unwrap()
}

fn player(events: &str) -> Session {
    init_log_file(false, true, format!("{SENTINEL}{events}").into_bytes()).unwrap()
}

fn record_game() -> Vec<u8> {
    let mut s = recorder();
    assert_eq!(console_output(&mut s, 1, OUTPUTS[0]), Ok(true));
    assert_eq!(random_drawn(&mut s, 2, 42), Ok(42));
    assert_eq!(console_output(&mut s, 3, OUTPUTS[1]), Ok(true));
    assert_eq!(get_user_input(&mut s, 2500, "42\n"), Ok("42".to_string()));
    assert_eq!(console_output(&mut s, 2501, OUTPUTS[2]), Ok(true));
    assert_eq!(console_output(&mut s, 2502, OUTPUTS[3]), Ok(true));
    s.log().to_vec()
}

fn replay_game_up_to_the_guess() -> Session {
    let mut s = init_log_file(false, true, record_game()).unwrap();
    assert_eq!(console_output(&mut s, 0, OUTPUTS[0]), Ok(false));
    assert_eq!(gen_random_number(&mut s, 0), Ok(42));
    assert_eq!(console_output(&mut s, 0, OUTPUTS[1]), Ok(false));
    assert_eq!(get_user_input(&mut s, 0, "not looked at"), Ok("42".to_string()));
    s
}

#[test]
fn recorded_game_has_the_documented_lines() {
    let expected = "0 --- 17 \"Log initialized\"\n\
1 output 21 \"Guess the number!\\n\"\n\
2 random 2 42\n\
3 output 28 \"Please input your guess.\\n\"\n\
2500 input 4 \"42\"\n\
2501 output 19 \"You guessed: 42\\n\"\n\
2502 output 12 \"You win!\\n\"\n";
    assert_eq!(String::from_utf8(record_game()).unwrap(), expected);
}

#[test]
fn recorded_game_replays() {
    let size = record_game().len();
    let mut s = replay_game_up_to_the_guess();
    assert_eq!(console_output(&mut s, 0, OUTPUTS[2]), Ok(false));
    assert_eq!(console_output(&mut s, 0, OUTPUTS[3]), Ok(false));
    assert_eq!(s.cursor(), size);
    assert_eq!(s.log().to_vec(), record_game());
}

#[test]
fn other_output_is_a_content_mismatch_at_that_line() {
    let mut s = replay_game_up_to_the_guess();
    assert_eq!(console_output(&mut s, 0, "You guessed: 43\n"), Err(ReplayError::ContentMismatch));
}

#[test]
fn output_that_differs_only_in_white_space_is_a_content_mismatch() {
    let mut s = init_log_file(false, true, record_game()).unwrap();
    assert_eq!(console_output(&mut s, 0, "Guess the number!"), Err(ReplayError::ContentMismatch));
}

#[test]
fn calls_in_another_order_are_a_sequence_mismatch() {
    let mut s = init_log_file(false, true, record_game()).unwrap();
    assert_eq!(console_output(&mut s, 0, OUTPUTS[0]), Ok(false));
    let before = s.cursor();
    assert_eq!(get_user_input(&mut s, 0, ""), Err(ReplayError::SequenceMismatch));
    assert_eq!(s.cursor(), before);
    assert_eq!(console_output(&mut s, 0, OUTPUTS[1]), Err(ReplayError::SequenceMismatch));
    assert_eq!(gen_random_number(&mut s, 0), Ok(42));
    assert_eq!(gen_random_number(&mut s, 0), Err(ReplayError::SequenceMismatch));
}

#[test]
fn one_call_too_many_is_exhausted() {
    let mut s = replay_game_up_to_the_guess();
    assert_eq!(console_output(&mut s, 0, OUTPUTS[2]), Ok(false));
    assert_eq!(console_output(&mut s, 0, OUTPUTS[3]), Ok(false));
    assert_eq!(console_output(&mut s, 0, OUTPUTS[3]), Err(ReplayError::Exhausted));
    assert_eq!(gen_random_number(&mut s, 0), Err(ReplayError::Exhausted));
    assert_eq!(get_user_input(&mut s, 0, ""), Err(ReplayError::Exhausted));
    assert_eq!(read_event(&mut s, Interface::Start), Err(ReplayError::Exhausted));
}

#[test]
fn empty_log_is_exhausted_at_the_sentinel() {
    assert_eq!(init_log_file(false, true, Vec::new()).err(), Some(ReplayError::Exhausted));
}

#[test]
fn both_modes_are_a_configuration_error() {
    assert_eq!(init_log_file(true, true, Vec::new()).err(), Some(ReplayError::Configuration));
    assert_eq!(init_log_file(true, true, record_game()).err(), Some(ReplayError::Configuration));
}

#[test]
fn switches_select_the_mode() {
    let normal = init_log_file(false, false, b"not looked at".to_vec()).unwrap();
    assert_eq!(normal.mode(), Mode::Normal);
    assert_eq!(normal.log().len(), 0);
    let recording = init_log_file(true, false, b"an older log".to_vec()).unwrap();
    assert_eq!(recording.mode(), Mode::Recording);
    assert_eq!(recording.log(), SENTINEL.as_bytes());
    assert_eq!(recording.cursor(), 0);
    let playback = init_log_file(false, true, SENTINEL.as_bytes().to_vec()).unwrap();
    assert_eq!(playback.mode(), Mode::Playback);
    assert_eq!(playback.log(), SENTINEL.as_bytes());
    assert_eq!(playback.cursor(), SENTINEL.len());
    assert!(needs_live_input(&normal));
    assert!(needs_live_input(&recording));
    assert!(!needs_live_input(&playback));
    assert!(emits_output(&normal));
    assert!(emits_output(&recording));
    assert!(!emits_output(&playback));
}

#[test]
fn sentinel_line_opens_a_recording() {
    let s = recorder();
    assert_eq!(s.log(), b"0 --- 17 \"Log initialized\"\n");
    assert_eq!(s.last_ms(), 0);
}

#[test]
fn another_sentinel_is_a_malformed_log() {
    assert_eq!(
        init_log_file(false, true, b"0 --- 7 \"Hello\"\n".to_vec()).err(),
        Some(ReplayError::Malformed)
    );
    assert_eq!(
        init_log_file(false, true, b"0 --- 2 17\n".to_vec()).err(),
        Some(ReplayError::Malformed)
    );
    assert_eq!(
        init_log_file(false, true, b"0 --- 17 \"Log initialized\"".to_vec()).err(),
        Some(ReplayError::Malformed)
    );
    assert_eq!(
        init_log_file(false, true, b"0 output 17 \"Log initialized\"\n".to_vec()).err(),
        Some(ReplayError::SequenceMismatch)
    );
}

#[test]
fn normal_session_keeps_no_log() {
    let mut s = init_log_file(false, false, Vec::new()).unwrap();
    assert_eq!(console_output(&mut s, 5, "hello\n"), Ok(true));
    assert_eq!(get_user_input(&mut s, 6, "  17 \t\r\n"), Ok("17".to_string()));
    assert_eq!(random_drawn(&mut s, 7, 9), Ok(9));
    assert!(gen_random_number(&mut s, 8).is_ok());
    assert_eq!(s.log().len(), 0);
    assert_eq!(s.cursor(), 0);
}

#[test]
fn random_numbers_lie_in_the_range() {
    assert_eq!((RANDOM_LOW, RANDOM_HIGH), (1, 100));
    let mut s = init_log_file(false, false, Vec::new()).unwrap();
    let first = gen_random_number(&mut s, 0).unwrap();
    let mut another = false;
    for _ in 0..2000 {
        let n = gen_random_number(&mut s, 0).unwrap();
        assert!((1..=100).contains(&n));
        another = another || n != first;
    }
    assert!(another);
}

#[test]
fn drawn_number_is_recorded_as_it_is_handed_out() {
    let mut s = recorder();
    let n = gen_random_number(&mut s, 15).unwrap();
    assert!((1..=100).contains(&n));
    assert_eq!(
        String::from_utf8(s.log().to_vec()).unwrap(),
        format!("{SENTINEL}15 random {} {}\n", n.to_string().len(), n)
    );
    let mut p = init_log_file(false, true, s.log().to_vec()).unwrap();
    assert_eq!(gen_random_number(&mut p, 0), Ok(n));
}

#[test]
fn input_is_trimmed_before_it_is_recorded() {
    let mut s = recorder();
    assert_eq!(get_user_input(&mut s, 3, "  a b \n"), Ok("a b".to_string()));
    assert_eq!(s.log(), format!("{SENTINEL}3 input 5 \"a b\"\n").as_bytes());
    let mut p = init_log_file(false, true, s.log().to_vec()).unwrap();
    assert_eq!(get_user_input(&mut p, 0, "other"), Ok("a b".to_string()));
}

#[test]
fn output_with_space_and_newline_replays() {
    let text = "line one\n  line two\twith tab\n";
    let mut s = recorder();
    assert_eq!(console_output(&mut s, 0, text), Ok(true));
    assert_eq!(console_output(&mut s, 0, "next"), Ok(true));
    let mut p = init_log_file(false, true, s.log().to_vec()).unwrap();
    assert_eq!(console_output(&mut p, 0, text), Ok(false));
    assert_eq!(console_output(&mut p, 0, "next"), Ok(false));
    assert_eq!(p.cursor(), p.log().len());
}

#[test]
fn raw_bodies_with_newlines_replay() {
    let mut s = recorder();
    assert_eq!(write_event(&mut s, 4, Interface::Input, b"a b\nc"), Ok(()));
    assert_eq!(write_event(&mut s, 5, Interface::Output, b""), Ok(()));
    assert_eq!(s.log(), format!("{SENTINEL}4 input 5 a b\nc\n5 output 0 \n").as_bytes());
    let mut p = init_log_file(false, true, s.log().to_vec()).unwrap();
    assert_eq!(read_event(&mut p, Interface::Input), Ok(b"a b\nc".to_vec()));
    assert_eq!(read_event(&mut p, Interface::Output), Ok(Vec::new()));
    assert_eq!(read_event(&mut p, Interface::Output), Err(ReplayError::Exhausted));
}

#[test]
fn operations_of_the_other_mode_are_refused() {
    let mut r = recorder();
    assert_eq!(read_event(&mut r, Interface::Random), Err(ReplayError::WrongMode));
    assert_eq!(r.log(), SENTINEL.as_bytes());
    let mut p = init_log_file(false, true, record_game()).unwrap();
    assert_eq!(write_event(&mut p, 0, Interface::Random, b"1"), Err(ReplayError::WrongMode));
    assert_eq!(write_encoded(&mut p, 0, Interface::Random, None), Err(ReplayError::WrongMode));
    assert_eq!(random_drawn(&mut p, 0, 5), Err(ReplayError::WrongMode));
    assert_eq!(input_taken(&mut p, 0, "x"), Err(ReplayError::WrongMode));
    assert_eq!(p.cursor(), SENTINEL.len());
    assert_eq!(p.log().to_vec(), record_game());
    let mut n = init_log_file(false, false, Vec::new()).unwrap();
    assert_eq!(write_event(&mut n, 0, Interface::Random, b"1"), Err(ReplayError::WrongMode));
    assert_eq!(read_event(&mut n, Interface::Random), Err(ReplayError::WrongMode));
    assert_eq!(n.log().len(), 0);
}

#[test]
fn value_without_a_textual_form_is_an_encoding_error() {
    let mut s = recorder();
    assert_eq!(write_encoded(&mut s, 0, Interface::Input, None), Err(ReplayError::Encoding));
    assert_eq!(s.log(), SENTINEL.as_bytes());
    assert_eq!(write_encoded(&mut s, 0, Interface::Input, Some(b"\"x\"".to_vec())), Ok(()));
    assert_eq!(s.log(), format!("{SENTINEL}0 input 3 \"x\"\n").as_bytes());
}

#[test]
fn payload_that_cannot_be_decoded_is_a_malformed_log() {
    let mut p = player("0 random 3 abc\n0 input 2 17\n");
    assert_eq!(gen_random_number(&mut p, 0), Err(ReplayError::Malformed));
    assert_eq!(get_user_input(&mut p, 0, ""), Err(ReplayError::Malformed));
    let mut p = player("0 output 9 \"x\"\n");
    assert_eq!(console_output(&mut p, 0, "x"), Err(ReplayError::Malformed));
    assert_eq!(p.cursor(), SENTINEL.len());
}

#[test]
fn recorded_times_do_not_matter_to_playback() {
    let log = b"5 --- 17 \"Log initialized\"\n3 random 1 7\n999999 output 4 \"ok\"\n".to_vec();
    let mut p = init_log_file(false, true, log).unwrap();
    assert_eq!(gen_random_number(&mut p, 123), Ok(7));
    assert_eq!(console_output(&mut p, 456, "ok"), Ok(false));
}

#[test]
fn times_in_the_log_never_go_back() {
    let mut s = recorder();
    assert_eq!(s.last_ms(), 0);
    assert_eq!(write_event(&mut s, 10, Interface::Random, b"1"), Ok(()));
    assert_eq!(s.last_ms(), 10);
    assert_eq!(write_event(&mut s, 5, Interface::Random, b"2"), Ok(()));
    assert_eq!(s.last_ms(), 10);
    assert_eq!(write_event(&mut s, 11, Interface::Random, b"3"), Ok(()));
    assert_eq!(
        s.log(),
        format!("{SENTINEL}10 random 1 1\n10 random 1 2\n11 random 1 3\n").as_bytes()
    );
}

#[test]
fn line_taken_is_recorded_as_it_stands() {
    let mut s = recorder();
    assert_eq!(input_taken(&mut s, 8, " a  b "), Ok(" a  b ".to_string()));
    assert_eq!(s.log(), format!("{SENTINEL}8 input 8 \" a  b \"\n").as_bytes());
    let mut p = init_log_file(false, true, s.log().to_vec()).unwrap();
    assert_eq!(get_user_input(&mut p, 0, ""), Ok(" a  b ".to_string()));
    let mut n = init_log_file(false, false, Vec::new()).unwrap();
    assert_eq!(input_taken(&mut n, 8, " a  b "), Ok(" a  b ".to_string()));
    assert_eq!(n.log().len(), 0);
}

#[test]
fn every_recording_operation_succeeds_and_appends_one_event() {
    let mut s = recorder();
    let mut size = s.log().len();
    for round in 0..200u64 {
        let n = gen_random_number(&mut s, round).unwrap();
        assert!((1..=100).contains(&n));
        let line = format!("{round} random {} {n}\n", n.to_string().len());
        assert_eq!(&s.log()[size..], line.as_bytes());
        size = s.log().len();
        assert_eq!(get_user_input(&mut s, round, " 7 "), Ok("7".to_string()));
        assert_eq!(&s.log()[size..], format!("{round} input 3 \"7\"\n").as_bytes());
        size = s.log().len();
        assert_eq!(console_output(&mut s, round, "x y"), Ok(true));
        assert_eq!(&s.log()[size..], format!("{round} output 5 \"x y\"\n").as_bytes());
        size = s.log().len();
    }
}

#[test]
fn every_number_in_range_reads_back() {
    for n in 1..=100u32 {
        let mut s = recorder();
        assert_eq!(random_drawn(&mut s, 0, n), Ok(n));
        let mut p = init_log_file(false, true, s.log().to_vec()).unwrap();
        assert_eq!(gen_random_number(&mut p, 0), Ok(n));
        assert_eq!(p.cursor(), p.log().len());
    }
}

#[test]
fn text_of_every_kind_of_character_reads_back() {
    let mut text = String::new();
    for code in 0..0x3000u32 {
        if let Some(c) = char::from_u32(code) {
            text.push(c);
        }
    }
    text.push_str("\u{1F600}\u{10FFFF}\u{FEFF}");
    let mut s = recorder();
    assert_eq!(console_output(&mut s, 0, &text), Ok(true));
    assert_eq!(input_taken(&mut s, 0, &text), Ok(text.clone()));
    let mut p = init_log_file(false, true, s.log().to_vec()).unwrap();
    assert_eq!(console_output(&mut p, 0, &text), Ok(false));
    assert_eq!(get_user_input(&mut p, 0, ""), Ok(text));
    assert_eq!(p.cursor(), p.log().len());
}
