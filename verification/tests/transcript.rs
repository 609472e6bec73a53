use repl_core::transcript::{
    failure_report, finish_answer, frame_answer, is_failure, is_success, read_answer, Out, Status,
    TranscriptError,
};

const BANNER: &str = "Welcome\nEnter an expression.\n";

fn clean() -> Status {
    Status { success: true, signal: None }
}

fn transcript(answer: &str) -> String {
    format!("{}{}", BANNER, answer)
}

#[test]
fn answer_is_framed_and_stripped() {
    let stdout = transcript("\n42 \u{1b}[35m:\u{1b}[0m Num *\n");
    let out = read_answer(&stdout, String::new(), clean(), BANNER).unwrap();
    assert_eq!(out.stdout, "42 : Num *");
    assert_eq!(out.stderr, "");
    assert!(out.status.success);
    assert!(is_success(&out, "42 : Num *"));
    assert!(!is_success(&out, "42 : Int *"));
}

#[test]
fn frame_drops_first_and_last_byte() {
    let stdout = transcript("\nabc\n");
    let body = frame_answer(stdout.as_bytes(), BANNER.as_bytes(), clean()).unwrap();
    assert_eq!(body, b"abc".to_vec());
    let two = transcript("\n\n");
    assert_eq!(frame_answer(two.as_bytes(), BANNER.as_bytes(), clean()).unwrap(), Vec::<u8>::new());
}

#[test]
fn missing_banner_is_reported() {
    let r = read_answer("something else", String::new(), clean(), BANNER);
    assert_eq!(r.unwrap_err(), TranscriptError::MissingBanner);
}

#[test]
fn empty_answer_tells_a_segfault_from_another_exit() {
    let died = Status { success: false, signal: Some(11) };
    let r = read_answer(BANNER, String::new(), died, BANNER);
    assert_eq!(r.unwrap_err(), TranscriptError::Segfault);
    let killed = Status { success: false, signal: Some(9) };
    let r = read_answer(BANNER, String::new(), killed, BANNER);
    assert_eq!(r.unwrap_err(), TranscriptError::ExitedEarly);
    let r = read_answer(BANNER, String::new(), clean(), BANNER);
    assert_eq!(r.unwrap_err(), TranscriptError::ExitedEarly);
}

#[test]
fn answer_must_end_in_a_newline() {
    let stdout = transcript("\n42");
    let r = read_answer(&stdout, String::new(), clean(), BANNER);
    assert_eq!(r.unwrap_err(), TranscriptError::MissingNewline);
}

#[test]
fn lone_newline_is_too_short() {
    let stdout = transcript("\n");
    let r = read_answer(&stdout, String::new(), clean(), BANNER);
    assert_eq!(r.unwrap_err(), TranscriptError::TooShort);
}

#[test]
fn first_character_must_be_one_byte() {
    let stdout = transcript("\u{e5}bc\n");
    let r = read_answer(&stdout, String::new(), clean(), BANNER);
    assert_eq!(r.unwrap_err(), TranscriptError::SplitCharacter);
}

#[test]
fn finish_rejects_bad_bytes_and_failed_strips() {
    let r = finish_answer(Some(vec![0xff, 0xfe]), String::new(), clean());
    assert_eq!(r.unwrap_err(), TranscriptError::NotUtf8);
    let r = finish_answer(None, String::new(), clean());
    assert_eq!(r.unwrap_err(), TranscriptError::StripFailed);
    let out = finish_answer(Some("h\u{e9}".as_bytes().to_vec()), "warn".to_string(), clean()).unwrap();
    assert_eq!(out.stdout, "h\u{e9}");
    assert_eq!(out.stderr, "warn");
}

#[test]
fn report_starts_at_the_first_rule() {
    let text = "noise\n\u{2500}\u{2500} TYPE MISMATCH \u{2500}\u{2500}\n\nbody\n";
    assert_eq!(
        failure_report(text).unwrap(),
        "\u{2500}\u{2500} TYPE MISMATCH \u{2500}\u{2500}\n\nbody\n"
    );
    assert_eq!(failure_report("42 : Num *"), None);
    assert_eq!(failure_report(""), None);
}

#[test]
fn failure_needs_a_clean_run_and_the_same_report() {
    let out = Out {
        stdout: "x\u{2500} T\nbody".to_string(),
        stderr: String::new(),
        status: clean(),
    };
    assert!(is_failure(&out, "\u{2500} T\nbody"));
    assert!(!is_failure(&out, "\u{2500} T\nother"));
    let noisy = Out { stdout: out.stdout.clone(), stderr: "e".to_string(), status: clean() };
    assert!(!is_failure(&noisy, "\u{2500} T\nbody"));
    let plain = Out { stdout: "42".to_string(), stderr: String::new(), status: clean() };
    assert!(!is_failure(&plain, "42"));
}
