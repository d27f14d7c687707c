use chilsonite::sse::{
    chunk_events, complete_events, decode_output_bytes, split_lines, SseEventKind,
};
use chilsonite::dto::{Claims, UserRole, authorize_command};
use base64::Engine;

fn b64(bytes: &[u8]) -> String {
    base64::engine::general_purpose::STANDARD.encode(bytes)
}

#[test]
fn stdout_chunk_becomes_one_event_per_line() {
    let evs = chunk_events(1, &b64(b"a\nb\n"));
    assert_eq!(evs.len(), 2);
    assert!(evs[0].kind == SseEventKind::Stdout && evs[0].data == b"a");
    assert!(evs[1].kind == SseEventKind::Stdout && evs[1].data == b"b");
}

#[test]
fn stderr_chunk_and_crlf_lines() {
    let evs = chunk_events(2, &b64(b"e\r\nf"));
    assert_eq!(evs.len(), 2);
    assert!(evs[0].kind == SseEventKind::Stderr && evs[0].data == b"e");
    assert!(evs[1].kind == SseEventKind::Stderr && evs[1].data == b"f");
}

#[test]
fn bad_base64_yields_a_decode_error_event() {
    let evs = chunk_events(1, "!!!");
    assert_eq!(evs.len(), 1);
    assert!(evs[0].kind == SseEventKind::CmdError);
    assert_eq!(evs[0].data, b"Base64 decode error");
}

#[test]
fn shift_jis_output_falls_back() {
    // "日" in Shift_JIS is 0x93 0xfa; the decoded line is its UTF-8 form
    let evs = chunk_events(1, &b64(&[0x93, 0xfa, 0x0a]));
    assert_eq!(evs.len(), 1);
    assert_eq!(evs[0].data, "\u{65e5}".as_bytes());
}

#[test]
fn undecodable_output_is_replaced_lossily() {
    // 0x82 opens a two-byte Shift_JIS pair but 0x0a is no trail byte, and
    // the pair is no UTF-8 either: the lossy fallback substitutes
    let out = decode_output_bytes(&[0x82, 0x0a]);
    assert_eq!(out, "\u{fffd}\n".as_bytes());
}

#[test]
fn successful_completion_emits_the_exit_code() {
    let evs = complete_events(true, &Some(3), &None);
    assert_eq!(evs.len(), 1);
    assert!(evs[0].kind == SseEventKind::Done);
    assert_eq!(evs[0].data, b"ExitCode: Some(3)");
    let evs = complete_events(true, &None, &None);
    assert_eq!(evs[0].data, b"ExitCode: None");
    let evs = complete_events(true, &Some(-7), &None);
    assert_eq!(evs[0].data, b"ExitCode: Some(-7)");
}

#[test]
fn failed_completion_emits_error_lines_then_done() {
    let evs = complete_events(false, &Some(1), &Some("boom\nbang".to_string()));
    assert_eq!(evs.len(), 3);
    assert!(evs[0].kind == SseEventKind::CmdError);
    assert_eq!(evs[0].data, b"boom");
    assert!(evs[1].kind == SseEventKind::CmdError);
    assert_eq!(evs[1].data, b"bang");
    assert!(evs[2].kind == SseEventKind::Done);
    assert_eq!(evs[2].data, b"ExitCode: Some(1)");
}

#[test]
fn failed_completion_without_message_emits_done_alone() {
    // a failed command that carried no error message yields only the done
    // event with its exit code
    let evs = complete_events(false, &Some(3), &None);
    assert_eq!(evs.len(), 1);
    assert!(evs[0].kind == SseEventKind::Done);
    assert_eq!(evs[0].data, b"ExitCode: Some(3)");
    let evs = complete_events(false, &None, &None);
    assert_eq!(evs.len(), 1);
    assert_eq!(evs[0].data, b"ExitCode: None");
}

#[test]
fn line_splitting_matches_the_documented_rules() {
    let views = |v: Vec<Vec<u8>>| v;
    assert_eq!(views(split_lines(b"")), Vec::<Vec<u8>>::new());
    assert_eq!(split_lines(b"a"), vec![b"a".to_vec()]);
    assert_eq!(split_lines(b"a\n"), vec![b"a".to_vec()]);
    assert_eq!(split_lines(b"a\n\n"), vec![b"a".to_vec(), b"".to_vec()]);
    assert_eq!(split_lines(b"a\r\r\n"), vec![b"a".to_vec()]);
}

#[test]
fn only_admins_may_run_commands() {
    let admin = Claims { sub: "u1".to_string(), role: UserRole::Admin, exp: 0 };
    let user = Claims { sub: "u2".to_string(), role: UserRole::User, exp: 0 };
    assert!(authorize_command(&admin));
    assert!(!authorize_command(&user));
}
