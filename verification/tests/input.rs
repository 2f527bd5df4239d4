use credchain::failure::{Failure, FailureKind};
use credchain::input::{read_line, read_value, PromptEvent, PromptResult, Prompting};

fn failure(message: &str) -> Failure {
    Failure { kind: FailureKind::Other, message: message.to_string() }
}

fn end(s: Prompting) -> (Result<PromptResult, String>, bool) {
    match s {
        Prompting::Done { result, newline } => (result.map_err(|f| f.message), newline),
        _ => panic!("expected an end"),
    }
}

fn value_of(line: &[u8]) -> (Vec<u8>, bool) {
    let r = read_line(line.to_vec());
    (r.value, r.eof)
}

#[test]
fn lines_lose_their_line_ending() {
    assert_eq!(value_of(b"abc\n"), (b"abc".to_vec(), false));
    assert_eq!(value_of(b"abc\r\n"), (b"abc".to_vec(), false));
    assert_eq!(value_of(b"abc"), (b"abc".to_vec(), false));
    assert_eq!(value_of(b"abc\r"), (b"abc\r".to_vec(), false));
    assert_eq!(value_of(b"a\r\r\n"), (b"a\r".to_vec(), false));
    assert_eq!(value_of(b"\n"), (b"".to_vec(), false));
    assert_eq!(value_of(b"\r\n"), (b"".to_vec(), false));
    assert_eq!(value_of(b""), (b"".to_vec(), true));
    assert_eq!(value_of(b"\xff\0x\n"), (b"\xff\0x".to_vec(), false));
}

#[test]
fn visible_prompts_read_a_line() {
    let s = read_value("aws.A", false);
    match &s {
        Prompting::Show { text, hidden } => {
            assert_eq!((text.as_str(), *hidden), ("aws.A: ", false))
        }
        _ => panic!("expected a prompt"),
    }
    let s = s.step(PromptEvent::Shown(Ok(())));
    assert!(matches!(s, Prompting::Read { hidden: false }));
    let (r, newline) = end(s.step(PromptEvent::Read(Ok(b"v\n".to_vec()))));
    assert_eq!((r.unwrap().value, newline), (b"v".to_vec(), false));
}

#[test]
fn visible_prompts_report_failures() {
    let (r, _) = end(read_value("p", false).step(PromptEvent::Shown(Err(failure("closed")))));
    assert_eq!(r.err().unwrap(), "closed");
    let s = read_value("p", false).step(PromptEvent::Shown(Ok(())));
    let (r, _) = end(s.step(PromptEvent::Read(Err(failure("io")))));
    assert_eq!(r.err().unwrap(), "io");
}

fn hidden_prompt() -> Prompting {
    read_value("aws.A", true).step(PromptEvent::Queried(true)).step(PromptEvent::Hidden(true))
}

#[test]
fn hidden_prompts_need_a_terminal() {
    let s = read_value("aws.A", true);
    assert!(matches!(s, Prompting::Query { .. }));
    let (r, newline) = end(s.step(PromptEvent::Queried(false)));
    assert_eq!(r.err().unwrap(), "--noecho requires stdin to be a terminal");
    assert!(!newline);
    let s = read_value("aws.A", true).step(PromptEvent::Queried(true));
    let (r, _) = end(s.step(PromptEvent::Hidden(false)));
    assert_eq!(r.err().unwrap(), "tcsetattr failed");
}

#[test]
fn hidden_prompts_restore_the_echo() {
    match hidden_prompt() {
        Prompting::Show { text, hidden } => {
            assert_eq!((text.as_str(), hidden), ("aws.A (noecho): ", true))
        }
        _ => panic!("expected a prompt"),
    }
    let reading = || hidden_prompt().step(PromptEvent::Shown(Ok(())));
    let s = reading().step(PromptEvent::Read(Ok(b"v\n".to_vec())));
    assert!(matches!(s, Prompting::Restore { .. }));
    let (r, newline) = end(s.step(PromptEvent::Restored(true)));
    assert_eq!((r.unwrap().value, newline), (b"v".to_vec(), true));
    let s = reading().step(PromptEvent::Read(Ok(b"v\n".to_vec())));
    let (r, newline) = end(s.step(PromptEvent::Restored(false)));
    assert_eq!((r.err().unwrap().as_str(), newline), ("tcsetattr restore failed", false));
}

#[test]
fn hidden_prompts_restore_the_echo_after_failures_too() {
    let s = hidden_prompt().step(PromptEvent::Shown(Err(failure("closed"))));
    assert!(matches!(s, Prompting::Restore { .. }));
    let (r, _) = end(s.step(PromptEvent::Restored(true)));
    assert_eq!(r.err().unwrap(), "closed");
    let s = hidden_prompt().step(PromptEvent::Shown(Ok(())));
    let s = s.step(PromptEvent::Read(Err(failure("io"))));
    let (r, _) = end(s.step(PromptEvent::Restored(false)));
    assert_eq!(r.err().unwrap(), "io");
}
