use std::time::Duration;

use credchain::creds::{
    attempt_outcome, classify_decrypt_stderr, decrypt_args, decrypt_cipher_once,
    decrypt_failure_message, is_pipe_transport, redact, stderr_text, transport_backoff, ChildRun,
    DecryptAttemptError, DecryptClass, REDACT_MAX, TRANSPORT_ATTEMPTS, TRANSPORT_BACKOFF_BASE_MS,
};
use credchain::failure::{Failure, FailureKind};
use credchain::retry::{decrypt_cipher_with_retry_using, Retry, RetryEvent};

fn failure(kind: FailureKind, message: &str) -> Failure {
    Failure { kind, message: message.to_string() }
}

#[test]
fn redact_truncates() {
    let long = "x".repeat(500);
    assert!(redact(&long).ends_with('…'));
    assert!(redact(&long).len() < 600);
    assert_eq!(redact("short"), "short");
}

#[test]
fn redact_keeps_exactly_the_limit() {
    let full = "y".repeat(REDACT_MAX);
    assert_eq!(redact(&full), full);
    let over = "y".repeat(REDACT_MAX + 1);
    assert_eq!(redact(&over), format!("{full}…"));
    assert_eq!(redact(&over).len(), 203);
}

#[test]
fn redact_cuts_at_whole_characters() {
    let text = "é".repeat(101);
    assert_eq!(redact(&text), format!("{}…", "é".repeat(100)));
    let shifted = format!("a{}", "é".repeat(101));
    assert_eq!(redact(&shifted), format!("a{}…", "é".repeat(99)));
    let wide = format!("ab{}", "\u{1f511}".repeat(60));
    assert_eq!(redact(&wide), format!("ab{}…", "\u{1f511}".repeat(49)));
}

#[test]
fn transport_stderr_is_not_corrupt_or_name_mismatch() {
    let stderr = "Failed to call Decrypt() varlink call.";
    assert_eq!(classify_decrypt_stderr(stderr), DecryptClass::Transport);
    let msg = decrypt_failure_message(DecryptClass::Transport, stderr);
    assert!(
        !msg.to_lowercase().contains("corrupt"),
        "transport labeled corrupt: {msg}"
    );
    assert!(
        !msg.contains("name-mismatched") && !msg.contains("name mismatch"),
        "transport labeled name mismatch: {msg}"
    );
    assert!(msg.contains("varlink transport"), "{msg}");
}

#[test]
fn connect_stderr_is_transport() {
    let stderr = "Failed to connect to io.systemd.Credentials: Connection refused";
    assert_eq!(classify_decrypt_stderr(stderr), DecryptClass::Transport);
    let msg = decrypt_failure_message(DecryptClass::Transport, stderr);
    assert!(!msg.to_lowercase().contains("corrupt"));
    assert!(!msg.contains("name-mismatched"));
}

#[test]
fn name_mismatch_and_bad_format_fail_closed_without_transport() {
    assert_eq!(
        classify_decrypt_stderr("Name in credential doesn't match expectations."),
        DecryptClass::NameMismatch
    );
    assert_eq!(
        classify_decrypt_stderr("Bad credential format."),
        DecryptClass::BadFormat
    );
    assert_eq!(
        classify_decrypt_stderr("Decryption failed (incorrect key?)"),
        DecryptClass::Crypto
    );
}

#[test]
fn final_texts_win_over_transport_texts() {
    let call = "Failed to call Decrypt() varlink call.";
    assert_eq!(
        classify_decrypt_stderr(&format!("{call}\nBad credential format.")),
        DecryptClass::BadFormat
    );
    assert_eq!(
        classify_decrypt_stderr(&format!("{call} Failed to unseal")),
        DecryptClass::Crypto
    );
    assert_eq!(
        classify_decrypt_stderr(&format!(
            "Bad credential format. Name in credential doesn't match expectations. {call}"
        )),
        DecryptClass::NameMismatch
    );
    assert_eq!(classify_decrypt_stderr("something else"), DecryptClass::Other);
    assert_eq!(classify_decrypt_stderr(""), DecryptClass::Other);
}

#[test]
fn every_text_of_a_rejected_key_is_crypto() {
    let texts = [
        "dictionary lockout",
        "belongs to another TPM",
        "Couldn't find PCR signature file",
        "Failed to unseal",
    ];
    for text in texts {
        assert_eq!(
            classify_decrypt_stderr(&format!("x {text} y")),
            DecryptClass::Crypto
        );
    }
}

#[test]
fn failure_messages_name_their_class() {
    assert_eq!(
        decrypt_failure_message(DecryptClass::Transport, "  t\n"),
        "systemd-creds decrypt failed: credentials service unavailable (varlink transport): t"
    );
    assert_eq!(
        decrypt_failure_message(DecryptClass::NameMismatch, "t"),
        "systemd-creds decrypt failed: credential name mismatch: t"
    );
    assert_eq!(
        decrypt_failure_message(DecryptClass::BadFormat, "t"),
        "systemd-creds decrypt failed: bad credential format: t"
    );
    assert_eq!(
        decrypt_failure_message(DecryptClass::Crypto, "t"),
        "systemd-creds decrypt failed: decryption key or TPM rejected the credential: t"
    );
    assert_eq!(
        decrypt_failure_message(DecryptClass::Other, "\u{a0}t "),
        "systemd-creds decrypt failed: t"
    );
}

#[test]
fn transport_backoff_is_nonzero() {
    for attempt in 0..TRANSPORT_ATTEMPTS {
        for nanos in [0u32, 1, 999_999_999] {
            let wait = Duration::from_millis(transport_backoff(attempt, 4711, nanos));
            assert!(wait >= Duration::from_millis(TRANSPORT_BACKOFF_BASE_MS));
        }
    }
}

#[test]
fn backoff_doubles_up_to_the_cap() {
    let waits: Vec<u64> = (0..7u32).map(|n| transport_backoff(n, 0, 0)).collect();
    assert_eq!(waits, vec![25, 50, 100, 200, 400, 400, 400]);
    assert_eq!(transport_backoff(u32::MAX, 0, 0), 400);
}

#[test]
fn backoff_jitter_is_drawn_from_process_and_clock() {
    assert_eq!(transport_backoff(0, 5, 0), 30);
    assert_eq!(transport_backoff(0, 5, 1), 29);
    assert_eq!(transport_backoff(0, 13, 0), 25);
    assert_eq!(transport_backoff(4, 200, 0), 600);
    assert_eq!(transport_backoff(4, 201, 0), 400);
}

#[test]
fn retries_transport_then_succeeds() {
    let mut n: i32 = 0;
    let result = decrypt_cipher_with_retry_using(
        b"cipher",
        |_| {
            n += 1;
            if n < 3 {
                Err(DecryptAttemptError::Failed(
                    "Failed to call Decrypt() varlink call.".into(),
                ))
            } else {
                Ok(b"plain".to_vec())
            }
        },
        |_| {},
    );
    assert_eq!(result.unwrap(), b"plain");
    assert_eq!(n, 3);
}

#[test]
fn does_not_retry_name_mismatch() {
    let mut n: i32 = 0;
    let err = decrypt_cipher_with_retry_using(
        b"cipher",
        |_| {
            n += 1;
            Err(DecryptAttemptError::Failed(
                "Name in credential doesn't match expectations.".into(),
            ))
        },
        |_| {},
    )
    .err()
    .unwrap();
    assert!(err.0.contains("name mismatch"), "{}", err.0);
    assert_eq!(n, 1);
}

#[test]
fn transport_retries_exhaust_fail_closed() {
    let mut n: i32 = 0;
    let mut sleeps: u32 = 0;
    let err = decrypt_cipher_with_retry_using(
        b"cipher",
        |_| {
            n += 1;
            Err(DecryptAttemptError::Failed(
                "Failed to connect to io.systemd.Credentials".into(),
            ))
        },
        |_| {
            sleeps += 1;
        },
    )
    .err()
    .unwrap();
    assert!(err.0.contains("varlink transport"), "{}", err.0);
    assert!(!err.0.to_lowercase().contains("corrupt"), "{}", err.0);
    assert_eq!(n, TRANSPORT_ATTEMPTS as i32);
    assert_eq!(sleeps, TRANSPORT_ATTEMPTS - 1);
}

#[test]
fn sleeps_are_numbered_by_the_attempt_before() {
    let mut seen: Vec<u32> = Vec::new();
    let mut inputs: Vec<Vec<u8>> = Vec::new();
    let err = decrypt_cipher_with_retry_using(
        b"abc",
        |cipher| {
            inputs.push(cipher.to_vec());
            Err(DecryptAttemptError::Failed(
                "Failed to connect to io.systemd.Credentials".into(),
            ))
        },
        |attempt| seen.push(attempt),
    );
    assert!(err.is_err());
    assert_eq!(seen, vec![0, 1, 2, 3]);
    assert_eq!(inputs.len(), 5);
    assert!(inputs.iter().all(|c| c == b"abc"));
}

#[test]
fn spawn_and_wait_failures_are_final() {
    let mut n: u32 = 0;
    let err = decrypt_cipher_with_retry_using(
        b"",
        |_| {
            n += 1;
            Err(DecryptAttemptError::Spawn("no such program".into()))
        },
        |_| {},
    )
    .err()
    .unwrap();
    assert_eq!((n, err.0.as_str()), (1, "no such program"));
    let err = decrypt_cipher_with_retry_using(
        b"",
        |_| Err(DecryptAttemptError::Wait("gone".into())),
        |_| {},
    )
    .err()
    .unwrap();
    assert_eq!(err.0, "gone");
}

#[test]
fn retry_steps_alternate() {
    let busy = || {
        RetryEvent::Attempted(Err(DecryptAttemptError::Failed(
            "Failed to call Decrypt() varlink call.".into(),
        )))
    };
    let s = Retry::start();
    assert!(matches!(s, Retry::Attempt { attempt: 0 }));
    let s = s.step(RetryEvent::Slept);
    assert!(matches!(s, Retry::Attempt { attempt: 0 }));
    let s = s.step(busy());
    assert!(matches!(s, Retry::Sleep { attempt: 0, next: 1 }));
    let s = s.step(RetryEvent::Slept);
    assert!(matches!(s, Retry::Attempt { attempt: 1 }));
    let s = s.step(RetryEvent::Attempted(Ok(vec![1, 2])));
    assert!(matches!(s, Retry::Done(Ok(ref v)) if v == &[1u8, 2]));
}

#[test]
fn user_scope_pcr_ipc_strings_are_crypto() {
    assert_eq!(
        classify_decrypt_stderr("Unexpected TPM PCR state of the system."),
        DecryptClass::Crypto
    );
    assert_eq!(
        classify_decrypt_stderr("PCR signature required for decryption, but could not be found."),
        DecryptClass::Crypto
    );
}

#[test]
fn decrypt_arguments_carry_the_name() {
    assert_eq!(
        decrypt_args("credchain.aws.KEY"),
        vec!["decrypt", "--user", "--name", "credchain.aws.KEY", "-", "-"]
    );
}

#[test]
fn stderr_is_decoded_with_replacement() {
    assert_eq!(stderr_text(b"plain"), "plain");
    assert_eq!(stderr_text(b"a\xffb"), "a\u{fffd}b");
    assert_eq!(stderr_text("é…".as_bytes()), "é…");
}

#[test]
fn pipe_failures_are_transport() {
    assert!(is_pipe_transport(&failure(FailureKind::BrokenPipe, "")));
    assert!(is_pipe_transport(&failure(FailureKind::ConnectionReset, "")));
    assert!(is_pipe_transport(&failure(FailureKind::ConnectionAborted, "")));
    assert!(!is_pipe_transport(&failure(FailureKind::NotFound, "")));
    assert!(!is_pipe_transport(&failure(FailureKind::Other, "")));
}

fn failed_text(r: Result<Vec<u8>, DecryptAttemptError>) -> String {
    match r {
        Err(DecryptAttemptError::Failed(text)) => text,
        _ => panic!("expected a failed attempt"),
    }
}

#[test]
fn runs_of_the_program_are_judged() {
    match decrypt_cipher_once(ChildRun::NotSpawned(failure(FailureKind::NotFound, "no file"))) {
        Err(DecryptAttemptError::Spawn(m)) => {
            assert_eq!(m, "failed to run systemd-creds decrypt: no file")
        }
        _ => panic!("expected a spawn failure"),
    }
    match decrypt_cipher_once(ChildRun::NotWaited(failure(FailureKind::Other, "lost"))) {
        Err(DecryptAttemptError::Wait(m)) => {
            assert_eq!(m, "failed to wait on systemd-creds decrypt: lost")
        }
        _ => panic!("expected a wait failure"),
    }
}

fn finished(
    write_error: Option<Failure>,
    success: bool,
    stderr: &[u8],
) -> Result<Vec<u8>, DecryptAttemptError> {
    decrypt_cipher_once(ChildRun::Finished {
        write_error,
        success,
        stderr: stderr.to_vec(),
        stdout: b"secret".to_vec(),
    })
}

#[test]
fn attempts_give_the_output_or_the_stderr() {
    assert!(matches!(finished(None, true, b"noise"), Ok(ref v) if v == b"secret"));
    assert_eq!(
        failed_text(finished(None, false, b"Bad credential format.")),
        "Bad credential format."
    );
    assert_eq!(failed_text(finished(None, false, b"a\xff")), "a\u{fffd}");
    assert_eq!(failed_text(finished(None, false, b" \n")), " \n");
    assert_eq!(
        failed_text(attempt_outcome(None, false, "x".to_string(), Vec::new())),
        "x"
    );
}

#[test]
fn pipes_that_went_away_are_failed_calls() {
    let call = "Failed to call Decrypt() varlink call.";
    let gone = || Some(failure(FailureKind::BrokenPipe, "broken pipe"));
    assert_eq!(failed_text(finished(gone(), false, b" \n")), call);
    assert_eq!(failed_text(finished(gone(), false, b"why")), "why");
    assert_eq!(failed_text(finished(gone(), true, b"")), call);
    let other = Some(failure(FailureKind::Other, "disk"));
    assert_eq!(failed_text(finished(other, false, b"")), "");
    let other = Some(failure(FailureKind::Other, "disk"));
    match finished(other, true, b"") {
        Err(DecryptAttemptError::Spawn(m)) => {
            assert_eq!(m, "failed to pipe ciphertext to systemd-creds: disk")
        }
        _ => panic!("expected a spawn failure"),
    }
}
