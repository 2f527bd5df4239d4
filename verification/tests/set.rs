use credchain::creds::CredError;
use credchain::failure::{Failure, FailureKind};
use credchain::input::PromptResult;
use credchain::report::Report;
use credchain::set::{cmd_set, SetEvent, SetRun};

fn args(words: &[&str]) -> Vec<String> {
    words.iter().map(|w| w.to_string()).collect()
}

fn failure(message: &str) -> Failure {
    Failure { kind: FailureKind::Other, message: message.to_string() }
}

fn typed(value: &[u8]) -> SetEvent {
    SetEvent::Typed(Ok(PromptResult { value: value.to_vec(), eof: false }))
}

fn done(s: SetRun) -> (Report, Vec<Vec<u8>>) {
    match s {
        SetRun::Done { report, discard } => (report, discard),
        _ => panic!("expected a report"),
    }
}

fn at_encryption(vars: &[&str]) -> SetRun {
    let mut words = vec!["aws"];
    words.extend(vars);
    let mut s = cmd_set(&args(&words), 42);
    for v in vars {
        s = s.step(typed(v.as_bytes()));
    }
    s.step(SetEvent::Dir(Ok(b"/d".to_vec())))
}

#[test]
fn all_values_are_collected_encrypted_and_installed() {
    let mut s = cmd_set(&args(&["-n", "aws", "A", "B"]), 42);
    let mut log: Vec<String> = Vec::new();
    while !matches!(s, SetRun::Done { .. }) {
        let event = match &s {
            SetRun::Prompt { noecho, prompt, .. } => {
                log.push(format!("prompt {prompt} {noecho}"));
                typed(prompt.as_bytes())
            }
            SetRun::Dir { ns, .. } => {
                log.push(format!("dir {}", ns.as_str()));
                SetEvent::Dir(Ok(b"/d".to_vec()))
            }
            SetRun::Encrypt { job, .. } => {
                log.push(format!(
                    "encrypt {} {} {}",
                    job.cred_name,
                    String::from_utf8_lossy(&job.plaintext),
                    String::from_utf8_lossy(&job.out_path)
                ));
                SetEvent::Encrypted(Ok(()))
            }
            SetRun::Install { job, .. } => {
                log.push(format!(
                    "install {} {}",
                    String::from_utf8_lossy(&job.staging),
                    String::from_utf8_lossy(&job.target)
                ));
                SetEvent::Installed(Ok(()))
            }
            SetRun::Done { .. } => unreachable!(),
        };
        s = s.step(event);
    }
    let (report, discard) = done(s);
    assert_eq!((report.code, report.out.as_str(), report.err.as_str()), (0, "", ""));
    assert!(discard.is_empty());
    assert_eq!(
        log,
        vec![
            "prompt aws.A true",
            "prompt aws.B true",
            "dir aws",
            "encrypt credchain.aws.A aws.A /d/.A.42.tmp.0",
            "encrypt credchain.aws.B aws.B /d/.B.42.tmp.1",
            "install /d/.A.42.tmp.0 /d/A.cred",
            "install /d/.B.42.tmp.1 /d/B.cred",
        ]
    );
}

#[test]
fn passphrases_are_refused() {
    let text = "credchain: --require-passphrase is unsupported by the systemd backend; \
                systemd-creds has no per-item passphrase. Use --no-require-passphrase \
                (the default) instead.\n";
    for words in [&["-p", "aws", "A"][..], &["-P", "-n", "--require-passphrase"], &["-p"]] {
        let (r, _) = done(cmd_set(&args(words), 1));
        assert_eq!((r.code, r.err.as_str()), (1, text));
    }
    for words in [&["-P", "aws", "A"][..], &["-p", "--no-require-passphrase", "aws", "A"]] {
        assert!(matches!(cmd_set(&args(words), 1), SetRun::Prompt { noecho: false, .. }));
    }
}

#[test]
fn set_arguments_are_checked() {
    let (r, _) = done(cmd_set(&args(&["--backend=systemd"]), 1));
    assert_eq!(r.code, 2);
    assert!(r
        .err
        .starts_with("credchain: --set requires a namespace and at least one variable\ncredchain "));
    let (r, _) = done(cmd_set(&args(&["aws"]), 1));
    assert_eq!(
        (r.code, r.err.as_str()),
        (2, "credchain: --set requires at least one variable name\n")
    );
    let (r, _) = done(cmd_set(&args(&["bad ns", "A"]), 1));
    assert_eq!(
        (r.code, r.err.as_str()),
        (1, "credchain: invalid namespace: namespace name must match [A-Za-z0-9._-]\n")
    );
    let (r, _) = done(cmd_set(&args(&["aws", "A", "B C", "1"]), 1));
    assert_eq!(
        (r.code, r.err.as_str()),
        (
            1,
            "credchain: invalid variable name 'B C': \
             variable name must match [A-Za-z_][A-Za-z0-9_]*\n"
        )
    );
    let (r, _) = done(cmd_set(&args(&["aws", "-n"]), 1));
    assert_eq!(
        (r.code, r.err.as_str()),
        (1, "credchain: invalid variable name '-n': variable name must start with [A-Za-z_]\n")
    );
}

#[test]
fn prompts_that_give_no_value_end_the_run() {
    let start = || cmd_set(&args(&["aws", "A", "B"]), 1).step(typed(b"x"));
    let eof = SetEvent::Typed(Ok(PromptResult { value: Vec::new(), eof: true }));
    let (r, discard) = done(start().step(eof));
    assert_eq!(
        (r.code, r.err.as_str()),
        (1, "credchain: aborting --set: no value provided (EOF) for B\n")
    );
    assert!(discard.is_empty());
    let (r, _) = done(start().step(typed(b"a\0secret")));
    assert_eq!(
        (r.code, r.err.as_str()),
        (
            1,
            "credchain: value for B contains a NUL byte; \
             environment variables cannot contain NUL\n"
        )
    );
    let (r, _) = done(start().step(SetEvent::Typed(Err(failure("no tty")))));
    assert_eq!(
        (r.code, r.err.as_str()),
        (1, "credchain: failed to read value for B: no tty\n")
    );
}

#[test]
fn a_directory_that_cannot_be_had_ends_the_run() {
    let s = cmd_set(&args(&["aws", "A"]), 1).step(typed(b""));
    assert!(matches!(s, SetRun::Dir { .. }));
    let (r, discard) = done(s.step(SetEvent::Dir(Err(failure("denied")))));
    assert_eq!(
        (r.code, r.err.as_str()),
        (1, "credchain: failed to prepare namespace directory: denied\n")
    );
    assert!(discard.is_empty());
}

#[test]
fn a_failed_encryption_discards_every_staging_file() {
    let s = at_encryption(&["A", "B", "C"]).step(SetEvent::Encrypted(Ok(())));
    let (r, discard) = done(s.step(SetEvent::Encrypted(Err(CredError("no key".to_string())))));
    assert_eq!((r.code, r.err.as_str()), (1, "credchain: no key\n"));
    assert_eq!(discard, vec![b"/d/.A.42.tmp.0".to_vec(), b"/d/.B.42.tmp.1".to_vec()]);
}

#[test]
fn a_failed_installation_discards_every_staging_file() {
    let s = at_encryption(&["A", "B", "C"])
        .step(SetEvent::Encrypted(Ok(())))
        .step(SetEvent::Encrypted(Ok(())))
        .step(SetEvent::Encrypted(Ok(())))
        .step(SetEvent::Installed(Ok(())));
    let (r, discard) = done(s.step(SetEvent::Installed(Err(failure("full")))));
    assert_eq!(
        (r.code, r.err.as_str()),
        (1, "credchain: failed to install credential: full\n")
    );
    assert_eq!(
        discard,
        vec![
            b"/d/.A.42.tmp.0".to_vec(),
            b"/d/.B.42.tmp.1".to_vec(),
            b"/d/.C.42.tmp.2".to_vec()
        ]
    );
}

#[test]
fn reports_of_a_set_do_not_depend_on_values() {
    let ends: Vec<String> = [&b"secret-one"[..], b"another, longer secret"]
        .iter()
        .map(|value| {
            let s = cmd_set(&args(&["aws", "A"]), 1)
                .step(typed(value))
                .step(SetEvent::Dir(Ok(b"/d".to_vec())))
                .step(SetEvent::Encrypted(Err(CredError("no key".to_string()))));
            format!("{:?}", done(s))
        })
        .collect();
    assert_eq!(ends[0], ends[1]);
}

#[test]
fn staging_files_of_a_run_have_paths_of_their_own() {
    let mut s = at_encryption(&["A", "A", "B"]);
    let mut paths: Vec<Vec<u8>> = Vec::new();
    while let SetRun::Encrypt { job, .. } = &s {
        assert!(!paths.contains(&job.out_path));
        paths.push(job.out_path.clone());
        s = s.step(SetEvent::Encrypted(Ok(())));
    }
    assert_eq!(paths.len(), 3);
    assert!(!paths.contains(&b"/d/A.cred".to_vec()));
}
