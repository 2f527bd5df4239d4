use credchain::cli::{
    cmd_exec, exec_report, misplaced_flag_owner, run, strip_backend, Command,
};
use credchain::exec::{Exec, ExecError};
use credchain::list::List;
use credchain::report::{help_text, Report};
use credchain::set::SetRun;
use credchain::unset::Unset;

fn args(words: &[&str]) -> Vec<String> {
    words.iter().map(|w| w.to_string()).collect()
}

fn report(words: &[&str]) -> Report {
    match run(&args(words), 1) {
        Command::Done(r) => r,
        Command::SetVars(SetRun::Done { report, discard }) => {
            assert!(discard.is_empty());
            report
        }
        Command::List(List::Done(r)) => r,
        Command::Unset(Unset::Done(r)) => r,
        _ => panic!("expected a report"),
    }
}

#[test]
fn empty_args_helps() {
    assert_eq!(report(&[]).code, 2);
}

#[test]
fn misplaced_set_flags_name_their_owner() {
    assert_eq!(misplaced_flag_owner("--noecho"), Some("--set"));
    assert_eq!(misplaced_flag_owner("-n"), Some("--set"));
    assert_eq!(misplaced_flag_owner("--require-passphrase"), Some("--set"));
    assert_eq!(misplaced_flag_owner("--show-value"), Some("--list"));
    assert_eq!(misplaced_flag_owner("--nonsense"), None);
}

#[test]
fn short_flags_have_owners_too() {
    assert_eq!(misplaced_flag_owner("-p"), Some("--set"));
    assert_eq!(misplaced_flag_owner("-P"), Some("--set"));
    assert_eq!(misplaced_flag_owner("--no-require-passphrase"), Some("--set"));
    assert_eq!(misplaced_flag_owner("-v"), Some("--list"));
    assert_eq!(misplaced_flag_owner("-s"), None);
    assert_eq!(misplaced_flag_owner(""), None);
}

#[test]
fn misplaced_flag_still_exits_two() {
    assert_eq!(report(&["--noecho", "ns", "VAR"]).code, 2);
}

#[test]
fn misplaced_flags_are_explained() {
    let r = report(&["-v", "ns"]);
    let head = "credchain: unknown option: -v\n\
                credchain: -v is an option of --list; it must come after it, \
                e.g. `credchain --list -v ...`\n";
    assert_eq!(r.err, format!("{head}{}", help_text()));
    let r = report(&["--nonsense"]);
    assert_eq!(r.err, format!("credchain: unknown option: --nonsense\n{}", help_text()));
    assert_eq!((r.code, r.out.as_str()), (2, ""));
}

#[test]
fn strip_backend_keeps_rest() {
    let v = strip_backend(&args(&["--backend=systemd", "ns", "env"])).unwrap();
    assert_eq!(v, vec!["ns".to_string(), "env".to_string()]);
}

#[test]
fn strip_backend_rejects_unknown() {
    let v = strip_backend(&args(&["--backend=systemd", "x"])).unwrap();
    assert_eq!(v, vec!["x".to_string()]);
}

#[test]
fn strip_backend_refuses_other_backends() {
    for words in [
        &["--backend=keychain", "ns", "env"][..],
        &["--backend=", "ns"],
        &["--backend"],
        &["--backend", "keychain", "ns"],
        &["--backend=systemd", "--backend=x", "ns"],
    ] {
        let r = strip_backend(&args(words)).err().unwrap();
        assert_eq!(r.code, 2);
        assert_eq!(r.err, "credchain: --backend only supports 'systemd'\n");
    }
}

#[test]
fn strip_backend_takes_both_forms_in_front_only() {
    let v = strip_backend(&args(&["--backend", "systemd", "--backend=systemd", "a", "--backend=x"]))
        .unwrap();
    assert_eq!(v, args(&["a", "--backend=x"]));
    assert_eq!(strip_backend(&v).unwrap(), v);
    assert!(strip_backend(&[]).unwrap().is_empty());
}

#[test]
fn no_args_exits_2_and_mentions_usage() {
    let r = report(&[]);
    assert_eq!(r.code, 2);
    assert!(r.err.contains("Usage"));
    assert_eq!(r.out, "");
}

#[test]
fn help_is_complete() {
    let expected = "credchain 0.1.0 — headless envchain replacement using systemd-creds

Usage:
  Add variables
    credchain (--set|-s) [--noecho|-n] [--require-passphrase|-p] \\
    [--no-require-passphrase|-P] [--backend=systemd] NAMESPACE ENV [ENV ..]
  Execute with variables
    credchain [--backend=systemd] NAMESPACE[,NAMESPACE...] COMMAND [ARG ...]
  List namespaces / variables
    credchain --list [NAMESPACE]
  Remove variables
    credchain (--unset|-u) NAMESPACE ENV [ENV ..]

Options:
  --set (-s)        add variable(s) to NAMESPACE
  --noecho (-n)     disable echo when prompting (requires a tty)
  --require-passphrase (-p)
    parsed for interface compatibility, then rejected: the systemd
    backend has no per-item passphrase
  --no-require-passphrase (-P)
    accepted (redundant): systemd already does not ask for a passphrase
  --list (-l)       list namespaces, or variables in a namespace
  --unset (-u)      remove variable(s) from a namespace
  --backend=systemd select the storage backend (only 'systemd' is built)

Notes:
  credchain never prints secret values. There is no value-display
  command; --list does not decrypt. To inspect a value, run a trusted
  child through the execution path.
  Namespaces match [A-Za-z0-9._-]{1,63}; variables match
  [A-Za-z_][A-Za-z0-9_]*. Values may not contain NUL.

";
    assert_eq!(help_text(), expected);
    let r = report(&["--help"]);
    assert_eq!((r.code, r.out.as_str(), r.err.as_str()), (0, "", expected));
    assert_eq!(report(&["-h"]).code, 0);
}

#[test]
fn version_prints() {
    let r = report(&["--version"]);
    assert!(r.out.contains("credchain ") || r.out.contains("credchain"));
    assert_eq!(r.code, 0);
    assert_eq!(r.out, "credchain 0.1.0\n");
    assert_eq!(r.err, "");
}

#[test]
fn invalid_namespace_rejected_before_running_command() {
    let r = report(&["bad/ns", "true"]);
    assert_ne!(r.code, 0);
    assert!(r.err.contains("namespace") || r.err.contains("invalid"));
    assert_eq!(r.code, 2);
    assert_eq!(
        r.err,
        "credchain: invalid namespace 'bad/ns': namespace name must match [A-Za-z0-9._-]\n"
    );
}

#[test]
fn require_passphrase_rejected() {
    let r = report(&["--set", "--require-passphrase", "nsx", "VAR"]);
    assert_ne!(r.code, 0);
    assert!(r.err.contains("--require-passphrase"));
}

#[test]
fn list_show_value_rejected() {
    let r = report(&["--list", "--show-value"]);
    assert_ne!(r.code, 0);
    assert!(r.err.contains("show-value"));
    assert_eq!((r.code, r.out.as_str()), (1, ""));
}

#[test]
fn backend_options_lead_to_exec_mode() {
    for words in [
        &["--backend=systemd", "aws", "env"][..],
        &["--backend", "systemd", "aws", "env"],
        &["aws", "env"],
    ] {
        match run(&args(words), 1) {
            Command::Exec(Exec::Exists(plan)) => {
                assert_eq!(plan.ns.as_str(), "aws");
                assert_eq!(plan.argv, args(&["env"]));
            }
            _ => panic!("expected exec mode"),
        }
    }
    let r = report(&["--backend=keychain", "aws", "env"]);
    assert_eq!(r.code, 2);
    assert_eq!(r.err, "credchain: --backend only supports 'systemd'\n");
    let r = report(&["--backend=systemd"]);
    assert_eq!((r.code, r.err), (2, help_text()));
}

#[test]
fn exec_mode_needs_a_command() {
    let r = report(&["aws"]);
    assert_eq!(r.code, 2);
    assert_eq!(r.err, format!("credchain: no command given\n{}", help_text()));
    let r = report(&["--backend=systemd", "--backend=systemd"]);
    assert_eq!((r.code, r.err), (2, help_text()));
}

#[test]
fn namespace_lists_are_split_and_trimmed() {
    match cmd_exec(&args(&[" a ,\u{3000}b,a", "cmd", "-x"])) {
        Command::Exec(Exec::Exists(plan)) => {
            assert_eq!(plan.ns.as_str(), "a");
            let rest: Vec<&str> = plan.rest.iter().map(|n| n.as_str()).collect();
            assert_eq!(rest, vec!["b", "a"]);
            assert_eq!(plan.argv, args(&["cmd", "-x"]));
        }
        _ => panic!("expected exec mode"),
    }
    for field in ["a,,b", "a, ", ",", ""] {
        let r = report(&[field, "cmd"]);
        assert_eq!(r.code, 2);
        assert_eq!(r.err, "credchain: empty namespace in list\n");
    }
}

#[test]
fn a_single_dash_is_a_namespace() {
    match run(&args(&["-", "cmd"]), 1) {
        Command::Exec(Exec::Exists(plan)) => assert_eq!(plan.ns.as_str(), "-"),
        _ => panic!("expected exec mode"),
    }
}

#[test]
fn short_and_long_commands_agree() {
    assert!(matches!(run(&args(&["-l"]), 1), Command::List(List::Namespaces)));
    assert!(matches!(run(&args(&["--list"]), 1), Command::List(List::Namespaces)));
    for word in ["-s", "--set"] {
        assert!(matches!(
            run(&args(&[word, "ns", "A"]), 1),
            Command::SetVars(SetRun::Prompt { .. })
        ));
    }
    for word in ["-u", "--unset"] {
        assert!(matches!(
            run(&args(&[word, "ns", "A"]), 1),
            Command::Unset(Unset::Path { .. })
        ));
    }
}

#[test]
fn failed_runs_are_reported() {
    let r = exec_report(ExecError("namespace not found: x".to_string()));
    assert_eq!((r.code, r.err.as_str()), (1, "credchain: namespace not found: x\n"));
}
