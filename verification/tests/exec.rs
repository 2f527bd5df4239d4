use credchain::creds::CredError;
use credchain::exec::{
    has_nul, resolve, resolve_due, run, Exec, ExecEvent, Resolve, ResolveEvent,
};
use credchain::failure::{Failure, FailureKind};
use credchain::store::{Namespace, VarName};

fn ns(name: &str) -> Namespace {
    Namespace::parse(name).unwrap()
}

fn texts(words: &[&str]) -> Vec<String> {
    words.iter().map(|w| w.to_string()).collect()
}

fn failure(message: &str) -> Failure {
    Failure { kind: FailureKind::Other, message: message.to_string() }
}

fn drive(
    namespaces: &[&str],
    listing: fn(&str) -> Vec<String>,
    value: fn(&str, &str) -> Vec<u8>,
) -> (Exec, Vec<String>) {
    let mut s = run(namespaces.iter().map(|n| ns(n)).collect(), texts(&["cmd", "a b", "$X"]));
    let mut log: Vec<String> = Vec::new();
    loop {
        let event = match &s {
            Exec::Exists(plan) => {
                log.push(format!("exists {}", plan.ns.as_str()));
                ExecEvent::Exists(Ok(true))
            }
            Exec::List(plan) => {
                log.push(format!("list {}", plan.ns.as_str()));
                ExecEvent::Listed(Ok(listing(plan.ns.as_str())))
            }
            Exec::Resolve { plan, var, .. } => {
                log.push(format!("resolve {}.{}", plan.ns.as_str(), var.as_str()));
                ExecEvent::Resolved(Ok(value(plan.ns.as_str(), var.as_str())))
            }
            Exec::Run { .. } | Exec::Done(_) => return (s, log),
        };
        s = s.step(event);
    }
}

#[test]
fn later_namespaces_override_earlier_ones() {
    let (s, log) = drive(
        &["one", "two"],
        |n| if n == "one" { texts(&["A", "B"]) } else { texts(&["B", "C"]) },
        |n, v| format!("{n}/{v}").into_bytes(),
    );
    assert_eq!(
        log,
        vec![
            "exists one",
            "list one",
            "resolve one.A",
            "resolve one.B",
            "exists two",
            "list two",
            "resolve two.B",
            "resolve two.C",
        ]
    );
    match s {
        Exec::Run { argv, env } => {
            assert_eq!(argv, texts(&["cmd", "a b", "$X"]));
            let env: Vec<(String, String)> = env
                .into_iter()
                .map(|v| (v.name, String::from_utf8(v.value).unwrap()))
                .collect();
            assert_eq!(
                env,
                vec![
                    ("A".to_string(), "one/A".to_string()),
                    ("B".to_string(), "two/B".to_string()),
                    ("C".to_string(), "two/C".to_string()),
                ]
            );
        }
        _ => panic!("expected a run"),
    }
}

#[test]
fn values_with_nul_stop_the_run() {
    let (s, _) = drive(
        &["one"],
        |_| texts(&["A", "B"]),
        |_, v| if v == "B" { b"x\0secret".to_vec() } else { b"x".to_vec() },
    );
    match s {
        Exec::Done(e) => assert_eq!(e.0, "refusing to set B: value contains NUL"),
        _ => panic!("expected an error"),
    }
    assert!(has_nul(b"a\0"));
    assert!(!has_nul(b"a0"));
    assert!(!has_nul(b""));
}

#[test]
fn an_overridden_nul_does_no_harm() {
    let (s, _) = drive(
        &["one", "two"],
        |_| texts(&["A"]),
        |n, _| if n == "one" { vec![0] } else { b"ok".to_vec() },
    );
    assert!(matches!(s, Exec::Run { ref env, .. } if env.len() == 1 && env[0].value == b"ok"));
}

fn error(s: Exec) -> String {
    match s {
        Exec::Done(e) => e.0,
        _ => panic!("expected an error"),
    }
}

#[test]
fn whatever_fails_stops_the_run() {
    let start = || run(vec![ns("aws"), ns("b")], texts(&["cmd"]));
    assert_eq!(
        error(start().step(ExecEvent::Exists(Ok(false)))),
        "namespace not found: aws"
    );
    assert_eq!(error(start().step(ExecEvent::Exists(Err(failure("denied"))))), "denied");
    let listing = || start().step(ExecEvent::Exists(Ok(true)));
    assert_eq!(error(listing().step(ExecEvent::Listed(Err("unsafe".to_string())))), "unsafe");
    assert_eq!(
        error(listing().step(ExecEvent::Listed(Ok(texts(&["bad-name"]))))),
        "variable name must match [A-Za-z_][A-Za-z0-9_]*"
    );
    let resolving = || listing().step(ExecEvent::Listed(Ok(texts(&["A"]))));
    assert_eq!(error(resolving().step(ExecEvent::Resolved(Err("no".to_string())))), "no");
    assert_eq!(error(run(vec![ns("aws")], Vec::new())), "no command given");
}

#[test]
fn a_target_that_cannot_be_run_is_an_error() {
    let s = run(Vec::new(), texts(&["cmd"]));
    assert!(matches!(s, Exec::Run { .. }));
    assert_eq!(
        error(s.step(ExecEvent::RunFailed(failure("not found")))),
        "exec failed: not found"
    );
}

#[test]
fn unrelated_events_leave_a_run_as_it_is() {
    let s = run(vec![ns("aws")], texts(&["cmd"])).step(ExecEvent::Resolved(Ok(Vec::new())));
    assert!(matches!(s, Exec::Exists(_)));
}

fn start_resolve() -> Resolve {
    resolve("credchain.aws.A", &ns("aws"), &VarName::parse("A").unwrap())
}

#[test]
fn materialized_values_need_no_decryption() {
    let s = start_resolve().step(ResolveEvent::Directory(Ok(Some(b"v".to_vec()))));
    assert!(matches!(s, Resolve::Done(Ok(ref v)) if v == b"v"));
    let s = start_resolve().step(ResolveEvent::Directory(Err(CredError("link".to_string()))));
    assert!(matches!(s, Resolve::Done(Err(ref e)) if e == "link"));
}

#[test]
fn other_values_are_decrypted_under_their_name() {
    let finding = || start_resolve().step(ResolveEvent::Directory(Ok(None)));
    let decrypting = || finding().step(ResolveEvent::Path(Ok(b"/d/A.cred".to_vec())));
    match decrypting() {
        Resolve::Decrypt { cred_name, path } => {
            assert_eq!(cred_name, "credchain.aws.A");
            assert_eq!(path, b"/d/A.cred");
        }
        _ => panic!("expected a decryption"),
    }
    let s = decrypting().step(ResolveEvent::Decrypted(Ok(b"v".to_vec())));
    assert!(matches!(s, Resolve::Done(Ok(ref v)) if v == b"v"));
    let s = decrypting().step(ResolveEvent::Decrypted(Err(CredError("bad".to_string()))));
    assert!(matches!(s, Resolve::Done(Err(ref e)) if e == "bad"));
    let s = finding().step(ResolveEvent::Path(Err(failure("no home"))));
    assert!(matches!(s, Resolve::Done(Err(ref e)) if e == "no home"));
}

#[test]
fn variables_at_hand_are_resolved_under_their_name() {
    let s = run(vec![ns("aws")], texts(&["cmd"]))
        .step(ExecEvent::Exists(Ok(true)))
        .step(ExecEvent::Listed(Ok(texts(&["KEY"]))));
    match s {
        Exec::Resolve { plan, var, .. } => match resolve_due(&plan, &var) {
            Resolve::Directory { cred_name, ns, var } => {
                assert_eq!(cred_name, "credchain.aws.KEY");
                assert_eq!((ns.as_str(), var.as_str()), ("aws", "KEY"));
            }
            _ => panic!("expected a look at the credentials directory"),
        },
        _ => panic!("expected a variable to resolve"),
    }
}
