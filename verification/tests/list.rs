use credchain::failure::{Failure, FailureKind};
use credchain::list::{cmd_list, List, ListEvent};
use credchain::report::Report;

fn args(words: &[&str]) -> Vec<String> {
    words.iter().map(|w| w.to_string()).collect()
}

fn done(s: List) -> Report {
    match s {
        List::Done(r) => r,
        _ => panic!("expected a report"),
    }
}

#[test]
fn namespaces_are_listed_line_by_line() {
    let s = cmd_list(&args(&["--backend=systemd"]));
    assert!(matches!(s, List::Namespaces));
    let r = done(s.step(ListEvent::Namespaces(Ok(args(&["aws", "github"])))));
    assert_eq!((r.code, r.out.as_str(), r.err.as_str()), (0, "aws\ngithub\n", ""));
    let r = done(List::Namespaces.step(ListEvent::Namespaces(Ok(Vec::new()))));
    assert_eq!((r.code, r.out.as_str()), (0, ""));
}

#[test]
fn failed_listings_are_reported() {
    let f = Failure { kind: FailureKind::Other, message: "denied".to_string() };
    let r = done(List::Namespaces.step(ListEvent::Namespaces(Err(f))));
    assert_eq!((r.code, r.err.as_str()), (1, "credchain: failed to list namespaces: denied\n"));
    let s = cmd_list(&args(&["aws"]));
    let r = done(s.step(ListEvent::Vars(Err("namespace not found: aws".to_string()))));
    assert_eq!((r.code, r.err.as_str()), (1, "credchain: namespace not found: aws\n"));
}

#[test]
fn variables_of_a_namespace_are_listed() {
    match cmd_list(&args(&["aws"])) {
        List::Vars(ns) => {
            assert_eq!(ns.as_str(), "aws");
            let r = done(List::Vars(ns).step(ListEvent::Vars(Ok(args(&["A", "B"])))));
            assert_eq!((r.code, r.out.as_str()), (0, "A\nB\n"));
        }
        _ => panic!("expected a listing of variables"),
    }
}

#[test]
fn list_arguments_are_checked() {
    let r = done(cmd_list(&args(&["-x"])));
    assert_eq!((r.code, r.err.as_str()), (2, "credchain: --list: unknown option: -x\n"));
    let r = done(cmd_list(&args(&["-"])));
    assert_eq!((r.code, r.err.as_str()), (2, "credchain: --list: unknown option: -\n"));
    let r = done(cmd_list(&args(&["a", "b"])));
    assert_eq!(
        (r.code, r.err.as_str()),
        (2, "credchain: --list takes at most one namespace argument\n")
    );
    let r = done(cmd_list(&args(&["bad/ns"])));
    assert_eq!(
        (r.code, r.err.as_str()),
        (1, "credchain: invalid namespace: namespace name must match [A-Za-z0-9._-]\n")
    );
}

#[test]
fn values_are_never_listed_whatever_else_is_asked() {
    let text = "credchain: --show-value / -v is deliberately unsupported. \
                credchain never decrypts or prints secret values. To inspect a \
                value, run a trusted child via the execution path.\n";
    for words in [&["-v"][..], &["aws", "--show-value"], &["-v", "bad/ns"]] {
        let r = done(cmd_list(&args(words)));
        assert_eq!((r.code, r.out.as_str(), r.err.as_str()), (1, "", text));
    }
    assert_eq!(done(cmd_list(&args(&["-v", "a", "b"]))).code, 2);
}

#[test]
fn unrelated_events_leave_a_listing_as_it_is() {
    let s = List::Namespaces.step(ListEvent::Vars(Ok(Vec::new())));
    assert!(matches!(s, List::Namespaces));
}
