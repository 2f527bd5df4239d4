use credchain::dirs::FileKind;
use credchain::failure::{Failure, FailureKind};
use credchain::listing::{list_vars, VarList, VarListEvent};
use credchain::report::Report;
use credchain::store::Namespace;
use credchain::unset::{cmd_unset, Unset, UnsetEvent};

fn args(words: &[&str]) -> Vec<String> {
    words.iter().map(|w| w.to_string()).collect()
}

fn failure(kind: FailureKind, message: &str) -> Failure {
    Failure { kind, message: message.to_string() }
}

fn done(s: Unset) -> Report {
    match s {
        Unset::Done(r) => r,
        _ => panic!("expected a report"),
    }
}

fn at_open(words: &[&str], path: &[u8]) -> Unset {
    cmd_unset(&args(words)).step(UnsetEvent::Path(Ok(path.to_vec())))
}

#[test]
fn variables_are_unset_one_by_one() {
    let mut s = cmd_unset(&args(&["aws", "A", "B"]));
    let mut removed: Vec<Vec<u8>> = Vec::new();
    let mut opened: u32 = 0;
    while !matches!(s, Unset::Done(_)) {
        let event = match &s {
            Unset::Path { ns, var, .. } => {
                UnsetEvent::Path(Ok(format!("/b/{}/{}.cred", ns.as_str(), var.as_str()).into()))
            }
            Unset::Open { .. } => {
                opened += 1;
                UnsetEvent::Opened(Ok(()))
            }
            Unset::Remove { path, .. } => {
                removed.push(path.clone());
                UnsetEvent::Removed(Ok(()))
            }
            Unset::Done(_) => unreachable!(),
        };
        s = s.step(event);
    }
    let r = done(s);
    assert_eq!((r.code, r.out.as_str(), r.err.as_str()), (0, "", ""));
    assert_eq!(opened, 2);
    assert_eq!(removed, vec![b"/b/aws/A.cred".to_vec(), b"/b/aws/B.cred".to_vec()]);
}

#[test]
fn unset_needs_two_arguments() {
    for words in [&[][..], &["aws"]] {
        let r = done(cmd_unset(&args(words)));
        assert_eq!(r.code, 2);
        assert_eq!(
            r.err,
            "credchain: --unset requires a namespace and at least one variable\n"
        );
    }
}

#[test]
fn unset_names_are_checked_as_they_come() {
    let r = done(cmd_unset(&args(&["..", "A"])));
    assert_eq!(
        (r.code, r.err.as_str()),
        (1, "credchain: invalid namespace: namespace name may not be . or ..\n")
    );
    let r = done(cmd_unset(&args(&["aws", "1A"])));
    assert_eq!(
        (r.code, r.err.as_str()),
        (1, "credchain: invalid variable name '1A': variable name must start with [A-Za-z_]\n")
    );
    let s = at_open(&["aws", "A", "a-b"], b"/p").step(UnsetEvent::Opened(Ok(())));
    let r = done(s.step(UnsetEvent::Removed(Ok(()))));
    assert_eq!(r.code, 1);
    assert!(r.err.starts_with("credchain: invalid variable name 'a-b': "));
}

#[test]
fn files_that_cannot_be_opened_are_not_removed() {
    let missing = failure(FailureKind::NotFound, "no such file");
    let r = done(at_open(&["aws", "A"], b"/p").step(UnsetEvent::Opened(Err(missing))));
    assert_eq!((r.code, r.err.as_str()), (1, "credchain: variable not found: aws.A\n"));
    let symlink = failure(FailureKind::Other, "Too many levels of symbolic links");
    let r = done(at_open(&["aws", "A"], b"/p").step(UnsetEvent::Opened(Err(symlink))));
    assert_eq!(
        (r.code, r.err.as_str()),
        (1, "credchain: refusing to unset aws:A Too many levels of symbolic links\n")
    );
}

#[test]
fn failures_of_an_unset_are_reported() {
    let s = cmd_unset(&args(&["aws", "A"]));
    let r = done(s.step(UnsetEvent::Path(Err(failure(FailureKind::Other, "HOME not set")))));
    assert_eq!((r.code, r.err.as_str()), (1, "credchain: HOME not set\n"));
    let s = at_open(&["aws", "A"], b"/b\xff/A.cred").step(UnsetEvent::Opened(Ok(())));
    let r = done(s.step(UnsetEvent::Removed(Err(failure(FailureKind::Other, "busy")))));
    assert_eq!(
        (r.code, r.err.as_str()),
        (1, "credchain: failed to remove /b\u{fffd}/A.cred: busy\n")
    );
}

#[test]
fn a_second_unset_does_not_find_the_variable() {
    let first = at_open(&["aws", "A"], b"/p")
        .step(UnsetEvent::Opened(Ok(())))
        .step(UnsetEvent::Removed(Ok(())));
    assert_eq!(done(first).code, 0);
    let gone = failure(FailureKind::NotFound, "no such file");
    let second = at_open(&["aws", "A"], b"/p").step(UnsetEvent::Opened(Err(gone)));
    let r = done(second);
    assert_eq!((r.code, r.err.as_str()), (1, "credchain: variable not found: aws.A\n"));
}

fn listing_of(names: &[&[u8]]) -> Vec<String> {
    let mut s = list_vars(&Namespace::parse("aws").unwrap())
        .step(VarListEvent::Dir(Ok(b"/d/aws".to_vec())))
        .step(VarListEvent::Opened(Ok(())));
    for name in names {
        s = s.step(VarListEvent::Entry(Ok(name.to_vec())));
        if matches!(s, VarList::Stat { .. }) {
            s = s.step(VarListEvent::Stat(Ok(FileKind::Regular)));
        }
    }
    match s.step(VarListEvent::End) {
        VarList::Done(r) => r.unwrap(),
        _ => panic!("expected an end"),
    }
}

#[test]
fn an_unset_variable_is_the_only_one_to_leave_the_listing() {
    let before = listing_of(&[b"C.cred", b"notes", b"A.cred", b"B.cred"]);
    assert_eq!(before, vec!["A", "B", "C"]);
    let after = listing_of(&[b"A.cred", b"C.cred", b"notes"]);
    assert_eq!(after, vec!["A", "C"]);
}

#[test]
fn names_that_read_alike_stay_in_the_listing() {
    let before = listing_of(&[b"\xff.cred", b"A.cred", b"\xfe.cred"]);
    assert_eq!(before, vec!["A", "\u{fffd}", "\u{fffd}"]);
    let after = listing_of(&[b"\xfe.cred", b"\xff.cred"]);
    assert_eq!(after, vec!["\u{fffd}", "\u{fffd}"]);
}
