use credchain::store::{cred_file, cred_name, staging_path, Namespace, VarName};

#[test]
fn namespace_validation() {
    assert!(Namespace::parse("aws").is_ok());
    assert!(Namespace::parse("a.b-c_d").is_ok());
    assert!(Namespace::parse("AWS").is_ok());
    assert!(Namespace::parse("").is_err());
    assert!(Namespace::parse("bad/ns").is_err());
    assert!(Namespace::parse("..").is_err());
    assert!(Namespace::parse(".").is_err());
    assert!(Namespace::parse("has space").is_err());
    assert!(Namespace::parse(&"x".repeat(64)).is_err());
}

#[test]
fn varname_validation() {
    assert!(VarName::parse("AWS_KEY").is_ok());
    assert!(VarName::parse("_FOO").is_ok());
    assert!(VarName::parse("A1").is_ok());
    assert!(VarName::parse("").is_err());
    assert!(VarName::parse("1BAD").is_err());
    assert!(VarName::parse("has-dash").is_err());
    assert!(VarName::parse("has space").is_err());
}

#[test]
fn cred_name_shape() {
    let ns = Namespace::parse("aws").unwrap();
    let v = VarName::parse("AWS_KEY").unwrap();
    assert_eq!(cred_name(&ns, &v), "credchain.aws.AWS_KEY");
}

#[test]
fn names_are_refused_with_their_reason() {
    let reason = |s: &str| Namespace::parse(s).err().unwrap();
    assert_eq!(reason(""), "namespace name must be 1..63 chars");
    assert_eq!(reason(&"x".repeat(64)), "namespace name must be 1..63 chars");
    assert_eq!(reason(&"é".repeat(32)), "namespace name must be 1..63 chars");
    assert_eq!(reason("."), "namespace name may not be . or ..");
    assert_eq!(reason(".."), "namespace name may not be . or ..");
    assert_eq!(reason("a/b"), "namespace name must match [A-Za-z0-9._-]");
    assert_eq!(reason("é"), "namespace name must match [A-Za-z0-9._-]");
    assert!(Namespace::parse(&"x".repeat(63)).is_ok());
    assert!(Namespace::parse("...").is_ok());
    let reason = |s: &str| VarName::parse(s).err().unwrap();
    assert_eq!(reason(""), "variable name must be non-empty");
    assert_eq!(reason("1A"), "variable name must start with [A-Za-z_]");
    assert_eq!(reason("A.B"), "variable name must match [A-Za-z_][A-Za-z0-9_]*");
}

#[test]
fn file_names_are_made_of_the_variable() {
    let var = VarName::parse("KEY").unwrap();
    assert_eq!(cred_file(&var), "KEY.cred");
    assert_eq!(staging_path(b"/d", &var, 42, 7), b"/d/.KEY.42.tmp.7");
    assert_ne!(staging_path(b"/d", &var, 42, 7), staging_path(b"/d", &var, 42, 8));
}

#[test]
fn similar_variables_have_credential_names_of_their_own() {
    let name = |n: &str, v: &str| {
        cred_name(&Namespace::parse(n).unwrap(), &VarName::parse(v).unwrap())
    };
    assert_eq!(name("a.b", "C"), "credchain.a.b.C");
    assert_ne!(name("a.b", "C"), name("a", "b"));
    assert_ne!(name("a", "B_C"), name("a.B", "C"));
}

#[test]
fn staging_paths_differ_across_directories_and_variables() {
    let key = VarName::parse("KEY").unwrap();
    let other = VarName::parse("OTHER").unwrap();
    let mut paths: Vec<Vec<u8>> = Vec::new();
    for (n, dir) in [&b"/d"[..], b"/d", b"/d/", b"/e", b"", b"\xff/."].iter().enumerate() {
        let var = if n % 2 == 0 { &key } else { &other };
        let path = staging_path(dir, var, 42, n as u64);
        assert!(!paths.contains(&path));
        assert!(path.starts_with(dir));
        assert!(!path.ends_with(b".cred"));
        paths.push(path);
    }
}
