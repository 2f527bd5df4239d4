use credchain::dirs::{
    base_dir, base_path, cred_path, ensure_dir_secure, ensure_lock_dir, namespace_dir,
    namespace_exists, namespace_path, DirEvent, Dirs, FileKind, FileStat, StoreEnv,
};
use credchain::encrypt::{encrypt_args, encrypt_to_file, ChildExit, Encrypt, EncryptEvent};
use credchain::failure::{Failure, FailureKind};
use credchain::install::{install_atomic, Install, InstallEvent};
use credchain::listing::{list_namespaces, list_vars, DirEntry, VarList, VarListEvent};
use credchain::store::{Namespace, VarName};

fn failure(kind: FailureKind, message: &str) -> Failure {
    Failure { kind, message: message.to_string() }
}

fn missing() -> Failure {
    failure(FailureKind::NotFound, "missing")
}

fn dir(mode: u32) -> DirEvent {
    DirEvent::Stat(Ok(FileStat { kind: FileKind::Directory, mode }))
}

fn env(xdg: Option<&str>, home: Option<&str>) -> StoreEnv {
    StoreEnv {
        xdg_data_home: xdg.map(|s| s.as_bytes().to_vec()),
        home: home.map(|s| s.as_bytes().to_vec()),
    }
}

fn ns(name: &str) -> Namespace {
    Namespace::parse(name).unwrap()
}

fn answer(s: Dirs) -> Result<Vec<u8>, String> {
    match s {
        Dirs::Done(r) => r.map_err(|f| f.message),
        _ => panic!("expected an end"),
    }
}

#[test]
fn the_store_lies_in_the_data_directory() {
    assert_eq!(base_path(&env(Some("/x"), Some("/h"))).unwrap(), b"/x/credchain");
    assert_eq!(base_path(&env(Some(""), Some("/h"))).unwrap(), b"/h/.local/share/credchain");
    assert_eq!(base_path(&env(None, Some("/h/"))).unwrap(), b"/h/.local/share/credchain");
    let f = base_path(&env(None, None)).err().unwrap();
    assert_eq!(f.kind, FailureKind::NotFound);
    assert_eq!(f.message, "HOME is not set and XDG_DATA_HOME unset");
    assert!(answer(base_dir(&env(Some(""), None))).is_err());
    assert_eq!(namespace_path(b"/x/credchain", &ns("aws")), b"/x/credchain/aws");
}

#[test]
fn private_directories_are_left_alone() {
    let s = ensure_dir_secure(b"/x").step(dir(0o40700));
    assert_eq!(answer(s), Ok(b"/x".to_vec()));
}

#[test]
fn open_directories_are_tightened() {
    let s = ensure_dir_secure(b"/x").step(dir(0o40755));
    assert!(matches!(s, Dirs::Tighten(_)));
    assert_eq!(answer(s.step(DirEvent::Tightened(Ok(())))), Ok(b"/x".to_vec()));
    let s = ensure_dir_secure(b"/x").step(dir(0o40755));
    let denied = failure(FailureKind::Other, "denied");
    assert_eq!(answer(s.step(DirEvent::Tightened(Err(denied)))), Err("denied".to_string()));
}

#[test]
fn missing_directories_are_created_private() {
    let s = ensure_dir_secure(b"/x").step(DirEvent::Stat(Err(missing())));
    assert!(matches!(s, Dirs::Create(_)));
    let s = s.step(DirEvent::Created(Ok(())));
    assert!(matches!(s, Dirs::Tighten(_)));
    assert_eq!(answer(s.step(DirEvent::Tightened(Ok(())))), Ok(b"/x".to_vec()));
    let s = ensure_dir_secure(b"/x").step(DirEvent::Stat(Err(missing())));
    let full = failure(FailureKind::Other, "full");
    assert_eq!(answer(s.step(DirEvent::Created(Err(full)))), Err("full".to_string()));
    let odd = failure(FailureKind::Other, "odd");
    let s = ensure_dir_secure(b"/x").step(DirEvent::Stat(Err(odd)));
    assert_eq!(answer(s), Err("odd".to_string()));
}

#[test]
fn symlinked_directories_are_never_used() {
    let link = || DirEvent::Stat(Ok(FileStat { kind: FileKind::Symlink, mode: 0o777 }));
    assert_eq!(
        answer(ensure_dir_secure(b"/x").step(link())),
        Err("refusing to use a symlinked store directory".to_string())
    );
    assert_eq!(
        answer(ensure_lock_dir(b"/x").step(link())),
        Err("refusing symlinked decrypt lock directory".to_string())
    );
}

#[test]
fn lock_directories_are_set_private_every_time() {
    let s = ensure_lock_dir(b"/x").step(dir(0o40700));
    assert!(matches!(s, Dirs::Tighten(_)));
}

#[test]
fn base_and_namespace_are_secured_in_turn() {
    let e = env(Some("/x"), None);
    let s = namespace_dir(&e, &ns("aws"));
    match &s {
        Dirs::Stat(job) => assert_eq!(job.path, b"/x/credchain"),
        _ => panic!("expected a look at the base directory"),
    }
    let s = s.step(dir(0o40700));
    match &s {
        Dirs::Stat(job) => assert_eq!(job.path, b"/x/credchain/aws"),
        _ => panic!("expected a look at the namespace directory"),
    }
    assert_eq!(answer(s.step(dir(0o40700))), Ok(b"/x/credchain/aws".to_vec()));
    let var = VarName::parse("KEY").unwrap();
    let s = cred_path(&e, &ns("aws"), &var).step(dir(0o40700)).step(dir(0o40700));
    assert_eq!(answer(s), Ok(b"/x/credchain/aws/KEY.cred".to_vec()));
}

#[test]
fn only_directories_are_namespaces() {
    let stat = |kind| Ok(FileStat { kind, mode: 0 });
    assert!(namespace_exists(stat(FileKind::Directory)).unwrap());
    assert!(!namespace_exists(stat(FileKind::Symlink)).unwrap());
    assert!(!namespace_exists(stat(FileKind::Regular)).unwrap());
    assert!(!namespace_exists(stat(FileKind::Other)).unwrap());
    assert!(!namespace_exists(Err(missing())).unwrap());
    let denied = failure(FailureKind::Other, "denied");
    assert_eq!(namespace_exists(Err(denied)).err().unwrap().message, "denied");
}

#[test]
fn namespaces_are_sorted_directories() {
    let entry = |name: &[u8], is_dir| DirEntry { name: name.to_vec(), is_dir };
    let entries = vec![
        entry(b"zeta", true),
        entry(b"file", false),
        entry(b"\xff", true),
        entry("é".as_bytes(), true),
        entry(b"Beta", true),
        entry(b"a", true),
    ];
    assert_eq!(list_namespaces(&entries), vec!["Beta", "a", "zeta", "é"]);
}

fn listing() -> VarList {
    list_vars(&ns("aws"))
        .step(VarListEvent::Dir(Ok(b"/d/aws".to_vec())))
        .step(VarListEvent::Opened(Ok(())))
}

fn entry(name: &[u8]) -> VarListEvent {
    VarListEvent::Entry(Ok(name.to_vec()))
}

fn listed(s: VarList) -> Result<Vec<String>, String> {
    match s {
        VarList::Done(r) => r,
        _ => panic!("expected an end"),
    }
}

#[test]
fn variables_are_the_ciphertext_files_in_order() {
    let mut s = listing();
    for name in [&b"B.cred"[..], b"README", b".B.7.tmp.0", b"A.cred", b"A.credx"] {
        s = s.step(entry(name));
        if matches!(s, VarList::Stat { .. }) {
            s = s.step(VarListEvent::Stat(Ok(FileKind::Regular)));
        }
    }
    assert_eq!(listed(s.step(VarListEvent::End)).unwrap(), vec!["A", "B"]);
    assert_eq!(listed(listing().step(VarListEvent::End)), Ok(Vec::new()));
}

#[test]
fn names_that_are_no_text_are_listed_with_replacement() {
    let s = listing().step(entry(b"\xff.cred")).step(VarListEvent::Stat(Ok(FileKind::Regular)));
    assert_eq!(listed(s.step(VarListEvent::End)).unwrap(), vec!["\u{fffd}"]);
}

#[test]
fn unsafe_ciphertext_files_end_a_listing() {
    let at = || listing().step(entry(b"A.cred"));
    assert_eq!(
        listed(at().step(VarListEvent::Stat(Ok(FileKind::Symlink)))),
        Err("refusing symlinked credential file in namespace aws: A.cred".to_string())
    );
    for kind in [FileKind::Directory, FileKind::Other] {
        assert_eq!(
            listed(at().step(VarListEvent::Stat(Ok(kind)))),
            Err("non-regular credential entry in namespace aws: A.cred".to_string())
        );
    }
    let io = || failure(FailureKind::Other, "io");
    assert_eq!(listed(at().step(VarListEvent::Stat(Err(io())))), Err("io".to_string()));
    assert_eq!(listed(listing().step(VarListEvent::Entry(Err(io())))), Err("io".to_string()));
}

#[test]
fn directories_that_cannot_be_read_end_a_listing() {
    let start = || list_vars(&ns("aws"));
    let denied = || failure(FailureKind::Other, "denied");
    assert_eq!(listed(start().step(VarListEvent::Dir(Err(denied())))), Err("denied".to_string()));
    let opening = || start().step(VarListEvent::Dir(Ok(b"/d".to_vec())));
    assert_eq!(
        listed(opening().step(VarListEvent::Opened(Err(missing())))),
        Err("namespace not found: aws".to_string())
    );
    assert_eq!(
        listed(opening().step(VarListEvent::Opened(Err(denied())))),
        Err("denied".to_string())
    );
}

fn installed(s: Install) -> Result<(), String> {
    match s {
        Install::Done(r) => r.map_err(|f| f.message),
        _ => panic!("expected an end"),
    }
}

#[test]
fn files_go_live_private_and_flushed() {
    let s = install_atomic(b"/d/.A.1.tmp.0", b"/d/A.cred");
    assert!(matches!(s, Install::Protect(_)));
    let s = s.step(InstallEvent::Protected(Ok(())));
    assert!(matches!(s, Install::Flush(_)));
    let s = s.step(InstallEvent::Flushed(Ok(())));
    match &s {
        Install::Rename(job) => {
            assert_eq!(job.staging, b"/d/.A.1.tmp.0");
            assert_eq!(job.target, b"/d/A.cred");
        }
        _ => panic!("expected a rename"),
    }
    let s = s.step(InstallEvent::Renamed(Ok(())));
    assert!(matches!(s, Install::Settle(_)));
    assert_eq!(installed(s.step(InstallEvent::Settled)), Ok(()));
}

#[test]
fn installations_stop_at_the_first_failure() {
    let io = || failure(FailureKind::Other, "io");
    let start = || install_atomic(b"/d/s", b"/d/t");
    assert_eq!(installed(start().step(InstallEvent::Protected(Err(io())))), Err("io".to_string()));
    let s = start().step(InstallEvent::Protected(Ok(())));
    assert_eq!(installed(s.step(InstallEvent::Flushed(Err(io())))), Err("io".to_string()));
    let s = start().step(InstallEvent::Protected(Ok(()))).step(InstallEvent::Flushed(Ok(())));
    assert_eq!(installed(s.step(InstallEvent::Renamed(Err(io())))), Err("io".to_string()));
}

fn encrypting() -> Encrypt {
    encrypt_to_file("credchain.aws.A", b"value", b"/d/s")
}

fn encrypted(s: Encrypt) -> Result<(), String> {
    match s {
        Encrypt::Done(r) => r.map_err(|e| e.0),
        _ => panic!("expected an end"),
    }
}

#[test]
fn values_are_encrypted_through_a_pipe_to_a_new_file() {
    assert_eq!(
        encrypt_args("credchain.aws.A"),
        vec!["encrypt", "--user", "--with-key=auto", "--name", "credchain.aws.A", "-"]
    );
    let s = encrypting();
    assert!(matches!(s, Encrypt::Create(_)));
    let s = s.step(EncryptEvent::Created(Ok(())));
    assert!(matches!(s, Encrypt::Spawn(_)));
    let s = s.step(EncryptEvent::Spawned(Ok(())));
    match &s {
        Encrypt::Feed(job) => {
            assert_eq!(job.cred_name, "credchain.aws.A");
            assert_eq!(job.plaintext, b"value");
            assert_eq!(job.out_path, b"/d/s");
        }
        _ => panic!("expected a pipe to feed"),
    }
    let s = s.step(EncryptEvent::Fed(Ok(())));
    let exit = ChildExit { success: true, stderr: Vec::new() };
    assert_eq!(encrypted(s.step(EncryptEvent::Exited(Ok(exit)))), Ok(()));
}

#[test]
fn failures_of_an_encryption_are_its_outcome() {
    let io = || failure(FailureKind::Other, "io");
    assert_eq!(
        encrypted(encrypting().step(EncryptEvent::Created(Err(io())))),
        Err("failed to create staging file: io".to_string())
    );
    let spawning = || encrypting().step(EncryptEvent::Created(Ok(())));
    assert_eq!(
        encrypted(spawning().step(EncryptEvent::Spawned(Err(io())))),
        Err("failed to run systemd-creds encrypt: io".to_string())
    );
    let feeding = || spawning().step(EncryptEvent::Spawned(Ok(())));
    assert_eq!(
        encrypted(feeding().step(EncryptEvent::Fed(Err(io())))),
        Err("failed to pipe plaintext to systemd-creds: io".to_string())
    );
    let waiting = || feeding().step(EncryptEvent::Fed(Ok(())));
    assert_eq!(
        encrypted(waiting().step(EncryptEvent::Exited(Err(io())))),
        Err("failed to wait on systemd-creds encrypt: io".to_string())
    );
    let exit = ChildExit { success: false, stderr: b" no key\xff\n".to_vec() };
    assert_eq!(
        encrypted(waiting().step(EncryptEvent::Exited(Ok(exit)))),
        Err("systemd-creds encrypt failed: no key\u{fffd}".to_string())
    );
    let exit = ChildExit { success: false, stderr: b"z".repeat(300) };
    assert_eq!(
        encrypted(waiting().step(EncryptEvent::Exited(Ok(exit)))),
        Err(format!("systemd-creds encrypt failed: {}…", "z".repeat(200)))
    );
}
