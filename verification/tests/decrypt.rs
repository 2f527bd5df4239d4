use credchain::creds::CredError;
use credchain::decrypt::{
    decrypt_to_memory, read_from_credentials_directory, CredDir, CredDirEvent, Decrypt,
    DecryptEvent,
};
use credchain::dirs::FileKind;
use credchain::failure::{Failure, FailureKind};

fn failure(kind: FailureKind, message: &str) -> Failure {
    Failure { kind, message: message.to_string() }
}

fn looking() -> CredDir {
    read_from_credentials_directory(Some(b"/run/c".to_vec()), "credchain.aws.A")
}

fn found(s: CredDir) -> Result<Option<Vec<u8>>, String> {
    match s {
        CredDir::Done(r) => r.map_err(|e| e.0),
        _ => panic!("expected an end"),
    }
}

#[test]
fn no_credentials_directory_means_no_value() {
    assert_eq!(found(read_from_credentials_directory(None, "n")), Ok(None));
    assert_eq!(found(read_from_credentials_directory(Some(Vec::new()), "n")), Ok(None));
    let missing = failure(FailureKind::NotFound, "none");
    assert_eq!(found(looking().step(CredDirEvent::Stat(Err(missing)))), Ok(None));
}

#[test]
fn values_are_read_from_the_credentials_directory() {
    match looking() {
        CredDir::Stat { path, .. } => assert_eq!(path, b"/run/c/credchain.aws.A"),
        _ => panic!("expected a look"),
    }
    let s = looking().step(CredDirEvent::Stat(Ok(FileKind::Regular)));
    match &s {
        CredDir::Open { path, .. } => assert_eq!(path, b"/run/c/credchain.aws.A"),
        _ => panic!("expected an open"),
    }
    let s = s.step(CredDirEvent::Opened(Ok(()))).step(CredDirEvent::Read(Ok(b"v".to_vec())));
    assert_eq!(found(s), Ok(Some(b"v".to_vec())));
}

#[test]
fn unsafe_credentials_in_the_directory_are_refused() {
    assert_eq!(
        found(looking().step(CredDirEvent::Stat(Ok(FileKind::Symlink)))),
        Err("refusing symlinked credential in CREDENTIALS_DIRECTORY: credchain.aws.A".to_string())
    );
    let denied = failure(FailureKind::Other, "denied");
    assert_eq!(
        found(looking().step(CredDirEvent::Stat(Err(denied)))),
        Err("failed to stat credchain.aws.A in CREDENTIALS_DIRECTORY: denied".to_string())
    );
    let opening = || looking().step(CredDirEvent::Stat(Ok(FileKind::Regular)));
    let long = failure(FailureKind::Other, &"e".repeat(300));
    assert_eq!(
        found(opening().step(CredDirEvent::Opened(Err(long)))),
        Err(format!(
            "failed to open credchain.aws.A from CREDENTIALS_DIRECTORY: {}…",
            "e".repeat(200)
        ))
    );
    let s = opening().step(CredDirEvent::Opened(Ok(())));
    let io = failure(FailureKind::Other, "io");
    assert_eq!(
        found(s.step(CredDirEvent::Read(Err(io)))),
        Err("failed to read credchain.aws.A from CREDENTIALS_DIRECTORY: io".to_string())
    );
}

fn opened() -> Decrypt {
    decrypt_to_memory("credchain.aws.A", b"/d/A.cred").step(DecryptEvent::Opened(Ok(())))
}

fn plain(s: Decrypt) -> Result<Vec<u8>, String> {
    match s {
        Decrypt::Done(r) => r.map_err(|e| e.0),
        _ => panic!("expected an end"),
    }
}

#[test]
fn ciphertext_is_read_and_decrypted_under_its_name() {
    let s = opened().step(DecryptEvent::Read(Ok(b"cipher".to_vec())));
    assert!(matches!(s, Decrypt::Slot { .. }));
    let s = s.step(DecryptEvent::Slot(Ok(())));
    match &s {
        Decrypt::Decipher { cred_name, cipher } => {
            assert_eq!(cred_name, "credchain.aws.A");
            assert_eq!(cipher, b"cipher");
        }
        _ => panic!("expected a decryption"),
    }
    assert_eq!(plain(s.step(DecryptEvent::Deciphered(Ok(b"v".to_vec())))), Ok(b"v".to_vec()));
}

#[test]
fn failures_of_a_decryption_are_its_outcome() {
    let symlink = failure(FailureKind::Other, "symlink");
    let s = decrypt_to_memory("n", b"/d/\xff.cred").step(DecryptEvent::Opened(Err(symlink)));
    assert_eq!(
        plain(s),
        Err("failed to open credential file /d/\u{fffd}.cred: symlink".to_string())
    );
    let io = failure(FailureKind::Other, "io");
    assert_eq!(
        plain(opened().step(DecryptEvent::Read(Err(io)))),
        Err("failed to read ciphertext from /d/A.cred: io".to_string())
    );
    let s = opened().step(DecryptEvent::Read(Ok(Vec::new())));
    assert_eq!(
        plain(s.step(DecryptEvent::Slot(Err(CredError("busy".to_string()))))),
        Err("busy".to_string())
    );
    let s = opened().step(DecryptEvent::Read(Ok(Vec::new()))).step(DecryptEvent::Slot(Ok(())));
    assert_eq!(
        plain(s.step(DecryptEvent::Deciphered(Err(CredError("bad".to_string()))))),
        Err("bad".to_string())
    );
}
