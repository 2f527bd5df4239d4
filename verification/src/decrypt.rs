//! Reading one value back: from the service manager's credentials directory, or
//! by decrypting its ciphertext file.

use vstd::prelude::*;

use crate::creds::{message, redact, redacted, secret_view, CredError};
use crate::dirs::FileKind;
use crate::failure::{bytes_view, outcome_view, Failure, FailureKind, FailureView};
use crate::outside::{lossy_text, text_lossy};
use crate::path::{copy_bytes, join_text, joined_text};
use crate::runs::nothing_is_undone;
use crate::text::{occurs, told_within};

verus! {

/// `a`, `b`, `c` and `d`, one behind the other.
fn message_of_four(a: &str, b: &str, c: &str, d: &str) -> (r: String)
    ensures
        r@ == a@ + b@ + c@ + d@,
{
    let mut m = a.to_owned();
    m.append(b);
    m.append(c);
    m.append(d);
    m
}

// ---- $CREDENTIALS_DIRECTORY ------------------------------------------------------

/// A value that was found already decrypted, its absence, or an error.
pub open spec fn found_view(r: Result<Option<Vec<u8>>, CredError>) -> Result<
    Option<Seq<u8>>,
    Seq<char>,
> {
    match r {
        Ok(Some(b)) => Ok(Some(b@)),
        Ok(None) => Ok(None),
        Err(e) => Err(e@),
    }
}

/// The state of reading a credential from the credentials directory, named after
/// the operation that is due on `path`.
pub enum CredDir {
    /// Look at the path without following a symlink.
    Stat { name: String, path: Vec<u8> },
    /// Open the path for reading, refusing a symlink.
    Open { name: String, path: Vec<u8> },
    /// Read the whole file.
    Read { name: String },
    Done(Result<Option<Vec<u8>>, CredError>),
}

pub enum CredDirView {
    Stat { name: Seq<char>, path: Seq<u8> },
    Open { name: Seq<char>, path: Seq<u8> },
    Read { name: Seq<char> },
    Done(Result<Option<Seq<u8>>, Seq<char>>),
}

impl View for CredDir {
    type V = CredDirView;

    open spec fn view(&self) -> CredDirView {
        match *self {
            CredDir::Stat { name, path } => CredDirView::Stat { name: name@, path: path@ },
            CredDir::Open { name, path } => CredDirView::Open { name: name@, path: path@ },
            CredDir::Read { name } => CredDirView::Read { name: name@ },
            CredDir::Done(r) => CredDirView::Done(found_view(r)),
        }
    }
}

/// The outcome of an operation on a credential file.
pub enum CredDirEvent {
    Stat(Result<FileKind, Failure>),
    Opened(Result<(), Failure>),
    Read(Result<Vec<u8>, Failure>),
}

pub enum CredDirEventView {
    Stat(Result<FileKind, FailureView>),
    Opened(Result<(), FailureView>),
    Read(Result<Seq<u8>, FailureView>),
}

impl View for CredDirEvent {
    type V = CredDirEventView;

    open spec fn view(&self) -> CredDirEventView {
        match *self {
            CredDirEvent::Stat(Ok(kind)) => CredDirEventView::Stat(Ok(kind)),
            CredDirEvent::Stat(Err(f)) => CredDirEventView::Stat(Err(f@)),
            CredDirEvent::Opened(r) => CredDirEventView::Opened(outcome_view(r)),
            CredDirEvent::Read(r) => CredDirEventView::Read(bytes_view(r)),
        }
    }
}

/// The state after `event`. A credential that is not there is no error; a
/// symlink is one.
pub open spec fn cred_dir_next(s: CredDirView, event: CredDirEventView) -> CredDirView {
    match (s, event) {
        (CredDirView::Stat { name, path }, CredDirEventView::Stat(r)) => match r {
            Ok(kind) => if kind == FileKind::Symlink {
                CredDirView::Done(
                    Err("refusing symlinked credential in CREDENTIALS_DIRECTORY: "@ + name),
                )
            } else {
                CredDirView::Open { name, path }
            },
            Err(f) => if f.kind == FailureKind::NotFound {
                CredDirView::Done(Ok(None))
            } else {
                CredDirView::Done(
                    Err("failed to stat "@ + name + " in CREDENTIALS_DIRECTORY: "@ + f.message),
                )
            },
        },
        (CredDirView::Open { name, path }, CredDirEventView::Opened(r)) => match r {
            Ok(_) => CredDirView::Read { name },
            Err(f) => CredDirView::Done(
                Err(
                    "failed to open "@ + name + " from CREDENTIALS_DIRECTORY: "@ + redacted(
                        f.message,
                    ),
                ),
            ),
        },
        (CredDirView::Read { name }, CredDirEventView::Read(r)) => match r {
            Ok(bytes) => CredDirView::Done(Ok(Some(bytes))),
            Err(f) => CredDirView::Done(
                Err("failed to read "@ + name + " from CREDENTIALS_DIRECTORY: "@ + f.message),
            ),
        },
        _ => s,
    }
}

/// Starts to read a plaintext credential from `dir`, the value of
/// `$CREDENTIALS_DIRECTORY`. Where that is unset or empty there is none.
pub fn read_from_credentials_directory(dir: Option<Vec<u8>>, cred_name: &str) -> (r: CredDir)
    ensures
        r@ == match dir {
            Some(d) if d@.len() > 0 => CredDirView::Stat {
                name: cred_name@,
                path: joined_text(d@, cred_name@),
            },
            _ => CredDirView::Done(Ok(None)),
        },
{
    match dir {
        Some(d) => if d.len() > 0 {
            CredDir::Stat {
                name: cred_name.to_owned(),
                path: join_text(d.as_slice(), cred_name),
            }
        } else {
            CredDir::Done(Ok(None))
        },
        None => CredDir::Done(Ok(None)),
    }
}

impl CredDir {
    /// The state after `event`.
    pub fn step(self, event: CredDirEvent) -> (r: CredDir)
        ensures
            r@ == cred_dir_next(self@, event@),
    {
        match (self, event) {
            (CredDir::Stat { name, path }, CredDirEvent::Stat(r)) => match r {
                Ok(kind) => if kind == FileKind::Symlink {
                    CredDir::Done(
                        Err(
                            CredError(
                                message(
                                    "refusing symlinked credential in CREDENTIALS_DIRECTORY: ",
                                    name.as_str(),
                                ),
                            ),
                        ),
                    )
                } else {
                    CredDir::Open { name, path }
                },
                Err(f) => if f.kind == FailureKind::NotFound {
                    CredDir::Done(Ok(None))
                } else {
                    CredDir::Done(
                        Err(
                            CredError(
                                message_of_four(
                                    "failed to stat ",
                                    name.as_str(),
                                    " in CREDENTIALS_DIRECTORY: ",
                                    f.message.as_str(),
                                ),
                            ),
                        ),
                    )
                },
            },
            (CredDir::Open { name, path: _ }, CredDirEvent::Opened(r)) => match r {
                Ok(_) => CredDir::Read { name },
                Err(f) => {
                    let why = redact(f.message.as_str());
                    CredDir::Done(
                        Err(
                            CredError(
                                message_of_four(
                                    "failed to open ",
                                    name.as_str(),
                                    " from CREDENTIALS_DIRECTORY: ",
                                    why.as_str(),
                                ),
                            ),
                        ),
                    )
                },
            },
            (CredDir::Read { name }, CredDirEvent::Read(r)) => match r {
                Ok(bytes) => CredDir::Done(Ok(Some(bytes))),
                Err(f) => CredDir::Done(
                    Err(
                        CredError(
                            message_of_four(
                                "failed to read ",
                                name.as_str(),
                                " from CREDENTIALS_DIRECTORY: ",
                                f.message.as_str(),
                            ),
                        ),
                    ),
                ),
            },
            (s, _) => s,
        }
    }
}

// ---- ciphertext files --------------------------------------------------------------

/// The state of a decryption, named after what is due. `shown` is the path as
/// messages show it.
pub enum Decrypt {
    /// Open the ciphertext file for reading, refusing a symlink.
    Open { cred_name: String, path: Vec<u8>, shown: String },
    /// Read the whole file.
    Read { cred_name: String, shown: String },
    /// Acquire a decrypt slot.
    Slot { cred_name: String, cipher: Vec<u8> },
    /// Decrypt the ciphertext, with retries, while the slot is held.
    Decipher { cred_name: String, cipher: Vec<u8> },
    Done(Result<Vec<u8>, CredError>),
}

pub enum DecryptView {
    Open { cred_name: Seq<char>, path: Seq<u8>, shown: Seq<char> },
    Read { cred_name: Seq<char>, shown: Seq<char> },
    Slot { cred_name: Seq<char>, cipher: Seq<u8> },
    Decipher { cred_name: Seq<char>, cipher: Seq<u8> },
    Done(Result<Seq<u8>, Seq<char>>),
}

impl View for Decrypt {
    type V = DecryptView;

    open spec fn view(&self) -> DecryptView {
        match *self {
            Decrypt::Open { cred_name, path, shown } => DecryptView::Open {
                cred_name: cred_name@,
                path: path@,
                shown: shown@,
            },
            Decrypt::Read { cred_name, shown } => DecryptView::Read {
                cred_name: cred_name@,
                shown: shown@,
            },
            Decrypt::Slot { cred_name, cipher } => DecryptView::Slot {
                cred_name: cred_name@,
                cipher: cipher@,
            },
            Decrypt::Decipher { cred_name, cipher } => DecryptView::Decipher {
                cred_name: cred_name@,
                cipher: cipher@,
            },
            Decrypt::Done(r) => DecryptView::Done(secret_view(r)),
        }
    }
}

/// The outcome of an operation of a decryption.
pub enum DecryptEvent {
    Opened(Result<(), Failure>),
    Read(Result<Vec<u8>, Failure>),
    /// A slot was acquired, or none is needed, or all stayed busy.
    Slot(Result<(), CredError>),
    Deciphered(Result<Vec<u8>, CredError>),
}

pub enum DecryptEventView {
    Opened(Result<(), FailureView>),
    Read(Result<Seq<u8>, FailureView>),
    Slot(Result<(), Seq<char>>),
    Deciphered(Result<Seq<u8>, Seq<char>>),
}

impl View for DecryptEvent {
    type V = DecryptEventView;

    open spec fn view(&self) -> DecryptEventView {
        match *self {
            DecryptEvent::Opened(r) => DecryptEventView::Opened(outcome_view(r)),
            DecryptEvent::Read(r) => DecryptEventView::Read(bytes_view(r)),
            DecryptEvent::Slot(Ok(_)) => DecryptEventView::Slot(Ok(())),
            DecryptEvent::Slot(Err(e)) => DecryptEventView::Slot(Err(e@)),
            DecryptEvent::Deciphered(r) => DecryptEventView::Deciphered(secret_view(r)),
        }
    }
}

/// The state after `event`: each operation follows on the success of the one
/// before, and the first failure is the outcome.
pub open spec fn decrypt_next(s: DecryptView, event: DecryptEventView) -> DecryptView {
    match (s, event) {
        (DecryptView::Open { cred_name, path, shown }, DecryptEventView::Opened(r)) => match r {
            Ok(_) => DecryptView::Read { cred_name, shown },
            Err(f) => DecryptView::Done(
                Err("failed to open credential file "@ + shown + ": "@ + redacted(f.message)),
            ),
        },
        (DecryptView::Read { cred_name, shown }, DecryptEventView::Read(r)) => match r {
            Ok(cipher) => DecryptView::Slot { cred_name, cipher },
            Err(f) => DecryptView::Done(
                Err("failed to read ciphertext from "@ + shown + ": "@ + f.message),
            ),
        },
        (DecryptView::Slot { cred_name, cipher }, DecryptEventView::Slot(r)) => match r {
            Ok(_) => DecryptView::Decipher { cred_name, cipher },
            Err(e) => DecryptView::Done(Err(e)),
        },
        (
            DecryptView::Decipher { cred_name, cipher },
            DecryptEventView::Deciphered(r),
        ) => DecryptView::Done(r),
        _ => s,
    }
}

/// Starts to decrypt the ciphertext at `path`. The file is opened without
/// following a symlink and read into memory; `systemd-creds` never opens a path
/// itself.
pub fn decrypt_to_memory(cred_name: &str, path: &[u8]) -> (r: Decrypt)
    ensures
        r@ == (DecryptView::Open {
            cred_name: cred_name@,
            path: path@,
            shown: lossy_text(path@),
        }),
{
    Decrypt::Open {
        cred_name: cred_name.to_owned(),
        path: copy_bytes(path),
        shown: text_lossy(path),
    }
}

impl Decrypt {
    /// The state after `event`.
    pub fn step(self, event: DecryptEvent) -> (r: Decrypt)
        ensures
            r@ == decrypt_next(self@, event@),
    {
        match (self, event) {
            (Decrypt::Open { cred_name, path: _, shown }, DecryptEvent::Opened(r)) => match r {
                Ok(_) => Decrypt::Read { cred_name, shown },
                Err(f) => {
                    let why = redact(f.message.as_str());
                    Decrypt::Done(
                        Err(
                            CredError(
                                message_of_four(
                                    "failed to open credential file ",
                                    shown.as_str(),
                                    ": ",
                                    why.as_str(),
                                ),
                            ),
                        ),
                    )
                },
            },
            (Decrypt::Read { cred_name, shown }, DecryptEvent::Read(r)) => match r {
                Ok(cipher) => Decrypt::Slot { cred_name, cipher },
                Err(f) => Decrypt::Done(
                    Err(
                        CredError(
                            message_of_four(
                                "failed to read ciphertext from ",
                                shown.as_str(),
                                ": ",
                                f.message.as_str(),
                            ),
                        ),
                    ),
                ),
            },
            (Decrypt::Slot { cred_name, cipher }, DecryptEvent::Slot(r)) => match r {
                Ok(_) => Decrypt::Decipher { cred_name, cipher },
                Err(e) => Decrypt::Done(Err(e)),
            },
            (Decrypt::Decipher { cred_name: _, cipher: _ }, DecryptEvent::Deciphered(r)) =>
                Decrypt::Done(r),
            (s, _) => s,
        }
    }
}

// ---- laws --------------------------------------------------------------------

/// The state after a sequence of events.
pub open spec fn decrypt_run(s: DecryptView, events: Seq<DecryptEventView>) -> DecryptView
    decreases events.len(),
{
    if events.len() == 0 {
        s
    } else {
        decrypt_next(decrypt_run(s, events.drop_last()), events.last())
    }
}

/// A ciphertext is decrypted under the credential name that was asked for, never
/// under one taken from its file, and only what was read from the file is
/// decrypted, while a slot is held or none is needed.
pub proof fn the_asked_name_is_decrypted(
    cred_name: Seq<char>,
    path: Seq<u8>,
    shown: Seq<char>,
    events: Seq<DecryptEventView>,
)
    ensures
        match decrypt_run(DecryptView::Open { cred_name, path, shown }, events) {
            DecryptView::Open { cred_name: name, path: p, shown: t } => name == cred_name && p
                == path && t == shown,
            DecryptView::Read { cred_name: name, shown: t } => name == cred_name && t == shown
                && events.contains(DecryptEventView::Opened(Ok(()))),
            DecryptView::Slot { cred_name: name, cipher } => name == cred_name && events.contains(
                DecryptEventView::Opened(Ok(())),
            ) && events.contains(DecryptEventView::Read(Ok(cipher))),
            DecryptView::Decipher { cred_name: name, cipher } => name == cred_name
                && events.contains(DecryptEventView::Opened(Ok(()))) && events.contains(
                DecryptEventView::Read(Ok(cipher)),
            ) && events.contains(DecryptEventView::Slot(Ok(()))),
            DecryptView::Done(Ok(plain)) => events.contains(
                DecryptEventView::Deciphered(Ok(plain)),
            ) && events.contains(DecryptEventView::Slot(Ok(()))),
            DecryptView::Done(Err(_)) => true,
        },
    decreases events.len(),
{
    if events.len() > 0 {
        let before = events.drop_last();
        the_asked_name_is_decrypted(cred_name, path, shown, before);
        nothing_is_undone(events);
        match events.last() {
            DecryptEventView::Opened(Ok(u)) => assert(u == ()),
            DecryptEventView::Slot(Ok(u)) => assert(u == ()),
            _ => {},
        }
    }
}

/// The state after a sequence of events.
pub open spec fn cred_dir_run(s: CredDirView, events: Seq<CredDirEventView>) -> CredDirView
    decreases events.len(),
{
    if events.len() == 0 {
        s
    } else {
        cred_dir_next(cred_dir_run(s, events.drop_last()), events.last())
    }
}

/// A value is taken from the credentials directory only if what stands at its
/// path is no symlink.
pub proof fn symlinked_credentials_are_refused(
    name: Seq<char>,
    path: Seq<u8>,
    events: Seq<CredDirEventView>,
)
    ensures
        ({
            let s = cred_dir_run(CredDirView::Stat { name, path }, events);
            let seen = exists|kind: FileKind|
                kind != FileKind::Symlink && #[trigger] events.contains(
                    CredDirEventView::Stat(Ok(kind)),
                );
            &&& s is Open ==> seen
            &&& s is Read ==> seen
            &&& s matches CredDirView::Done(Ok(Some(_))) ==> seen
        }),
    decreases events.len(),
{
    if events.len() > 0 {
        let before = events.drop_last();
        symlinked_credentials_are_refused(name, path, before);
        nothing_is_undone(events);
    }
}

/// A decryption in which nothing fails hands the bytes of the file to the program,
/// under the name that was asked for, and ends with what the program gave, byte for
/// byte. What fails on the way is its end.
pub proof fn ciphertexts_and_plaintexts_pass_unchanged(
    cred_name: Seq<char>,
    path: Seq<u8>,
    shown: Seq<char>,
    cipher: Seq<u8>,
    plain: Seq<u8>,
    f: FailureView,
    reason: Seq<char>,
)
    ensures
        ({
            let open = DecryptView::Open { cred_name, path, shown };
            let read = decrypt_next(open, DecryptEventView::Opened(Ok(())));
            let slot = decrypt_next(read, DecryptEventView::Read(Ok(cipher)));
            let decipher = decrypt_next(slot, DecryptEventView::Slot(Ok(())));
            &&& slot == (DecryptView::Slot { cred_name, cipher })
            &&& decipher == (DecryptView::Decipher { cred_name, cipher })
            &&& decrypt_next(decipher, DecryptEventView::Deciphered(Ok(plain)))
                == DecryptView::Done(Ok(plain))
            &&& decrypt_next(decipher, DecryptEventView::Deciphered(Err(reason)))
                == DecryptView::Done(Err(reason))
            &&& decrypt_next(slot, DecryptEventView::Slot(Err(reason))) == DecryptView::Done(
                Err(reason),
            )
            &&& decrypt_next(open, DecryptEventView::Opened(Err(f))) matches DecryptView::Done(
                Err(m),
            ) && occurs(shown, m) && redacted(f.message).is_suffix_of(m)
            &&& decrypt_next(read, DecryptEventView::Read(Err(f))) matches DecryptView::Done(Err(m))
                && occurs(shown, m) && f.message.is_suffix_of(m)
        }),
{
    let r = redacted(f.message);
    told_behind("failed to open credential file "@, shown, ": "@, r);
    told_behind("failed to read ciphertext from "@, shown, ": "@, f.message);
}

/// A text that is told between others, and the last of them, stand whole in what is
/// told.
proof fn told_behind(a: Seq<char>, text: Seq<char>, b: Seq<char>, last: Seq<char>)
    ensures
        occurs(text, a + text + b + last),
        last.is_suffix_of(a + text + b + last),
{
    let all = a + text + b + last;
    assert(all =~= a + text + (b + last));
    told_within(a, text, b + last);
    assert(all.subrange(all.len() - last.len(), all.len() as int) =~= last);
}

/// A value that stands in the credentials directory is given as it is read, byte
/// for byte; where there is none, that is no failure; what fails is told, with the
/// name of the credential.
pub proof fn materialized_values_pass_unchanged(
    name: Seq<char>,
    path: Seq<u8>,
    kind: FileKind,
    bytes: Seq<u8>,
    f: FailureView,
)
    ensures
        ({
            let stat = CredDirView::Stat { name, path };
            let open = cred_dir_next(stat, CredDirEventView::Stat(Ok(kind)));
            let read = cred_dir_next(open, CredDirEventView::Opened(Ok(())));
            &&& kind != FileKind::Symlink ==> {
                &&& open == (CredDirView::Open { name, path })
                &&& cred_dir_next(read, CredDirEventView::Read(Ok(bytes))) == CredDirView::Done(
                    Ok(Some(bytes)),
                )
                &&& cred_dir_next(open, CredDirEventView::Opened(Err(f))) matches CredDirView::Done(
                    Err(m),
                ) && occurs(name, m) && redacted(f.message).is_suffix_of(m)
                &&& cred_dir_next(read, CredDirEventView::Read(Err(f))) matches CredDirView::Done(
                    Err(m),
                ) && occurs(name, m) && f.message.is_suffix_of(m)
            }
            &&& kind == FileKind::Symlink ==> (open matches CredDirView::Done(Err(m))
                && name.is_suffix_of(m))
            &&& f.kind == FailureKind::NotFound ==> cred_dir_next(
                stat,
                CredDirEventView::Stat(Err(f)),
            ) == CredDirView::Done(Ok(None))
            &&& f.kind != FailureKind::NotFound ==> (cred_dir_next(
                stat,
                CredDirEventView::Stat(Err(f)),
            ) matches CredDirView::Done(Err(m)) && occurs(name, m) && f.message.is_suffix_of(m))
        }),
{
    let r = redacted(f.message);
    told_behind("failed to open "@, name, " from CREDENTIALS_DIRECTORY: "@, r);
    told_behind("failed to read "@, name, " from CREDENTIALS_DIRECTORY: "@, f.message);
    told_behind("failed to stat "@, name, " in CREDENTIALS_DIRECTORY: "@, f.message);
    let refusal = "refusing symlinked credential in CREDENTIALS_DIRECTORY: "@ + name;
    assert(refusal.subrange(refusal.len() - name.len(), refusal.len() as int) =~= name);
}

} // verus!
