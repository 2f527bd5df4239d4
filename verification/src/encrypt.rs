//! Encryption of one value by `systemd-creds encrypt --user`.
//!
//! The plaintext goes to the program through a pipe, and nowhere else.

use vstd::prelude::*;

use crate::creds::{message, redact, redacted, stderr_text, CredError};
use crate::failure::{outcome_view, Failure, FailureView};
use crate::outside::lossy_text;
use crate::path::copy_bytes;
use crate::runs::nothing_is_undone;
use crate::text::{told_last, trim, trimmed};

verus! {

/// The arguments of `systemd-creds` for encrypting from stdin, before the output
/// path.
pub fn encrypt_args(cred_name: &str) -> (r: Vec<String>)
    ensures
        r.deep_view() == seq![
            "encrypt"@,
            "--user"@,
            "--with-key=auto"@,
            "--name"@,
            cred_name@,
            "-"@,
        ],
{
    let mut v: Vec<String> = Vec::new();
    v.push("encrypt".to_owned());
    v.push("--user".to_owned());
    v.push("--with-key=auto".to_owned());
    v.push("--name".to_owned());
    v.push(cred_name.to_owned());
    v.push("-".to_owned());
    assert(v.deep_view() =~= seq![
        "encrypt"@,
        "--user"@,
        "--with-key=auto"@,
        "--name"@,
        cred_name@,
        "-"@,
    ]);
    v
}

/// A value to encrypt, its credential name, and where the ciphertext goes.
pub struct EncryptJob {
    pub cred_name: String,
    pub plaintext: Vec<u8>,
    pub out_path: Vec<u8>,
}

pub struct EncryptJobView {
    pub cred_name: Seq<char>,
    pub plaintext: Seq<u8>,
    pub out_path: Seq<u8>,
}

impl View for EncryptJob {
    type V = EncryptJobView;

    open spec fn view(&self) -> EncryptJobView {
        EncryptJobView {
            cred_name: self.cred_name@,
            plaintext: self.plaintext@,
            out_path: self.out_path@,
        }
    }
}

/// The state of an encryption, named after the operation that is due.
pub enum Encrypt {
    /// Create the output file, which must not be there yet, for this user only and
    /// without following a symlink.
    Create(EncryptJob),
    /// Start the program with [`encrypt_args`] and the output path.
    Spawn(EncryptJob),
    /// Write the plaintext to the program and close the pipe.
    Feed(EncryptJob),
    /// Wait for the program.
    Wait,
    Done(Result<(), CredError>),
}

pub enum EncryptView {
    Create(EncryptJobView),
    Spawn(EncryptJobView),
    Feed(EncryptJobView),
    Wait,
    Done(Result<(), Seq<char>>),
}

/// An outcome without a value, over what it says.
pub open spec fn done_view(r: Result<(), CredError>) -> Result<(), Seq<char>> {
    match r {
        Ok(_) => Ok(()),
        Err(e) => Err(e@),
    }
}

impl View for Encrypt {
    type V = EncryptView;

    open spec fn view(&self) -> EncryptView {
        match *self {
            Encrypt::Create(job) => EncryptView::Create(job@),
            Encrypt::Spawn(job) => EncryptView::Spawn(job@),
            Encrypt::Feed(job) => EncryptView::Feed(job@),
            Encrypt::Wait => EncryptView::Wait,
            Encrypt::Done(r) => EncryptView::Done(done_view(r)),
        }
    }
}

/// How the program ended, with what it printed to stderr.
pub struct ChildExit {
    pub success: bool,
    pub stderr: Vec<u8>,
}

/// The outcome of an operation of an encryption.
pub enum EncryptEvent {
    Created(Result<(), Failure>),
    Spawned(Result<(), Failure>),
    Fed(Result<(), Failure>),
    Exited(Result<ChildExit, Failure>),
}

pub enum EncryptEventView {
    Created(Result<(), FailureView>),
    Spawned(Result<(), FailureView>),
    Fed(Result<(), FailureView>),
    Exited(Result<(bool, Seq<u8>), FailureView>),
}

impl View for EncryptEvent {
    type V = EncryptEventView;

    open spec fn view(&self) -> EncryptEventView {
        match *self {
            EncryptEvent::Created(r) => EncryptEventView::Created(outcome_view(r)),
            EncryptEvent::Spawned(r) => EncryptEventView::Spawned(outcome_view(r)),
            EncryptEvent::Fed(r) => EncryptEventView::Fed(outcome_view(r)),
            EncryptEvent::Exited(Ok(exit)) => EncryptEventView::Exited(
                Ok((exit.success, exit.stderr@)),
            ),
            EncryptEvent::Exited(Err(f)) => EncryptEventView::Exited(Err(f@)),
        }
    }
}

/// The state after `event`: success needs a new output file and a program that was
/// started, took the whole plaintext and ended well.
pub open spec fn encrypt_next(s: EncryptView, event: EncryptEventView) -> EncryptView {
    match (s, event) {
        (EncryptView::Create(job), EncryptEventView::Created(r)) => match r {
            Ok(_) => EncryptView::Spawn(job),
            Err(f) => EncryptView::Done(Err("failed to create staging file: "@ + f.message)),
        },
        (EncryptView::Spawn(job), EncryptEventView::Spawned(r)) => match r {
            Ok(_) => EncryptView::Feed(job),
            Err(f) => EncryptView::Done(
                Err("failed to run systemd-creds encrypt: "@ + f.message),
            ),
        },
        (EncryptView::Feed(job), EncryptEventView::Fed(r)) => match r {
            Ok(_) => EncryptView::Wait,
            Err(f) => EncryptView::Done(
                Err("failed to pipe plaintext to systemd-creds: "@ + f.message),
            ),
        },
        (EncryptView::Wait, EncryptEventView::Exited(r)) => match r {
            Ok((success, stderr)) => if success {
                EncryptView::Done(Ok(()))
            } else {
                EncryptView::Done(
                    Err("systemd-creds encrypt failed: "@ + redacted(trimmed(lossy_text(stderr)))),
                )
            },
            Err(f) => EncryptView::Done(
                Err("failed to wait on systemd-creds encrypt: "@ + f.message),
            ),
        },
        _ => s,
    }
}

/// Starts to encrypt `plaintext` to `out_path` under the given credential name,
/// with the user-scoped default key.
pub fn encrypt_to_file(cred_name: &str, plaintext: &[u8], out_path: &[u8]) -> (r: Encrypt)
    ensures
        r@ == EncryptView::Create(
            EncryptJobView { cred_name: cred_name@, plaintext: plaintext@, out_path: out_path@ },
        ),
{
    Encrypt::Create(
        EncryptJob {
            cred_name: cred_name.to_owned(),
            plaintext: copy_bytes(plaintext),
            out_path: copy_bytes(out_path),
        },
    )
}

impl Encrypt {
    /// The state after `event`.
    pub fn step(self, event: EncryptEvent) -> (r: Encrypt)
        ensures
            r@ == encrypt_next(self@, event@),
    {
        match (self, event) {
            (Encrypt::Create(job), EncryptEvent::Created(r)) => match r {
                Ok(_) => Encrypt::Spawn(job),
                Err(f) => Encrypt::Done(
                    Err(CredError(message("failed to create staging file: ", f.message.as_str()))),
                ),
            },
            (Encrypt::Spawn(job), EncryptEvent::Spawned(r)) => match r {
                Ok(_) => Encrypt::Feed(job),
                Err(f) => Encrypt::Done(
                    Err(
                        CredError(
                            message("failed to run systemd-creds encrypt: ", f.message.as_str()),
                        ),
                    ),
                ),
            },
            (Encrypt::Feed(_), EncryptEvent::Fed(r)) => match r {
                Ok(_) => Encrypt::Wait,
                Err(f) => Encrypt::Done(
                    Err(
                        CredError(
                            message(
                                "failed to pipe plaintext to systemd-creds: ",
                                f.message.as_str(),
                            ),
                        ),
                    ),
                ),
            },
            (Encrypt::Wait, EncryptEvent::Exited(r)) => match r {
                Ok(exit) => if exit.success {
                    Encrypt::Done(Ok(()))
                } else {
                    let printed = stderr_text(exit.stderr.as_slice());
                    let detail = redact(trim(printed.as_str()));
                    Encrypt::Done(
                        Err(CredError(message("systemd-creds encrypt failed: ", detail.as_str()))),
                    )
                },
                Err(f) => Encrypt::Done(
                    Err(
                        CredError(
                            message(
                                "failed to wait on systemd-creds encrypt: ",
                                f.message.as_str(),
                            ),
                        ),
                    ),
                ),
            },
            (s, _) => s,
        }
    }
}

// ---- laws --------------------------------------------------------------------

/// The state after a sequence of events.
pub open spec fn encrypt_run(s: EncryptView, events: Seq<EncryptEventView>) -> EncryptView
    decreases events.len(),
{
    if events.len() == 0 {
        s
    } else {
        encrypt_next(encrypt_run(s, events.drop_last()), events.last())
    }
}

/// The same job with another plaintext.
pub open spec fn with_plaintext(s: EncryptView, plaintext: Seq<u8>) -> EncryptView {
    match s {
        EncryptView::Create(job) => EncryptView::Create(EncryptJobView { plaintext, ..job }),
        EncryptView::Spawn(job) => EncryptView::Spawn(EncryptJobView { plaintext, ..job }),
        EncryptView::Feed(job) => EncryptView::Feed(EncryptJobView { plaintext, ..job }),
        _ => s,
    }
}

/// The plaintext has no part in the outcome of an encryption: with another
/// plaintext the same events give the same message or success.
pub proof fn encryption_reports_no_plaintext(
    s: EncryptView,
    plaintext: Seq<u8>,
    events: Seq<EncryptEventView>,
)
    ensures
        encrypt_run(with_plaintext(s, plaintext), events) == with_plaintext(
            encrypt_run(s, events),
            plaintext,
        ),
        encrypt_run(s, events) is Done ==> encrypt_run(with_plaintext(s, plaintext), events)
            == encrypt_run(s, events),
    decreases events.len(),
{
    if events.len() > 0 {
        encryption_reports_no_plaintext(s, plaintext, events.drop_last());
    }
}

/// The program is started, and the plaintext handed out, only after the output
/// file was newly created; success means that the whole plaintext was taken.
pub proof fn only_new_files_are_written(job: EncryptJobView, events: Seq<EncryptEventView>)
    ensures
        match encrypt_run(EncryptView::Create(job), events) {
            EncryptView::Create(j) => j == job,
            EncryptView::Spawn(j) => j == job && events.contains(
                EncryptEventView::Created(Ok(())),
            ),
            EncryptView::Feed(j) => j == job && events.contains(
                EncryptEventView::Created(Ok(())),
            ) && events.contains(EncryptEventView::Spawned(Ok(()))),
            EncryptView::Wait => events.contains(EncryptEventView::Created(Ok(())))
                && events.contains(EncryptEventView::Spawned(Ok(()))) && events.contains(
                EncryptEventView::Fed(Ok(())),
            ),
            EncryptView::Done(Ok(_)) => events.contains(EncryptEventView::Created(Ok(())))
                && events.contains(EncryptEventView::Spawned(Ok(()))) && events.contains(
                EncryptEventView::Fed(Ok(())),
            ),
            EncryptView::Done(Err(_)) => true,
        },
    decreases events.len(),
{
    if events.len() > 0 {
        let before = events.drop_last();
        only_new_files_are_written(job, before);
        nothing_is_undone(events);
        match events.last() {
            EncryptEventView::Created(Ok(u)) => assert(u == ()),
            EncryptEventView::Spawned(Ok(u)) => assert(u == ()),
            EncryptEventView::Fed(Ok(u)) => assert(u == ()),
            _ => {},
        }
    }
}

/// An encryption in which nothing fails hands out the whole plaintext and succeeds;
/// one succeeds only if the program ended well. What fails is told whole, and of
/// what the program printed as much as a message may repeat.
pub proof fn encryptions_succeed_if_nothing_fails(
    job: EncryptJobView,
    stderr: Seq<u8>,
    f: FailureView,
)
    ensures
        ({
            let create = EncryptView::Create(job);
            let spawn = encrypt_next(create, EncryptEventView::Created(Ok(())));
            let feed = encrypt_next(spawn, EncryptEventView::Spawned(Ok(())));
            let wait = encrypt_next(feed, EncryptEventView::Fed(Ok(())));
            &&& spawn == EncryptView::Spawn(job)
            &&& feed == EncryptView::Feed(job)
            &&& encrypt_next(wait, EncryptEventView::Exited(Ok((true, stderr))))
                == EncryptView::Done(Ok(()))
            &&& encrypt_next(wait, EncryptEventView::Exited(Ok((false, stderr)))) matches
                EncryptView::Done(Err(m)) && redacted(trimmed(lossy_text(stderr))).is_suffix_of(m)
            &&& encrypt_next(create, EncryptEventView::Created(Err(f))) matches EncryptView::Done(
                Err(m),
            ) && f.message.is_suffix_of(m)
            &&& encrypt_next(spawn, EncryptEventView::Spawned(Err(f))) matches EncryptView::Done(
                Err(m),
            ) && f.message.is_suffix_of(m)
            &&& encrypt_next(feed, EncryptEventView::Fed(Err(f))) matches EncryptView::Done(Err(m))
                && f.message.is_suffix_of(m)
            &&& encrypt_next(wait, EncryptEventView::Exited(Err(f))) matches EncryptView::Done(
                Err(m),
            ) && f.message.is_suffix_of(m)
        }),
{
    told_last("failed to create staging file: "@, f.message);
    told_last("failed to run systemd-creds encrypt: "@, f.message);
    told_last("failed to pipe plaintext to systemd-creds: "@, f.message);
    told_last("failed to wait on systemd-creds encrypt: "@, f.message);
    told_last("systemd-creds encrypt failed: "@, redacted(trimmed(lossy_text(stderr))));
}

} // verus!
