//! Atomic replacement of a live ciphertext file by a staging file.

use vstd::prelude::*;

use crate::failure::{outcome_view, Failure, FailureView};
use crate::path::copy_bytes;
use crate::runs::nothing_is_undone;

verus! {

/// The mode of ciphertext files.
pub const PRIVATE_FILE: u32 = 0o600;

/// A staging file and the live file that it replaces.
pub struct InstallJob {
    pub staging: Vec<u8>,
    pub target: Vec<u8>,
}

pub struct InstallJobView {
    pub staging: Seq<u8>,
    pub target: Seq<u8>,
}

impl View for InstallJob {
    type V = InstallJobView;

    open spec fn view(&self) -> InstallJobView {
        InstallJobView { staging: self.staging@, target: self.target@ }
    }
}

/// The state of an installation, named after the operation that is due.
pub enum Install {
    /// Set the mode of the staging file to [`PRIVATE_FILE`].
    Protect(InstallJob),
    /// Open the staging file and flush it to disk.
    Flush(InstallJob),
    /// Rename the staging file over the target.
    Rename(InstallJob),
    /// Flush the parent directory of the target, if that can be done.
    Settle(InstallJob),
    Done(Result<(), Failure>),
}

pub enum InstallView {
    Protect(InstallJobView),
    Flush(InstallJobView),
    Rename(InstallJobView),
    Settle(InstallJobView),
    Done(Result<(), FailureView>),
}

impl View for Install {
    type V = InstallView;

    open spec fn view(&self) -> InstallView {
        match *self {
            Install::Protect(job) => InstallView::Protect(job@),
            Install::Flush(job) => InstallView::Flush(job@),
            Install::Rename(job) => InstallView::Rename(job@),
            Install::Settle(job) => InstallView::Settle(job@),
            Install::Done(r) => InstallView::Done(outcome_view(r)),
        }
    }
}

/// The outcome of an operation of an installation.
pub enum InstallEvent {
    Protected(Result<(), Failure>),
    Flushed(Result<(), Failure>),
    Renamed(Result<(), Failure>),
    Settled,
}

pub enum InstallEventView {
    Protected(Result<(), FailureView>),
    Flushed(Result<(), FailureView>),
    Renamed(Result<(), FailureView>),
    Settled,
}

impl View for InstallEvent {
    type V = InstallEventView;

    open spec fn view(&self) -> InstallEventView {
        match *self {
            InstallEvent::Protected(r) => InstallEventView::Protected(outcome_view(r)),
            InstallEvent::Flushed(r) => InstallEventView::Flushed(outcome_view(r)),
            InstallEvent::Renamed(r) => InstallEventView::Renamed(outcome_view(r)),
            InstallEvent::Settled => InstallEventView::Settled,
        }
    }
}

/// The state after `event`: each operation follows on the success of the one
/// before, and the first failure is the outcome.
pub open spec fn install_next(s: InstallView, event: InstallEventView) -> InstallView {
    match (s, event) {
        (InstallView::Protect(job), InstallEventView::Protected(r)) => match r {
            Ok(_) => InstallView::Flush(job),
            Err(f) => InstallView::Done(Err(f)),
        },
        (InstallView::Flush(job), InstallEventView::Flushed(r)) => match r {
            Ok(_) => InstallView::Rename(job),
            Err(f) => InstallView::Done(Err(f)),
        },
        (InstallView::Rename(job), InstallEventView::Renamed(r)) => match r {
            Ok(_) => InstallView::Settle(job),
            Err(f) => InstallView::Done(Err(f)),
        },
        (InstallView::Settle(job), InstallEventView::Settled) => InstallView::Done(Ok(())),
        _ => s,
    }
}

/// Starts to install a freshly encrypted staging file at `target`. `staging`
/// must be in the same directory as `target`.
pub fn install_atomic(staging: &[u8], target: &[u8]) -> (r: Install)
    ensures
        r@ == InstallView::Protect(InstallJobView { staging: staging@, target: target@ }),
{
    Install::Protect(InstallJob { staging: copy_bytes(staging), target: copy_bytes(target) })
}

impl Install {
    /// The state after `event`.
    pub fn step(self, event: InstallEvent) -> (r: Install)
        ensures
            r@ == install_next(self@, event@),
    {
        match (self, event) {
            (Install::Protect(job), InstallEvent::Protected(r)) => match r {
                Ok(_) => Install::Flush(job),
                Err(f) => Install::Done(Err(f)),
            },
            (Install::Flush(job), InstallEvent::Flushed(r)) => match r {
                Ok(_) => Install::Rename(job),
                Err(f) => Install::Done(Err(f)),
            },
            (Install::Rename(job), InstallEvent::Renamed(r)) => match r {
                Ok(_) => Install::Settle(job),
                Err(f) => Install::Done(Err(f)),
            },
            (Install::Settle(_), InstallEvent::Settled) => Install::Done(Ok(())),
            (s, _) => s,
        }
    }
}

// ---- laws --------------------------------------------------------------------

/// The state after a sequence of events.
pub open spec fn install_run(s: InstallView, events: Seq<InstallEventView>) -> InstallView
    decreases events.len(),
{
    if events.len() == 0 {
        s
    } else {
        install_next(install_run(s, events.drop_last()), events.last())
    }
}

/// The rename comes due only after the staging file was made private and flushed,
/// and success is reported only after the rename succeeded too.
pub proof fn only_private_flushed_files_go_live(job: InstallJobView, events: Seq<InstallEventView>)
    ensures
        ({
            let s = install_run(InstallView::Protect(job), events);
            let protected = events.contains(InstallEventView::Protected(Ok(())));
            let flushed = events.contains(InstallEventView::Flushed(Ok(())));
            let renamed = events.contains(InstallEventView::Renamed(Ok(())));
            &&& s matches InstallView::Protect(j) ==> j == job
            &&& s matches InstallView::Flush(j) ==> j == job && protected
            &&& s matches InstallView::Rename(j) ==> j == job && protected && flushed
            &&& s matches InstallView::Settle(j) ==> j == job && protected && flushed && renamed
            &&& s == InstallView::Done(Ok(())) ==> protected && flushed && renamed
        }),
    decreases events.len(),
{
    if events.len() > 0 {
        let before = events.drop_last();
        only_private_flushed_files_go_live(job, before);
        nothing_is_undone(events);
        match events.last() {
            InstallEventView::Protected(Ok(u)) => assert(u == ()),
            InstallEventView::Flushed(Ok(u)) => assert(u == ()),
            InstallEventView::Renamed(Ok(u)) => assert(u == ()),
            _ => {},
        }
    }
}

/// An installation in which nothing fails renames the staging file to the target
/// and succeeds; the first failure is its outcome, as it is.
pub proof fn installations_succeed_if_nothing_fails(job: InstallJobView, f: FailureView)
    ensures
        ({
            let protect = InstallView::Protect(job);
            let flush = install_next(protect, InstallEventView::Protected(Ok(())));
            let rename = install_next(flush, InstallEventView::Flushed(Ok(())));
            let settle = install_next(rename, InstallEventView::Renamed(Ok(())));
            &&& flush == InstallView::Flush(job)
            &&& rename == InstallView::Rename(job)
            &&& settle == InstallView::Settle(job)
            &&& install_next(settle, InstallEventView::Settled) == InstallView::Done(Ok(()))
            &&& install_next(protect, InstallEventView::Protected(Err(f))) == InstallView::Done(
                Err(f),
            )
            &&& install_next(flush, InstallEventView::Flushed(Err(f))) == InstallView::Done(Err(f))
            &&& install_next(rename, InstallEventView::Renamed(Err(f))) == InstallView::Done(Err(f))
        }),
{
}

} // verus!
