//! Views leave nothing out: what the laws say over views holds of every byte and
//! character of the values themselves.

use vstd::prelude::*;

use crate::cli::{Command, CommandView};
use crate::creds::{
    attempt_view, failure_view, secret_view, AttemptErrorView, CredError, DecryptAttemptError,
};
use crate::decrypt::{
    found_view, CredDir, CredDirEvent, CredDirEventView, CredDirView, Decrypt, DecryptEvent,
    DecryptEventView, DecryptView,
};
use crate::dirs::{
    env_view, stat_view, DirEvent, DirEventView, DirJob, Dirs, DirsView, FileStat, StoreEnv,
};
use crate::encrypt::{
    done_view, Encrypt, EncryptEvent, EncryptEventView, EncryptJob, EncryptView,
};
use crate::exec::{
    value_view, vars_view, EnvVar, Exec, ExecError, ExecEvent, ExecEventView, ExecPlan, ExecView,
    Resolve, ResolveEvent, ResolveEventView, ResolveView,
};
use crate::failure::{bytes_view, outcome_view, Failure, FailureView};
use crate::input::{
    typed_view, PromptEvent, PromptEventView, PromptResult, PromptResultView, Prompting,
    PromptingView,
};
use crate::install::{Install, InstallEvent, InstallEventView, InstallJob, InstallView};
use crate::list::{List, ListEvent, ListEventView, ListView};
use crate::listing::{names_view, VarList, VarListEvent, VarListEventView, VarListView};
use crate::outside::lossy_text;
use crate::path::paths_view;
use crate::retry::{Retry, RetryEvent, RetryEventView, RetryView};
use crate::set::{
    jobs_view, values_view, Place, SetEvent, SetEventView, SetRun, SetRunView, Value,
};
use crate::unset::{Unset, UnsetEvent, UnsetEventView, UnsetView};

verus! {

// ---- values ------------------------------------------------------------------------

/// A failure is told with its kind and its whole message, and so is every other error.
pub proof fn failures_are_told_in_full(f: Failure, e: CredError, x: ExecError, text: String)
    ensures
        f@.kind == f.kind,
        f@.message == f.message@,
        e@ == e.0@,
        x@ == x.0@,
        DecryptAttemptError::Spawn(text)@ == AttemptErrorView::Spawn(text@),
        DecryptAttemptError::Wait(text)@ == AttemptErrorView::Wait(text@),
        DecryptAttemptError::Failed(text)@ == AttemptErrorView::Failed(text@),
        failure_view(Some(f)) == Some(f@),
        failure_view(None) is None,
{
}

/// Bytes are told one by one, and errors whole, whatever the outcome stands for.
pub proof fn outcomes_are_told_in_full(
    bytes: Vec<u8>,
    f: Failure,
    e: CredError,
    a: DecryptAttemptError,
    text: String,
    names: Vec<String>,
    typed: PromptResult,
    st: FileStat,
)
    ensures
        bytes_view(Ok(bytes)) == Ok::<Seq<u8>, FailureView>(bytes@),
        bytes_view(Err(f)) == Err::<Seq<u8>, FailureView>(f@),
        outcome_view(Ok(())) is Ok,
        outcome_view(Err(f)) == Err::<(), FailureView>(f@),
        secret_view(Ok(bytes)) == Ok::<Seq<u8>, Seq<char>>(bytes@),
        secret_view(Err(e)) == Err::<Seq<u8>, Seq<char>>(e.0@),
        attempt_view(Ok(bytes)) == Ok::<Seq<u8>, AttemptErrorView>(bytes@),
        attempt_view(Err(a)) == Err::<Seq<u8>, AttemptErrorView>(a@),
        found_view(Ok(Some(bytes))) == Ok::<Option<Seq<u8>>, Seq<char>>(Some(bytes@)),
        found_view(Ok(None)) == Ok::<Option<Seq<u8>>, Seq<char>>(None),
        found_view(Err(e)) == Err::<Option<Seq<u8>>, Seq<char>>(e.0@),
        value_view(Ok(bytes)) == Ok::<Seq<u8>, Seq<char>>(bytes@),
        value_view(Err(text)) == Err::<Seq<u8>, Seq<char>>(text@),
        names_view(Ok(names)) == Ok::<Seq<Seq<char>>, Seq<char>>(names.deep_view()),
        names_view(Err(text)) == Err::<Seq<Seq<char>>, Seq<char>>(text@),
        done_view(Ok(())) is Ok,
        done_view(Err(e)) == Err::<(), Seq<char>>(e.0@),
        typed_view(Ok(typed)) == Ok::<PromptResultView, FailureView>(typed@),
        typed_view(Err(f)) == Err::<PromptResultView, FailureView>(f@),
        stat_view(Ok(st)) == Ok::<FileStat, FailureView>(st),
        stat_view(Err(f)) == Err::<FileStat, FailureView>(f@),
        typed@.value == typed.value@,
        typed@.eof == typed.eof,
{
}

/// A list is told item by item, in its order.
pub proof fn lists_are_told_in_full(
    env: Seq<EnvVar>,
    values: Seq<Value>,
    jobs: Seq<InstallJob>,
    paths: Seq<Vec<u8>>,
)
    ensures
        vars_view(env).len() == env.len(),
        forall|i: int|
            0 <= i < env.len() ==> (#[trigger] vars_view(env)[i]).name == env[i].name@ && vars_view(
                env,
            )[i].value == env[i].value@,
        values_view(values).len() == values.len(),
        forall|i: int|
            0 <= i < values.len() ==> (#[trigger] values_view(values)[i]).var == values[i].var@
                && values_view(values)[i].plaintext == values[i].plaintext@,
        jobs_view(jobs).len() == jobs.len(),
        forall|i: int|
            0 <= i < jobs.len() ==> (#[trigger] jobs_view(jobs)[i]).staging == jobs[i].staging@
                && jobs_view(jobs)[i].target == jobs[i].target@,
        paths_view(paths).len() == paths.len(),
        forall|i: int| 0 <= i < paths.len() ==> #[trigger] paths_view(paths)[i] == paths[i]@,
{
}

/// Jobs are told field by field.
pub proof fn jobs_are_told_in_full(
    e: EncryptJob,
    i: InstallJob,
    d: DirJob,
    place: Place,
    plan: ExecPlan,
    env: StoreEnv,
    bytes: Vec<u8>,
)
    ensures
        e@.cred_name == e.cred_name@,
        e@.plaintext == e.plaintext@,
        e@.out_path == e.out_path@,
        i@.staging == i.staging@,
        i@.target == i.target@,
        d@.purpose == d.purpose,
        d@.path == d.path@,
        d@.rest == paths_view(d.rest@),
        d@.answer == d.answer@,
        place@.ns == place.ns@,
        place@.dir == place.dir@,
        place@.pid == place.pid,
        plan@.argv == plan.argv.deep_view(),
        plan@.ns == plan.ns@,
        plan@.rest == plan.rest.deep_view(),
        plan@.env == vars_view(plan.env@),
        env@.xdg_data_home == env_view(env.xdg_data_home),
        env@.home == env_view(env.home),
        env_view(Some(bytes)) == Some(bytes@),
        env_view(None) is None,
{
}

// ---- commands ------------------------------------------------------------------------

/// The state of `--set` is told in full, and so is what answers it.
pub proof fn set_is_told_in_full(s: SetRun, e: SetEvent)
    ensures
        match s {
            SetRun::Prompt { ns, pid, noecho, prompt, var, rest, collected } => s@
                == (SetRunView::Prompt {
                ns: ns@,
                pid,
                noecho,
                prompt: prompt@,
                var: var@,
                rest: rest.deep_view(),
                collected: values_view(collected@),
            }),
            SetRun::Dir { ns, pid, collected } => s@ == (SetRunView::Dir {
                ns: ns@,
                pid,
                collected: values_view(collected@),
            }),
            SetRun::Encrypt { place, var, job, rest, staged } => s@ == (SetRunView::Encrypt {
                place: place@,
                var: var@,
                job: job@,
                rest: values_view(rest@),
                staged: jobs_view(staged@),
            }),
            SetRun::Install { installed, job, rest } => s@ == (SetRunView::Install {
                installed: jobs_view(installed@),
                job: job@,
                rest: jobs_view(rest@),
            }),
            SetRun::Done { report, discard } => s@ == (SetRunView::Done {
                report: report@,
                discard: paths_view(discard@),
            }),
        },
        match e {
            SetEvent::Typed(r) => e@ == SetEventView::Typed(typed_view(r)),
            SetEvent::Dir(r) => e@ == SetEventView::Dir(bytes_view(r)),
            SetEvent::Encrypted(r) => e@ == SetEventView::Encrypted(done_view(r)),
            SetEvent::Installed(r) => e@ == SetEventView::Installed(outcome_view(r)),
        },
{
}

/// The state of `--unset` is told in full, and so is what answers it.
pub proof fn unset_is_told_in_full(s: Unset, e: UnsetEvent)
    ensures
        match s {
            Unset::Path { ns, var, rest } => s@ == (UnsetView::Path {
                ns: ns@,
                var: var@,
                rest: rest.deep_view(),
            }),
            Unset::Open { ns, var, path, rest } => s@ == (UnsetView::Open {
                ns: ns@,
                var: var@,
                path: path@,
                rest: rest.deep_view(),
            }),
            Unset::Remove { ns, var, path, rest } => s@ == (UnsetView::Remove {
                ns: ns@,
                var: var@,
                path: path@,
                rest: rest.deep_view(),
            }),
            Unset::Done(r) => s@ == UnsetView::Done(r@),
        },
        match e {
            UnsetEvent::Path(r) => e@ == UnsetEventView::Path(bytes_view(r)),
            UnsetEvent::Opened(r) => e@ == UnsetEventView::Opened(outcome_view(r)),
            UnsetEvent::Removed(r) => e@ == UnsetEventView::Removed(outcome_view(r)),
        },
{
}

/// The state of `--list` is told in full, and so is what answers it.
pub proof fn list_is_told_in_full(s: List, e: ListEvent)
    ensures
        match s {
            List::Namespaces => s@ is Namespaces,
            List::Vars(ns) => s@ == ListView::Vars(ns@),
            List::Done(r) => s@ == ListView::Done(r@),
        },
        match e {
            ListEvent::Namespaces(Ok(names)) => e@ == ListEventView::Namespaces(
                Ok(names.deep_view()),
            ),
            ListEvent::Namespaces(Err(f)) => e@ == ListEventView::Namespaces(Err(f@)),
            ListEvent::Vars(r) => e@ == ListEventView::Vars(names_view(r)),
        },
{
}

/// The state of exec mode is told in full, and so is what answers it.
pub proof fn exec_is_told_in_full(s: Exec, e: ExecEvent)
    ensures
        match s {
            Exec::Exists(plan) => s@ == ExecView::Exists(plan@),
            Exec::List(plan) => s@ == ExecView::List(plan@),
            Exec::Resolve { plan, var, vars } => s@ == (ExecView::Resolve {
                plan: plan@,
                var: var@,
                vars: vars.deep_view(),
            }),
            Exec::Run { argv, env } => s@ == (ExecView::Run {
                argv: argv.deep_view(),
                env: vars_view(env@),
            }),
            Exec::Done(x) => s@ == ExecView::Done(x.0@),
        },
        match e {
            ExecEvent::Exists(Ok(b)) => e@ == ExecEventView::Exists(Ok(b)),
            ExecEvent::Exists(Err(f)) => e@ == ExecEventView::Exists(Err(f@)),
            ExecEvent::Listed(r) => e@ == ExecEventView::Listed(names_view(r)),
            ExecEvent::Resolved(r) => e@ == ExecEventView::Resolved(value_view(r)),
            ExecEvent::RunFailed(f) => e@ == ExecEventView::RunFailed(f@),
        },
{
}

/// The state of resolving a value is told in full, and so is what answers it.
pub proof fn resolving_is_told_in_full(s: Resolve, e: ResolveEvent)
    ensures
        match s {
            Resolve::Directory { cred_name, ns, var } => s@ == (ResolveView::Directory {
                cred_name: cred_name@,
                ns: ns@,
                var: var@,
            }),
            Resolve::Path { cred_name, ns, var } => s@ == (ResolveView::Path {
                cred_name: cred_name@,
                ns: ns@,
                var: var@,
            }),
            Resolve::Decrypt { cred_name, path } => s@ == (ResolveView::Decrypt {
                cred_name: cred_name@,
                path: path@,
            }),
            Resolve::Done(r) => s@ == ResolveView::Done(value_view(r)),
        },
        match e {
            ResolveEvent::Directory(r) => e@ == ResolveEventView::Directory(found_view(r)),
            ResolveEvent::Path(r) => e@ == ResolveEventView::Path(bytes_view(r)),
            ResolveEvent::Decrypted(r) => e@ == ResolveEventView::Decrypted(secret_view(r)),
        },
{
}

/// A command is told as what it is.
pub proof fn commands_are_told_in_full(c: Command)
    ensures
        match c {
            Command::SetVars(s) => c@ == CommandView::SetVars(s@),
            Command::List(s) => c@ == CommandView::List(s@),
            Command::Unset(s) => c@ == CommandView::Unset(s@),
            Command::Exec(s) => c@ == CommandView::Exec(s@),
            Command::Done(r) => c@ == CommandView::Done(r@),
        },
{
}

// ---- the store -----------------------------------------------------------------------

/// The state of securing directories is told in full, and so is what answers it.
pub proof fn securing_is_told_in_full(s: Dirs, e: DirEvent)
    ensures
        match s {
            Dirs::Stat(job) => s@ == DirsView::Stat(job@),
            Dirs::Create(job) => s@ == DirsView::Create(job@),
            Dirs::Tighten(job) => s@ == DirsView::Tighten(job@),
            Dirs::Done(r) => s@ == DirsView::Done(bytes_view(r)),
        },
        match e {
            DirEvent::Stat(r) => e@ == DirEventView::Stat(stat_view(r)),
            DirEvent::Created(r) => e@ == DirEventView::Created(outcome_view(r)),
            DirEvent::Tightened(r) => e@ == DirEventView::Tightened(outcome_view(r)),
        },
{
}

/// The state of a listing is told in full, and so is what answers it; the name of an
/// entry is told as its text.
pub proof fn listings_are_told_in_full(s: VarList, e: VarListEvent)
    ensures
        match s {
            VarList::Dir { ns } => s@ == (VarListView::Dir { ns: ns@ }),
            VarList::Open { ns, dir } => s@ == (VarListView::Open { ns: ns@, dir: dir@ }),
            VarList::Entry { ns, vars } => s@ == (VarListView::Entry {
                ns: ns@,
                vars: vars.deep_view(),
            }),
            VarList::Stat { ns, vars, name, var } => s@ == (VarListView::Stat {
                ns: ns@,
                vars: vars.deep_view(),
                name: name@,
                var: var@,
            }),
            VarList::Done(r) => s@ == VarListView::Done(names_view(r)),
        },
        match e {
            VarListEvent::Dir(r) => e@ == VarListEventView::Dir(bytes_view(r)),
            VarListEvent::Opened(r) => e@ == VarListEventView::Opened(outcome_view(r)),
            VarListEvent::Entry(Ok(name)) => e@ == VarListEventView::Entry(Ok(lossy_text(name@))),
            VarListEvent::Entry(Err(f)) => e@ == VarListEventView::Entry(Err(f@)),
            VarListEvent::End => e@ is End,
            VarListEvent::Stat(Ok(kind)) => e@ == VarListEventView::Stat(Ok(kind)),
            VarListEvent::Stat(Err(f)) => e@ == VarListEventView::Stat(Err(f@)),
        },
{
}

/// The state of an installation is told in full, and so is what answers it.
pub proof fn installing_is_told_in_full(s: Install, e: InstallEvent)
    ensures
        match s {
            Install::Protect(job) => s@ == InstallView::Protect(job@),
            Install::Flush(job) => s@ == InstallView::Flush(job@),
            Install::Rename(job) => s@ == InstallView::Rename(job@),
            Install::Settle(job) => s@ == InstallView::Settle(job@),
            Install::Done(r) => s@ == InstallView::Done(outcome_view(r)),
        },
        match e {
            InstallEvent::Protected(r) => e@ == InstallEventView::Protected(outcome_view(r)),
            InstallEvent::Flushed(r) => e@ == InstallEventView::Flushed(outcome_view(r)),
            InstallEvent::Renamed(r) => e@ == InstallEventView::Renamed(outcome_view(r)),
            InstallEvent::Settled => e@ is Settled,
        },
{
}

// ---- secrets -------------------------------------------------------------------------

/// The state of an encryption is told in full, and so is what answers it.
pub proof fn encrypting_is_told_in_full(s: Encrypt, e: EncryptEvent)
    ensures
        match s {
            Encrypt::Create(job) => s@ == EncryptView::Create(job@),
            Encrypt::Spawn(job) => s@ == EncryptView::Spawn(job@),
            Encrypt::Feed(job) => s@ == EncryptView::Feed(job@),
            Encrypt::Wait => s@ is Wait,
            Encrypt::Done(r) => s@ == EncryptView::Done(done_view(r)),
        },
        match e {
            EncryptEvent::Created(r) => e@ == EncryptEventView::Created(outcome_view(r)),
            EncryptEvent::Spawned(r) => e@ == EncryptEventView::Spawned(outcome_view(r)),
            EncryptEvent::Fed(r) => e@ == EncryptEventView::Fed(outcome_view(r)),
            EncryptEvent::Exited(Ok(exit)) => e@ == EncryptEventView::Exited(
                Ok((exit.success, exit.stderr@)),
            ),
            EncryptEvent::Exited(Err(f)) => e@ == EncryptEventView::Exited(Err(f@)),
        },
{
}

/// The state of a decryption is told in full, and so is what answers it.
pub proof fn decrypting_is_told_in_full(s: Decrypt, e: DecryptEvent)
    ensures
        match s {
            Decrypt::Open { cred_name, path, shown } => s@ == (DecryptView::Open {
                cred_name: cred_name@,
                path: path@,
                shown: shown@,
            }),
            Decrypt::Read { cred_name, shown } => s@ == (DecryptView::Read {
                cred_name: cred_name@,
                shown: shown@,
            }),
            Decrypt::Slot { cred_name, cipher } => s@ == (DecryptView::Slot {
                cred_name: cred_name@,
                cipher: cipher@,
            }),
            Decrypt::Decipher { cred_name, cipher } => s@ == (DecryptView::Decipher {
                cred_name: cred_name@,
                cipher: cipher@,
            }),
            Decrypt::Done(r) => s@ == DecryptView::Done(secret_view(r)),
        },
        match e {
            DecryptEvent::Opened(r) => e@ == DecryptEventView::Opened(outcome_view(r)),
            DecryptEvent::Read(r) => e@ == DecryptEventView::Read(bytes_view(r)),
            DecryptEvent::Slot(Ok(_)) => e@ == DecryptEventView::Slot(Ok(())),
            DecryptEvent::Slot(Err(x)) => e@ == DecryptEventView::Slot(Err(x.0@)),
            DecryptEvent::Deciphered(r) => e@ == DecryptEventView::Deciphered(secret_view(r)),
        },
{
    if let DecryptEvent::Slot(Ok(u)) = e {
        assert(u == ());
    }
}

/// The state of reading from the credentials directory is told in full, and so is what
/// answers it.
pub proof fn reading_is_told_in_full(s: CredDir, e: CredDirEvent)
    ensures
        match s {
            CredDir::Stat { name, path } => s@ == (CredDirView::Stat { name: name@, path: path@ }),
            CredDir::Open { name, path } => s@ == (CredDirView::Open { name: name@, path: path@ }),
            CredDir::Read { name } => s@ == (CredDirView::Read { name: name@ }),
            CredDir::Done(r) => s@ == CredDirView::Done(found_view(r)),
        },
        match e {
            CredDirEvent::Stat(Ok(kind)) => e@ == CredDirEventView::Stat(Ok(kind)),
            CredDirEvent::Stat(Err(f)) => e@ == CredDirEventView::Stat(Err(f@)),
            CredDirEvent::Opened(r) => e@ == CredDirEventView::Opened(outcome_view(r)),
            CredDirEvent::Read(r) => e@ == CredDirEventView::Read(bytes_view(r)),
        },
{
}

/// The state of retrying is told in full, and so is what answers it.
pub proof fn retrying_is_told_in_full(s: Retry, e: RetryEvent)
    ensures
        match s {
            Retry::Attempt { attempt } => s@ == (RetryView::Attempt { attempt: attempt as int }),
            Retry::Sleep { attempt, next } => s@ == (RetryView::Sleep {
                attempt: attempt as int,
                next: next as int,
            }),
            Retry::Done(r) => s@ == RetryView::Done(secret_view(r)),
        },
        match e {
            RetryEvent::Attempted(r) => e@ == RetryEventView::Attempted(attempt_view(r)),
            RetryEvent::Slept => e@ is Slept,
        },
{
}

/// The state of a prompt is told in full, and so is what answers it.
pub proof fn prompting_is_told_in_full(s: Prompting, e: PromptEvent)
    ensures
        match s {
            Prompting::Query { prompt } => s@ == (PromptingView::Query { prompt: prompt@ }),
            Prompting::Hide { prompt } => s@ == (PromptingView::Hide { prompt: prompt@ }),
            Prompting::Show { text, hidden } => s@ == (PromptingView::Show {
                text: text@,
                hidden,
            }),
            Prompting::Read { hidden } => s@ == (PromptingView::Read { hidden }),
            Prompting::Restore { result } => s@ == (PromptingView::Restore {
                result: typed_view(result),
            }),
            Prompting::Done { result, newline } => s@ == (PromptingView::Done {
                result: typed_view(result),
                newline,
            }),
        },
        match e {
            PromptEvent::Queried(ok) => e@ == PromptEventView::Queried(ok),
            PromptEvent::Hidden(ok) => e@ == PromptEventView::Hidden(ok),
            PromptEvent::Shown(r) => e@ == PromptEventView::Shown(outcome_view(r)),
            PromptEvent::Read(r) => e@ == PromptEventView::Read(bytes_view(r)),
            PromptEvent::Restored(ok) => e@ == PromptEventView::Restored(ok),
        },
{
}

} // verus!
