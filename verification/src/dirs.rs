//! Directories of the store: where they are and how they are made private.
//!
//! Layout (durable, user-scoped):
//!   `$XDG_DATA_HOME/credchain/<namespace>/<VAR>.cred`
//! Directories are 0700, credential files 0600.
//!
//! [`Dirs`] secures a list of directories one after the other. A directory is
//! looked at without following a symlink; a symlink is refused, a missing
//! directory is created, and permissions other than 0700 are tightened.

use vstd::prelude::*;

use crate::failure::{Failure, FailureKind, FailureView};
use crate::path::{copy_bytes, join_text, joined_text, paths_view};
use crate::store::{cred_file, cred_file_of, Namespace, VarName};
use crate::text::{occurs, occurs_at};

verus! {

/// What a path leads to when a symlink at its end is not followed.
#[derive(Clone, Copy, Debug, PartialEq, Eq, Structural)]
pub enum FileKind {
    Regular,
    Directory,
    Symlink,
    Other,
}

/// What is known of a file without opening it.
#[derive(Clone, Copy, Debug, PartialEq, Eq, Structural)]
pub struct FileStat {
    pub kind: FileKind,
    pub mode: u32,
}

/// The mode of private directories.
pub const PRIVATE_DIR: u32 = 0o700;

/// The permission bits of `mode` are exactly those of a private directory.
pub open spec fn private_mode(mode: u32) -> bool {
    mode & 0o777 == PRIVATE_DIR
}

/// What a directory is for.
#[derive(Clone, Copy, Debug, PartialEq, Eq, Structural)]
pub enum DirPurpose {
    /// A directory of the store; private ones are left as they are.
    Store,
    /// The directory of the decrypt locks; its mode is set every time.
    Lock,
}

/// The directory at hand, those that follow, and the path to hand out at the end.
pub struct DirJob {
    pub purpose: DirPurpose,
    pub path: Vec<u8>,
    pub rest: Vec<Vec<u8>>,
    pub answer: Vec<u8>,
}

pub struct DirJobView {
    pub purpose: DirPurpose,
    pub path: Seq<u8>,
    pub rest: Seq<Seq<u8>>,
    pub answer: Seq<u8>,
}

impl View for DirJob {
    type V = DirJobView;

    open spec fn view(&self) -> DirJobView {
        DirJobView {
            purpose: self.purpose,
            path: self.path@,
            rest: paths_view(self.rest@),
            answer: self.answer@,
        }
    }
}

/// The state of securing directories, named after the operation that is due on
/// the path at hand.
pub enum Dirs {
    /// Look at the path without following a symlink.
    Stat(DirJob),
    /// Create the directory, with its parents.
    Create(DirJob),
    /// Set the mode to [`PRIVATE_DIR`].
    Tighten(DirJob),
    Done(Result<Vec<u8>, Failure>),
}

pub enum DirsView {
    Stat(DirJobView),
    Create(DirJobView),
    Tighten(DirJobView),
    Done(Result<Seq<u8>, FailureView>),
}

impl View for Dirs {
    type V = DirsView;

    open spec fn view(&self) -> DirsView {
        match *self {
            Dirs::Stat(job) => DirsView::Stat(job@),
            Dirs::Create(job) => DirsView::Create(job@),
            Dirs::Tighten(job) => DirsView::Tighten(job@),
            Dirs::Done(r) => DirsView::Done(crate::failure::bytes_view(r)),
        }
    }
}

/// The outcome of an operation on the path at hand.
pub enum DirEvent {
    Stat(Result<FileStat, Failure>),
    Created(Result<(), Failure>),
    Tightened(Result<(), Failure>),
}

pub enum DirEventView {
    Stat(Result<FileStat, FailureView>),
    Created(Result<(), FailureView>),
    Tightened(Result<(), FailureView>),
}

/// The outcome of looking at a path, over what it says.
pub open spec fn stat_view(r: Result<FileStat, Failure>) -> Result<FileStat, FailureView> {
    match r {
        Ok(st) => Ok(st),
        Err(f) => Err(f@),
    }
}

impl View for DirEvent {
    type V = DirEventView;

    open spec fn view(&self) -> DirEventView {
        match *self {
            DirEvent::Stat(r) => DirEventView::Stat(stat_view(r)),
            DirEvent::Created(r) => DirEventView::Created(crate::failure::outcome_view(r)),
            DirEvent::Tightened(r) => DirEventView::Tightened(crate::failure::outcome_view(r)),
        }
    }
}

/// The refusal of a symlinked directory.
pub open spec fn symlink_refusal(purpose: DirPurpose) -> FailureView {
    FailureView {
        kind: FailureKind::InvalidInput,
        message: match purpose {
            DirPurpose::Store => "refusing to use a symlinked store directory"@,
            DirPurpose::Lock => "refusing symlinked decrypt lock directory"@,
        },
    }
}

/// The path at hand is secured: on to the next one, or the end.
pub open spec fn dir_secured(job: DirJobView) -> DirsView {
    if job.rest.len() == 0 {
        DirsView::Done(Ok(job.answer))
    } else {
        DirsView::Stat(DirJobView { path: job.rest[0], rest: job.rest.drop_first(), ..job })
    }
}

/// The state after `event`.
pub open spec fn dir_next(s: DirsView, event: DirEventView) -> DirsView {
    match (s, event) {
        (DirsView::Stat(job), DirEventView::Stat(Ok(st))) => if st.kind == FileKind::Symlink {
            DirsView::Done(Err(symlink_refusal(job.purpose)))
        } else if job.purpose == DirPurpose::Store && private_mode(st.mode) {
            dir_secured(job)
        } else {
            DirsView::Tighten(job)
        },
        (DirsView::Stat(job), DirEventView::Stat(Err(f))) => if f.kind == FailureKind::NotFound {
            DirsView::Create(job)
        } else {
            DirsView::Done(Err(f))
        },
        (DirsView::Create(job), DirEventView::Created(r)) => match r {
            Ok(_) => DirsView::Tighten(job),
            Err(f) => DirsView::Done(Err(f)),
        },
        (DirsView::Tighten(job), DirEventView::Tightened(r)) => match r {
            Ok(_) => dir_secured(job),
            Err(f) => DirsView::Done(Err(f)),
        },
        _ => s,
    }
}

fn refuse_symlink(purpose: DirPurpose) -> (r: Failure)
    ensures
        r@ == symlink_refusal(purpose),
{
    let message = match purpose {
        DirPurpose::Store => "refusing to use a symlinked store directory".to_owned(),
        DirPurpose::Lock => "refusing symlinked decrypt lock directory".to_owned(),
    };
    Failure { kind: FailureKind::InvalidInput, message }
}

fn secured(job: DirJob) -> (r: Dirs)
    ensures
        r@ == dir_secured(job@),
{
    let DirJob { purpose, path: _, rest, answer } = job;
    if rest.len() == 0 {
        Dirs::Done(Ok(answer))
    } else {
        let ghost before = paths_view(rest@);
        let mut rest = rest;
        let path = rest.remove(0);
        assert(paths_view(rest@) =~= before.drop_first());
        Dirs::Stat(DirJob { purpose, path, rest, answer })
    }
}

impl Dirs {
    /// The state after `event`.
    pub fn step(self, event: DirEvent) -> (r: Dirs)
        ensures
            r@ == dir_next(self@, event@),
    {
        match (self, event) {
            (Dirs::Stat(job), DirEvent::Stat(Ok(st))) => {
                if st.kind == FileKind::Symlink {
                    Dirs::Done(Err(refuse_symlink(job.purpose)))
                } else if job.purpose == DirPurpose::Store && st.mode & 0o777 == PRIVATE_DIR {
                    secured(job)
                } else {
                    Dirs::Tighten(job)
                }
            },
            (Dirs::Stat(job), DirEvent::Stat(Err(f))) => {
                if f.kind == FailureKind::NotFound {
                    Dirs::Create(job)
                } else {
                    Dirs::Done(Err(f))
                }
            },
            (Dirs::Create(job), DirEvent::Created(r)) => match r {
                Ok(_) => Dirs::Tighten(job),
                Err(f) => Dirs::Done(Err(f)),
            },
            (Dirs::Tighten(job), DirEvent::Tightened(r)) => match r {
                Ok(_) => secured(job),
                Err(f) => Dirs::Done(Err(f)),
            },
            (s, _) => s,
        }
    }
}

/// The environment variables that locate the store.
pub struct StoreEnv {
    pub xdg_data_home: Option<Vec<u8>>,
    pub home: Option<Vec<u8>>,
}

pub struct StoreEnvView {
    pub xdg_data_home: Option<Seq<u8>>,
    pub home: Option<Seq<u8>>,
}

/// An environment variable's value, over its bytes.
pub open spec fn env_view(v: Option<Vec<u8>>) -> Option<Seq<u8>> {
    match v {
        Some(b) => Some(b@),
        None => None,
    }
}

impl View for StoreEnv {
    type V = StoreEnvView;

    open spec fn view(&self) -> StoreEnvView {
        StoreEnvView { xdg_data_home: env_view(self.xdg_data_home), home: env_view(self.home) }
    }
}

/// The base directory: `$XDG_DATA_HOME/credchain` where that variable is set and
/// not empty, else `$HOME/.local/share/credchain`.
pub open spec fn base_path_of(env: StoreEnvView) -> Result<Seq<u8>, FailureView> {
    match env.xdg_data_home {
        Some(x) if x.len() > 0 => Ok(joined_text(x, "credchain"@)),
        _ => match env.home {
            Some(h) => Ok(
                joined_text(joined_text(joined_text(h, ".local"@), "share"@), "credchain"@),
            ),
            None => Err(
                FailureView {
                    kind: FailureKind::NotFound,
                    message: "HOME is not set and XDG_DATA_HOME unset"@,
                },
            ),
        },
    }
}

/// Where the store is.
pub fn base_path(env: &StoreEnv) -> (r: Result<Vec<u8>, Failure>)
    ensures
        crate::failure::bytes_view(r) == base_path_of(env@),
{
    match &env.xdg_data_home {
        Some(x) => {
            if x.len() > 0 {
                return Ok(join_text(x.as_slice(), "credchain"));
            }
        },
        None => {},
    }
    match &env.home {
        Some(h) => {
            let local = join_text(h.as_slice(), ".local");
            let share = join_text(local.as_slice(), "share");
            Ok(join_text(share.as_slice(), "credchain"))
        },
        None => Err(
            Failure {
                kind: FailureKind::NotFound,
                message: "HOME is not set and XDG_DATA_HOME unset".to_owned(),
            },
        ),
    }
}

/// The start of securing one directory.
pub open spec fn dir_start(purpose: DirPurpose, p: Seq<u8>) -> DirsView {
    DirsView::Stat(DirJobView { purpose, path: p, rest: Seq::empty(), answer: p })
}

/// The start of securing the base directory and then `dir`, to hand out `answer`.
pub open spec fn below_base(base: Seq<u8>, dir: Seq<u8>, answer: Seq<u8>) -> DirsView {
    DirsView::Stat(DirJobView { purpose: DirPurpose::Store, path: base, rest: seq![dir], answer })
}

/// Creates a directory or tightens it to 0700. Refuses a symlink at this path.
pub fn ensure_dir_secure(p: &[u8]) -> (r: Dirs)
    ensures
        r@ == dir_start(DirPurpose::Store, p@),
{
    let rest: Vec<Vec<u8>> = Vec::new();
    assert(paths_view(rest@) =~= Seq::<Seq<u8>>::empty());
    Dirs::Stat(
        DirJob { purpose: DirPurpose::Store, path: copy_bytes(p), rest, answer: copy_bytes(p) },
    )
}

/// Creates the directory of the decrypt locks or sets its mode to 0700. Refuses
/// a symlink at this path.
pub fn ensure_lock_dir(p: &[u8]) -> (r: Dirs)
    ensures
        r@ == dir_start(DirPurpose::Lock, p@),
{
    let rest: Vec<Vec<u8>> = Vec::new();
    assert(paths_view(rest@) =~= Seq::<Seq<u8>>::empty());
    Dirs::Stat(
        DirJob { purpose: DirPurpose::Lock, path: copy_bytes(p), rest, answer: copy_bytes(p) },
    )
}

/// Resolves and secures the base directory.
pub fn base_dir(env: &StoreEnv) -> (r: Dirs)
    ensures
        r@ == match base_path_of(env@) {
            Ok(base) => dir_start(DirPurpose::Store, base),
            Err(f) => DirsView::Done(Err(f)),
        },
{
    match base_path(env) {
        Ok(base) => ensure_dir_secure(base.as_slice()),
        Err(f) => Dirs::Done(Err(f)),
    }
}

fn start_below_base(base: Vec<u8>, dir: Vec<u8>, answer: Vec<u8>) -> (r: Dirs)
    ensures
        r@ == below_base(base@, dir@, answer@),
{
    let ghost d = dir@;
    let mut rest: Vec<Vec<u8>> = Vec::new();
    rest.push(dir);
    assert(paths_view(rest@) =~= seq![d]);
    Dirs::Stat(DirJob { purpose: DirPurpose::Store, path: base, rest, answer })
}

/// The start of finding the directory of a namespace.
pub open spec fn namespace_dir_of(env: StoreEnvView, ns: Seq<char>) -> DirsView {
    match base_path_of(env) {
        Ok(base) => below_base(base, joined_text(base, ns), joined_text(base, ns)),
        Err(f) => DirsView::Done(Err(f)),
    }
}

/// The ciphertext file of a variable: `<base>/<namespace>/<VAR>.cred`.
pub open spec fn cred_file_path(base: Seq<u8>, ns: Seq<char>, var: Seq<char>) -> Seq<u8> {
    joined_text(joined_text(base, ns), cred_file_of(var))
}

/// The start of finding the ciphertext file of a variable.
pub open spec fn cred_path_of(env: StoreEnvView, ns: Seq<char>, var: Seq<char>) -> DirsView {
    match base_path_of(env) {
        Ok(base) => below_base(base, joined_text(base, ns), cred_file_path(base, ns, var)),
        Err(f) => DirsView::Done(Err(f)),
    }
}

/// The directory for a namespace: `<base>/<namespace>`, both secured.
pub fn namespace_dir(env: &StoreEnv, ns: &Namespace) -> (r: Dirs)
    ensures
        r@ == namespace_dir_of(env@, ns@),
{
    match base_path(env) {
        Ok(base) => {
            let dir = join_text(base.as_slice(), ns.as_str());
            let answer = copy_bytes(dir.as_slice());
            start_below_base(base, dir, answer)
        },
        Err(f) => Dirs::Done(Err(f)),
    }
}

/// The path to a variable's ciphertext file, once its directories are secured.
pub fn cred_path(env: &StoreEnv, ns: &Namespace, var: &VarName) -> (r: Dirs)
    ensures
        r@ == cred_path_of(env@, ns@, var@),
{
    match base_path(env) {
        Ok(base) => {
            let dir = join_text(base.as_slice(), ns.as_str());
            let answer = join_text(dir.as_slice(), cred_file(var).as_str());
            start_below_base(base, dir, answer)
        },
        Err(f) => Dirs::Done(Err(f)),
    }
}

/// Whether a namespace directory exists, by what stands at its path.
pub open spec fn exists_of(stat: Result<FileStat, FailureView>) -> Result<bool, FailureView> {
    match stat {
        Ok(st) => Ok(st.kind == FileKind::Directory),
        Err(f) => if f.kind == FailureKind::NotFound {
            Ok(false)
        } else {
            Err(f)
        },
    }
}

/// Where the directory of `ns` is below the base directory.
pub fn namespace_path(base: &[u8], ns: &Namespace) -> (r: Vec<u8>)
    ensures
        r@ == joined_text(base@, ns@),
{
    join_text(base, ns.as_str())
}

/// Does a namespace directory exist? Decided by what stands at its path when a
/// symlink is not followed.
pub fn namespace_exists(stat: Result<FileStat, Failure>) -> (r: Result<bool, Failure>)
    ensures
        match r {
            Ok(b) => exists_of(stat_view(stat)) == Ok::<bool, FailureView>(b),
            Err(f) => exists_of(stat_view(stat)) == Err::<bool, FailureView>(f@),
        },
{
    match stat {
        Ok(st) => Ok(st.kind == FileKind::Directory),
        Err(f) => if f.kind == FailureKind::NotFound {
            Ok(false)
        } else {
            Err(f)
        },
    }
}

// ---- laws --------------------------------------------------------------------

/// The state after a sequence of events.
pub open spec fn dir_run(s: DirsView, events: Seq<DirEventView>) -> DirsView
    decreases events.len(),
{
    if events.len() == 0 {
        s
    } else {
        dir_run(dir_next(s, events[0]), events.drop_first())
    }
}

/// The path that the due operation works on.
pub open spec fn dir_at_hand(s: DirsView) -> Option<Seq<u8>> {
    match s {
        DirsView::Stat(job) => Some(job.path),
        DirsView::Create(job) => Some(job.path),
        DirsView::Tighten(job) => Some(job.path),
        DirsView::Done(_) => None,
    }
}

/// Some event shows `p` to be private: it was seen to be 0700 and no symlink, or
/// its mode was set to 0700.
pub open spec fn shown_private(s: DirsView, events: Seq<DirEventView>, p: Seq<u8>) -> bool
    decreases events.len(),
{
    events.len() > 0 && ({
        ||| dir_at_hand(s) == Some(p) && s is Stat && (events[0] matches DirEventView::Stat(Ok(st))
            && st.kind != FileKind::Symlink && private_mode(st.mode))
        ||| dir_at_hand(s) == Some(p) && s is Tighten && (events[0] matches DirEventView::Tightened(
            Ok(_),
        ))
        ||| shown_private(dir_next(s, events[0]), events.drop_first(), p)
    })
}

/// The directories that a state still has to secure.
pub open spec fn dirs_to_secure(s: DirsView) -> Seq<Seq<u8>> {
    match s {
        DirsView::Stat(job) => seq![job.path] + job.rest,
        DirsView::Create(job) => seq![job.path] + job.rest,
        DirsView::Tighten(job) => seq![job.path] + job.rest,
        DirsView::Done(_) => Seq::empty(),
    }
}

/// A path is handed out only when each directory on the way was shown to be
/// private.
pub proof fn handed_out_paths_are_private(s: DirsView, events: Seq<DirEventView>, p: Seq<u8>)
    requires
        dir_run(s, events) matches DirsView::Done(Ok(_)),
        dirs_to_secure(s).contains(p),
    ensures
        shown_private(s, events, p),
    decreases events.len(),
{
    if events.len() > 0 {
        let t = dir_next(s, events[0]);
        let due = dirs_to_secure(s);
        let i = choose|i: int| 0 <= i < due.len() && due[i] == p;
        if dirs_to_secure(t).contains(p) {
            handed_out_paths_are_private(t, events.drop_first(), p);
        } else {
            if t is Done {
                ends_stay(t, events.drop_first());
            }
            if i > 0 {
                let rest = dirs_to_secure(t);
                match s {
                    DirsView::Stat(job) => {
                        assert(rest[i] == p || rest[i - 1] == p);
                    },
                    DirsView::Create(job) => {
                        assert(rest[i] == p);
                    },
                    DirsView::Tighten(job) => {
                        assert(rest[i] == p || rest[i - 1] == p);
                    },
                    DirsView::Done(_) => {},
                }
            } else {
                assert(dir_at_hand(s) == Some(p));
                match s {
                    DirsView::Create(job) => {
                        assert(dirs_to_secure(t)[0] == p);
                    },
                    DirsView::Stat(job) => {
                        if t is Create || t is Tighten || t == s {
                            assert(dirs_to_secure(t)[0] == p);
                        }
                    },
                    _ => {
                        if t == s {
                            assert(dirs_to_secure(t)[0] == p);
                        }
                    },
                }
            }
        }
    }
}

/// A finished state stays as it is.
pub(crate) proof fn ends_stay(s: DirsView, events: Seq<DirEventView>)
    requires
        s is Done,
    ensures
        dir_run(s, events) == s,
    decreases events.len(),
{
    if events.len() > 0 {
        ends_stay(s, events.drop_first());
    }
}

/// A symlinked directory is refused at once, whatever it is for.
pub proof fn symlinked_directories_are_refused(
    job: DirJobView,
    mode: u32,
    later: Seq<DirEventView>,
)
    ensures
        dir_run(
            DirsView::Stat(job),
            seq![DirEventView::Stat(Ok(FileStat { kind: FileKind::Symlink, mode }))] + later,
        ) == DirsView::Done(Err(symlink_refusal(job.purpose))),
{
    let event = DirEventView::Stat(Ok(FileStat { kind: FileKind::Symlink, mode }));
    assert((seq![event] + later).drop_first() =~= later);
    ends_stay(dir_next(DirsView::Stat(job), event), later);
}

/// The path that is handed out is the one that was to be found.
pub(crate) proof fn answers_stay(s: DirsView, events: Seq<DirEventView>, answer: Seq<u8>)
    requires
        match s {
            DirsView::Stat(job) => job.answer == answer,
            DirsView::Create(job) => job.answer == answer,
            DirsView::Tighten(job) => job.answer == answer,
            DirsView::Done(Ok(p)) => p == answer,
            DirsView::Done(Err(_)) => true,
        },
    ensures
        dir_run(s, events) matches DirsView::Done(Ok(p)) ==> p == answer,
    decreases events.len(),
{
    if events.len() > 0 {
        answers_stay(dir_next(s, events[0]), events.drop_first(), answer);
    }
}

/// The ciphertext file of a variable lies in the directory of its namespace,
/// under the file name of the variable, however the two were found.
pub proof fn files_lie_in_their_namespace(
    env: StoreEnvView,
    ns: Seq<char>,
    var: Seq<char>,
    a: Seq<DirEventView>,
    b: Seq<DirEventView>,
)
    ensures
        match (dir_run(namespace_dir_of(env, ns), a), dir_run(cred_path_of(env, ns, var), b)) {
            (DirsView::Done(Ok(dir)), DirsView::Done(Ok(path))) => path == joined_text(
                dir,
                cred_file_of(var),
            ),
            _ => true,
        },
{
    match base_path_of(env) {
        Ok(base) => {
            answers_stay(namespace_dir_of(env, ns), a, joined_text(base, ns));
            answers_stay(cred_path_of(env, ns, var), b, cred_file_path(base, ns, var));
        },
        Err(f) => {
            ends_stay(namespace_dir_of(env, ns), a);
        },
    }
}

/// A directory is left as it is only if it is open to its owner, and to nobody else,
/// and no symlink; any other is tightened, a missing one created first. Behind the
/// last directory stands the path that was to be found. A failure is the outcome,
/// as it is.
pub proof fn directories_are_made_private(job: DirJobView, st: FileStat, f: FailureView)
    ensures
        ({
            let stat = DirsView::Stat(job);
            let looked = dir_next(stat, DirEventView::Stat(Ok(st)));
            let missing = dir_next(stat, DirEventView::Stat(Err(f)));
            let onward = dir_next(DirsView::Tighten(job), DirEventView::Tightened(Ok(())));
            let private = st.mode & 0o777 == 0o700;
            &&& private_mode(st.mode) <==> private
            &&& private ==> st.mode & 0o077 == 0 && st.mode & 0o700 == 0o700
            &&& st.kind == FileKind::Symlink ==> (looked matches DirsView::Done(Err(e)) && e.kind
                == FailureKind::InvalidInput)
            &&& st.kind != FileKind::Symlink && job.purpose == DirPurpose::Store && private
                ==> looked == onward
            &&& st.kind != FileKind::Symlink && !(job.purpose == DirPurpose::Store && private)
                ==> looked == DirsView::Tighten(job)
            &&& f.kind == FailureKind::NotFound ==> missing == DirsView::Create(job)
            &&& f.kind != FailureKind::NotFound ==> missing == DirsView::Done(Err(f))
            &&& dir_next(DirsView::Create(job), DirEventView::Created(Ok(())))
                == DirsView::Tighten(job)
            &&& dir_next(DirsView::Create(job), DirEventView::Created(Err(f))) == DirsView::Done(
                Err(f),
            )
            &&& dir_next(DirsView::Tighten(job), DirEventView::Tightened(Err(f)))
                == DirsView::Done(Err(f))
            &&& job.rest.len() == 0 ==> onward == DirsView::Done(Ok(job.answer))
            &&& job.rest.len() > 0 ==> onward == DirsView::Stat(
                DirJobView {
                    purpose: job.purpose,
                    path: job.rest[0],
                    rest: job.rest.drop_first(),
                    answer: job.answer,
                },
            )
        }),
{
    let mode = st.mode;
    assert(mode & 0o777 == 0o700 ==> mode & 0o077 == 0 && mode & 0o700 == 0o700) by (bit_vector);
}

/// One directory is secured at its own path and handed out by it; below the base
/// directory the base comes first.
pub proof fn directories_are_secured_in_turn(
    purpose: DirPurpose,
    p: Seq<u8>,
    base: Seq<u8>,
    dir: Seq<u8>,
    answer: Seq<u8>,
)
    ensures
        dirs_to_secure(dir_start(purpose, p)) == seq![p],
        dir_start(purpose, p) matches DirsView::Stat(job) && job.purpose == purpose && job.answer
            == p,
        dirs_to_secure(below_base(base, dir, answer)) == seq![base, dir],
        below_base(base, dir, answer) matches DirsView::Stat(job) && job.purpose
            == DirPurpose::Store && job.answer == answer,
{
    assert(seq![p] + Seq::<Seq<u8>>::empty() =~= seq![p]);
    assert(seq![base] + seq![dir] =~= seq![base, dir]);
}

/// A namespace exists exactly if a directory, and no symlink to one, stands at its
/// path; that nothing stands there is no failure, and any other failure is told.
pub proof fn namespaces_are_directories(st: FileStat, f: FailureView)
    ensures
        exists_of(Ok(st)) == Ok::<bool, FailureView>(st.kind == FileKind::Directory),
        f.kind == FailureKind::NotFound ==> exists_of(Err(f)) == Ok::<bool, FailureView>(false),
        f.kind != FailureKind::NotFound ==> exists_of(Err(f)) == Err::<bool, FailureView>(f),
{
}

/// The directory of a namespace, or the file of a variable in it, is handed out only
/// when both the base directory and the directory of the namespace were shown to be
/// private.
pub proof fn the_way_to_a_namespace_is_private(
    env: StoreEnvView,
    ns: Seq<char>,
    var: Seq<char>,
    base: Seq<u8>,
    events: Seq<DirEventView>,
)
    requires
        base_path_of(env) == Ok::<Seq<u8>, FailureView>(base),
    ensures
        dir_run(namespace_dir_of(env, ns), events) matches DirsView::Done(Ok(p)) ==> {
            &&& p == joined_text(base, ns)
            &&& shown_private(namespace_dir_of(env, ns), events, base)
            &&& shown_private(namespace_dir_of(env, ns), events, p)
        },
        dir_run(cred_path_of(env, ns, var), events) matches DirsView::Done(Ok(p)) ==> {
            &&& p == joined_text(joined_text(base, ns), var + ".cred"@)
            &&& shown_private(cred_path_of(env, ns, var), events, base)
            &&& shown_private(cred_path_of(env, ns, var), events, joined_text(base, ns))
        },
{
    let dir = joined_text(base, ns);
    let s = namespace_dir_of(env, ns);
    let t = cred_path_of(env, ns, var);
    answers_stay(s, events, dir);
    answers_stay(t, events, joined_text(dir, var + ".cred"@));
    assert(dirs_to_secure(s)[0] == base && dirs_to_secure(s)[1] == dir);
    assert(dirs_to_secure(t)[0] == base && dirs_to_secure(t)[1] == dir);
    if dir_run(s, events) matches DirsView::Done(Ok(_)) {
        handed_out_paths_are_private(s, events, base);
        handed_out_paths_are_private(s, events, dir);
    }
    if dir_run(t, events) matches DirsView::Done(Ok(_)) {
        handed_out_paths_are_private(t, events, base);
        handed_out_paths_are_private(t, events, dir);
    }
}

/// Without a place for the store nothing is found, and the variables that are missing
/// are told. A symlink is refused by the name of what it stands for.
pub proof fn refused_places_are_told(env: StoreEnvView, ns: Seq<char>, var: Seq<char>)
    ensures
        env.home is None && (env.xdg_data_home is None || env.xdg_data_home->0.len() == 0) ==> {
            &&& base_path_of(env) matches Err(f) && f.kind == FailureKind::NotFound && occurs(
                "HOME is not set"@,
                f.message,
            ) && occurs("XDG_DATA_HOME unset"@, f.message)
            &&& namespace_dir_of(env, ns) matches DirsView::Done(Err(_))
            &&& cred_path_of(env, ns, var) matches DirsView::Done(Err(_))
        },
        occurs("symlinked store directory"@, symlink_refusal(DirPurpose::Store).message),
        occurs("symlinked decrypt lock directory"@, symlink_refusal(DirPurpose::Lock).message),
{
    reveal_strlit("HOME is not set and XDG_DATA_HOME unset");
    reveal_strlit("HOME is not set");
    reveal_strlit("XDG_DATA_HOME unset");
    reveal_strlit("refusing to use a symlinked store directory");
    reveal_strlit("symlinked store directory");
    reveal_strlit("refusing symlinked decrypt lock directory");
    reveal_strlit("symlinked decrypt lock directory");
    let m = "HOME is not set and XDG_DATA_HOME unset"@;
    assert(m.subrange(0, 15) =~= "HOME is not set"@);
    assert(occurs_at("HOME is not set"@, m, 0));
    assert(m.subrange(20, 39) =~= "XDG_DATA_HOME unset"@);
    assert(occurs_at("XDG_DATA_HOME unset"@, m, 20));
    let s = "refusing to use a symlinked store directory"@;
    assert(s.subrange(18, 43) =~= "symlinked store directory"@);
    assert(occurs_at("symlinked store directory"@, s, 18));
    let l = "refusing symlinked decrypt lock directory"@;
    assert(l.subrange(9, 41) =~= "symlinked decrypt lock directory"@);
    assert(occurs_at("symlinked decrypt lock directory"@, l, 9));
}

} // verus!
