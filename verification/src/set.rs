//! `--set`: prompt for values, encrypt them, and install the ciphertext files.
//!
//! Every value is collected before the first is encrypted, and every one is
//! encrypted before the first file goes live.

use vstd::prelude::*;

use crate::creds::{message, CredError};
use crate::encrypt::{done_view, EncryptJob, EncryptJobView};
use crate::exec::has_nul;
use crate::failure::{bytes_view, outcome_view, Failure, FailureView};
use crate::input::{typed_view, PromptResult, PromptResultView};
use crate::install::{InstallJob, InstallJobView};
use crate::path::{copy_bytes, join_text, joined_text, paths_view};
use crate::report::{
    complaint, complaint_of, success, success_of, usage, usage_of, Report, ReportView,
};
use crate::store::{
    cred_file, cred_file_of, cred_name, cred_name_of, namespace_complaint, staging_name_of,
    staging_path, valid_namespace, valid_var, var_complaint, Namespace, VarName,
};
use crate::text::{same_text, texts_from};

verus! {

// ---- values and jobs -------------------------------------------------------------

/// A variable and its plaintext value.
pub struct Value {
    pub var: VarName,
    pub plaintext: Vec<u8>,
}

pub struct ValueView {
    pub var: Seq<char>,
    pub plaintext: Seq<u8>,
}

impl View for Value {
    type V = ValueView;

    open spec fn view(&self) -> ValueView {
        ValueView { var: self.var@, plaintext: self.plaintext@ }
    }
}

/// Values, over what they say.
pub open spec fn values_view(values: Seq<Value>) -> Seq<ValueView> {
    values.map_values(|v: Value| v@)
}

/// Installations, over what they say.
pub open spec fn jobs_view(jobs: Seq<InstallJob>) -> Seq<InstallJobView> {
    jobs.map_values(|j: InstallJob| j@)
}

/// The staging files of some installations.
pub open spec fn stagings(jobs: Seq<InstallJobView>) -> Seq<Seq<u8>> {
    jobs.map_values(|j: InstallJobView| j.staging)
}

/// Where the files of a run go: the namespace, its directory, and the number of
/// this process.
pub struct Place {
    pub ns: Namespace,
    pub dir: Vec<u8>,
    pub pid: u32,
}

pub struct PlaceView {
    pub ns: Seq<char>,
    pub dir: Seq<u8>,
    pub pid: u32,
}

impl View for Place {
    type V = PlaceView;

    open spec fn view(&self) -> PlaceView {
        PlaceView { ns: self.ns@, dir: self.dir@, pid: self.pid }
    }
}

/// The encryption of the `n`th value of a run, to a staging file of its own.
pub open spec fn encryption_of(place: PlaceView, value: ValueView, n: nat) -> EncryptJobView {
    EncryptJobView {
        cred_name: cred_name_of(place.ns, value.var),
        plaintext: value.plaintext,
        out_path: joined_text(place.dir, staging_name_of(value.var, place.pid as nat, n)),
    }
}

/// The installation of a staging file as the ciphertext file of `var`.
pub open spec fn installation_of(
    place: PlaceView,
    var: Seq<char>,
    staging: Seq<u8>,
) -> InstallJobView {
    InstallJobView { staging, target: joined_text(place.dir, cred_file_of(var)) }
}

// ---- states ------------------------------------------------------------------------

/// The state of a run, named after what is due.
#[allow(inconsistent_fields)]
pub enum SetRun {
    /// Prompt for the value of `var`; `rest` follow.
    Prompt {
        ns: Namespace,
        pid: u32,
        noecho: bool,
        prompt: String,
        var: VarName,
        rest: Vec<VarName>,
        collected: Vec<Value>,
    },
    /// Find the directory of the namespace, securing it.
    Dir { ns: Namespace, pid: u32, collected: Vec<Value> },
    /// Encrypt the value of `var`; `rest` follow.
    Encrypt {
        place: Place,
        var: VarName,
        job: EncryptJob,
        rest: Vec<Value>,
        staged: Vec<InstallJob>,
    },
    /// Install a staging file; `rest` follow.
    Install { installed: Vec<InstallJob>, job: InstallJob, rest: Vec<InstallJob> },
    /// Remove the files `discard`, as far as they are there, and report.
    Done { report: Report, discard: Vec<Vec<u8>> },
}

#[allow(inconsistent_fields)]
pub enum SetRunView {
    Prompt {
        ns: Seq<char>,
        pid: u32,
        noecho: bool,
        prompt: Seq<char>,
        var: Seq<char>,
        rest: Seq<Seq<char>>,
        collected: Seq<ValueView>,
    },
    Dir { ns: Seq<char>, pid: u32, collected: Seq<ValueView> },
    Encrypt {
        place: PlaceView,
        var: Seq<char>,
        job: EncryptJobView,
        rest: Seq<ValueView>,
        staged: Seq<InstallJobView>,
    },
    Install { installed: Seq<InstallJobView>, job: InstallJobView, rest: Seq<InstallJobView> },
    Done { report: ReportView, discard: Seq<Seq<u8>> },
}

impl View for SetRun {
    type V = SetRunView;

    open spec fn view(&self) -> SetRunView {
        match *self {
            SetRun::Prompt { ns, pid, noecho, prompt, var, rest, collected } => SetRunView::Prompt {
                ns: ns@,
                pid,
                noecho,
                prompt: prompt@,
                var: var@,
                rest: rest.deep_view(),
                collected: values_view(collected@),
            },
            SetRun::Dir { ns, pid, collected } => SetRunView::Dir {
                ns: ns@,
                pid,
                collected: values_view(collected@),
            },
            SetRun::Encrypt { place, var, job, rest, staged } => SetRunView::Encrypt {
                place: place@,
                var: var@,
                job: job@,
                rest: values_view(rest@),
                staged: jobs_view(staged@),
            },
            SetRun::Install { installed, job, rest } => SetRunView::Install {
                installed: jobs_view(installed@),
                job: job@,
                rest: jobs_view(rest@),
            },
            SetRun::Done { report, discard } => SetRunView::Done {
                report: report@,
                discard: paths_view(discard@),
            },
        }
    }
}

/// The outcome of what was due in a run.
pub enum SetEvent {
    Typed(Result<PromptResult, Failure>),
    Dir(Result<Vec<u8>, Failure>),
    Encrypted(Result<(), CredError>),
    Installed(Result<(), Failure>),
}

pub enum SetEventView {
    Typed(Result<PromptResultView, FailureView>),
    Dir(Result<Seq<u8>, FailureView>),
    Encrypted(Result<(), Seq<char>>),
    Installed(Result<(), FailureView>),
}

impl View for SetEvent {
    type V = SetEventView;

    open spec fn view(&self) -> SetEventView {
        match *self {
            SetEvent::Typed(r) => SetEventView::Typed(typed_view(r)),
            SetEvent::Dir(r) => SetEventView::Dir(bytes_view(r)),
            SetEvent::Encrypted(r) => SetEventView::Encrypted(done_view(r)),
            SetEvent::Installed(r) => SetEventView::Installed(outcome_view(r)),
        }
    }
}

// ---- transitions -------------------------------------------------------------------

/// An end at which no file is left to remove.
pub open spec fn set_done(report: ReportView) -> SetRunView {
    SetRunView::Done { report, discard: Seq::empty() }
}

/// On to the next prompt, or, when there is none, to the directory.
pub open spec fn to_prompts(
    ns: Seq<char>,
    pid: u32,
    noecho: bool,
    vars: Seq<Seq<char>>,
    collected: Seq<ValueView>,
) -> SetRunView {
    if vars.len() > 0 {
        SetRunView::Prompt {
            ns,
            pid,
            noecho,
            prompt: ns + "."@ + vars[0],
            var: vars[0],
            rest: vars.drop_first(),
            collected,
        }
    } else {
        SetRunView::Dir { ns, pid, collected }
    }
}

/// On to the next installation, or, when there is none, to success.
pub open spec fn to_installs(
    installed: Seq<InstallJobView>,
    jobs: Seq<InstallJobView>,
) -> SetRunView {
    if jobs.len() > 0 {
        SetRunView::Install { installed, job: jobs[0], rest: jobs.drop_first() }
    } else {
        set_done(success_of(Seq::empty()))
    }
}

/// On to the next encryption, or, when there is none, to the installations.
pub open spec fn to_encryptions(
    place: PlaceView,
    values: Seq<ValueView>,
    staged: Seq<InstallJobView>,
) -> SetRunView {
    if values.len() > 0 {
        SetRunView::Encrypt {
            place,
            var: values[0].var,
            job: encryption_of(place, values[0], staged.len()),
            rest: values.drop_first(),
            staged,
        }
    } else {
        to_installs(Seq::empty(), staged)
    }
}

/// The state after `event`. Whatever fails ends the run, with every staging file
/// that it may have left marked for removal.
pub open spec fn set_next(s: SetRunView, event: SetEventView) -> SetRunView {
    match (s, event) {
        (
            SetRunView::Prompt { ns, pid, noecho, prompt, var, rest, collected },
            SetEventView::Typed(r),
        ) => match r {
            Ok(typed) => if typed.eof {
                set_done(complaint_of(1, "aborting --set: no value provided (EOF) for "@ + var))
            } else if typed.value.contains(0) {
                set_done(
                    complaint_of(
                        1,
                        "value for "@ + var
                            + " contains a NUL byte; environment variables cannot contain NUL"@,
                    ),
                )
            } else {
                to_prompts(
                    ns,
                    pid,
                    noecho,
                    rest,
                    collected.push(ValueView { var, plaintext: typed.value }),
                )
            },
            Err(f) => set_done(
                complaint_of(1, "failed to read value for "@ + var + ": "@ + f.message),
            ),
        },
        (SetRunView::Dir { ns, pid, collected }, SetEventView::Dir(r)) => match r {
            Ok(dir) => to_encryptions(PlaceView { ns, dir, pid }, collected, Seq::empty()),
            Err(f) => set_done(
                complaint_of(1, "failed to prepare namespace directory: "@ + f.message),
            ),
        },
        (SetRunView::Encrypt { place, var, job, rest, staged }, SetEventView::Encrypted(r)) => match r {
            Ok(_) => to_encryptions(
                place,
                rest,
                staged.push(installation_of(place, var, job.out_path)),
            ),
            Err(e) => SetRunView::Done {
                report: complaint_of(1, e),
                discard: stagings(staged).push(job.out_path),
            },
        },
        (SetRunView::Install { installed, job, rest }, SetEventView::Installed(r)) => match r {
            Ok(_) => to_installs(installed.push(job), rest),
            Err(f) => SetRunView::Done {
                report: complaint_of(1, "failed to install credential: "@ + f.message),
                discard: stagings(installed.push(job) + rest),
            },
        },
        _ => s,
    }
}

// ---- arguments ---------------------------------------------------------------------

pub open spec fn is_noecho(arg: Seq<char>) -> bool {
    arg == "-n"@ || arg == "--noecho"@
}

pub open spec fn is_require(arg: Seq<char>) -> bool {
    arg == "-p"@ || arg == "--require-passphrase"@
}

pub open spec fn is_no_require(arg: Seq<char>) -> bool {
    arg == "-P"@ || arg == "--no-require-passphrase"@
}

/// An option of `--set`.
pub open spec fn is_set_option(arg: Seq<char>) -> bool {
    is_noecho(arg) || is_require(arg) || is_no_require(arg) || arg == "--backend=systemd"@
}

/// How many options stand at the front.
pub open spec fn options_in_front(args: Seq<Seq<char>>) -> nat
    decreases args.len(),
{
    if args.len() > 0 && is_set_option(args[0]) {
        1 + options_in_front(args.drop_first())
    } else {
        0
    }
}

/// Whether some option asks for no echo.
pub open spec fn wants_noecho(options: Seq<Seq<char>>) -> bool {
    exists|i: int| 0 <= i < options.len() && is_noecho(#[trigger] options[i])
}

/// Whether the last option on passphrases requires one.
pub open spec fn wants_passphrase(options: Seq<Seq<char>>) -> bool
    decreases options.len(),
{
    if options.len() == 0 {
        false
    } else if is_require(options.last()) {
        true
    } else if is_no_require(options.last()) {
        false
    } else {
        wants_passphrase(options.drop_last())
    }
}

/// The first name that is not a variable name.
pub open spec fn first_invalid(names: Seq<Seq<char>>) -> Option<Seq<char>>
    decreases names.len(),
{
    if names.len() == 0 {
        None
    } else if !valid_var(names[0]) {
        Some(names[0])
    } else {
        first_invalid(names.drop_first())
    }
}

/// The start of a run.
pub open spec fn set_start(args: Seq<Seq<char>>, pid: u32) -> SetRunView {
    let n = options_in_front(args) as int;
    let options = args.take(n);
    let rest = args.skip(n);
    if wants_passphrase(options) {
        set_done(
            complaint_of(
                1,
                "--require-passphrase is unsupported by the systemd backend; systemd-creds has no per-item passphrase. Use --no-require-passphrase (the default) instead."@,
            ),
        )
    } else if rest.len() == 0 {
        set_done(usage_of("--set requires a namespace and at least one variable"@))
    } else if rest.len() == 1 {
        set_done(complaint_of(2, "--set requires at least one variable name"@))
    } else if !valid_namespace(rest[0]) {
        set_done(complaint_of(1, "invalid namespace: "@ + namespace_complaint(rest[0])))
    } else {
        match first_invalid(rest.drop_first()) {
            Some(name) => set_done(
                complaint_of(
                    1,
                    "invalid variable name '"@ + name + "': "@ + var_complaint(name),
                ),
            ),
            None => to_prompts(
                rest[0],
                pid,
                wants_noecho(options),
                rest.drop_first(),
                Seq::empty(),
            ),
        }
    }
}

/// What the options of `--set` ask for, and how many there are.
struct SetOptions {
    noecho: bool,
    passphrase: bool,
    count: usize,
}

fn read_options(args: &[String]) -> (r: SetOptions)
    ensures
        r.count == options_in_front(args.deep_view()),
        r.count <= args@.len(),
        r.noecho == wants_noecho(args.deep_view().take(r.count as int)),
        r.passphrase == wants_passphrase(args.deep_view().take(r.count as int)),
{
    let ghost all = args.deep_view();
    let mut noecho = false;
    let mut passphrase = false;
    let mut i: usize = 0;
    assert(all.skip(0) =~= all);
    while i < args.len()
        invariant
            i <= args@.len(),
            all == args.deep_view(),
            options_in_front(all) == i + options_in_front(all.skip(i as int)),
            noecho == wants_noecho(all.take(i as int)),
            passphrase == wants_passphrase(all.take(i as int)),
        decreases args@.len() - i,
    {
        let a = args[i].as_str();
        let is_n = same_text(a, "-n") || same_text(a, "--noecho");
        let is_p = same_text(a, "-p") || same_text(a, "--require-passphrase");
        let is_no_p = same_text(a, "-P") || same_text(a, "--no-require-passphrase");
        assert(a@ == all.skip(i as int)[0]);
        if !is_n && !is_p && !is_no_p && !same_text(a, "--backend=systemd") {
            return SetOptions { noecho, passphrase, count: i };
        }
        proof {
            let seen = all.take(i as int);
            let now = all.take(i + 1);
            assert(all.skip(i as int).drop_first() =~= all.skip(i + 1));
            assert(now.drop_last() =~= seen);
            assert(now.last() == a@);
            options_are_apart(a@);
            if noecho {
                let j = choose|j: int| 0 <= j < seen.len() && is_noecho(#[trigger] seen[j]);
                assert(now[j] == seen[j]);
            } else if is_n {
                assert(is_noecho(now[i as int]));
            } else {
                assert forall|j: int| 0 <= j < now.len() implies !is_noecho(#[trigger] now[j]) by {
                    if j < i {
                        assert(now[j] == seen[j]);
                    }
                }
            }
        }
        if is_n {
            noecho = true;
        } else if is_p {
            passphrase = true;
        } else if is_no_p {
            passphrase = false;
        }
        i = i + 1;
    }
    assert(all.skip(i as int) =~= Seq::<Seq<char>>::empty());
    SetOptions { noecho, passphrase, count: i }
}

/// No option is of two kinds.
proof fn options_are_apart(arg: Seq<char>)
    ensures
        !(is_noecho(arg) && is_require(arg)),
        !(is_noecho(arg) && is_no_require(arg)),
{
    reveal_strlit("-n");
    reveal_strlit("-p");
    reveal_strlit("-P");
    reveal_strlit("--noecho");
    reveal_strlit("--require-passphrase");
    reveal_strlit("--no-require-passphrase");
    assert("-n"@.len() == 2 && "-p"@.len() == 2 && "-P"@.len() == 2);
    assert("-n"@[1] == 'n' && "-p"@[1] == 'p' && "-P"@[1] == 'P');
    assert("--noecho"@.len() == 8);
    assert("--require-passphrase"@.len() == 20);
    assert("--no-require-passphrase"@.len() == 23);
}

/// All of `names` as variable names, or the complaint about the first that is none.
fn parse_vars(names: &Vec<String>) -> (r: Result<Vec<VarName>, Report>)
    ensures
        match (first_invalid(names.deep_view()), r) {
            (None, Ok(vars)) => vars.deep_view() == names.deep_view(),
            (Some(name), Err(e)) => e@ == complaint_of(
                1,
                "invalid variable name '"@ + name + "': "@ + var_complaint(name),
            ),
            _ => false,
        },
{
    let ghost all = names.deep_view();
    let mut vars: Vec<VarName> = Vec::new();
    let mut i: usize = 0;
    assert(all.skip(0) =~= all);
    while i < names.len()
        invariant
            i <= names@.len(),
            all == names.deep_view(),
            first_invalid(all) == first_invalid(all.skip(i as int)),
            vars@.len() == i,
            forall|j: int| 0 <= j < i ==> (#[trigger] vars@[j])@ == all[j],
        decreases names@.len() - i,
    {
        let name = names[i].as_str();
        assert(name@ == all.skip(i as int)[0]);
        match VarName::parse(name) {
            Ok(var) => {
                vars.push(var);
            },
            Err(e) => {
                let mut text = message("invalid variable name '", name);
                text.append("': ");
                text.append(e.as_str());
                return Err(complaint(1, text.as_str()));
            },
        }
        assert(all.skip(i as int).drop_first() =~= all.skip(i + 1));
        i = i + 1;
    }
    assert(all.skip(i as int) =~= Seq::<Seq<char>>::empty());
    assert(vars.deep_view() =~= all);
    Ok(vars)
}

fn ended(report: Report) -> (r: SetRun)
    ensures
        r@ == set_done(report@),
{
    let discard: Vec<Vec<u8>> = Vec::new();
    assert(paths_view(discard@) =~= Seq::<Seq<u8>>::empty());
    SetRun::Done { report, discard }
}

fn go_to_prompts(
    ns: Namespace,
    pid: u32,
    noecho: bool,
    vars: Vec<VarName>,
    collected: Vec<Value>,
) -> (r: SetRun)
    ensures
        r@ == to_prompts(ns@, pid, noecho, vars.deep_view(), values_view(collected@)),
{
    if vars.len() > 0 {
        let ghost before = vars.deep_view();
        let mut rest = vars;
        let var = rest.remove(0);
        assert(rest.deep_view() =~= before.drop_first());
        let mut prompt = message(ns.as_str(), ".");
        prompt.append(var.as_str());
        SetRun::Prompt { ns, pid, noecho, prompt, var, rest, collected }
    } else {
        SetRun::Dir { ns, pid, collected }
    }
}

fn go_to_installs(installed: Vec<InstallJob>, jobs: Vec<InstallJob>) -> (r: SetRun)
    ensures
        r@ == to_installs(jobs_view(installed@), jobs_view(jobs@)),
{
    if jobs.len() > 0 {
        let ghost before = jobs_view(jobs@);
        let mut rest = jobs;
        let job = rest.remove(0);
        assert(jobs_view(rest@) =~= before.drop_first());
        SetRun::Install { installed, job, rest }
    } else {
        ended(success(String::new()))
    }
}

fn go_to_encryptions(place: Place, values: Vec<Value>, staged: Vec<InstallJob>) -> (r: SetRun)
    ensures
        r@ == to_encryptions(place@, values_view(values@), jobs_view(staged@)),
{
    if values.len() > 0 {
        let ghost before = values_view(values@);
        let mut rest = values;
        let Value { var, plaintext } = rest.remove(0);
        assert(values_view(rest@) =~= before.drop_first());
        let n: u64 = staged.len() as u64;
        let out_path = staging_path(place.dir.as_slice(), &var, place.pid, n);
        let cred_name = cred_name(&place.ns, &var);
        SetRun::Encrypt {
            place,
            var,
            job: EncryptJob { cred_name, plaintext, out_path },
            rest,
            staged,
        }
    } else {
        let installed: Vec<InstallJob> = Vec::new();
        assert(jobs_view(installed@) =~= Seq::<InstallJobView>::empty());
        go_to_installs(installed, staged)
    }
}

fn staging_files(jobs: &Vec<InstallJob>) -> (r: Vec<Vec<u8>>)
    ensures
        paths_view(r@) == stagings(jobs_view(jobs@)),
{
    let mut out: Vec<Vec<u8>> = Vec::new();
    let mut i: usize = 0;
    while i < jobs.len()
        invariant
            i <= jobs@.len(),
            out@.len() == i,
            forall|j: int| 0 <= j < i ==> (#[trigger] out@[j])@ == jobs@[j].staging@,
        decreases jobs@.len() - i,
    {
        out.push(copy_bytes(jobs[i].staging.as_slice()));
        i = i + 1;
    }
    assert(paths_view(out@) =~= stagings(jobs_view(jobs@)));
    out
}

/// Starts `--set` with the arguments behind it, in the process `pid`.
pub fn cmd_set(args: &[String], pid: u32) -> (r: SetRun)
    ensures
        r@ == set_start(args.deep_view(), pid),
{
    let options = read_options(args);
    if options.passphrase {
        return ended(
            complaint(
                1,
                "--require-passphrase is unsupported by the systemd backend; systemd-creds has no per-item passphrase. Use --no-require-passphrase (the default) instead.",
            ),
        );
    }
    let count: usize = options.count;
    if args.len() == count {
        return ended(usage("--set requires a namespace and at least one variable"));
    }
    if args.len() - count == 1 {
        return ended(complaint(2, "--set requires at least one variable name"));
    }
    let ghost rest = args.deep_view().skip(count as int);
    let ns = match Namespace::parse(args[count].as_str()) {
        Ok(ns) => ns,
        Err(e) => {
            let text = message("invalid namespace: ", e.as_str());
            return ended(complaint(1, text.as_str()));
        },
    };
    let names = texts_from(args, count + 1);
    assert(rest.drop_first() =~= args.deep_view().skip(count + 1));
    match parse_vars(&names) {
        Ok(vars) => {
            let collected: Vec<Value> = Vec::new();
            assert(values_view(collected@) =~= Seq::<ValueView>::empty());
            go_to_prompts(ns, pid, options.noecho, vars, collected)
        },
        Err(report) => ended(report),
    }
}

impl SetRun {
    /// The state after `event`.
    pub fn step(self, event: SetEvent) -> (r: SetRun)
        ensures
            r@ == set_next(self@, event@),
    {
        match (self, event) {
            (
                SetRun::Prompt { ns, pid, noecho, prompt: _, var, rest, collected },
                SetEvent::Typed(r),
            ) => match r {
                Ok(typed) => if typed.eof {
                    let text = message(
                        "aborting --set: no value provided (EOF) for ",
                        var.as_str(),
                    );
                    ended(complaint(1, text.as_str()))
                } else if has_nul(typed.value.as_slice()) {
                    let mut text = message("value for ", var.as_str());
                    text.append(" contains a NUL byte; environment variables cannot contain NUL");
                    ended(complaint(1, text.as_str()))
                } else {
                    let ghost value = ValueView { var: var@, plaintext: typed.value@ };
                    let ghost before = values_view(collected@);
                    let mut collected = collected;
                    collected.push(Value { var, plaintext: typed.value });
                    assert(values_view(collected@) =~= before.push(value));
                    go_to_prompts(ns, pid, noecho, rest, collected)
                },
                Err(f) => {
                    let mut text = message("failed to read value for ", var.as_str());
                    text.append(": ");
                    text.append(f.message.as_str());
                    ended(complaint(1, text.as_str()))
                },
            },
            (SetRun::Dir { ns, pid, collected }, SetEvent::Dir(r)) => match r {
                Ok(dir) => {
                    let staged: Vec<InstallJob> = Vec::new();
                    assert(jobs_view(staged@) =~= Seq::<InstallJobView>::empty());
                    go_to_encryptions(Place { ns, dir, pid }, collected, staged)
                },
                Err(f) => {
                    let text = message(
                        "failed to prepare namespace directory: ",
                        f.message.as_str(),
                    );
                    ended(complaint(1, text.as_str()))
                },
            },
            (
                SetRun::Encrypt { place, var, job, rest, staged },
                SetEvent::Encrypted(r),
            ) => match r {
                Ok(_) => {
                    let ghost before = jobs_view(staged@);
                    let target = join_text(place.dir.as_slice(), cred_file(&var).as_str());
                    let mut staged = staged;
                    staged.push(InstallJob { staging: job.out_path, target });
                    assert(jobs_view(staged@) =~= before.push(
                        installation_of(place@, var@, job.out_path@),
                    ));
                    go_to_encryptions(place, rest, staged)
                },
                Err(e) => {
                    let mut discard = staging_files(&staged);
                    let ghost before = paths_view(discard@);
                    discard.push(job.out_path);
                    assert(paths_view(discard@) =~= before.push(job.out_path@));
                    SetRun::Done { report: complaint(1, e.0.as_str()), discard }
                },
            },
            (SetRun::Install { installed, job, rest }, SetEvent::Installed(r)) => match r {
                Ok(_) => {
                    let ghost before = jobs_view(installed@);
                    let mut installed = installed;
                    installed.push(job);
                    assert(jobs_view(installed@) =~= before.push(job@));
                    go_to_installs(installed, rest)
                },
                Err(f) => {
                    let ghost jobs = jobs_view(installed@).push(job@) + jobs_view(rest@);
                    let mut all = installed;
                    let mut rest = rest;
                    all.push(job);
                    all.append(&mut rest);
                    assert(jobs_view(all@) =~= jobs);
                    let text = message("failed to install credential: ", f.message.as_str());
                    SetRun::Done {
                        report: complaint(1, text.as_str()),
                        discard: staging_files(&all),
                    }
                },
            },
            (s, _) => s,
        }
    }
}

} // verus!
