//! What `--set` promises over whole runs.

use vstd::prelude::*;

use crate::dirs::{
    cred_path_of, dir_run, files_lie_in_their_namespace, namespace_dir_of, DirEventView, DirsView,
    StoreEnvView,
};
use crate::encrypt::EncryptJobView;
use crate::failure::FailureView;
use crate::input::PromptResultView;
use crate::install::InstallJobView;
use crate::path::joined_text;
use crate::set::{
    encryption_of, first_invalid, installation_of, is_noecho, is_require, is_set_option,
    options_in_front, set_next, set_start, stagings, to_encryptions, to_installs, to_prompts,
    wants_noecho, wants_passphrase, PlaceView, SetEventView, SetRunView, ValueView,
};
use crate::store::{
    cred_file_of, cred_name_of, namespace_complaint, staging_name_of, valid_namespace, valid_var,
    var_complaint,
};
use crate::store_laws::{staging_files_are_no_live_files, staging_paths_are_unique};
use crate::text::{occurs, told_within};

verus! {

/// The state after a sequence of events.
pub open spec fn set_run(s: SetRunView, events: Seq<SetEventView>) -> SetRunView
    decreases events.len(),
{
    if events.len() == 0 {
        s
    } else {
        set_next(set_run(s, events.drop_last()), events.last())
    }
}

/// The values that were typed and taken, in order.
pub open spec fn typed(s: SetRunView, events: Seq<SetEventView>) -> Seq<ValueView>
    decreases events.len(),
{
    if events.len() == 0 {
        Seq::empty()
    } else {
        let before = typed(s, events.drop_last());
        match (set_run(s, events.drop_last()), events.last()) {
            (
                SetRunView::Prompt { ns, pid, noecho, prompt, var, rest, collected },
                SetEventView::Typed(Ok(t)),
            ) => if t.eof || t.value.contains(0) {
                before
            } else {
                before.push(ValueView { var, plaintext: t.value })
            },
            _ => before,
        }
    }
}

/// The directory that was found for the namespace.
pub open spec fn found_dir(s: SetRunView, events: Seq<SetEventView>) -> Seq<u8>
    decreases events.len(),
{
    if events.len() == 0 {
        Seq::empty()
    } else {
        match (set_run(s, events.drop_last()), events.last()) {
            (SetRunView::Dir { ns, pid, collected }, SetEventView::Dir(Ok(dir))) => dir,
            _ => found_dir(s, events.drop_last()),
        }
    }
}

/// The encryptions that were tried, in order, whatever came of them.
pub open spec fn tried(s: SetRunView, events: Seq<SetEventView>) -> Seq<EncryptJobView>
    decreases events.len(),
{
    if events.len() == 0 {
        Seq::empty()
    } else {
        let before = tried(s, events.drop_last());
        match (set_run(s, events.drop_last()), events.last()) {
            (
                SetRunView::Encrypt { place, var, job, rest, staged },
                SetEventView::Encrypted(_),
            ) => before.push(job),
            _ => before,
        }
    }
}

/// The encryptions that succeeded, in order.
pub open spec fn encrypted(s: SetRunView, events: Seq<SetEventView>) -> Seq<EncryptJobView>
    decreases events.len(),
{
    if events.len() == 0 {
        Seq::empty()
    } else {
        let before = encrypted(s, events.drop_last());
        match (set_run(s, events.drop_last()), events.last()) {
            (
                SetRunView::Encrypt { place, var, job, rest, staged },
                SetEventView::Encrypted(Ok(_)),
            ) => before.push(job),
            _ => before,
        }
    }
}

/// The files that went live, in order.
pub open spec fn gone_live(s: SetRunView, events: Seq<SetEventView>) -> Seq<InstallJobView>
    decreases events.len(),
{
    if events.len() == 0 {
        Seq::empty()
    } else {
        let before = gone_live(s, events.drop_last());
        match (set_run(s, events.drop_last()), events.last()) {
            (
                SetRunView::Install { installed, job, rest },
                SetEventView::Installed(Ok(_)),
            ) => before.push(job),
            _ => before,
        }
    }
}

/// The variables of some values.
pub open spec fn names(values: Seq<ValueView>) -> Seq<Seq<char>> {
    values.map_values(|v: ValueView| v.var)
}

/// The encryption of each value, under its credential name, to a file of its own.
pub open spec fn encryptions(place: PlaceView, values: Seq<ValueView>) -> Seq<EncryptJobView> {
    values.map(|i: int, v: ValueView| encryption_of(place, v, i as nat))
}

/// The installation of what each encryption gave, as the file of its variable.
pub open spec fn installations(place: PlaceView, values: Seq<ValueView>) -> Seq<InstallJobView> {
    values.map(
        |i: int, v: ValueView|
            installation_of(place, v.var, encryption_of(place, v, i as nat).out_path),
    )
}

/// Every variable has a value, and every value was encrypted.
pub open spec fn all_encrypted(
    vars: Seq<Seq<char>>,
    place: PlaceView,
    values: Seq<ValueView>,
    jobs: Seq<EncryptJobView>,
) -> bool {
    names(values) == vars && jobs == encryptions(place, values)
}

/// What was written so far, over the logs of a run.
struct Log {
    values: Seq<ValueView>,
    dir: Seq<u8>,
    tried: Seq<EncryptJobView>,
    jobs: Seq<EncryptJobView>,
    live: Seq<InstallJobView>,
}

spec fn log_of(s: SetRunView, events: Seq<SetEventView>) -> Log {
    Log {
        values: typed(s, events),
        dir: found_dir(s, events),
        tried: tried(s, events),
        jobs: encrypted(s, events),
        live: gone_live(s, events),
    }
}

/// The promise for a state in the middle of a run.
spec fn on_track(s: SetRunView, ns: Seq<char>, pid: u32, vars: Seq<Seq<char>>, log: Log) -> bool {
    let at = PlaceView { ns, dir: log.dir, pid };
    match s {
        SetRunView::Prompt { ns: n, pid: p, noecho, prompt, var, rest, collected } => {
            &&& n == ns && p == pid
            &&& collected == log.values
            &&& names(log.values) + (seq![var] + rest) == vars
            &&& log.tried.len() == 0 && log.jobs.len() == 0 && log.live.len() == 0
        },
        SetRunView::Dir { ns: n, pid: p, collected } => {
            &&& n == ns && p == pid
            &&& collected == log.values
            &&& names(log.values) == vars
            &&& log.tried.len() == 0 && log.jobs.len() == 0 && log.live.len() == 0
        },
        SetRunView::Encrypt { place, var, job, rest, staged } => {
            let k = staged.len() as int;
            &&& place == at
            &&& names(log.values) == vars
            &&& k < log.values.len()
            &&& log.tried == encryptions(at, log.values).take(k)
            &&& log.jobs == log.tried
            &&& staged == installations(at, log.values).take(k)
            &&& var == log.values[k].var
            &&& job == encryption_of(at, log.values[k], k as nat)
            &&& rest == log.values.skip(k + 1)
            &&& log.live.len() == 0
        },
        SetRunView::Install { installed, job, rest } => {
            &&& all_encrypted(vars, at, log.values, log.jobs)
            &&& log.tried == log.jobs
            &&& installed == log.live
            &&& installed.push(job) + rest == installations(at, log.values)
        },
        SetRunView::Done { report, discard } => if report.code == 0 {
            &&& all_encrypted(vars, at, log.values, log.jobs)
            &&& log.live == installations(at, log.values)
        } else {
            &&& forall|i: int|
                0 <= i < log.tried.len() ==> discard.contains((#[trigger] log.tried[i]).out_path)
            &&& log.live.len() > 0 ==> all_encrypted(vars, at, log.values, log.jobs)
        },
    }
}

proof fn prompts_stay_on_track(
    ns: Seq<char>,
    pid: u32,
    noecho: bool,
    vars: Seq<Seq<char>>,
    rest: Seq<Seq<char>>,
    log: Log,
)
    requires
        names(log.values) + rest == vars,
        log.tried.len() == 0 && log.jobs.len() == 0 && log.live.len() == 0,
    ensures
        on_track(to_prompts(ns, pid, noecho, rest, log.values), ns, pid, vars, log),
{
    if rest.len() > 0 {
        assert(seq![rest[0]] + rest.drop_first() =~= rest);
    } else {
        assert(names(log.values) + rest =~= names(log.values));
    }
}

proof fn installs_stay_on_track(
    ns: Seq<char>,
    pid: u32,
    vars: Seq<Seq<char>>,
    rest: Seq<InstallJobView>,
    log: Log,
)
    requires
        all_encrypted(vars, PlaceView { ns, dir: log.dir, pid }, log.values, log.jobs),
        log.tried == log.jobs,
        log.live + rest == installations(PlaceView { ns, dir: log.dir, pid }, log.values),
    ensures
        on_track(to_installs(log.live, rest), ns, pid, vars, log),
{
    if rest.len() > 0 {
        assert(log.live.push(rest[0]) + rest.drop_first() =~= log.live + rest);
    } else {
        assert(log.live + rest =~= log.live);
    }
}

proof fn encryptions_stay_on_track(
    ns: Seq<char>,
    pid: u32,
    vars: Seq<Seq<char>>,
    staged: Seq<InstallJobView>,
    log: Log,
)
    requires
        names(log.values) == vars,
        staged.len() <= log.values.len(),
        log.tried == encryptions(PlaceView { ns, dir: log.dir, pid }, log.values).take(
            staged.len() as int,
        ),
        log.jobs == log.tried,
        staged == installations(PlaceView { ns, dir: log.dir, pid }, log.values).take(
            staged.len() as int,
        ),
        log.live.len() == 0,
    ensures
        on_track(
            to_encryptions(
                PlaceView { ns, dir: log.dir, pid },
                log.values.skip(staged.len() as int),
                staged,
            ),
            ns,
            pid,
            vars,
            log,
        ),
{
    let at = PlaceView { ns, dir: log.dir, pid };
    let k = staged.len() as int;
    let rest = log.values.skip(k);
    if rest.len() > 0 {
        assert(rest[0] == log.values[k]);
        assert(rest.drop_first() =~= log.values.skip(k + 1));
    } else {
        assert(log.jobs =~= encryptions(at, log.values));
        assert(staged =~= installations(at, log.values));
        assert(log.live =~= Seq::<InstallJobView>::empty());
        assert(log.live + staged =~= staged);
        installs_stay_on_track(ns, pid, vars, staged, log);
    }
}

proof fn runs_stay_on_track(
    ns: Seq<char>,
    pid: u32,
    noecho: bool,
    vars: Seq<Seq<char>>,
    events: Seq<SetEventView>,
)
    ensures
        ({
            let start = to_prompts(ns, pid, noecho, vars, Seq::empty());
            on_track(set_run(start, events), ns, pid, vars, log_of(start, events))
        }),
    decreases events.len(),
{
    let start = to_prompts(ns, pid, noecho, vars, Seq::empty());
    let log = log_of(start, events);
    if events.len() == 0 {
        assert(names(log.values) + vars =~= vars);
        prompts_stay_on_track(ns, pid, noecho, vars, vars, log);
    } else {
        let before = events.drop_last();
        runs_stay_on_track(ns, pid, noecho, vars, before);
        let s = set_run(start, before);
        let was = log_of(start, before);
        let at = PlaceView { ns, dir: log.dir, pid };
        match (s, events.last()) {
            (
                SetRunView::Prompt { ns: _, pid: _, noecho: echo, prompt, var, rest, collected },
                SetEventView::Typed(Ok(t)),
            ) => {
                if !t.eof && !t.value.contains(0) {
                    assert(names(log.values) + rest =~= names(was.values) + (seq![var] + rest));
                    prompts_stay_on_track(ns, pid, echo, vars, rest, log);
                }
            },
            (SetRunView::Dir { ns: _, pid: _, collected }, SetEventView::Dir(Ok(dir))) => {
                let staged = Seq::<InstallJobView>::empty();
                assert(log.values.skip(0) =~= log.values);
                assert(log.tried =~= encryptions(at, log.values).take(0));
                assert(log.jobs =~= log.tried);
                assert(staged =~= installations(at, log.values).take(0));
                encryptions_stay_on_track(ns, pid, vars, staged, log);
            },
            (
                SetRunView::Encrypt { place, var, job, rest, staged },
                SetEventView::Encrypted(r),
            ) => {
                let k = staged.len() as int;
                assert(encryptions(at, log.values)[k] == job);
                if r is Ok {
                    let more = staged.push(installation_of(place, var, job.out_path));
                    assert(log.tried =~= encryptions(at, log.values).take(k + 1));
                    assert(more =~= installations(at, log.values).take(k + 1));
                    encryptions_stay_on_track(ns, pid, vars, more, log);
                } else {
                    let discard = stagings(staged).push(job.out_path);
                    assert forall|i: int| 0 <= i < log.tried.len() implies discard.contains(
                        (#[trigger] log.tried[i]).out_path,
                    ) by {
                        if i < k {
                            assert(log.tried[i] == was.tried[i]);
                            assert(staged[i].staging == log.tried[i].out_path);
                        }
                        assert(discard[i] == log.tried[i].out_path);
                    }
                }
            },
            (SetRunView::Install { installed, job, rest }, SetEventView::Installed(r)) => {
                let all = installed.push(job) + rest;
                if r is Ok {
                    installs_stay_on_track(ns, pid, vars, rest, log);
                } else {
                    let discard = stagings(all);
                    assert forall|i: int| 0 <= i < log.tried.len() implies discard.contains(
                        (#[trigger] log.tried[i]).out_path,
                    ) by {
                        assert(all[i].staging == log.tried[i].out_path);
                        assert(discard[i] == log.tried[i].out_path);
                    }
                }
            },
            _ => {},
        }
    }
}

/// No file goes live before every variable has a value and every value was
/// encrypted, each under its own credential name. Success means that the file of
/// each variable went live. A failure leaves no staging file behind: each that
/// was tried is marked for removal.
pub proof fn nothing_goes_live_before_all_is_encrypted(
    ns: Seq<char>,
    pid: u32,
    noecho: bool,
    vars: Seq<Seq<char>>,
    events: Seq<SetEventView>,
)
    ensures
        ({
            let start = to_prompts(ns, pid, noecho, vars, Seq::empty());
            let values = typed(start, events);
            let jobs = encrypted(start, events);
            let place = PlaceView { ns, dir: found_dir(start, events), pid };
            &&& gone_live(start, events).len() > 0 ==> all_encrypted(vars, place, values, jobs)
            &&& set_run(start, events) matches SetRunView::Install { installed, job, rest }
                ==> all_encrypted(vars, place, values, jobs)
            &&& set_run(start, events) matches SetRunView::Done { report, discard } ==> {
                if report.code == 0 {
                    &&& all_encrypted(vars, place, values, jobs)
                    &&& gone_live(start, events) == installations(place, values)
                } else {
                    forall|i: int|
                        0 <= i < tried(start, events).len() ==> discard.contains(
                            (#[trigger] tried(start, events)[i]).out_path,
                        )
                }
            }
        }),
{
    runs_stay_on_track(ns, pid, noecho, vars, events);
    let start = to_prompts(ns, pid, noecho, vars, Seq::empty());
    let log = log_of(start, events);
    assert(tried(start, events) == log.tried);
}

/// A staging path of the process `pid`, made of the counter `n` and a valid
/// variable name.
spec fn is_staging(path: Seq<u8>, pid: u32, n: nat) -> bool {
    exists|dir: Seq<u8>, var: Seq<char>|
        valid_var(var) && path == #[trigger] joined_text(dir, staging_name_of(var, pid as nat, n))
}

/// A path to the ciphertext file of a valid variable name.
spec fn is_live(path: Seq<u8>) -> bool {
    exists|dir: Seq<u8>, var: Seq<char>|
        valid_var(var) && path == #[trigger] joined_text(dir, cred_file_of(var))
}

spec fn all_valid(vars: Seq<Seq<char>>) -> bool {
    forall|i: int| 0 <= i < vars.len() ==> valid_var(#[trigger] vars[i])
}

/// What the staging paths of a state hold.
spec fn staging_on_track(s: SetRunView, pid: u32, tried: nat) -> bool {
    match s {
        SetRunView::Prompt { ns, pid: p, noecho, prompt, var, rest, collected } => {
            &&& p == pid && tried == 0
            &&& valid_var(var) && all_valid(rest) && all_valid(names(collected))
        },
        SetRunView::Dir { ns, pid: p, collected } => p == pid && tried == 0 && all_valid(
            names(collected),
        ),
        SetRunView::Encrypt { place, var, job, rest, staged } => {
            &&& place.pid == pid && staged.len() == tried
            &&& valid_var(var) && all_valid(names(rest))
            &&& is_staging(job.out_path, pid, tried)
            &&& forall|i: int| 0 <= i < staged.len() ==> is_live((#[trigger] staged[i]).target)
        },
        SetRunView::Install { installed, job, rest } => {
            &&& is_live(job.target)
            &&& forall|i: int| 0 <= i < rest.len() ==> is_live((#[trigger] rest[i]).target)
        },
        SetRunView::Done { report, discard } => true,
    }
}

proof fn encryptions_are_staged(
    place: PlaceView,
    values: Seq<ValueView>,
    staged: Seq<InstallJobView>,
)
    requires
        all_valid(names(values)),
        forall|i: int| 0 <= i < staged.len() ==> is_live((#[trigger] staged[i]).target),
    ensures
        staging_on_track(to_encryptions(place, values, staged), place.pid, staged.len()),
{
    if values.len() > 0 {
        let rest = values.drop_first();
        assert(names(values)[0] == values[0].var);
        assert forall|i: int| 0 <= i < names(rest).len() implies valid_var(
            #[trigger] names(rest)[i],
        ) by {
            assert(names(values)[i + 1] == names(rest)[i]);
        }
    } else if staged.len() > 0 {
        assert(is_live(staged[0].target));
        let rest = staged.drop_first();
        assert forall|i: int| 0 <= i < rest.len() implies is_live((#[trigger] rest[i]).target) by {
            assert(rest[i] == staged[i + 1]);
        }
    }
}

proof fn staging_stays_on_track(args: Seq<Seq<char>>, pid: u32, events: Seq<SetEventView>)
    ensures
        ({
            let start = set_start(args, pid);
            let jobs = tried(start, events);
            &&& staging_on_track(set_run(start, events), pid, jobs.len())
            &&& forall|i: int|
                0 <= i < jobs.len() ==> is_staging((#[trigger] jobs[i]).out_path, pid, i as nat)
            &&& forall|i: int|
                0 <= i < gone_live(start, events).len() ==> is_live(
                    (#[trigger] gone_live(start, events)[i]).target,
                )
        }),
    decreases events.len(),
{
    let start = set_start(args, pid);
    if events.len() == 0 {
        names_are_validated_first(args, pid);
        if let SetRunView::Prompt { ns, pid: p, noecho, prompt, var, rest, collected } = start {
            let vars = seq![var] + rest;
            assert(vars[0] == var);
            assert forall|i: int| 0 <= i < rest.len() implies valid_var(#[trigger] rest[i]) by {
                assert(vars[i + 1] == rest[i]);
            }
        }
    } else {
        let before = events.drop_last();
        staging_stays_on_track(args, pid, before);
        match (set_run(start, before), events.last()) {
            (
                SetRunView::Prompt { ns, pid: _, noecho, prompt, var, rest, collected },
                SetEventView::Typed(Ok(t)),
            ) => {
                if !t.eof && !t.value.contains(0) {
                    let more = collected.push(ValueView { var, plaintext: t.value });
                    assert(names(more) =~= names(collected).push(var));
                    if rest.len() > 0 {
                        assert(valid_var(rest[0]));
                        assert forall|i: int| 0 <= i < rest.drop_first().len() implies valid_var(
                            #[trigger] rest.drop_first()[i],
                        ) by {
                            assert(rest.drop_first()[i] == rest[i + 1]);
                        }
                    }
                }
            },
            (SetRunView::Dir { ns, pid: _, collected }, SetEventView::Dir(Ok(dir))) => {
                encryptions_are_staged(PlaceView { ns, dir, pid }, collected, Seq::empty());
            },
            (
                SetRunView::Encrypt { place, var, job, rest, staged },
                SetEventView::Encrypted(Ok(_)),
            ) => {
                let more = staged.push(installation_of(place, var, job.out_path));
                assert(is_live(installation_of(place, var, job.out_path).target));
                encryptions_are_staged(place, rest, more);
            },
            (
                SetRunView::Install { installed, job, rest },
                SetEventView::Installed(Ok(_)),
            ) => {
                if rest.len() > 0 {
                    assert(is_live(rest[0].target));
                    assert forall|i: int| 0 <= i < rest.drop_first().len() implies is_live(
                        (#[trigger] rest.drop_first()[i]).target,
                    ) by {
                        assert(rest.drop_first()[i] == rest[i + 1]);
                    }
                }
            },
            _ => {},
        }
        let live = gone_live(start, events);
        let earlier = gone_live(start, before);
        assert forall|i: int| 0 <= i < live.len() implies is_live((#[trigger] live[i]).target) by {
            if i < earlier.len() {
                assert(live[i] == earlier[i]);
            }
        }
    }
}

/// Staging paths are unique within a process: of all the files that `--set` has
/// encrypted to, whatever its arguments and however the run went, no two have the
/// same path, and none has the path of a file that went live.
pub proof fn staging_paths_of_a_process_differ(
    args: Seq<Seq<char>>,
    pid: u32,
    events: Seq<SetEventView>,
)
    ensures
        forall|i: int, j: int|
            0 <= i < j < tried(set_start(args, pid), events).len() ==> (#[trigger] tried(
                set_start(args, pid),
                events,
            )[i]).out_path != (#[trigger] tried(set_start(args, pid), events)[j]).out_path,
        forall|i: int, j: int|
            0 <= i < tried(set_start(args, pid), events).len() && 0 <= j < gone_live(
                set_start(args, pid),
                events,
            ).len() ==> (#[trigger] tried(set_start(args, pid), events)[i]).out_path != (
            #[trigger] gone_live(set_start(args, pid), events)[j]).target,
{
    let jobs = tried(set_start(args, pid), events);
    let live = gone_live(set_start(args, pid), events);
    staging_stays_on_track(args, pid, events);
    assert forall|i: int, j: int| 0 <= i < j < jobs.len() implies (#[trigger] jobs[i]).out_path != (
    #[trigger] jobs[j]).out_path by {
        assert(is_staging(jobs[i].out_path, pid, i as nat));
        assert(is_staging(jobs[j].out_path, pid, j as nat));
        let (d, v) = choose|d: Seq<u8>, v: Seq<char>|
            valid_var(v) && jobs[i].out_path == #[trigger] joined_text(
                d,
                staging_name_of(v, pid as nat, i as nat),
            );
        let (e, w) = choose|e: Seq<u8>, w: Seq<char>|
            valid_var(w) && jobs[j].out_path == #[trigger] joined_text(
                e,
                staging_name_of(w, pid as nat, j as nat),
            );
        staging_paths_are_unique(d, e, v, w, pid as nat, i as nat, j as nat);
    }
    assert forall|i: int, j: int| 0 <= i < jobs.len() && 0 <= j < live.len() implies (
    #[trigger] jobs[i]).out_path != (#[trigger] live[j]).target by {
        assert(is_staging(jobs[i].out_path, pid, i as nat));
        assert(is_live(live[j].target));
        let (d, v) = choose|d: Seq<u8>, v: Seq<char>|
            valid_var(v) && jobs[i].out_path == #[trigger] joined_text(
                d,
                staging_name_of(v, pid as nat, i as nat),
            );
        let (e, w) = choose|e: Seq<u8>, w: Seq<char>|
            valid_var(w) && live[j].target == #[trigger] joined_text(e, cred_file_of(w));
        staging_files_are_no_live_files(d, v, pid as nat, i as nat, e, w);
    }
}

proof fn options_are_among_the_arguments(args: Seq<Seq<char>>)
    ensures
        options_in_front(args) <= args.len(),
    decreases args.len(),
{
    if args.len() > 0 && is_set_option(args[0]) {
        options_are_among_the_arguments(args.drop_first());
    }
}

proof fn none_is_invalid(names: Seq<Seq<char>>)
    requires
        first_invalid(names) is None,
    ensures
        forall|i: int| 0 <= i < names.len() ==> valid_var(#[trigger] names[i]),
    decreases names.len(),
{
    if names.len() > 0 {
        let tail = names.drop_first();
        none_is_invalid(tail);
        assert forall|i: int| 0 <= i < names.len() implies valid_var(#[trigger] names[i]) by {
            if i > 0 {
                assert(names[i] == tail[i - 1]);
            }
        }
    }
}

/// Every name is validated before the first prompt: a run either prompts for the
/// given variables of the given namespace, all of valid names, or ends at once in
/// an error.
pub proof fn names_are_validated_first(args: Seq<Seq<char>>, pid: u32)
    ensures
        match set_start(args, pid) {
            SetRunView::Prompt { ns, pid: p, noecho, prompt, var, rest, collected } => {
                let vars = seq![var] + rest;
                &&& set_start(args, pid) == to_prompts(ns, pid, noecho, vars, Seq::empty())
                &&& args.skip(options_in_front(args) as int) == seq![ns] + vars
                &&& valid_namespace(ns)
                &&& forall|i: int| 0 <= i < vars.len() ==> valid_var(#[trigger] vars[i])
            },
            SetRunView::Done { report, discard } => report.code != 0 && discard.len() == 0,
            _ => false,
        },
{
    options_are_among_the_arguments(args);
    let given = args.skip(options_in_front(args) as int);
    if let SetRunView::Prompt { ns, pid: p, noecho, prompt, var, rest, collected } = set_start(
        args,
        pid,
    ) {
        let vars = given.drop_first();
        none_is_invalid(vars);
        assert(seq![var] + rest =~= vars);
        assert(vars.drop_first() =~= rest);
        assert(seq![ns] + vars =~= given);
    }
}

/// What `--set` installs is what exec mode decrypts: the file that goes live for a
/// variable is the one that is found for it later, and it is encrypted under the
/// credential name that is asked for then.
pub proof fn exec_mode_finds_what_was_set(
    env: StoreEnvView,
    place: PlaceView,
    value: ValueView,
    n: nat,
    path: Seq<u8>,
    a: Seq<DirEventView>,
    b: Seq<DirEventView>,
)
    requires
        dir_run(namespace_dir_of(env, place.ns), a) == DirsView::Done(Ok(place.dir)),
        dir_run(cred_path_of(env, place.ns, value.var), b) == DirsView::Done(Ok(path)),
    ensures
        installation_of(place, value.var, encryption_of(place, value, n).out_path).target == path,
        encryption_of(place, value, n).cred_name == cred_name_of(place.ns, value.var),
{
    files_lie_in_their_namespace(env, place.ns, value.var, a, b);
}

// ---- secrets ---------------------------------------------------------------------

/// Values without their plaintexts.
pub open spec fn blind_values(values: Seq<ValueView>) -> Seq<ValueView> {
    values.map_values(|v: ValueView| ValueView { var: v.var, plaintext: Seq::empty() })
}

/// A state without the plaintexts in it.
pub open spec fn blind(s: SetRunView) -> SetRunView {
    match s {
        SetRunView::Prompt { ns, pid, noecho, prompt, var, rest, collected } => SetRunView::Prompt {
            ns,
            pid,
            noecho,
            prompt,
            var,
            rest,
            collected: blind_values(collected),
        },
        SetRunView::Dir { ns, pid, collected } => SetRunView::Dir {
            ns,
            pid,
            collected: blind_values(collected),
        },
        SetRunView::Encrypt { place, var, job, rest, staged } => SetRunView::Encrypt {
            place,
            var,
            job: EncryptJobView { plaintext: Seq::empty(), ..job },
            rest: blind_values(rest),
            staged,
        },
        _ => s,
    }
}

/// An event without the plaintext in it; that it holds a NUL byte is kept.
pub open spec fn blind_event(event: SetEventView) -> SetEventView {
    match event {
        SetEventView::Typed(Ok(t)) => SetEventView::Typed(
            Ok(
                PromptResultView {
                    value: if t.value.contains(0) {
                        seq![0]
                    } else {
                        Seq::empty()
                    },
                    eof: t.eof,
                },
            ),
        ),
        _ => event,
    }
}

/// Events without the plaintexts in them.
pub open spec fn blind_events(events: Seq<SetEventView>) -> Seq<SetEventView> {
    events.map_values(|e: SetEventView| blind_event(e))
}

proof fn blind_step(s: SetRunView, event: SetEventView)
    ensures
        set_next(blind(s), blind_event(event)) == blind(set_next(s, event)),
{
    match (s, event) {
        (
            SetRunView::Prompt { ns, pid, noecho, prompt, var, rest, collected },
            SetEventView::Typed(Ok(t)),
        ) => {
            assert(seq![0u8].contains(0)) by {
                assert(seq![0u8][0] == 0);
            }
            let value = ValueView { var, plaintext: t.value };
            let hidden = ValueView { var, plaintext: Seq::empty() };
            assert(blind_values(collected.push(value)) =~= blind_values(collected).push(hidden));
        },
        (SetRunView::Dir { ns, pid, collected }, SetEventView::Dir(Ok(dir))) => {
            if collected.len() > 0 {
                assert(blind_values(collected).drop_first() =~= blind_values(
                    collected.drop_first(),
                ));
            }
        },
        (SetRunView::Encrypt { place, var, job, rest, staged }, SetEventView::Encrypted(Ok(_))) => {
            if rest.len() > 0 {
                assert(blind_values(rest).drop_first() =~= blind_values(rest.drop_first()));
            }
        },
        _ => {},
    }
}

proof fn blind_run(s: SetRunView, events: Seq<SetEventView>)
    ensures
        set_run(blind(s), blind_events(events)) == blind(set_run(s, events)),
    decreases events.len(),
{
    if events.len() > 0 {
        let before = events.drop_last();
        blind_run(s, before);
        assert(blind_events(events).drop_last() =~= blind_events(before));
        blind_step(set_run(s, before), events.last());
    }
}

/// No report of `--set` renders a secret: runs whose events differ in typed
/// values only, and not in which of them hold a NUL byte, end in the same report,
/// and what they ask for on the way differs in plaintexts to encrypt only.
pub proof fn set_reports_hold_no_secret(
    s: SetRunView,
    a: Seq<SetEventView>,
    b: Seq<SetEventView>,
)
    requires
        blind_events(a) == blind_events(b),
    ensures
        blind(set_run(s, a)) == blind(set_run(s, b)),
        set_run(s, a) is Done ==> set_run(s, a) == set_run(s, b),
{
    blind_run(s, a);
    blind_run(s, b);
}

// ---- from the prompt to the file ---------------------------------------------------

/// What the logs of a run hold: the values are those of the named variables in
/// their order, each encryption took the bytes that were typed, and each file that
/// went live is what an encryption gave.
pub open spec fn log_is_faithful(
    ns: Seq<char>,
    vars: Seq<Seq<char>>,
    dir: Seq<u8>,
    values: Seq<ValueView>,
    jobs: Seq<EncryptJobView>,
    live: Seq<InstallJobView>,
) -> bool {
    &&& live.len() <= jobs.len() <= values.len() <= vars.len()
    &&& forall|i: int| 0 <= i < values.len() ==> (#[trigger] values[i]).var == vars[i]
    &&& forall|i: int|
        0 <= i < jobs.len() ==> (#[trigger] jobs[i]).plaintext == values[i].plaintext
            && jobs[i].cred_name == "credchain."@ + ns + "."@ + vars[i]
    &&& forall|i: int|
        0 <= i < live.len() ==> (#[trigger] live[i]).staging == jobs[i].out_path && live[i].target
            == joined_text(dir, vars[i] + ".cred"@)
}

spec fn state_is_faithful(
    s: SetRunView,
    ns: Seq<char>,
    vars: Seq<Seq<char>>,
    dir: Seq<u8>,
    values: Seq<ValueView>,
    jobs: Seq<EncryptJobView>,
    live: Seq<InstallJobView>,
) -> bool {
    let (v, k, l) = (values.len() as int, jobs.len() as int, live.len() as int);
    match s {
        SetRunView::Prompt { ns: n, pid, noecho, prompt, var, rest, collected } => {
            &&& n == ns && collected == values && k == 0
            &&& seq![var] + rest == vars.skip(v)
            &&& prompt == ns + "."@ + var
        },
        SetRunView::Dir { ns: n, pid, collected } => n == ns && collected == values && k == 0 && v
            == vars.len(),
        SetRunView::Encrypt { place, var, job, rest, staged } => {
            &&& place.ns == ns && place.dir == dir && v == vars.len() && k < v && l == 0
            &&& var == values[k].var && job.plaintext == values[k].plaintext
            &&& job.cred_name == "credchain."@ + ns + "."@ + var
            &&& rest == values.skip(k + 1)
            &&& staged.len() == k
            &&& forall|i: int|
                0 <= i < k ==> (#[trigger] staged[i]).staging == jobs[i].out_path
                    && staged[i].target == joined_text(dir, vars[i] + ".cred"@)
        },
        SetRunView::Install { installed, job, rest } => {
            &&& v == vars.len() && k == v && l < k && rest.len() == k - l - 1
            &&& job.staging == jobs[l].out_path && job.target == joined_text(
                dir,
                vars[l] + ".cred"@,
            )
            &&& forall|i: int|
                0 <= i < rest.len() ==> (#[trigger] rest[i]).staging == jobs[l + 1 + i].out_path
                    && rest[i].target == joined_text(dir, vars[l + 1 + i] + ".cred"@)
        },
        SetRunView::Done { report, discard } => report.code == 0 ==> v == vars.len() && k == v && l
            == v,
    }
}

proof fn installs_are_faithful(
    ns: Seq<char>,
    vars: Seq<Seq<char>>,
    dir: Seq<u8>,
    values: Seq<ValueView>,
    jobs: Seq<EncryptJobView>,
    live: Seq<InstallJobView>,
    installed: Seq<InstallJobView>,
    rest: Seq<InstallJobView>,
)
    requires
        jobs.len() == values.len() == vars.len(),
        live.len() + rest.len() == jobs.len(),
        forall|i: int|
            0 <= i < rest.len() ==> (#[trigger] rest[i]).staging == jobs[live.len() + i].out_path
                && rest[i].target == joined_text(dir, vars[live.len() + i] + ".cred"@),
    ensures
        state_is_faithful(to_installs(installed, rest), ns, vars, dir, values, jobs, live),
{
    if rest.len() > 0 {
        let tail = rest.drop_first();
        assert(rest[0].staging == jobs[live.len() as int].out_path);
        assert forall|i: int| 0 <= i < tail.len() implies (#[trigger] tail[i]).staging
            == jobs[live.len() + 1 + i].out_path && tail[i].target == joined_text(
            dir,
            vars[live.len() + 1 + i] + ".cred"@,
        ) by {
            assert(tail[i] == rest[i + 1]);
        }
    }
}

proof fn encryptions_are_faithful(
    place: PlaceView,
    vars: Seq<Seq<char>>,
    values: Seq<ValueView>,
    jobs: Seq<EncryptJobView>,
    live: Seq<InstallJobView>,
    staged: Seq<InstallJobView>,
)
    requires
        values.len() == vars.len(),
        live.len() == 0,
        staged.len() == jobs.len() <= values.len(),
        forall|i: int|
            0 <= i < jobs.len() ==> (#[trigger] staged[i]).staging == jobs[i].out_path
                && staged[i].target == joined_text(place.dir, vars[i] + ".cred"@),
    ensures
        state_is_faithful(
            to_encryptions(place, values.skip(jobs.len() as int), staged),
            place.ns,
            vars,
            place.dir,
            values,
            jobs,
            live,
        ),
{
    let k = jobs.len() as int;
    let rest = values.skip(k);
    if rest.len() > 0 {
        assert(rest[0] == values[k]);
        assert(rest.drop_first() =~= values.skip(k + 1));
    } else {
        installs_are_faithful(
            place.ns,
            vars,
            place.dir,
            values,
            jobs,
            live,
            Seq::empty(),
            staged,
        );
    }
}

proof fn runs_are_faithful(args: Seq<Seq<char>>, pid: u32, events: Seq<SetEventView>)
    requires
        set_start(args, pid) is Prompt,
    ensures
        ({
            let start = set_start(args, pid);
            let given = args.skip(options_in_front(args) as int);
            let (ns, vars) = (given[0], given.drop_first());
            let dir = found_dir(start, events);
            let values = typed(start, events);
            let jobs = encrypted(start, events);
            let live = gone_live(start, events);
            &&& log_is_faithful(ns, vars, dir, values, jobs, live)
            &&& state_is_faithful(set_run(start, events), ns, vars, dir, values, jobs, live)
        }),
    decreases events.len(),
{
    let start = set_start(args, pid);
    let given = args.skip(options_in_front(args) as int);
    let (ns, vars) = (given[0], given.drop_first());
    let dir = found_dir(start, events);
    let values = typed(start, events);
    let jobs = encrypted(start, events);
    let live = gone_live(start, events);
    if events.len() == 0 {
        names_are_validated_first(args, pid);
        if let SetRunView::Prompt { ns: n, pid: p, noecho, prompt, var, rest, collected } = start {
            assert(given =~= seq![n] + (seq![var] + rest));
            assert(vars =~= seq![var] + rest);
            assert(vars.skip(0) =~= vars);
        }
    } else {
        let before = events.drop_last();
        runs_are_faithful(args, pid, before);
        let was = typed(start, before);
        let done = encrypted(start, before);
        let old_live = gone_live(start, before);
        match (set_run(start, before), events.last()) {
            (
                SetRunView::Prompt { ns: n, pid: p, noecho, prompt, var, rest, collected },
                SetEventView::Typed(Ok(t)),
            ) => {
                if !t.eof && !t.value.contains(0) {
                    let v = was.len() as int;
                    let left = vars.skip(v);
                    assert(left.len() == 1 + rest.len());
                    assert(left[0] == var && left[0] == vars[v]);
                    assert forall|i: int| 0 <= i < values.len() implies (#[trigger] values[i]).var
                        == vars[i] by {
                        if i < v {
                            assert(values[i] == was[i]);
                        }
                    }
                    assert((seq![var] + rest).drop_first() =~= rest);
                    assert(left.drop_first() =~= vars.skip(v + 1));
                    if rest.len() > 0 {
                        assert(seq![rest[0]] + rest.drop_first() =~= rest);
                    }
                }
            },
            (SetRunView::Dir { ns: n, pid: p, collected }, SetEventView::Dir(Ok(d))) => {
                let place = PlaceView { ns, dir: d, pid: p };
                assert(values.skip(0) =~= values);
                encryptions_are_faithful(place, vars, values, jobs, live, Seq::empty());
            },
            (
                SetRunView::Encrypt { place, var, job, rest, staged },
                SetEventView::Encrypted(Ok(_)),
            ) => {
                let k = done.len() as int;
                assert(values[k].var == vars[k]);
                assert forall|i: int| 0 <= i < jobs.len() implies (#[trigger] jobs[i]).plaintext
                    == values[i].plaintext && jobs[i].cred_name == "credchain."@ + ns + "."@
                    + vars[i] by {
                    if i < k {
                        assert(jobs[i] == done[i]);
                    }
                }
                let more = staged.push(installation_of(place, var, job.out_path));
                assert forall|i: int| 0 <= i < jobs.len() implies (#[trigger] more[i]).staging
                    == jobs[i].out_path && more[i].target == joined_text(
                    place.dir,
                    vars[i] + ".cred"@,
                ) by {
                    if i < k {
                        assert(more[i] == staged[i]);
                        assert(jobs[i] == done[i]);
                    }
                }
                encryptions_are_faithful(place, vars, values, jobs, live, more);
            },
            (
                SetRunView::Install { installed, job, rest },
                SetEventView::Installed(Ok(_)),
            ) => {
                let l = old_live.len() as int;
                assert forall|i: int| 0 <= i < live.len() implies (#[trigger] live[i]).staging
                    == jobs[i].out_path && live[i].target == joined_text(
                    dir,
                    vars[i] + ".cred"@,
                ) by {
                    if i < l {
                        assert(live[i] == old_live[i]);
                    }
                }
                installs_are_faithful(
                    ns,
                    vars,
                    dir,
                    values,
                    jobs,
                    live,
                    installed.push(job),
                    rest,
                );
            },
            _ => {},
        }
    }
}

/// What is typed is what is stored: however a run goes, the bytes that were typed
/// for each variable, all of them, are what is encrypted for it, under the
/// credential name of its namespace and name, and what goes live as
/// `<dir>/<VAR>.cred` is what that encryption gave. Success means that this was done
/// for every variable that the arguments name, in their order.
pub proof fn what_is_typed_is_stored(args: Seq<Seq<char>>, pid: u32, events: Seq<SetEventView>)
    requires
        set_start(args, pid) is Prompt,
    ensures
        ({
            let start = set_start(args, pid);
            let given = args.skip(options_in_front(args) as int);
            let values = typed(start, events);
            let jobs = encrypted(start, events);
            let live = gone_live(start, events);
            &&& log_is_faithful(
                given[0],
                given.drop_first(),
                found_dir(start, events),
                values,
                jobs,
                live,
            )
            &&& set_run(start, events) matches SetRunView::Done { report, discard } ==> (report.code
                == 0 ==> values.len() == given.len() - 1 && jobs.len() == given.len() - 1
                && live.len() == given.len() - 1)
        }),
{
    runs_are_faithful(args, pid, events);
    let start = set_start(args, pid);
    names_are_validated_first(args, pid);
    if let SetRunView::Prompt { ns: n, pid: p, noecho, prompt, var, rest, collected } = start {
        let given = args.skip(options_in_front(args) as int);
        assert(given =~= seq![n] + (seq![var] + rest));
    }
}

/// A prompt is labelled with the whole name of the variable, and of its namespace.
pub proof fn prompts_name_their_variable(args: Seq<Seq<char>>, pid: u32, events: Seq<SetEventView>)
    requires
        set_start(args, pid) is Prompt,
    ensures
        set_run(set_start(args, pid), events) matches SetRunView::Prompt {
            ns,
            pid: _,
            noecho: _,
            prompt,
            var,
            rest: _,
            collected: _,
        } ==> ns == args[options_in_front(args) as int] && var == args[options_in_front(args) as int + 1
            + typed(set_start(args, pid), events).len()] && ns.is_prefix_of(prompt)
            && var.is_suffix_of(prompt) && prompt.len() == ns.len() + 1 + var.len(),
{
    runs_are_faithful(args, pid, events);
    names_are_validated_first(args, pid);
    options_are_among_the_arguments(args);
    if let SetRunView::Prompt { ns: n, pid: p, noecho, prompt, var, rest, collected } = set_start(
        args,
        pid,
    ) {
        let given = args.skip(options_in_front(args) as int);
        assert(given =~= seq![n] + (seq![var] + rest));
        assert(given[0] == args[options_in_front(args) as int]);
        let done = typed(set_start(args, pid), events).len() as int;
        if let SetRunView::Prompt { ns, pid: q, noecho: e, prompt: text, var: v, rest: r, collected: c }
            = set_run(set_start(args, pid), events) {
            let vars = given.drop_first();
            assert((seq![v] + r)[0] == v);
            assert(done <= vars.len());
            assert(vars.skip(done).len() == vars.len() - done);
            assert((seq![v] + r).len() > 0);
            assert(vars.skip(done)[0] == vars[done]);
            assert(vars[done] == given[done + 1]);
            reveal_strlit(".");
            assert(text.subrange(0, ns.len() as int) =~= ns);
            assert(text.subrange(text.len() - v.len(), text.len() as int) =~= v);
        }
    }
}

// ---- runs in which nothing fails ---------------------------------------------------

proof fn run_in_parts(s: SetRunView, a: Seq<SetEventView>, b: Seq<SetEventView>)
    ensures
        set_run(s, a + b) == set_run(set_run(s, a), b),
    decreases b.len(),
{
    if b.len() == 0 {
        assert(a + b =~= a);
    } else {
        run_in_parts(s, a, b.drop_last());
        assert((a + b).drop_last() =~= a + b.drop_last());
        assert((a + b).last() == b.last());
    }
}

proof fn run_from_the_first(s: SetRunView, events: Seq<SetEventView>)
    requires
        events.len() > 0,
    ensures
        set_run(s, events) == set_run(set_next(s, events[0]), events.drop_first()),
{
    let first = seq![events[0]];
    run_in_parts(s, first, events.drop_first());
    assert(events =~= first + events.drop_first());
    assert(first.drop_last() =~= Seq::<SetEventView>::empty());
    assert(set_run(s, first.drop_last()) == s);
}

/// The events of typing some values.
pub open spec fn typing(values: Seq<Seq<u8>>) -> Seq<SetEventView> {
    values.map_values(
        |value: Seq<u8>| SetEventView::Typed(Ok(PromptResultView { value, eof: false })),
    )
}

/// The events of a run in which the given values are typed and nothing fails.
pub open spec fn calm_set(values: Seq<Seq<u8>>, dir: Seq<u8>) -> Seq<SetEventView> {
    typing(values) + seq![SetEventView::Dir(Ok(dir))] + Seq::new(
        values.len(),
        |i: int| SetEventView::Encrypted(Ok(())),
    ) + Seq::new(values.len(), |i: int| SetEventView::Installed(Ok(())))
}

proof fn calm_prompts(
    ns: Seq<char>,
    pid: u32,
    noecho: bool,
    vars: Seq<Seq<char>>,
    collected: Seq<ValueView>,
    values: Seq<Seq<u8>>,
)
    requires
        values.len() == vars.len(),
        forall|i: int| 0 <= i < values.len() ==> !(#[trigger] values[i]).contains(0),
    ensures
        set_run(to_prompts(ns, pid, noecho, vars, collected), typing(values)) matches
            SetRunView::Dir { ns: n, pid: p, collected: c } && c.len() == collected.len()
            + values.len(),
    decreases values.len(),
{
    let s = to_prompts(ns, pid, noecho, vars, collected);
    let events = typing(values);
    if values.len() > 0 {
        let rest = values.drop_first();
        run_from_the_first(s, events);
        assert(!values[0].contains(0));
        assert(events.drop_first() =~= typing(rest));
        assert forall|i: int| 0 <= i < rest.len() implies !(#[trigger] rest[i]).contains(0) by {
            assert(rest[i] == values[i + 1]);
        }
        calm_prompts(
            ns,
            pid,
            noecho,
            vars.drop_first(),
            collected.push(ValueView { var: vars[0], plaintext: values[0] }),
            rest,
        );
    }
}

proof fn calm_installs(installed: Seq<InstallJobView>, jobs: Seq<InstallJobView>)
    ensures
        set_run(
            to_installs(installed, jobs),
            Seq::new(jobs.len(), |i: int| SetEventView::Installed(Ok(()))),
        ) matches SetRunView::Done { report, discard } && report.code == 0 && discard.len() == 0,
    decreases jobs.len(),
{
    let events = Seq::new(jobs.len(), |i: int| SetEventView::Installed(Ok(())));
    if jobs.len() > 0 {
        run_from_the_first(to_installs(installed, jobs), events);
        let rest = jobs.drop_first();
        assert(events.drop_first() =~= Seq::new(
            rest.len(),
            |i: int| SetEventView::Installed(Ok(())),
        ));
        calm_installs(installed.push(jobs[0]), rest);
    }
}

proof fn calm_encryptions(
    place: PlaceView,
    values: Seq<ValueView>,
    staged: Seq<InstallJobView>,
)
    ensures
        exists|jobs: Seq<InstallJobView>|
            jobs.len() == staged.len() + values.len() && set_run(
                to_encryptions(place, values, staged),
                Seq::new(values.len(), |i: int| SetEventView::Encrypted(Ok(()))),
            ) == #[trigger] to_installs(Seq::empty(), jobs),
    decreases values.len(),
{
    let s = to_encryptions(place, values, staged);
    let events = Seq::new(values.len(), |i: int| SetEventView::Encrypted(Ok(())));
    if values.len() > 0 {
        run_from_the_first(s, events);
        let rest = values.drop_first();
        let job = encryption_of(place, values[0], staged.len());
        assert(events.drop_first() =~= Seq::new(
            rest.len(),
            |i: int| SetEventView::Encrypted(Ok(())),
        ));
        calm_encryptions(
            place,
            rest,
            staged.push(installation_of(place, values[0].var, job.out_path)),
        );
    } else {
        assert(set_run(s, events) == to_installs(Seq::empty(), staged));
    }
}

/// A run in which a value without a NUL byte is typed for each variable and nothing
/// fails succeeds, prints no complaint and leaves nothing to remove.
pub proof fn calm_sets_succeed(
    args: Seq<Seq<char>>,
    pid: u32,
    values: Seq<Seq<u8>>,
    dir: Seq<u8>,
)
    requires
        set_start(args, pid) is Prompt,
        values.len() == args.len() - options_in_front(args) - 1,
        forall|i: int| 0 <= i < values.len() ==> !(#[trigger] values[i]).contains(0),
    ensures
        set_run(set_start(args, pid), calm_set(values, dir)) matches SetRunView::Done {
            report,
            discard,
        } && report.code == 0 && discard.len() == 0,
{
    names_are_validated_first(args, pid);
    options_are_among_the_arguments(args);
    let start = set_start(args, pid);
    if let SetRunView::Prompt { ns, pid: p, noecho, prompt, var, rest, collected } = start {
        let vars = seq![var] + rest;
        let given = args.skip(options_in_front(args) as int);
        assert(given.len() == 1 + vars.len());
        let n = values.len();
        let a = typing(values);
        let d = seq![SetEventView::Dir(Ok(dir))];
        let e = Seq::new(n, |i: int| SetEventView::Encrypted(Ok(())));
        let f = Seq::new(n, |i: int| SetEventView::Installed(Ok(())));
        calm_prompts(ns, pid, noecho, vars, Seq::empty(), values);
        run_in_parts(start, a + d + e, f);
        run_in_parts(start, a + d, e);
        run_in_parts(start, a, d);
        if let SetRunView::Dir { ns: m, pid: q, collected: c } = set_run(start, a) {
            let place = PlaceView { ns: m, dir, pid: q };
            assert(d.drop_last() =~= Seq::<SetEventView>::empty());
            assert(set_run(set_run(start, a), d.drop_last()) == set_run(start, a));
            calm_encryptions(place, c, Seq::empty());
            let jobs = choose|jobs: Seq<InstallJobView>|
                jobs.len() == 0 + c.len() && set_run(
                    to_encryptions(place, c, Seq::empty()),
                    Seq::new(c.len(), |i: int| SetEventView::Encrypted(Ok(()))),
                ) == #[trigger] to_installs(Seq::empty(), jobs);
            calm_installs(Seq::empty(), jobs);
        }
    }
}

// ---- options -----------------------------------------------------------------------

/// Names that begin with no dash are taken as they stand: the first is the
/// namespace, the others are the variables. An option in front of them takes
/// nothing away: `-n` switches the echo off, `-P` and the backend change nothing,
/// `-p` is refused unless `-P` comes behind it.
pub proof fn options_leave_the_names(args: Seq<Seq<char>>, pid: u32)
    requires
        args.len() >= 2,
        args[0].len() == 0 || args[0][0] != '-',
    ensures
        options_in_front(args) == 0,
        valid_namespace(args[0]) && (forall|i: int|
            1 <= i < args.len() ==> valid_var(#[trigger] args[i])) ==> set_start(args, pid)
            == to_prompts(args[0], pid, false, args.drop_first(), Seq::empty()) && set_start(
            seq!["-n"@] + args,
            pid,
        ) == to_prompts(args[0], pid, true, args.drop_first(), Seq::empty()) && set_start(
            seq!["--noecho"@] + args,
            pid,
        ) == to_prompts(args[0], pid, true, args.drop_first(), Seq::empty()),
        set_start(seq!["-P"@] + args, pid) == set_start(args, pid),
        set_start(seq!["--no-require-passphrase"@] + args, pid) == set_start(args, pid),
        set_start(seq!["--backend=systemd"@] + args, pid) == set_start(args, pid),
        set_start(seq!["-p"@] + args, pid) matches SetRunView::Done { report, discard }
            && report.code == 1 && discard.len() == 0,
        set_start(seq!["--require-passphrase"@] + args, pid) matches SetRunView::Done {
            report,
            discard,
        } && report.code == 1 && discard.len() == 0,
{
    options_begin_with_a_dash(args[0]);
    options_are_told_apart();
    assert(args.take(0) =~= Seq::<Seq<char>>::empty());
    assert(args.skip(0) =~= args);
    assert(!wants_noecho(args.take(0)));
    if forall|i: int| 1 <= i < args.len() ==> valid_var(#[trigger] args[i]) {
        let vars = args.drop_first();
        assert forall|i: int| 0 <= i < vars.len() implies valid_var(#[trigger] vars[i]) by {
            assert(vars[i] == args[i + 1]);
        }
        valid_names_pass(vars);
    }
    one_option_in_front("-n"@, args);
    one_option_in_front("--noecho"@, args);
    one_option_in_front("-P"@, args);
    one_option_in_front("--no-require-passphrase"@, args);
    one_option_in_front("--backend=systemd"@, args);
    one_option_in_front("-p"@, args);
    one_option_in_front("--require-passphrase"@, args);
}

proof fn valid_names_pass(names: Seq<Seq<char>>)
    requires
        forall|i: int| 0 <= i < names.len() ==> valid_var(#[trigger] names[i]),
    ensures
        first_invalid(names) is None,
    decreases names.len(),
{
    if names.len() > 0 {
        let tail = names.drop_first();
        assert(valid_var(names[0]));
        assert forall|i: int| 0 <= i < tail.len() implies valid_var(#[trigger] tail[i]) by {
            assert(tail[i] == names[i + 1]);
        }
        valid_names_pass(tail);
    }
}

proof fn one_option_in_front(option: Seq<char>, args: Seq<Seq<char>>)
    requires
        is_set_option(option),
        options_in_front(args) == 0,
    ensures
        ({
            let all = seq![option] + args;
            &&& options_in_front(all) == 1
            &&& all.take(1) == seq![option]
            &&& all.skip(1) == args
            &&& wants_noecho(all.take(1)) <==> is_noecho(option)
            &&& wants_passphrase(all.take(1)) <==> is_require(option)
        }),
{
    let all = seq![option] + args;
    assert(all.drop_first() =~= args);
    assert(all.take(1) =~= seq![option]);
    assert(all.skip(1) =~= args);
    assert(seq![option][0] == option);
    assert(seq![option].drop_last() =~= Seq::<Seq<char>>::empty());
    assert(!wants_passphrase(seq![option].drop_last()));
}

proof fn options_are_told_apart()
    ensures
        is_noecho("-n"@) && !is_require("-n"@),
        is_noecho("--noecho"@) && !is_require("--noecho"@),
        !is_noecho("-P"@) && !is_require("-P"@) && is_set_option("-P"@),
        !is_noecho("--no-require-passphrase"@) && !is_require("--no-require-passphrase"@)
            && is_set_option("--no-require-passphrase"@),
        !is_noecho("--backend=systemd"@) && !is_require("--backend=systemd"@) && is_set_option(
            "--backend=systemd"@,
        ),
        is_require("-p"@) && !is_noecho("-p"@),
        is_require("--require-passphrase"@) && !is_noecho("--require-passphrase"@),
{
    reveal_strlit("-n");
    reveal_strlit("-p");
    reveal_strlit("-P");
    reveal_strlit("--noecho");
    reveal_strlit("--require-passphrase");
    reveal_strlit("--no-require-passphrase");
    reveal_strlit("--backend=systemd");
    assert("-n"@.len() == 2 && "-p"@.len() == 2 && "-P"@.len() == 2);
    assert("-n"@[1] == 'n' && "-p"@[1] == 'p' && "-P"@[1] == 'P');
    assert("--noecho"@.len() == 8);
    assert("--require-passphrase"@.len() == 20);
    assert("--no-require-passphrase"@.len() == 23);
    assert("--backend=systemd"@.len() == 17);
}

proof fn options_begin_with_a_dash(arg: Seq<char>)
    requires
        arg.len() == 0 || arg[0] != '-',
    ensures
        !is_set_option(arg),
{
    reveal_strlit("-n");
    reveal_strlit("-p");
    reveal_strlit("-P");
    reveal_strlit("--noecho");
    reveal_strlit("--require-passphrase");
    reveal_strlit("--no-require-passphrase");
    reveal_strlit("--backend=systemd");
    assert("-n"@[0] == '-' && "-p"@[0] == '-' && "-P"@[0] == '-' && "--noecho"@[0] == '-');
    assert("--require-passphrase"@[0] == '-' && "--no-require-passphrase"@[0] == '-');
    assert("--backend=systemd"@[0] == '-');
}

// ---- failures ----------------------------------------------------------------------

/// What ends a run early is told, with the variable it concerns: that nothing was
/// typed, that a value cannot be held by the environment, and every failure whole.
pub proof fn failed_sets_say_why(s: SetRunView, f: FailureView, reason: Seq<char>, t: PromptResultView)
    ensures
        match s {
            SetRunView::Prompt { ns, pid, noecho, prompt, var, rest, collected } => {
                &&& t.eof || t.value.contains(0) ==> (set_next(
                    s,
                    SetEventView::Typed(Ok(t)),
                ) matches SetRunView::Done { report, discard } && report.code == 1 && occurs(
                    var,
                    report.err,
                ))
                &&& (set_next(s, SetEventView::Typed(Err(f))) matches SetRunView::Done {
                    report,
                    discard,
                } && report.code == 1 && occurs(var, report.err) && occurs(f.message, report.err))
            },
            SetRunView::Dir { ns, pid, collected } => set_next(
                s,
                SetEventView::Dir(Err(f)),
            ) matches SetRunView::Done { report, discard } && report.code == 1 && occurs(
                f.message,
                report.err,
            ),
            SetRunView::Encrypt { place, var, job, rest, staged } => set_next(
                s,
                SetEventView::Encrypted(Err(reason)),
            ) matches SetRunView::Done { report, discard } && report.code == 1 && occurs(
                reason,
                report.err,
            ),
            SetRunView::Install { installed, job, rest } => set_next(
                s,
                SetEventView::Installed(Err(f)),
            ) matches SetRunView::Done { report, discard } && report.code == 1 && occurs(
                f.message,
                report.err,
            ),
            SetRunView::Done { report, discard } => true,
        },
{
    let (a, z) = ("credchain: "@, "\n"@);
    match s {
        SetRunView::Prompt { ns, pid, noecho, prompt, var, rest, collected } => {
            let b = "aborting --set: no value provided (EOF) for "@;
            told_within(a + b, var, z);
            assert(a + (b + var) + z =~= (a + b) + var + z);
            let c = "value for "@;
            let d = " contains a NUL byte; environment variables cannot contain NUL"@;
            told_within(a + c, var, d + z);
            assert(a + (c + var + d) + z =~= (a + c) + var + (d + z));
            let e = "failed to read value for "@;
            told_within(a + e, var, ": "@ + f.message + z);
            assert(a + (e + var + ": "@ + f.message) + z =~= (a + e) + var + (": "@ + f.message
                + z));
            told_within(a + (e + var + ": "@), f.message, z);
            assert(a + (e + var + ": "@ + f.message) + z =~= a + (e + var + ": "@) + f.message + z);
        },
        SetRunView::Dir { ns, pid, collected } => {
            let b = "failed to prepare namespace directory: "@;
            told_within(a + b, f.message, z);
            assert(a + (b + f.message) + z =~= (a + b) + f.message + z);
        },
        SetRunView::Encrypt { place, var, job, rest, staged } => {
            told_within(a, reason, z);
        },
        SetRunView::Install { installed, job, rest } => {
            let b = "failed to install credential: "@;
            told_within(a + b, f.message, z);
            assert(a + (b + f.message) + z =~= (a + b) + f.message + z);
        },
        SetRunView::Done { report, discard } => {},
    }
}

// ---- what stays as asked -----------------------------------------------------------

/// Every prompt of a run is without echo exactly if one of the options in front asks
/// for that.
pub proof fn the_echo_stays_as_asked(args: Seq<Seq<char>>, pid: u32, events: Seq<SetEventView>)
    ensures
        set_run(set_start(args, pid), events) matches SetRunView::Prompt {
            ns: _,
            pid: _,
            noecho,
            prompt: _,
            var: _,
            rest: _,
            collected: _,
        } ==> (noecho <==> exists|i: int|
            0 <= i < options_in_front(args) && (#[trigger] args[i] == "-n"@ || args[i]
                == "--noecho"@)),
    decreases events.len(),
{
    options_are_among_the_arguments(args);
    let n = options_in_front(args) as int;
    let options = args.take(n);
    if events.len() > 0 {
        the_echo_stays_as_asked(args, pid, events.drop_last());
    } else {
        if wants_noecho(options) {
            let i = choose|i: int| 0 <= i < options.len() && is_noecho(#[trigger] options[i]);
            assert(args[i] == options[i]);
        } else {
            assert forall|i: int| 0 <= i < n implies (#[trigger] args[i]) != "-n"@ && args[i]
                != "--noecho"@ by {
                assert(!is_noecho(options[i]));
            }
        }
    }
}

/// The files of some encryptions.
pub open spec fn outputs(jobs: Seq<EncryptJobView>) -> Seq<Seq<u8>> {
    jobs.map_values(|j: EncryptJobView| j.out_path)
}

spec fn all_outputs(jobs: Seq<InstallJobView>, files: Seq<Seq<u8>>) -> bool {
    forall|i: int| 0 <= i < jobs.len() ==> files.contains((#[trigger] jobs[i]).staging)
}

spec fn stagings_are_outputs(s: SetRunView, files: Seq<Seq<u8>>) -> bool {
    match s {
        SetRunView::Encrypt { place, var, job, rest, staged } => all_outputs(staged, files),
        SetRunView::Install { installed, job, rest } => all_outputs(installed, files)
            && files.contains(job.staging) && all_outputs(rest, files),
        SetRunView::Done { report, discard } => forall|i: int|
            0 <= i < discard.len() ==> files.contains(#[trigger] discard[i]),
        _ => true,
    }
}

proof fn stagings_stay_outputs(args: Seq<Seq<char>>, pid: u32, events: Seq<SetEventView>)
    ensures
        stagings_are_outputs(
            set_run(set_start(args, pid), events),
            outputs(tried(set_start(args, pid), events)),
        ),
    decreases events.len(),
{
    let start = set_start(args, pid);
    if events.len() > 0 {
        let before = events.drop_last();
        stagings_stay_outputs(args, pid, before);
        let s = set_run(start, before);
        let old_jobs = tried(start, before);
        let jobs = tried(start, events);
        let (old_files, files) = (outputs(old_jobs), outputs(jobs));
        assert forall|f: Seq<u8>| old_files.contains(f) implies files.contains(f) by {
            let i = choose|i: int| 0 <= i < old_files.len() && old_files[i] == f;
            assert(files[i] == f);
        }
        match (s, events.last()) {
            (SetRunView::Encrypt { place, var, job, rest, staged }, SetEventView::Encrypted(r)) => {
                assert(files[files.len() - 1] == job.out_path);
                match r {
                    Ok(_) => {
                        let now = staged.push(installation_of(place, var, job.out_path));
                        assert forall|i: int| 0 <= i < now.len() implies files.contains(
                            (#[trigger] now[i]).staging,
                        ) by {
                            if i < staged.len() {
                                assert(old_files.contains(staged[i].staging));
                            }
                        }
                    },
                    Err(_) => {
                        let gone = stagings(staged).push(job.out_path);
                        assert forall|i: int| 0 <= i < gone.len() implies files.contains(
                            #[trigger] gone[i],
                        ) by {
                            if i < staged.len() {
                                assert(old_files.contains(staged[i].staging));
                            }
                        }
                    },
                }
            },
            (SetRunView::Install { installed, job, rest }, SetEventView::Installed(r)) => {
                let now = installed.push(job) + rest;
                assert forall|i: int| 0 <= i < now.len() implies files.contains(
                    (#[trigger] now[i]).staging,
                ) by {
                    if i < installed.len() {
                        assert(old_files.contains(installed[i].staging));
                    } else if i > installed.len() {
                        assert(old_files.contains(rest[i - installed.len() - 1].staging));
                    }
                }
                if r is Ok && rest.len() > 0 {
                    assert(files.contains(rest[0].staging));
                    assert forall|i: int| 0 <= i < rest.drop_first().len() implies files.contains(
                        (#[trigger] rest.drop_first()[i]).staging,
                    ) by {
                        assert(rest.drop_first()[i] == rest[i + 1]);
                    }
                    assert(installed.push(job) =~= now.take(installed.len() as int + 1));
                    assert forall|i: int| 0 <= i < installed.len() + 1 implies files.contains(
                        (#[trigger] installed.push(job)[i]).staging,
                    ) by {
                        assert(installed.push(job)[i] == now[i]);
                    }
                }
            },
            _ => {},
        }
    }
}

/// A run marks for removal only files that it has tried to encrypt to: never a file
/// that went live, nor any other.
pub proof fn only_staging_files_are_discarded(
    args: Seq<Seq<char>>,
    pid: u32,
    events: Seq<SetEventView>,
)
    ensures
        set_run(set_start(args, pid), events) matches SetRunView::Done { report, discard }
            ==> forall|i: int| 0 <= i < discard.len() ==> {
            &&& outputs(tried(set_start(args, pid), events)).contains(#[trigger] discard[i])
            &&& forall|j: int|
                0 <= j < gone_live(set_start(args, pid), events).len() ==> discard[i] != (
                #[trigger] gone_live(set_start(args, pid), events)[j]).target
        },
{
    let start = set_start(args, pid);
    let jobs = tried(start, events);
    let live = gone_live(start, events);
    stagings_stay_outputs(args, pid, events);
    staging_paths_of_a_process_differ(args, pid, events);
    if let SetRunView::Done { report, discard } = set_run(start, events) {
        assert forall|i: int| 0 <= i < discard.len() implies {
            &&& outputs(jobs).contains(#[trigger] discard[i])
            &&& forall|j: int|
                0 <= j < live.len() ==> discard[i] != (#[trigger] live[j]).target
        } by {
            let k = choose|k: int| 0 <= k < outputs(jobs).len() && outputs(jobs)[k] == discard[i];
            assert(jobs[k].out_path == discard[i]);
        }
    }
}

// ---- options and names, in general ---------------------------------------------------

proof fn one_more_option(option: Seq<char>, args: Seq<Seq<char>>)
    requires
        is_set_option(option),
    ensures
        ({
            let all = seq![option] + args;
            let n = options_in_front(args) as int;
            &&& options_in_front(all) == n + 1
            &&& all.take(n + 1) == seq![option] + args.take(n)
            &&& all.skip(n + 1) == args.skip(n)
        }),
{
    let all = seq![option] + args;
    let n = options_in_front(args) as int;
    options_are_among_the_arguments(args);
    assert(all.drop_first() =~= args);
    assert(all.take(n + 1) =~= seq![option] + args.take(n));
    assert(all.skip(n + 1) =~= args.skip(n));
}

/// Some option says whether a passphrase is required.
pub open spec fn speaks_of_passphrases(options: Seq<Seq<char>>) -> bool {
    exists|i: int|
        0 <= i < options.len() && (#[trigger] options[i] == "-p"@ || options[i]
            == "--require-passphrase"@ || options[i] == "-P"@ || options[i]
            == "--no-require-passphrase"@)
}

proof fn earlier_options_are_overruled(option: Seq<char>, options: Seq<Seq<char>>)
    ensures
        wants_noecho(seq![option] + options) <==> is_noecho(option) || wants_noecho(options),
        wants_passphrase(seq![option] + options) == if speaks_of_passphrases(options) {
            wants_passphrase(options)
        } else {
            is_require(option)
        },
    decreases options.len(),
{
    let all = seq![option] + options;
    if is_noecho(option) {
        assert(is_noecho(all[0]));
    }
    if wants_noecho(options) {
        let i = choose|i: int| 0 <= i < options.len() && is_noecho(#[trigger] options[i]);
        assert(is_noecho(all[i + 1]));
    }
    if wants_noecho(all) {
        let i = choose|i: int| 0 <= i < all.len() && is_noecho(#[trigger] all[i]);
        if i > 0 {
            assert(is_noecho(options[i - 1]));
        }
    }
    if options.len() == 0 {
        assert(all =~= seq![option]);
        assert(seq![option].drop_last() =~= Seq::<Seq<char>>::empty());
        assert(!wants_passphrase(seq![option].drop_last()));
    } else {
        let front = options.drop_last();
        earlier_options_are_overruled(option, front);
        assert(all.drop_last() =~= seq![option] + front);
        assert(all.last() == options.last());
        let last = options[options.len() - 1];
        if speaks_of_passphrases(front) {
            let i = choose|i: int|
                0 <= i < front.len() && (#[trigger] front[i] == "-p"@ || front[i]
                    == "--require-passphrase"@ || front[i] == "-P"@ || front[i]
                    == "--no-require-passphrase"@);
            assert(options[i] == front[i]);
        } else if speaks_of_passphrases(options) {
            let i = choose|i: int|
                0 <= i < options.len() && (#[trigger] options[i] == "-p"@ || options[i]
                    == "--require-passphrase"@ || options[i] == "-P"@ || options[i]
                    == "--no-require-passphrase"@);
            if i < front.len() {
                assert(front[i] == options[i]);
            }
        } else {
            assert(last != "-p"@ && last != "--require-passphrase"@ && last != "-P"@ && last
                != "--no-require-passphrase"@);
        }
    }
}

/// Whatever options and names follow, one more option in front does what it says and
/// nothing else: `-P` and the backend change nothing, `-n` switches the echo off, and
/// `-p` is refused unless a later option speaks of passphrases too; the last one that
/// does so decides.
pub proof fn options_do_what_they_say(args: Seq<Seq<char>>, pid: u32)
    ensures
        set_start(seq!["-P"@] + args, pid) == set_start(args, pid),
        set_start(seq!["--no-require-passphrase"@] + args, pid) == set_start(args, pid),
        set_start(seq!["--backend=systemd"@] + args, pid) == set_start(args, pid),
        ({
            let later = speaks_of_passphrases(args.take(options_in_front(args) as int));
            let short = set_start(seq!["-p"@] + args, pid);
            let long = set_start(seq!["--require-passphrase"@] + args, pid);
            &&& short == long
            &&& later ==> short == set_start(args, pid)
            &&& !later ==> (short matches SetRunView::Done { report, discard } && report.code == 1
                && discard.len() == 0 && occurs("--require-passphrase is unsupported"@, report.err))
        }),
        ({
            let short = set_start(seq!["-n"@] + args, pid);
            let long = set_start(seq!["--noecho"@] + args, pid);
            &&& short == long
            &&& match set_start(args, pid) {
                SetRunView::Prompt { ns, pid: p, noecho, prompt, var, rest, collected } => short
                    == (SetRunView::Prompt {
                    ns,
                    pid: p,
                    noecho: true,
                    prompt,
                    var,
                    rest,
                    collected,
                }),
                other => short == other,
            }
        }),
{
    options_are_told_apart();
    let options = args.take(options_in_front(args) as int);
    one_more_option("-P"@, args);
    one_more_option("--no-require-passphrase"@, args);
    one_more_option("--backend=systemd"@, args);
    one_more_option("-p"@, args);
    one_more_option("--require-passphrase"@, args);
    one_more_option("-n"@, args);
    one_more_option("--noecho"@, args);
    earlier_options_are_overruled("-P"@, options);
    earlier_options_are_overruled("--no-require-passphrase"@, options);
    earlier_options_are_overruled("--backend=systemd"@, options);
    earlier_options_are_overruled("-p"@, options);
    earlier_options_are_overruled("--require-passphrase"@, options);
    earlier_options_are_overruled("-n"@, options);
    earlier_options_are_overruled("--noecho"@, options);
    silence_on_passphrases(options);
    let (a, z) = ("credchain: "@, "\n"@);
    let refusal = "--require-passphrase is unsupported by the systemd backend; systemd-creds has no per-item passphrase. Use --no-require-passphrase (the default) instead."@;
    reveal_strlit("--require-passphrase is unsupported");
    reveal_strlit(
        "--require-passphrase is unsupported by the systemd backend; systemd-creds has no per-item passphrase. Use --no-require-passphrase (the default) instead.",
    );
    let part = "--require-passphrase is unsupported"@;
    let tail = refusal.skip(35);
    assert(refusal =~= part + tail);
    told_within(a, part, tail + z);
    assert(a + refusal + z =~= a + part + (tail + z));
}

proof fn silence_on_passphrases(options: Seq<Seq<char>>)
    ensures
        !speaks_of_passphrases(options) ==> !wants_passphrase(options),
    decreases options.len(),
{
    if options.len() > 0 && !speaks_of_passphrases(options) {
        let front = options.drop_last();
        let last = options[options.len() - 1];
        assert(last != "-p"@ && last != "--require-passphrase"@ && last != "-P"@);
        if speaks_of_passphrases(front) {
            let i = choose|i: int|
                0 <= i < front.len() && (#[trigger] front[i] == "-p"@ || front[i]
                    == "--require-passphrase"@ || front[i] == "-P"@ || front[i]
                    == "--no-require-passphrase"@);
            assert(options[i] == front[i]);
        }
        silence_on_passphrases(front);
    }
}

/// Without a namespace and a variable, or with an invalid name, nothing is prompted for:
/// what is wrong is told, and the first invalid variable name is told whole.
pub proof fn invalid_names_are_not_set(args: Seq<Seq<char>>, pid: u32, k: int)
    requires
        args.len() == 0 || args[0].len() == 0 || args[0][0] != '-',
    ensures
        args.len() < 2 ==> (set_start(args, pid) matches SetRunView::Done { report, discard }
            && report.code == 2 && report.out.len() == 0 && discard.len() == 0),
        args.len() >= 2 && !valid_namespace(args[0]) ==> (set_start(
            args,
            pid,
        ) matches SetRunView::Done { report, discard } && report.code == 1 && report.out.len() == 0
            && discard.len() == 0 && occurs(namespace_complaint(args[0]), report.err)),
        args.len() >= 2 && valid_namespace(args[0]) && 1 <= k < args.len() && !valid_var(args[k])
            && (forall|i: int| 1 <= i < k ==> valid_var(#[trigger] args[i])) ==> (set_start(
            args,
            pid,
        ) matches SetRunView::Done { report, discard } && report.code == 1 && report.out.len() == 0
            && discard.len() == 0 && occurs(args[k], report.err) && occurs(
            var_complaint(args[k]),
            report.err,
        )),
{
    if args.len() > 0 {
        options_begin_with_a_dash(args[0]);
    }
    assert(options_in_front(args) == 0);
    assert(args.take(0) =~= Seq::<Seq<char>>::empty());
    assert(args.skip(0) =~= args);
    let (a, z) = ("credchain: "@, "\n"@);
    if args.len() >= 2 && !valid_namespace(args[0]) {
        let b = "invalid namespace: "@;
        let m = namespace_complaint(args[0]);
        told_within(a + b, m, z);
        assert(a + (b + m) + z =~= (a + b) + m + z);
    } else if args.len() >= 2 && 1 <= k < args.len() && !valid_var(args[k]) && (forall|i: int|
        1 <= i < k ==> valid_var(#[trigger] args[i])) {
        let names = args.drop_first();
        assert forall|i: int| 0 <= i < k - 1 implies valid_var(#[trigger] names[i]) by {
            assert(names[i] == args[i + 1]);
        }
        the_first_invalid_name(names, k - 1);
        let b = "invalid variable name '"@;
        let v = args[k];
        let m = var_complaint(v);
        let all = a + (b + v + "': "@ + m) + z;
        told_within(a + b, v, "': "@ + m + z);
        assert(all =~= (a + b) + v + ("': "@ + m + z));
        told_within(a + b + v + "': "@, m, z);
        assert(all =~= (a + b + v + "': "@) + m + z);
    }
}

proof fn the_first_invalid_name(names: Seq<Seq<char>>, k: int)
    requires
        0 <= k < names.len(),
        !valid_var(names[k]),
        forall|i: int| 0 <= i < k ==> valid_var(#[trigger] names[i]),
    ensures
        first_invalid(names) == Some(names[k]),
    decreases names.len(),
{
    if k > 0 {
        let tail = names.drop_first();
        assert(valid_var(names[0]));
        assert forall|i: int| 0 <= i < k - 1 implies valid_var(#[trigger] tail[i]) by {
            assert(tail[i] == names[i + 1]);
        }
        the_first_invalid_name(tail, k - 1);
    }
}

} // verus!
