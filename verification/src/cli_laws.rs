//! What the program promises from its arguments to the end of a run.

use vstd::prelude::*;

use crate::cli::{
    behind_backend, command_of, exec_command, flag_owner, listed_namespaces_are_valid,
    namespaces_of, unknown_option, CommandView,
};
use crate::exec::{exec_start, ExecEventView, ExecView};
use crate::exec_laws::{
    calm_exec, env_value, exec_run, found, in_a_row, last_held, loads, names_differ, ready_to_run,
    resolutions, targets_run_with_every_secret, targets_run_with_what_is_held,
    the_later_of_two_namespaces_wins, Held,
};
use crate::list::{one_namespace_is_listed, ListView};
use crate::report::{complaint_of, help_of, ReportView, VERSION};
use crate::set::{to_prompts, SetEventView, SetRunView};
use crate::set_laws::{
    calm_set, calm_sets_succeed, encrypted, found_dir, gone_live, log_is_faithful,
    options_leave_the_names, set_run, typed, what_is_typed_is_stored,
};
use crate::store::{namespace_complaint, valid_namespace, valid_var};
use crate::text::{
    joined_parts, joined_parts_read_back, occurs, split_on, splitting_loses_nothing, told_last,
    told_within, trimmed, trimming_keeps_the_text, white_space,
};
use crate::unset::{
    removed, unset_removes_what_is_named, unset_run, unset_start, UnsetEventView, UnsetView,
};
use crate::unset_laws::{calm_unset, calm_unsets_succeed, removed_files, VarFile};

verus! {

// ---- options of the program --------------------------------------------------------

/// An argument that is no option: it does not begin with a dash, or is a dash alone.
pub open spec fn no_option(arg: Seq<char>) -> bool {
    arg.len() == 0 || arg[0] != '-' || arg.len() == 1
}

/// The options of the program, written out.
proof fn options_are_spelled()
    ensures
        "--set"@ == seq!['-', '-', 's', 'e', 't'],
        "-s"@ == seq!['-', 's'],
        "--list"@ == seq!['-', '-', 'l', 'i', 's', 't'],
        "-l"@ == seq!['-', 'l'],
        "--unset"@ == seq!['-', '-', 'u', 'n', 's', 'e', 't'],
        "-u"@ == seq!['-', 'u'],
        "--version"@ == seq!['-', '-', 'v', 'e', 'r', 's', 'i', 'o', 'n'],
        "--help"@ == seq!['-', '-', 'h', 'e', 'l', 'p'],
        "-h"@ == seq!['-', 'h'],
        "--backend"@ == seq!['-', '-', 'b', 'a', 'c', 'k', 'e', 'n', 'd'],
        "--backend="@ == seq!['-', '-', 'b', 'a', 'c', 'k', 'e', 'n', 'd', '='],
        "--backend=systemd"@.len() == 17,
        "--backend=systemd"@.take(10) == "--backend="@,
        "-"@ == seq!['-'],
{
    reveal_strlit("--set");
    reveal_strlit("-s");
    reveal_strlit("--list");
    reveal_strlit("-l");
    reveal_strlit("--unset");
    reveal_strlit("-u");
    reveal_strlit("--version");
    reveal_strlit("--help");
    reveal_strlit("-h");
    reveal_strlit("--backend");
    reveal_strlit("--backend=");
    reveal_strlit("--backend=systemd");
    reveal_strlit("-");
    assert("--set"@ =~= seq!['-', '-', 's', 'e', 't']);
    assert("-s"@ =~= seq!['-', 's']);
    assert("--list"@ =~= seq!['-', '-', 'l', 'i', 's', 't']);
    assert("-l"@ =~= seq!['-', 'l']);
    assert("--unset"@ =~= seq!['-', '-', 'u', 'n', 's', 'e', 't']);
    assert("-u"@ =~= seq!['-', 'u']);
    assert("--version"@ =~= seq!['-', '-', 'v', 'e', 'r', 's', 'i', 'o', 'n']);
    assert("--help"@ =~= seq!['-', '-', 'h', 'e', 'l', 'p']);
    assert("-h"@ =~= seq!['-', 'h']);
    assert("--backend"@ =~= seq!['-', '-', 'b', 'a', 'c', 'k', 'e', 'n', 'd']);
    assert("--backend="@ =~= seq!['-', '-', 'b', 'a', 'c', 'k', 'e', 'n', 'd', '=']);
    assert("--backend=systemd"@.take(10) =~= "--backend="@);
    assert("-"@ =~= seq!['-']);
}

proof fn no_option_is_told(arg: Seq<char>)
    requires
        no_option(arg),
    ensures
        arg != "--set"@,
        arg != "-s"@,
        arg != "--list"@,
        arg != "-l"@,
        arg != "--unset"@,
        arg != "-u"@,
        arg != "--version"@,
        arg != "--help"@,
        arg != "-h"@,
        arg != "--backend"@,
        arg != "--backend=systemd"@,
        !"--backend="@.is_prefix_of(arg),
        "-"@.is_prefix_of(arg) ==> arg == "-"@,
{
    options_are_spelled();
    assert("--backend=systemd"@[0] == "--backend=systemd"@.take(10)[0]);
    if "--backend="@.is_prefix_of(arg) {
        assert(arg.subrange(0, 10)[0] == arg[0]);
    }
    if "-"@.is_prefix_of(arg) {
        assert(arg.subrange(0, 1)[0] == arg[0]);
        assert(arg =~= "-"@);
    }
}

/// Options for the backend `systemd` in front of the arguments change nothing, however
/// many they are; any other backend is refused, and so is none. Arguments that do
/// not begin with an option are taken as they are.
pub proof fn backend_options_change_nothing(args: Seq<Seq<char>>, other: Seq<char>)
    ensures
        behind_backend(seq!["--backend=systemd"@] + args) == behind_backend(args),
        behind_backend(seq!["--backend"@, "systemd"@] + args) == behind_backend(args),
        args.len() == 0 || no_option(args[0]) ==> behind_backend(args) == Some(args),
        other != "systemd"@ ==> behind_backend(seq!["--backend"@, other] + args) is None,
        other != "systemd"@ ==> behind_backend(seq!["--backend="@ + other] + args) is None,
        behind_backend(seq!["--backend"@]) is None,
{
    options_are_spelled();
    let a = seq!["--backend=systemd"@] + args;
    assert(a.drop_first() =~= args);
    let b = seq!["--backend"@, "systemd"@] + args;
    assert(b.skip(2) =~= args);
    assert("--backend"@ != "--backend=systemd"@);
    if args.len() > 0 && no_option(args[0]) {
        no_option_is_told(args[0]);
    }
    let c = "--backend="@ + other;
    assert(c.subrange(0, 10) =~= "--backend="@);
    if other != "systemd"@ {
        reveal_strlit("--backend=systemd");
        reveal_strlit("systemd");
        assert(c != "--backend=systemd"@) by {
            if c == "--backend=systemd"@ {
                assert(c.skip(10) =~= other);
                assert("--backend=systemd"@.skip(10) =~= "systemd"@);
            }
        }
        if c == "--backend"@ {
            assert(c.len() >= 10);
        }
    }
}

// ---- exec mode -----------------------------------------------------------------------

proof fn lists_are_read(parts: Seq<Seq<char>>)
    ensures
        match namespaces_of(parts) {
            Ok(names) => {
                &&& names == Seq::new(parts.len(), |i: int| trimmed(parts[i]))
                &&& forall|i: int|
                    0 <= i < parts.len() ==> valid_namespace(trimmed(#[trigger] parts[i]))
            },
            Err(r) => {
                &&& r.code == 2
                &&& r.out.len() == 0
                &&& exists|i: int|
                    0 <= i < parts.len() && !valid_namespace(trimmed(#[trigger] parts[i]))
            },
        },
    decreases parts.len(),
{
    listed_namespaces_are_valid(parts);
    if parts.len() > 0 {
        let front = parts.drop_last();
        lists_are_read(front);
        match namespaces_of(parts) {
            Ok(names) => {
                assert(names =~= Seq::new(parts.len(), |i: int| trimmed(parts[i])));
                assert forall|i: int| 0 <= i < parts.len() implies valid_namespace(
                    trimmed(#[trigger] parts[i]),
                ) by {
                    assert(valid_namespace(names[i]));
                }
            },
            Err(r) => {
                if namespaces_of(front) is Err {
                    let i = choose|i: int|
                        0 <= i < front.len() && !valid_namespace(trimmed(#[trigger] front[i]));
                    assert(!valid_namespace(trimmed(parts[i])));
                } else {
                    assert(!valid_namespace(trimmed(parts[parts.len() - 1])));
                }
            },
        }
    } else {
        assert(namespaces_of(parts)->Ok_0 =~= Seq::new(parts.len(), |i: int| trimmed(parts[i])));
    }
}

/// Every part of a list, without the white space around it, is a valid namespace.
pub open spec fn lists_namespaces(list: Seq<char>) -> bool {
    forall|i: int|
        0 <= i < split_on(list, ',').len() ==> valid_namespace(
            trimmed(#[trigger] split_on(list, ',')[i]),
        )
}

/// Without options in front, the program takes its first argument as a list of
/// namespaces and the others as the command: exec mode starts on the parts between
/// the commas, without the white space around them, in the order of the list, and
/// with the arguments from the second on. If a part is no valid namespace, nothing is
/// run.
pub proof fn exec_mode_takes_the_list_in_order(args: Seq<Seq<char>>, pid: u32)
    requires
        args.len() >= 2,
        no_option(args[0]),
    ensures
        ({
            let parts = split_on(args[0], ',');
            if lists_namespaces(args[0]) {
                &&& command_of(args, pid) == CommandView::Exec(
                    exec_start(Seq::new(parts.len(), |i: int| trimmed(parts[i])), args.skip(1)),
                )
                &&& command_of(args, pid) matches CommandView::Exec(ExecView::Exists(plan))
                    && plan.argv == args.skip(1) && plan.ns == trimmed(parts[0]) && plan.rest.len()
                    == parts.len() - 1 && plan.env.len() == 0 && forall|i: int|
                    0 <= i < plan.rest.len() ==> #[trigger] plan.rest[i] == trimmed(parts[i + 1])
            } else {
                command_of(args, pid) matches CommandView::Done(r) && r.code == 2 && r.out.len()
                    == 0
            }
        }),
{
    let parts = split_on(args[0], ',');
    let names = Seq::new(parts.len(), |i: int| trimmed(parts[i]));
    no_option_is_told(args[0]);
    backend_options_change_nothing(args, Seq::empty());
    splitting_loses_nothing(args[0], ',');
    lists_are_read(parts);
    assert(args.skip(1) =~= args.drop_first());
    assert(command_of(args, pid) == exec_command(args));
    match namespaces_of(parts) {
        Ok(n) => {
            assert(lists_namespaces(args[0]));
            assert(n == names);
        },
        Err(r) => {
            let i = choose|i: int|
                0 <= i < parts.len() && !valid_namespace(trimmed(#[trigger] parts[i]));
            assert(!valid_namespace(trimmed(split_on(args[0], ',')[i])));
            assert(!lists_namespaces(args[0]));
        },
    }
}

/// In front of a list of namespaces and a command, or of further backend options, the
/// backend option changes nothing, in either form; another backend is refused.
pub proof fn exec_mode_ignores_the_backend(args: Seq<Seq<char>>, other: Seq<char>, pid: u32)
    requires
        args.len() >= 2,
        no_option(args[0]) || args[0] == "--backend"@ || "--backend="@.is_prefix_of(args[0]),
    ensures
        command_of(seq!["--backend=systemd"@] + args, pid) == command_of(args, pid),
        command_of(seq!["--backend"@, "systemd"@] + args, pid) == command_of(args, pid),
        other != "systemd"@ ==> (command_of(
            seq!["--backend="@ + other] + args,
            pid,
        ) matches CommandView::Done(r) && r.code == 2 && r.out.len() == 0),
        other != "systemd"@ ==> (command_of(
            seq!["--backend"@, other] + args,
            pid,
        ) matches CommandView::Done(r) && r.code == 2 && r.out.len() == 0),
{
    options_are_spelled();
    if no_option(args[0]) {
        no_option_is_told(args[0]);
    }
    if "--backend="@.is_prefix_of(args[0]) {
        assert(args[0].subrange(0, 10)[2] == args[0][2]);
    }
    backend_options_change_nothing(args, other);
    let a = "--backend=systemd"@;
    assert(a[2] == a.take(10)[2]);
    assert(a.subrange(0, 10) =~= "--backend="@);
    let b = "--backend="@ + other;
    assert(b[2] == 'b');
    assert(b.subrange(0, 10) =~= "--backend="@);
    assert((seq![a] + args)[0] == a);
    assert((seq![b] + args)[0] == b);
    assert((seq!["--backend"@, "systemd"@] + args)[0] == "--backend"@);
    assert((seq!["--backend"@, other] + args)[0] == "--backend"@);
    assert(command_of(args, pid) == exec_command(args));
}

/// The arguments of a run on some namespaces: their names with commas between them,
/// and the command behind.
pub open spec fn exec_args(namespaces: Seq<Seq<char>>, command: Seq<Seq<char>>) -> Seq<Seq<char>> {
    seq![joined_parts(namespaces, ',')] + command
}

proof fn names_are_not_blank(ns: Seq<char>)
    requires
        valid_namespace(ns),
    ensures
        trimmed(ns) == ns,
        !ns.contains(','),
{
    let none = Seq::<char>::empty();
    assert(!white_space(ns[0]));
    assert(!white_space(ns[ns.len() - 1]));
    assert(none + ns + none =~= ns);
    trimming_keeps_the_text(none, ns, none);
}

proof fn joined_lists_start_alike(names: Seq<Seq<char>>)
    requires
        names.len() > 0,
        names[0].len() > 0,
    ensures
        joined_parts(names, ',').len() > 0,
        joined_parts(names, ',')[0] == names[0][0],
    decreases names.len(),
{
    if names.len() > 1 {
        assert(names.drop_last()[0] == names[0]);
        joined_lists_start_alike(names.drop_last());
    }
}

proof fn joined_lists_start_exec_mode(
    namespaces: Seq<Seq<char>>,
    command: Seq<Seq<char>>,
    pid: u32,
)
    requires
        namespaces.len() > 0,
        command.len() > 0,
        forall|i: int| 0 <= i < namespaces.len() ==> valid_namespace(#[trigger] namespaces[i]),
        namespaces[0][0] != '-',
    ensures
        command_of(exec_args(namespaces, command), pid) == CommandView::Exec(
            exec_start(namespaces, command),
        ),
{
    let args = exec_args(namespaces, command);
    assert(valid_namespace(namespaces[0]));
    joined_lists_start_alike(namespaces);
    assert forall|i: int| 0 <= i < namespaces.len() implies !(#[trigger] namespaces[i]).contains(
        ',',
    ) by {
        names_are_not_blank(namespaces[i]);
    }
    joined_parts_read_back(namespaces, ',');
    let parts = split_on(args[0], ',');
    assert(parts == namespaces);
    assert forall|i: int| 0 <= i < parts.len() implies valid_namespace(
        trimmed(#[trigger] parts[i]),
    ) by {
        names_are_not_blank(namespaces[i]);
    }
    exec_mode_takes_the_list_in_order(args, pid);
    assert(Seq::new(parts.len(), |i: int| trimmed(parts[i])) =~= namespaces) by {
        assert forall|i: int| 0 <= i < parts.len() implies trimmed(#[trigger] parts[i])
            == namespaces[i] by {
            names_are_not_blank(namespaces[i]);
        }
    }
    assert(args.skip(1) =~= command);
}

/// From the arguments to the run: given the names of some namespaces with commas
/// between them, and a command, the command is run as given only when each of the
/// namespaces was found and listed, in the order of the list, and each of their
/// variables was resolved; its environment holds the value that came last for each
/// name. Where the namespaces hold the given variables and nothing fails, it is run,
/// and its environment holds the value of the last namespace that has a name.
pub proof fn programs_run_with_what_their_namespaces_hold(
    namespaces: Seq<Seq<char>>,
    command: Seq<Seq<char>>,
    contents: Seq<Seq<Held>>,
    events: Seq<ExecEventView>,
    pid: u32,
)
    requires
        namespaces.len() > 0,
        command.len() > 0,
        forall|i: int| 0 <= i < namespaces.len() ==> valid_namespace(#[trigger] namespaces[i]),
        namespaces[0][0] != '-',
        contents.len() == namespaces.len(),
        forall|i: int, j: int|
            0 <= i < contents.len() && 0 <= j < contents[i].len() ==> valid_var(
                (#[trigger] contents[i][j]).var,
            ),
        forall|i: int, j: int|
            0 <= i < contents.len() && 0 <= j < contents[i].len()
                ==> !(#[trigger] contents[i][j]).value.contains(0),
    ensures
        command_of(exec_args(namespaces, command), pid) matches CommandView::Exec(s) && {
            &&& exec_run(s, events) matches ExecView::Run { argv, env } ==> ready_to_run(
                argv,
                env,
                namespaces,
                command,
                found(s, events),
                loads(s, events),
                resolutions(s, events),
            )
            &&& exec_run(s, calm_exec(contents)) matches ExecView::Run { argv, env } && argv
                == command && names_differ(env) && forall|name: Seq<char>| #[trigger]
                env_value(env, name) == last_held(in_a_row(contents), name)
        },
{
    joined_lists_start_exec_mode(namespaces, command, pid);
    targets_run_with_every_secret(namespaces, command, events);
    targets_run_with_what_is_held(namespaces, command, contents);
}

/// Of two namespaces on the command line that both hold a variable, the second gives
/// its value to the command; a variable that only one of them holds has the value
/// from there.
pub proof fn the_second_namespace_on_the_command_line_wins(
    first: Seq<char>,
    second: Seq<char>,
    command: Seq<Seq<char>>,
    a: Seq<Held>,
    b: Seq<Held>,
    name: Seq<char>,
    pid: u32,
)
    requires
        command.len() > 0,
        valid_namespace(first),
        valid_namespace(second),
        first[0] != '-',
        forall|j: int|
            0 <= j < a.len() ==> valid_var((#[trigger] a[j]).var) && !a[j].value.contains(0),
        forall|j: int|
            0 <= j < b.len() ==> valid_var((#[trigger] b[j]).var) && !b[j].value.contains(0),
    ensures
        command_of(seq![first + ","@ + second] + command, pid) matches CommandView::Exec(s)
            && exec_run(s, calm_exec(seq![a, b])) matches ExecView::Run { argv, env } && argv
            == command && env_value(env, name) == match last_held(b, name) {
            Some(value) => Some(value),
            None => last_held(a, name),
        },
{
    let names = seq![first, second];
    assert forall|i: int| 0 <= i < names.len() implies valid_namespace(#[trigger] names[i]) by {
        assert(names[i] == first || names[i] == second);
    }
    joined_lists_start_exec_mode(names, command, pid);
    reveal_strlit(",");
    assert(names.drop_last() =~= seq![first]);
    assert(joined_parts(seq![first], ',') == first);
    assert(joined_parts(names, ',') =~= first + ","@ + second);
    the_later_of_two_namespaces_wins(first, second, command, a, b, name);
}

// ---- the other commands ----------------------------------------------------------------

/// `--unset NAMESPACE ENV ...` removes what is named: however a run goes, the
/// variables that were removed are the first of those from the third argument on, in
/// their order, and all of them if it ends with success. Where the names are valid
/// and nothing fails, it does.
pub proof fn programs_unset_what_is_named(
    args: Seq<Seq<char>>,
    events: Seq<UnsetEventView>,
    paths: Seq<Seq<u8>>,
    pid: u32,
)
    requires
        args.len() >= 3,
        args[0] == "--unset"@ || args[0] == "-u"@,
        paths.len() == args.len() - 2,
    ensures
        command_of(args, pid) matches CommandView::Unset(s) && {
            &&& removed(s, events).is_prefix_of(args.skip(2))
            &&& unset_run(s, events) matches UnsetView::Done(r) ==> (r.code == 0 ==> removed(
                s,
                events,
            ) == args.skip(2))
            &&& valid_namespace(args[1]) && (forall|i: int|
                2 <= i < args.len() ==> valid_var(#[trigger] args[i])) ==> (unset_run(
                s,
                calm_unset(paths),
            ) matches UnsetView::Done(r) && r.code == 0 && removed_files(s, calm_unset(paths))
                == Seq::new(paths.len(), |i: int| VarFile { var: args[i + 2], path: paths[i] }))
        },
{
    options_are_spelled();
    let rest = args.drop_first();
    assert(command_of(args, pid) == CommandView::Unset(unset_start(rest)));
    unset_removes_what_is_named(rest, events);
    assert(rest.drop_first() =~= args.skip(2));
    let gone = removed(unset_start(rest), events);
    match unset_run(unset_start(rest), events) {
        UnsetView::Done(_) => {},
        s => {
            assert(gone.is_prefix_of(args.skip(2)));
        },
    }
    if valid_namespace(args[1]) && (forall|i: int|
        2 <= i < args.len() ==> valid_var(#[trigger] args[i])) {
        assert forall|i: int| 1 <= i < rest.len() implies valid_var(#[trigger] rest[i]) by {
            assert(rest[i] == args[i + 1]);
        }
        calm_unsets_succeed(rest, paths);
        assert(Seq::new(paths.len(), |i: int| VarFile { var: rest[i + 1], path: paths[i] })
            =~= Seq::new(paths.len(), |i: int| VarFile { var: args[i + 2], path: paths[i] }));
    }
}

/// `--set NAMESPACE ENV ...` prompts for the named variables, in their order, and
/// stores what is typed: see [`log_is_faithful`]. Success means that all were
/// stored; where a value is typed for each and nothing fails, the run succeeds. `-n`
/// between the command and the names switches the echo off and changes nothing else.
pub proof fn programs_set_what_is_named(
    args: Seq<Seq<char>>,
    events: Seq<SetEventView>,
    values: Seq<Seq<u8>>,
    dir: Seq<u8>,
    pid: u32,
)
    requires
        args.len() >= 3,
        args[0] == "--set"@ || args[0] == "-s"@,
        valid_namespace(args[1]),
        args[1][0] != '-',
        forall|i: int| 2 <= i < args.len() ==> valid_var(#[trigger] args[i]),
        values.len() == args.len() - 2,
        forall|i: int| 0 <= i < values.len() ==> !(#[trigger] values[i]).contains(0),
    ensures
        command_of(args, pid) == CommandView::SetVars(
            to_prompts(args[1], pid, false, args.skip(2), Seq::empty()),
        ),
        command_of(seq![args[0], "-n"@] + args.skip(1), pid) == CommandView::SetVars(
            to_prompts(args[1], pid, true, args.skip(2), Seq::empty()),
        ),
        command_of(seq![args[0], "--noecho"@] + args.skip(1), pid) == CommandView::SetVars(
            to_prompts(args[1], pid, true, args.skip(2), Seq::empty()),
        ),
        command_of(args, pid) matches CommandView::SetVars(s) && {
            &&& log_is_faithful(
                args[1],
                args.skip(2),
                found_dir(s, events),
                typed(s, events),
                encrypted(s, events),
                gone_live(s, events),
            )
            &&& set_run(s, events) matches SetRunView::Done { report, discard } ==> (report.code
                == 0 ==> gone_live(s, events).len() == args.len() - 2)
            &&& set_run(s, calm_set(values, dir)) matches SetRunView::Done { report, discard }
                && report.code == 0
        },
{
    options_are_spelled();
    let rest = args.drop_first();
    assert forall|i: int| 1 <= i < rest.len() implies valid_var(#[trigger] rest[i]) by {
        assert(rest[i] == args[i + 1]);
    }
    options_leave_the_names(rest, pid);
    assert(rest.drop_first() =~= args.skip(2));
    assert((seq![args[0], "-n"@] + args.skip(1)).drop_first() =~= seq!["-n"@] + rest);
    assert((seq![args[0], "--noecho"@] + args.skip(1)).drop_first() =~= seq!["--noecho"@] + rest);
    assert((seq![args[0], "-n"@] + args.skip(1))[0] == args[0]);
    assert((seq![args[0], "--noecho"@] + args.skip(1))[0] == args[0]);
    what_is_typed_is_stored(rest, pid, events);
    assert(rest.skip(0) =~= rest);
    calm_sets_succeed(rest, pid, values, dir);
}

/// `--list` lists the namespaces, `--list NAMESPACE` the variables of that namespace.
pub proof fn programs_list_what_is_named(ns: Seq<char>, pid: u32)
    requires
        valid_namespace(ns),
        ns[0] != '-',
    ensures
        command_of(seq!["--list"@], pid) == CommandView::List(ListView::Namespaces),
        command_of(seq!["-l"@], pid) == CommandView::List(ListView::Namespaces),
        command_of(seq!["--list"@, ns], pid) == CommandView::List(ListView::Vars(ns)),
        command_of(seq!["-l"@, ns], pid) == CommandView::List(ListView::Vars(ns)),
{
    options_are_spelled();
    one_namespace_is_listed(ns);
    let none = Seq::<Seq<char>>::empty();
    assert(seq!["--list"@].drop_first() =~= none);
    assert(seq!["-l"@].drop_first() =~= none);
    assert(seq!["--list"@, ns].drop_first() =~= seq![ns]);
    assert(seq!["-l"@, ns].drop_first() =~= seq![ns]);
}

/// The version goes to stdout, the help to stderr, both with success, whatever
/// follows. Without arguments, or with a list of namespaces and no command, the
/// help is shown as an error.
pub proof fn version_and_help_are_told(rest: Seq<Seq<char>>, list: Seq<char>, pid: u32)
    requires
        no_option(list),
    ensures
        command_of(seq!["--version"@] + rest, pid) matches CommandView::Done(r) && r.code == 0
            && r.out == "credchain "@ + VERSION@ + "\n"@ && r.err.len() == 0,
        command_of(seq!["--help"@] + rest, pid) matches CommandView::Done(r) && r.code == 0
            && r.out.len() == 0 && r.err == help_of(),
        command_of(seq!["-h"@] + rest, pid) matches CommandView::Done(r) && r.code == 0
            && r.out.len() == 0 && r.err == help_of(),
        command_of(Seq::empty(), pid) matches CommandView::Done(r) && r.code == 2 && r.out.len()
            == 0 && r.err == help_of(),
        command_of(seq![list], pid) matches CommandView::Done(r) && r.code == 2 && r.out.len() == 0
            && help_of().is_suffix_of(r.err),
{
    options_are_spelled();
    no_option_is_told(list);
    assert((seq!["--version"@] + rest)[0] == "--version"@);
    assert((seq!["--help"@] + rest)[0] == "--help"@);
    assert((seq!["-h"@] + rest)[0] == "-h"@);
    backend_options_change_nothing(seq![list], Seq::empty());
    told_last("credchain: "@ + "no command given"@ + "\n"@, help_of());
}

/// An option that is none of the program's is refused, and told whole. If it is one
/// of a command, the message says of which.
pub proof fn unknown_options_are_told(flag: Seq<char>, rest: Seq<Seq<char>>, pid: u32)
    requires
        flag.len() >= 2,
        flag[0] == '-',
        flag != "--set"@ && flag != "-s"@ && flag != "--list"@ && flag != "-l"@,
        flag != "--unset"@ && flag != "-u"@ && flag != "--version"@ && flag != "--help"@,
        flag != "-h"@ && flag != "--backend"@ && !"--backend="@.is_prefix_of(flag),
    ensures
        command_of(seq![flag] + rest, pid) matches CommandView::Done(r) && {
            &&& r.code == 2
            &&& r.out.len() == 0
            &&& occurs("unknown option: "@ + flag, r.err)
            &&& flag == "-n"@ || flag == "--noecho"@ || flag == "-p"@ || flag
                == "--require-passphrase"@ || flag == "-P"@ || flag == "--no-require-passphrase"@
                ==> occurs(flag + " is an option of "@ + "--set"@, r.err)
            &&& flag == "-v"@ || flag == "--show-value"@ ==> occurs(
                flag + " is an option of "@ + "--list"@,
                r.err,
            )
        },
{
    options_are_spelled();
    let args = seq![flag] + rest;
    assert(args[0] == flag);
    assert(flag.subrange(0, 1) =~= "-"@);
    let (a, z) = ("credchain: "@, "\n"@ + help_of());
    let u = "unknown option: "@ + flag;
    let text = unknown_option(flag);
    let err = a + text + "\n"@ + help_of();
    match flag_owner(flag) {
        None => {
            told_within(a, u, z);
            assert(err =~= a + u + z);
        },
        Some(owner) => {
            let y = "\ncredchain: "@;
            let k = flag + " is an option of "@ + owner;
            let x = "; it must come after it, e.g. `credchain "@ + owner + " "@ + flag + " ...`"@;
            told_within(a, u, y + k + x + z);
            assert(err =~= a + u + (y + k + x + z));
            told_within(a + u + y, k, x + z);
            assert(err =~= (a + u + y) + k + (x + z));
        },
    }
    reveal_strlit("-v");
    reveal_strlit("--show-value");
    reveal_strlit("-n");
    reveal_strlit("--noecho");
    reveal_strlit("-p");
    reveal_strlit("--require-passphrase");
    reveal_strlit("-P");
    reveal_strlit("--no-require-passphrase");
    assert("-v"@[1] == 'v' && "-n"@[1] == 'n' && "-p"@[1] == 'p' && "-P"@[1] == 'P');
    assert("-v"@.len() == 2 && "--show-value"@.len() == 12 && "--noecho"@.len() == 8);
    assert("--require-passphrase"@.len() == 20 && "--no-require-passphrase"@.len() == 23);
}

/// A backend option alone, or with a list of namespaces and no command, runs nothing.
pub proof fn a_command_is_needed(list: Seq<char>, pid: u32)
    requires
        no_option(list),
    ensures
        command_of(seq!["--backend"@], pid) matches CommandView::Done(r) && r.code == 2
            && r.out.len() == 0,
        command_of(seq!["--backend=systemd"@], pid) matches CommandView::Done(r) && r.code == 2
            && r.out.len() == 0,
        command_of(seq!["--backend=systemd"@, list], pid) matches CommandView::Done(r) && r.code
            == 2 && r.out.len() == 0,
        command_of(seq!["--backend"@, "systemd"@, list], pid) matches CommandView::Done(r)
            && r.code == 2 && r.out.len() == 0,
{
    options_are_spelled();
    no_option_is_told(list);
    let one = seq![list];
    backend_options_change_nothing(one, Seq::empty());
    let a = "--backend=systemd"@;
    assert(a[2] == a.take(10)[2]);
    assert(a.subrange(0, 10) =~= "--backend="@);
    assert(seq![a, list] =~= seq![a] + one);
    assert(seq!["--backend"@, "systemd"@, list] =~= seq!["--backend"@, "systemd"@] + one);
}

/// The first part of a list that is no valid namespace is told, and what is wrong with
/// it; an empty one is told as such.
pub proof fn refused_lists_name_the_part(args: Seq<Seq<char>>, k: int, pid: u32)
    requires
        args.len() >= 2,
        no_option(args[0]),
        0 <= k < split_on(args[0], ',').len(),
        !valid_namespace(trimmed(split_on(args[0], ',')[k])),
        forall|i: int|
            0 <= i < k ==> valid_namespace(trimmed(#[trigger] split_on(args[0], ',')[i])),
    ensures
        ({
            let part = trimmed(split_on(args[0], ',')[k]);
            command_of(args, pid) matches CommandView::Done(r) && r.code == 2 && r.out.len() == 0
                && if part.len() == 0 {
                occurs("empty namespace"@, r.err)
            } else {
                occurs("'"@ + part + "'"@, r.err) && occurs(namespace_complaint(part), r.err)
            }
        }),
{
    let parts = split_on(args[0], ',');
    let part = trimmed(parts[k]);
    no_option_is_told(args[0]);
    backend_options_change_nothing(args, Seq::empty());
    assert(command_of(args, pid) == exec_command(args));
    the_first_bad_part_decides(parts, k);
    let (a, z) = ("credchain: "@, "\n"@);
    if part.len() == 0 {
        reveal_strlit("empty namespace in list");
        reveal_strlit("empty namespace");
        let m = "empty namespace in list"@;
        let e = "empty namespace"@;
        let tail = m.skip(15);
        assert(m =~= e + tail);
        told_within(a, e, tail + z);
        assert(a + m + z =~= a + e + (tail + z));
    } else {
        let c = namespace_complaint(part);
        let m = "invalid namespace '"@ + part + "': "@ + c;
        reveal_strlit("invalid namespace '");
        reveal_strlit("': ");
        reveal_strlit("'");
        let b = "invalid namespace '"@.take(18);
        let quoted = "'"@ + part + "'"@;
        let d = "': "@.skip(1);
        assert("invalid namespace '"@ =~= b + "'"@);
        assert("': "@ =~= "'"@ + d);
        told_within(a + b, quoted, d + c + z);
        assert(a + m + z =~= (a + b) + quoted + (d + c + z));
        told_within(a + b + quoted + d, c, z);
        assert(a + m + z =~= (a + b + quoted + d) + c + z);
    }
}

proof fn the_first_bad_part_decides(parts: Seq<Seq<char>>, k: int)
    requires
        0 <= k < parts.len(),
        !valid_namespace(trimmed(parts[k])),
        forall|i: int| 0 <= i < k ==> valid_namespace(trimmed(#[trigger] parts[i])),
    ensures
        namespaces_of(parts) == Err::<Seq<Seq<char>>, ReportView>(
            complaint_of(
                2,
                if trimmed(parts[k]).len() == 0 {
                    "empty namespace in list"@
                } else {
                    "invalid namespace '"@ + trimmed(parts[k]) + "': "@ + namespace_complaint(
                        trimmed(parts[k]),
                    )
                },
            ),
        ),
    decreases parts.len(),
{
    let front = parts.drop_last();
    if k < front.len() {
        assert forall|i: int| 0 <= i < k implies valid_namespace(trimmed(#[trigger] front[i])) by {
            assert(front[i] == parts[i]);
        }
        the_first_bad_part_decides(front, k);
    } else {
        lists_are_read(front);
        if namespaces_of(front) is Err {
            let i = choose|i: int|
                0 <= i < front.len() && !valid_namespace(trimmed(#[trigger] front[i]));
            assert(valid_namespace(trimmed(parts[i])));
        }
    }
}

} // verus!
