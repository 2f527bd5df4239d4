//! The command line: which command the arguments ask for.

use vstd::prelude::*;

use crate::creds::message;
use crate::exec::{exec_start, Exec, ExecError, ExecView};
use crate::list::{cmd_list, list_start, List, ListView};
use crate::report::{
    complaint, complaint_of, help_report, help_report_of, success, success_of, usage, usage_of,
    Report, ReportView, VERSION,
};
use crate::set::{cmd_set, set_start, SetRun, SetRunView};
use crate::store::{namespace_complaint, valid_namespace, Namespace};
use crate::text::{same_text, split, split_on, starts_with, texts_from, trim, trimmed};
use crate::unset::{cmd_unset, unset_start, Unset, UnsetView};

verus! {

/// A command that was started, or the report of one that is over.
pub enum Command {
    SetVars(SetRun),
    List(List),
    Unset(Unset),
    Exec(Exec),
    Done(Report),
}

pub enum CommandView {
    SetVars(SetRunView),
    List(ListView),
    Unset(UnsetView),
    Exec(ExecView),
    Done(ReportView),
}

impl View for Command {
    type V = CommandView;

    open spec fn view(&self) -> CommandView {
        match *self {
            Command::SetVars(s) => CommandView::SetVars(s@),
            Command::List(s) => CommandView::List(s@),
            Command::Unset(s) => CommandView::Unset(s@),
            Command::Exec(s) => CommandView::Exec(s@),
            Command::Done(r) => CommandView::Done(r@),
        }
    }
}

// ---- options in front ----------------------------------------------------------

/// The arguments behind the leading backend options, `None` where one of these
/// does not select `systemd`.
pub open spec fn behind_backend(args: Seq<Seq<char>>) -> Option<Seq<Seq<char>>>
    decreases args.len(),
{
    if args.len() == 0 {
        Some(args)
    } else if args[0] == "--backend=systemd"@ {
        behind_backend(args.drop_first())
    } else if args[0] == "--backend"@ {
        if args.len() > 1 && args[1] == "systemd"@ {
            behind_backend(args.skip(2))
        } else {
            None
        }
    } else if "--backend="@.is_prefix_of(args[0]) {
        None
    } else {
        Some(args)
    }
}

/// The refusal of any backend but `systemd`.
pub open spec fn backend_refusal() -> ReportView {
    complaint_of(2, "--backend only supports 'systemd'"@)
}

/// Removes leading `--backend=...` / `--backend systemd` options, validating
/// that the backend is `systemd`.
pub fn strip_backend(args: &[String]) -> (r: Result<Vec<String>, Report>)
    ensures
        match r {
            Ok(rest) => behind_backend(args.deep_view()) == Some(rest.deep_view()),
            Err(e) => behind_backend(args.deep_view()) is None && e@ == backend_refusal(),
        },
{
    let ghost all = args.deep_view();
    let mut i: usize = 0;
    assert(all.skip(0) =~= all);
    while i < args.len()
        invariant
            i <= args@.len(),
            all == args.deep_view(),
            behind_backend(all) == behind_backend(all.skip(i as int)),
        decreases args@.len() - i,
    {
        let a = args[i].as_str();
        let ghost rest = all.skip(i as int);
        assert(a@ == rest[0]);
        assert(rest.drop_first() =~= all.skip(i + 1));
        if same_text(a, "--backend=systemd") {
            i = i + 1;
        } else if same_text(a, "--backend") {
            if args.len() - i > 1 && same_text(args[i + 1].as_str(), "systemd") {
                assert(rest[1] == args@[i + 1]@);
                assert(rest.skip(2) =~= all.skip(i + 2));
                i = i + 2;
            } else {
                assert(rest.len() > 1 ==> rest[1] == args@[i + 1]@);
                return Err(complaint(2, "--backend only supports 'systemd'"));
            }
        } else if starts_with(a, "--backend=") {
            return Err(complaint(2, "--backend only supports 'systemd'"));
        } else {
            return Ok(texts_from(args, i));
        }
    }
    assert(all.skip(i as int) =~= Seq::<Seq<char>>::empty());
    Ok(texts_from(args, i))
}

/// The command that has `flag` among its options.
pub open spec fn flag_owner(flag: Seq<char>) -> Option<Seq<char>> {
    if flag == "-n"@ || flag == "--noecho"@ || flag == "-p"@ || flag == "--require-passphrase"@
        || flag == "-P"@ || flag == "--no-require-passphrase"@ {
        Some("--set"@)
    } else if flag == "-v"@ || flag == "--show-value"@ {
        Some("--list"@)
    } else {
        None
    }
}

/// The subcommand that owns `flag`, when `flag` is a valid option that was merely
/// placed before its subcommand rather than after it.
pub fn misplaced_flag_owner(flag: &str) -> (r: Option<&'static str>)
    ensures
        match r {
            Some(owner) => flag_owner(flag@) == Some(owner@),
            None => flag_owner(flag@) is None,
        },
{
    if same_text(flag, "-n") || same_text(flag, "--noecho") || same_text(flag, "-p") || same_text(
        flag,
        "--require-passphrase",
    ) || same_text(flag, "-P") || same_text(flag, "--no-require-passphrase") {
        Some("--set")
    } else if same_text(flag, "-v") || same_text(flag, "--show-value") {
        Some("--list")
    } else {
        None
    }
}

/// The complaint about an option that is none of the program's own: one of a
/// command that stands before it gets a hint.
pub open spec fn unknown_option(flag: Seq<char>) -> Seq<char> {
    match flag_owner(flag) {
        Some(owner) => "unknown option: "@ + flag + "\ncredchain: "@ + flag + " is an option of "@
            + owner + "; it must come after it, e.g. `credchain "@ + owner + " "@ + flag
            + " ...`"@,
        None => "unknown option: "@ + flag,
    }
}

fn unknown_option_text(flag: &str) -> (r: String)
    ensures
        r@ == unknown_option(flag@),
{
    let mut text = message("unknown option: ", flag);
    match misplaced_flag_owner(flag) {
        Some(owner) => {
            text.append("\ncredchain: ");
            text.append(flag);
            text.append(" is an option of ");
            text.append(owner);
            text.append("; it must come after it, e.g. `credchain ");
            text.append(owner);
            text.append(" ");
            text.append(flag);
            text.append(" ...`");
        },
        None => {},
    }
    text
}

// ---- exec mode -------------------------------------------------------------------

/// The namespaces that a list names, in order, or why it cannot be taken.
pub open spec fn namespaces_of(parts: Seq<Seq<char>>) -> Result<Seq<Seq<char>>, ReportView>
    decreases parts.len(),
{
    if parts.len() == 0 {
        Ok(Seq::empty())
    } else {
        match namespaces_of(parts.drop_last()) {
            Err(r) => Err(r),
            Ok(before) => {
                let part = trimmed(parts.last());
                if part.len() == 0 {
                    Err(complaint_of(2, "empty namespace in list"@))
                } else if valid_namespace(part) {
                    Ok(before.push(part))
                } else {
                    Err(
                        complaint_of(
                            2,
                            "invalid namespace '"@ + part + "': "@ + namespace_complaint(part),
                        ),
                    )
                }
            },
        }
    }
}

/// The start of exec mode with the arguments `args`.
pub open spec fn exec_command(args: Seq<Seq<char>>) -> CommandView {
    match behind_backend(args) {
        None => CommandView::Done(backend_refusal()),
        Some(rest) => if rest.len() == 0 {
            CommandView::Done(help_report_of(2))
        } else if rest.len() == 1 {
            CommandView::Done(usage_of("no command given"@))
        } else {
            match namespaces_of(split_on(rest[0], ',')) {
                Err(r) => CommandView::Done(r),
                Ok(namespaces) => CommandView::Exec(exec_start(namespaces, rest.drop_first())),
            }
        },
    }
}

/// A refused list of namespaces stays refused, whatever follows.
proof fn refusals_stay(parts: Seq<Seq<char>>, i: int)
    requires
        0 <= i <= parts.len(),
        namespaces_of(parts.take(i)) is Err,
    ensures
        namespaces_of(parts) == namespaces_of(parts.take(i)),
    decreases parts.len(),
{
    if i == parts.len() {
        assert(parts.take(i) =~= parts);
    } else {
        assert(parts.drop_last().take(i) =~= parts.take(i));
        refusals_stay(parts.drop_last(), i);
    }
}

fn parse_namespaces(field: &str) -> (r: Result<Vec<Namespace>, Report>)
    ensures
        match (namespaces_of(split_on(field@, ',')), r) {
            (Ok(names), Ok(namespaces)) => names == namespaces.deep_view(),
            (Err(e), Err(report)) => e == report@,
            _ => false,
        },
{
    let parts = split(field, ',');
    let ghost all = parts.deep_view();
    let mut namespaces: Vec<Namespace> = Vec::new();
    let mut i: usize = 0;
    assert(all.take(0) =~= Seq::<Seq<char>>::empty());
    assert(namespaces.deep_view() =~= Seq::<Seq<char>>::empty());
    while i < parts.len()
        invariant
            i <= parts@.len(),
            all == parts.deep_view(),
            all == split_on(field@, ','),
            namespaces_of(all.take(i as int)) == Ok::<Seq<Seq<char>>, ReportView>(
                namespaces.deep_view(),
            ),
        decreases parts@.len() - i,
    {
        let part = trim(parts[i].as_str());
        proof {
            let now = all.take(i + 1);
            assert(now.drop_last() =~= all.take(i as int));
            assert(now.last() == parts@[i as int]@);
            if namespaces_of(now) is Err {
                refusals_stay(all, i + 1);
            }
        }
        if same_text(part, "") {
            proof {
                reveal_strlit("");
            }
            return Err(complaint(2, "empty namespace in list"));
        }
        proof {
            reveal_strlit("");
            if part@.len() == 0 {
                assert(part@ =~= ""@);
            }
        }
        match Namespace::parse(part) {
            Ok(ns) => {
                let ghost before = namespaces.deep_view();
                namespaces.push(ns);
                assert(namespaces.deep_view() =~= before.push(part@));
            },
            Err(e) => {
                let mut text = message("invalid namespace '", part);
                text.append("': ");
                text.append(e.as_str());
                return Err(complaint(2, text.as_str()));
            },
        }
        i = i + 1;
    }
    assert(all.take(i as int) =~= all);
    Ok(namespaces)
}

/// Starts exec mode with the arguments `args`.
pub fn cmd_exec(args: &[String]) -> (r: Command)
    ensures
        r@ == exec_command(args.deep_view()),
{
    let rest = match strip_backend(args) {
        Ok(rest) => rest,
        Err(report) => return Command::Done(report),
    };
    if rest.len() == 0 {
        return Command::Done(help_report(2));
    }
    let ghost before = rest.deep_view();
    let mut command = rest;
    let field = command.remove(0);
    assert(command.deep_view() =~= before.drop_first());
    assert(field@ == before[0]);
    if command.len() == 0 {
        return Command::Done(usage("no command given"));
    }
    match parse_namespaces(field.as_str()) {
        Ok(namespaces) => Command::Exec(crate::exec::run(namespaces, command)),
        Err(report) => Command::Done(report),
    }
}

/// The report of exec mode when the target was not run.
pub fn exec_report(e: ExecError) -> (r: Report)
    ensures
        r@ == complaint_of(1, e@),
{
    complaint(1, e.0.as_str())
}

// ---- dispatch --------------------------------------------------------------------

/// The command that the arguments of the program ask for.
pub open spec fn command_of(args: Seq<Seq<char>>, pid: u32) -> CommandView {
    if args.len() == 0 {
        CommandView::Done(help_report_of(2))
    } else if args[0] == "--set"@ || args[0] == "-s"@ {
        CommandView::SetVars(set_start(args.drop_first(), pid))
    } else if args[0] == "--list"@ || args[0] == "-l"@ {
        CommandView::List(list_start(args.drop_first()))
    } else if args[0] == "--unset"@ || args[0] == "-u"@ {
        CommandView::Unset(unset_start(args.drop_first()))
    } else if args[0] == "--version"@ {
        CommandView::Done(success_of("credchain "@ + VERSION@ + "\n"@))
    } else if args[0] == "--help"@ || args[0] == "-h"@ {
        CommandView::Done(help_report_of(0))
    } else if "--backend="@.is_prefix_of(args[0]) || args[0] == "--backend"@ {
        if args.len() == 1 {
            CommandView::Done(help_report_of(2))
        } else {
            exec_command(args)
        }
    } else if "-"@.is_prefix_of(args[0]) && args[0] != "-"@ {
        CommandView::Done(usage_of(unknown_option(args[0])))
    } else {
        exec_command(args)
    }
}

/// Dispatches on the arguments of the program, without its name, in the process
/// `pid`.
pub fn run(args: &[String], pid: u32) -> (r: Command)
    ensures
        r@ == command_of(args.deep_view(), pid),
{
    if args.len() == 0 {
        return Command::Done(help_report(2));
    }
    let first = args[0].as_str();
    let rest = texts_from(args, 1);
    assert(args.deep_view().skip(1) =~= args.deep_view().drop_first());
    if same_text(first, "--set") || same_text(first, "-s") {
        Command::SetVars(cmd_set(rest.as_slice(), pid))
    } else if same_text(first, "--list") || same_text(first, "-l") {
        Command::List(cmd_list(rest.as_slice()))
    } else if same_text(first, "--unset") || same_text(first, "-u") {
        Command::Unset(cmd_unset(rest.as_slice()))
    } else if same_text(first, "--version") {
        let mut text = message("credchain ", VERSION);
        text.append("\n");
        Command::Done(success(text))
    } else if same_text(first, "--help") || same_text(first, "-h") {
        Command::Done(help_report(0))
    } else if starts_with(first, "--backend=") || same_text(first, "--backend") {
        if args.len() == 1 {
            Command::Done(help_report(2))
        } else {
            cmd_exec(args)
        }
    } else if starts_with(first, "-") && !same_text(first, "-") {
        let text = unknown_option_text(first);
        Command::Done(usage(text.as_str()))
    } else {
        cmd_exec(args)
    }
}

// ---- laws --------------------------------------------------------------------

/// Namespaces are read from the list in order, without the white space around
/// them, and all are valid.
pub proof fn listed_namespaces_are_valid(parts: Seq<Seq<char>>)
    ensures
        namespaces_of(parts) matches Ok(names) ==> names == parts.map_values(
            |part: Seq<char>| trimmed(part),
        ) && forall|i: int| 0 <= i < names.len() ==> valid_namespace(#[trigger] names[i]),
    decreases parts.len(),
{
    let expected = parts.map_values(|part: Seq<char>| trimmed(part));
    if parts.len() == 0 {
        assert(expected =~= Seq::<Seq<char>>::empty());
    } else {
        listed_namespaces_are_valid(parts.drop_last());
        if let Ok(names) = namespaces_of(parts) {
            let before = parts.drop_last().map_values(|part: Seq<char>| trimmed(part));
            assert(expected =~= before.push(trimmed(parts.last())));
        }
    }
}

/// Stripping the backend options leaves a tail of the arguments, which begins
/// with none of them; to strip it again changes nothing.
pub proof fn backend_options_are_stripped_once(args: Seq<Seq<char>>)
    ensures
        behind_backend(args) matches Some(rest) ==> {
            &&& rest.is_suffix_of(args)
            &&& rest.len() > 0 ==> rest[0] != "--backend"@ && !"--backend="@.is_prefix_of(rest[0])
            &&& behind_backend(rest) == Some(rest)
        },
    decreases args.len(),
{
    reveal_strlit("--backend=");
    reveal_strlit("--backend=systemd");
    assert("--backend=systemd"@.take(10) =~= "--backend="@);
    if args.len() > 0 {
        if args[0] == "--backend=systemd"@ {
            backend_options_are_stripped_once(args.drop_first());
            if let Some(rest) = behind_backend(args) {
                assert(args.skip(args.len() - rest.len()) =~= args.drop_first().skip(
                    args.len() - 1 - rest.len(),
                ));
            }
        } else if args[0] == "--backend"@ && args.len() > 1 && args[1] == "systemd"@ {
            backend_options_are_stripped_once(args.skip(2));
            if let Some(rest) = behind_backend(args) {
                assert(args.skip(args.len() - rest.len()) =~= args.skip(2).skip(
                    args.len() - 2 - rest.len(),
                ));
            }
        }
    }
}

} // verus!
