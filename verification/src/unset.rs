//! `--unset`: remove variables from a namespace.
//!
//! Nothing is decrypted.

use vstd::prelude::*;

use crate::creds::message;
use crate::failure::{bytes_view, outcome_view, Failure, FailureKind, FailureView};
use crate::outside::{lossy_text, text_lossy};
use crate::report::{complaint, complaint_of, success, success_of, Report, ReportView};
use crate::store::{
    namespace_complaint, valid_namespace, valid_var, var_complaint, Namespace, VarName,
};
use crate::text::copy_texts;

verus! {

/// The state of a removal, named after what is due for the variable at hand;
/// `rest` are the names that follow.
pub enum Unset {
    /// Find the ciphertext file, securing the directories on the way.
    Path { ns: Namespace, var: VarName, rest: Vec<String> },
    /// Open the file for writing, without following a symlink.
    Open { ns: Namespace, var: VarName, path: Vec<u8>, rest: Vec<String> },
    /// Remove the file.
    Remove { ns: Namespace, var: VarName, path: Vec<u8>, rest: Vec<String> },
    Done(Report),
}

pub enum UnsetView {
    Path { ns: Seq<char>, var: Seq<char>, rest: Seq<Seq<char>> },
    Open { ns: Seq<char>, var: Seq<char>, path: Seq<u8>, rest: Seq<Seq<char>> },
    Remove { ns: Seq<char>, var: Seq<char>, path: Seq<u8>, rest: Seq<Seq<char>> },
    Done(ReportView),
}

impl View for Unset {
    type V = UnsetView;

    open spec fn view(&self) -> UnsetView {
        match *self {
            Unset::Path { ns, var, rest } => UnsetView::Path {
                ns: ns@,
                var: var@,
                rest: rest.deep_view(),
            },
            Unset::Open { ns, var, path, rest } => UnsetView::Open {
                ns: ns@,
                var: var@,
                path: path@,
                rest: rest.deep_view(),
            },
            Unset::Remove { ns, var, path, rest } => UnsetView::Remove {
                ns: ns@,
                var: var@,
                path: path@,
                rest: rest.deep_view(),
            },
            Unset::Done(r) => UnsetView::Done(r@),
        }
    }
}

/// The outcome of what was due in a removal.
pub enum UnsetEvent {
    Path(Result<Vec<u8>, Failure>),
    Opened(Result<(), Failure>),
    Removed(Result<(), Failure>),
}

pub enum UnsetEventView {
    Path(Result<Seq<u8>, FailureView>),
    Opened(Result<(), FailureView>),
    Removed(Result<(), FailureView>),
}

impl View for UnsetEvent {
    type V = UnsetEventView;

    open spec fn view(&self) -> UnsetEventView {
        match *self {
            UnsetEvent::Path(r) => UnsetEventView::Path(bytes_view(r)),
            UnsetEvent::Opened(r) => UnsetEventView::Opened(outcome_view(r)),
            UnsetEvent::Removed(r) => UnsetEventView::Removed(outcome_view(r)),
        }
    }
}

/// On to the next variable; when there is none, success. A name that is not a
/// variable name ends the removal.
pub open spec fn to_unset(ns: Seq<char>, vars: Seq<Seq<char>>) -> UnsetView {
    if vars.len() == 0 {
        UnsetView::Done(success_of(Seq::empty()))
    } else if valid_var(vars[0]) {
        UnsetView::Path { ns, var: vars[0], rest: vars.drop_first() }
    } else {
        UnsetView::Done(
            complaint_of(
                1,
                "invalid variable name '"@ + vars[0] + "': "@ + var_complaint(vars[0]),
            ),
        )
    }
}

/// The start of a removal.
pub open spec fn unset_start(args: Seq<Seq<char>>) -> UnsetView {
    if args.len() < 2 {
        UnsetView::Done(
            complaint_of(2, "--unset requires a namespace and at least one variable"@),
        )
    } else if !valid_namespace(args[0]) {
        UnsetView::Done(
            complaint_of(1, "invalid namespace: "@ + namespace_complaint(args[0])),
        )
    } else {
        to_unset(args[0], args.drop_first())
    }
}

/// The state after `event`: a file is removed only when it could be opened, which
/// a symlink or a missing file cannot be.
pub open spec fn unset_next(s: UnsetView, event: UnsetEventView) -> UnsetView {
    match (s, event) {
        (UnsetView::Path { ns, var, rest }, UnsetEventView::Path(r)) => match r {
            Ok(path) => UnsetView::Open { ns, var, path, rest },
            Err(f) => UnsetView::Done(complaint_of(1, f.message)),
        },
        (UnsetView::Open { ns, var, path, rest }, UnsetEventView::Opened(r)) => match r {
            Ok(_) => UnsetView::Remove { ns, var, path, rest },
            Err(f) => if f.kind == FailureKind::NotFound {
                UnsetView::Done(
                    complaint_of(1, "variable not found: "@ + ns + "."@ + var),
                )
            } else {
                UnsetView::Done(
                    complaint_of(
                        1,
                        "refusing to unset "@ + ns + ":"@ + var + " "@ + f.message,
                    ),
                )
            },
        },
        (UnsetView::Remove { ns, var, path, rest }, UnsetEventView::Removed(r)) => match r {
            Ok(_) => to_unset(ns, rest),
            Err(f) => UnsetView::Done(
                complaint_of(1, "failed to remove "@ + lossy_text(path) + ": "@ + f.message),
            ),
        },
        _ => s,
    }
}

fn go_to_unset(ns: Namespace, vars: Vec<String>) -> (r: Unset)
    ensures
        r@ == to_unset(ns@, vars.deep_view()),
{
    if vars.len() == 0 {
        return Unset::Done(success(String::new()));
    }
    let ghost before = vars.deep_view();
    let mut rest = vars;
    let first = rest.remove(0);
    assert(rest.deep_view() =~= before.drop_first());
    match VarName::parse(first.as_str()) {
        Ok(var) => Unset::Path { ns, var, rest },
        Err(e) => {
            let mut text = message("invalid variable name '", first.as_str());
            text.append("': ");
            text.append(e.as_str());
            Unset::Done(complaint(1, text.as_str()))
        },
    }
}

/// Starts `--unset` with the arguments behind it.
pub fn cmd_unset(args: &[String]) -> (r: Unset)
    ensures
        r@ == unset_start(args.deep_view()),
{
    if args.len() < 2 {
        return Unset::Done(
            complaint(2, "--unset requires a namespace and at least one variable"),
        );
    }
    let mut vars = copy_texts(args);
    let ghost before = vars.deep_view();
    let first = vars.remove(0);
    assert(vars.deep_view() =~= before.drop_first());
    assert(first@ == before[0]);
    match Namespace::parse(first.as_str()) {
        Ok(ns) => go_to_unset(ns, vars),
        Err(e) => {
            let text = message("invalid namespace: ", e.as_str());
            Unset::Done(complaint(1, text.as_str()))
        },
    }
}

impl Unset {
    /// The state after `event`.
    pub fn step(self, event: UnsetEvent) -> (r: Unset)
        ensures
            r@ == unset_next(self@, event@),
    {
        match (self, event) {
            (Unset::Path { ns, var, rest }, UnsetEvent::Path(r)) => match r {
                Ok(path) => Unset::Open { ns, var, path, rest },
                Err(f) => Unset::Done(complaint(1, f.message.as_str())),
            },
            (Unset::Open { ns, var, path, rest }, UnsetEvent::Opened(r)) => match r {
                Ok(_) => Unset::Remove { ns, var, path, rest },
                Err(f) => if f.kind == FailureKind::NotFound {
                    let mut text = message("variable not found: ", ns.as_str());
                    text.append(".");
                    text.append(var.as_str());
                    Unset::Done(complaint(1, text.as_str()))
                } else {
                    let mut text = message("refusing to unset ", ns.as_str());
                    text.append(":");
                    text.append(var.as_str());
                    text.append(" ");
                    text.append(f.message.as_str());
                    Unset::Done(complaint(1, text.as_str()))
                },
            },
            (Unset::Remove { ns, var: _, path, rest }, UnsetEvent::Removed(r)) => match r {
                Ok(_) => go_to_unset(ns, rest),
                Err(f) => {
                    let shown = text_lossy(path.as_slice());
                    let mut text = message("failed to remove ", shown.as_str());
                    text.append(": ");
                    text.append(f.message.as_str());
                    Unset::Done(complaint(1, text.as_str()))
                },
            },
            (s, _) => s,
        }
    }
}

// ---- laws --------------------------------------------------------------------

/// The state after a sequence of events.
pub open spec fn unset_run(s: UnsetView, events: Seq<UnsetEventView>) -> UnsetView
    decreases events.len(),
{
    if events.len() == 0 {
        s
    } else {
        unset_next(unset_run(s, events.drop_last()), events.last())
    }
}

/// The variables whose file was removed, in order.
pub open spec fn removed(s: UnsetView, events: Seq<UnsetEventView>) -> Seq<Seq<char>>
    decreases events.len(),
{
    if events.len() == 0 {
        Seq::empty()
    } else {
        let before = removed(s, events.drop_last());
        match (unset_run(s, events.drop_last()), events.last()) {
            (UnsetView::Remove { ns, var, path, rest }, UnsetEventView::Removed(Ok(_))) =>
                before.push(var),
            _ => before,
        }
    }
}

/// The name at hand and those that follow.
pub open spec fn still_to_unset(s: UnsetView) -> Seq<Seq<char>> {
    match s {
        UnsetView::Path { ns, var, rest } => seq![var] + rest,
        UnsetView::Open { ns, var, path, rest } => seq![var] + rest,
        UnsetView::Remove { ns, var, path, rest } => seq![var] + rest,
        UnsetView::Done(_) => Seq::empty(),
    }
}

/// Variables are removed in the order given, none but the given ones; success
/// means that all were removed, and every other end is an error.
pub proof fn unset_removes_what_is_named(args: Seq<Seq<char>>, events: Seq<UnsetEventView>)
    requires
        args.len() >= 2,
    ensures
        match unset_run(unset_start(args), events) {
            UnsetView::Done(r) => {
                &&& removed(unset_start(args), events).is_prefix_of(args.drop_first())
                &&& r.code == 0 ==> removed(unset_start(args), events) == args.drop_first()
            },
            s => removed(unset_start(args), events) + still_to_unset(s) == args.drop_first(),
        },
    decreases events.len(),
{
    let start = unset_start(args);
    let vars = args.drop_first();
    if events.len() == 0 {
        assert(seq![vars[0]] + vars.drop_first() =~= vars);
    } else {
        let before = events.drop_last();
        unset_removes_what_is_named(args, before);
        let s = unset_run(start, before);
        let gone = removed(start, before);
        match s {
            UnsetView::Done(_) => {},
            UnsetView::Remove { ns, var, path, rest } => {
                assert(gone + (seq![var] + rest) =~= gone.push(var) + rest);
                assert(gone.is_prefix_of(vars));
                assert(gone.push(var).is_prefix_of(vars));
                if rest.len() > 0 {
                    assert(seq![rest[0]] + rest.drop_first() =~= rest);
                } else {
                    assert(gone.push(var) + rest =~= gone.push(var));
                }
            },
            _ => {
                assert(gone.is_prefix_of(vars));
            },
        }
    }
}

/// A removal is due only right after the file at that path was opened without
/// following a symlink; one that could not be opened is never removed.
pub proof fn only_opened_files_are_removed(s: UnsetView, event: UnsetEventView)
    requires
        !(s is Remove),
        unset_next(s, event) is Remove,
    ensures
        event == UnsetEventView::Opened(Ok(())),
        match (s, unset_next(s, event)) {
            (
                UnsetView::Open { ns, var, path, rest },
                UnsetView::Remove { ns: n, var: v, path: p, rest: t },
            ) => n == ns && v == var && p == path && t == rest,
            _ => false,
        },
{
    if let UnsetEventView::Opened(Ok(u)) = event {
        assert(u == ());
    }
}

} // verus!
