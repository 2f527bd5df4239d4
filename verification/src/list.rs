//! `--list`: the namespaces of the store, or the variables of a namespace.
//!
//! Nothing is decrypted.

use vstd::prelude::*;

use crate::creds::message;
use crate::failure::{Failure, FailureView};
use crate::listing::names_view;
use crate::report::{complaint, complaint_of, success, success_of, Report, ReportView};
use crate::store::{namespace_complaint, valid_namespace, Namespace};
use crate::text::{occurs, same_text, split_behind, split_on, starts_with, told_within};

verus! {

/// The state of a listing, named after what is due.
pub enum List {
    /// List the namespaces.
    Namespaces,
    /// List the variables of a namespace.
    Vars(Namespace),
    Done(Report),
}

pub enum ListView {
    Namespaces,
    Vars(Seq<char>),
    Done(ReportView),
}

impl View for List {
    type V = ListView;

    open spec fn view(&self) -> ListView {
        match *self {
            List::Namespaces => ListView::Namespaces,
            List::Vars(ns) => ListView::Vars(ns@),
            List::Done(r) => ListView::Done(r@),
        }
    }
}

/// The outcome of what was due in a listing.
pub enum ListEvent {
    Namespaces(Result<Vec<String>, Failure>),
    Vars(Result<Vec<String>, String>),
}

pub enum ListEventView {
    Namespaces(Result<Seq<Seq<char>>, FailureView>),
    Vars(Result<Seq<Seq<char>>, Seq<char>>),
}

impl View for ListEvent {
    type V = ListEventView;

    open spec fn view(&self) -> ListEventView {
        match *self {
            ListEvent::Namespaces(Ok(names)) => ListEventView::Namespaces(Ok(names.deep_view())),
            ListEvent::Namespaces(Err(f)) => ListEventView::Namespaces(Err(f@)),
            ListEvent::Vars(r) => ListEventView::Vars(names_view(r)),
        }
    }
}

/// One line for each name.
pub open spec fn lines(names: Seq<Seq<char>>) -> Seq<char>
    decreases names.len(),
{
    if names.len() == 0 {
        Seq::empty()
    } else {
        lines(names.drop_last()) + names.last() + "\n"@
    }
}

fn to_lines(names: &Vec<String>) -> (r: String)
    ensures
        r@ == lines(names.deep_view()),
{
    let mut out = String::new();
    let mut i: usize = 0;
    assert(names.deep_view().take(0) =~= Seq::<Seq<char>>::empty());
    while i < names.len()
        invariant
            i <= names@.len(),
            out@ == lines(names.deep_view().take(i as int)),
        decreases names@.len() - i,
    {
        out.append(names[i].as_str());
        out.append("\n");
        assert(names.deep_view().take(i + 1).drop_last() =~= names.deep_view().take(i as int));
        i = i + 1;
    }
    assert(names.deep_view().take(i as int) =~= names.deep_view());
    out
}

pub open spec fn is_show_value(arg: Seq<char>) -> bool {
    arg == "-v"@ || arg == "--show-value"@
}

/// What the arguments ask for: whether values are to be shown, and at most one
/// namespace; or why they cannot be taken.
pub struct ListArgsView {
    pub show_value: bool,
    pub target: Option<Seq<char>>,
}

/// Reads `args` behind those that gave `so_far`.
pub open spec fn list_args(so_far: ListArgsView, args: Seq<Seq<char>>) -> Result<
    ListArgsView,
    ReportView,
>
    decreases args.len(),
{
    if args.len() == 0 {
        Ok(so_far)
    } else if is_show_value(args[0]) {
        list_args(ListArgsView { show_value: true, ..so_far }, args.drop_first())
    } else if args[0] == "--backend=systemd"@ {
        list_args(so_far, args.drop_first())
    } else if "-"@.is_prefix_of(args[0]) {
        Err(complaint_of(2, "--list: unknown option: "@ + args[0]))
    } else if so_far.target is Some {
        Err(complaint_of(2, "--list takes at most one namespace argument"@))
    } else {
        list_args(ListArgsView { target: Some(args[0]), ..so_far }, args.drop_first())
    }
}

/// The refusal to show values.
pub open spec fn show_value_refusal() -> ReportView {
    complaint_of(
        1,
        "--show-value / -v is deliberately unsupported. credchain never decrypts or prints secret values. To inspect a value, run a trusted child via the execution path."@,
    )
}

/// The start of a listing.
pub open spec fn list_start(args: Seq<Seq<char>>) -> ListView {
    match list_args(ListArgsView { show_value: false, target: None }, args) {
        Err(r) => ListView::Done(r),
        Ok(parsed) => if parsed.show_value {
            ListView::Done(show_value_refusal())
        } else {
            match parsed.target {
                None => ListView::Namespaces,
                Some(ns) => if valid_namespace(ns) {
                    ListView::Vars(ns)
                } else {
                    ListView::Done(
                        complaint_of(1, "invalid namespace: "@ + namespace_complaint(ns)),
                    )
                },
            }
        },
    }
}

/// The state after `event`.
pub open spec fn list_command_next(s: ListView, event: ListEventView) -> ListView {
    match (s, event) {
        (ListView::Namespaces, ListEventView::Namespaces(r)) => match r {
            Ok(names) => ListView::Done(success_of(lines(names))),
            Err(f) => ListView::Done(
                complaint_of(1, "failed to list namespaces: "@ + f.message),
            ),
        },
        (ListView::Vars(_), ListEventView::Vars(r)) => match r {
            Ok(names) => ListView::Done(success_of(lines(names))),
            Err(e) => ListView::Done(complaint_of(1, e)),
        },
        _ => s,
    }
}

/// What the arguments of `--list` ask for.
struct ListArgs {
    show_value: bool,
    target: Option<String>,
}

impl View for ListArgs {
    type V = ListArgsView;

    closed spec fn view(&self) -> ListArgsView {
        ListArgsView {
            show_value: self.show_value,
            target: match self.target {
                Some(s) => Some(s@),
                None => None,
            },
        }
    }
}

fn read_args(args: &[String]) -> (r: Result<ListArgs, Report>)
    ensures
        match r {
            Ok(parsed) => list_args(
                ListArgsView { show_value: false, target: None },
                args.deep_view(),
            ) == Ok::<ListArgsView, ReportView>(parsed@),
            Err(e) => list_args(
                ListArgsView { show_value: false, target: None },
                args.deep_view(),
            ) == Err::<ListArgsView, ReportView>(e@),
        },
{
    let ghost all = args.deep_view();
    let ghost start = ListArgsView { show_value: false, target: None };
    let mut parsed = ListArgs { show_value: false, target: None };
    let mut i: usize = 0;
    assert(all.skip(0) =~= all);
    while i < args.len()
        invariant
            i <= args@.len(),
            all == args.deep_view(),
            start == (ListArgsView { show_value: false, target: None }),
            list_args(parsed@, all.skip(i as int)) == list_args(start, all),
        decreases args@.len() - i,
    {
        let a = args[i].as_str();
        assert(a@ == all.skip(i as int)[0]);
        assert(all.skip(i as int).drop_first() =~= all.skip(i + 1));
        if same_text(a, "-v") || same_text(a, "--show-value") {
            parsed = ListArgs { show_value: true, target: parsed.target };
        } else if same_text(a, "--backend=systemd") {
        } else if starts_with(a, "-") {
            let text = message("--list: unknown option: ", a);
            return Err(complaint(2, text.as_str()));
        } else if parsed.target.is_some() {
            return Err(complaint(2, "--list takes at most one namespace argument"));
        } else {
            parsed = ListArgs { show_value: parsed.show_value, target: Some(a.to_owned()) };
        }
        i = i + 1;
    }
    assert(all.skip(i as int) =~= Seq::<Seq<char>>::empty());
    Ok(parsed)
}

/// Starts `--list` with the arguments behind it.
pub fn cmd_list(args: &[String]) -> (r: List)
    ensures
        r@ == list_start(args.deep_view()),
{
    let parsed = match read_args(args) {
        Ok(parsed) => parsed,
        Err(r) => return List::Done(r),
    };
    if parsed.show_value {
        return List::Done(
            complaint(
                1,
                "--show-value / -v is deliberately unsupported. credchain never decrypts or prints secret values. To inspect a value, run a trusted child via the execution path.",
            ),
        );
    }
    match parsed.target {
        None => List::Namespaces,
        Some(ns) => match Namespace::parse(ns.as_str()) {
            Ok(ns) => List::Vars(ns),
            Err(e) => {
                let text = message("invalid namespace: ", e.as_str());
                List::Done(complaint(1, text.as_str()))
            },
        },
    }
}

impl List {
    /// The state after `event`.
    pub fn step(self, event: ListEvent) -> (r: List)
        ensures
            r@ == list_command_next(self@, event@),
    {
        match (self, event) {
            (List::Namespaces, ListEvent::Namespaces(r)) => match r {
                Ok(names) => List::Done(success(to_lines(&names))),
                Err(f) => {
                    let text = message("failed to list namespaces: ", f.message.as_str());
                    List::Done(complaint(1, text.as_str()))
                },
            },
            (List::Vars(_), ListEvent::Vars(r)) => match r {
                Ok(names) => List::Done(success(to_lines(&names))),
                Err(e) => List::Done(complaint(1, e.as_str())),
            },
            (s, _) => s,
        }
    }
}

// ---- laws --------------------------------------------------------------------

/// Values are never shown: where the arguments ask for that, whatever else they
/// ask for, the listing ends at once, in an error.
pub proof fn values_are_never_listed(args: Seq<Seq<char>>, i: int)
    requires
        0 <= i < args.len(),
        is_show_value(args[i]),
    ensures
        list_start(args) matches ListView::Done(r) && r.code != 0 && r.out.len() == 0,
{
    show_value_sticks(ListArgsView { show_value: false, target: None }, args, i);
}

proof fn show_value_sticks(so_far: ListArgsView, args: Seq<Seq<char>>, i: int)
    requires
        so_far.show_value || (0 <= i < args.len() && is_show_value(args[i])),
    ensures
        match list_args(so_far, args) {
            Ok(parsed) => parsed.show_value,
            Err(r) => r.code != 0 && r.out.len() == 0,
        },
    decreases args.len(),
{
    if args.len() > 0 {
        let tail = args.drop_first();
        let next = if is_show_value(args[0]) {
            ListArgsView { show_value: true, ..so_far }
        } else if args[0] == "--backend=systemd"@ {
            so_far
        } else {
            ListArgsView { target: Some(args[0]), ..so_far }
        };
        if i > 0 && i < args.len() {
            assert(tail[i - 1] == args[i]);
        }
        if next.show_value || i > 0 {
            show_value_sticks(next, tail, i - 1);
        }
    }
}

/// What is printed for a list of names reads back as these names: at each newline
/// ends one name, whole and in its place, and nothing follows the last newline.
pub proof fn printed_names_read_back(names: Seq<Seq<char>>)
    requires
        forall|i: int| 0 <= i < names.len() ==> !(#[trigger] names[i]).contains('\n'),
    ensures
        split_on(lines(names), '\n') == names.push(Seq::empty()),
    decreases names.len(),
{
    reveal_strlit("\n");
    if names.len() == 0 {
        assert(split_on(lines(names), '\n') =~= names.push(Seq::empty()));
    } else {
        let front = names.drop_last();
        let last = names.last();
        let text = lines(front) + last;
        printed_names_read_back(front);
        assert(!names[names.len() - 1].contains('\n'));
        split_behind(lines(front), last, '\n');
        assert(front.push(Seq::empty()).drop_last() =~= front);
        assert(Seq::<char>::empty() + last =~= last);
        assert(split_on(text, '\n') == front.push(last));
        assert(lines(names) =~= text.push('\n'));
        assert(text.push('\n').drop_last() =~= text);
        assert(front.push(last) =~= names);
    }
}

/// A listing that succeeds prints the names that were found, and nothing else: they
/// read back from stdout, and nothing is printed to stderr.
pub proof fn listings_print_what_was_found(ns: Seq<char>, names: Seq<Seq<char>>)
    requires
        forall|i: int| 0 <= i < names.len() ==> !(#[trigger] names[i]).contains('\n'),
    ensures
        list_command_next(ListView::Namespaces, ListEventView::Namespaces(Ok(names))) matches
            ListView::Done(r) && r.code == 0 && r.err.len() == 0 && split_on(r.out, '\n')
            == names.push(Seq::empty()),
        list_command_next(ListView::Vars(ns), ListEventView::Vars(Ok(names))) matches
            ListView::Done(r) && r.code == 0 && r.err.len() == 0 && split_on(r.out, '\n')
            == names.push(Seq::empty()),
{
    printed_names_read_back(names);
}

/// A listing that fails prints nothing to stdout, and the whole reason to stderr.
pub proof fn failed_listings_are_told(ns: Seq<char>, f: FailureView, reason: Seq<char>)
    ensures
        list_command_next(ListView::Namespaces, ListEventView::Namespaces(Err(f))) matches
            ListView::Done(r) && r.code == 1 && r.out.len() == 0 && occurs(f.message, r.err),
        list_command_next(ListView::Vars(ns), ListEventView::Vars(Err(reason))) matches
            ListView::Done(r) && r.code == 1 && r.out.len() == 0 && occurs(reason, r.err),
{
    let text = "failed to list namespaces: "@ + f.message;
    told_within("credchain: "@ + "failed to list namespaces: "@, f.message, "\n"@);
    assert("credchain: "@ + text + "\n"@ =~= ("credchain: "@ + "failed to list namespaces: "@)
        + f.message + "\n"@);
    told_within("credchain: "@, reason, "\n"@);
}

/// One namespace is listed by its name, as it is given; without one the namespaces
/// are listed. Backend options, before or behind it, change nothing.
pub proof fn one_namespace_is_listed(ns: Seq<char>)
    requires
        valid_namespace(ns),
        ns[0] != '-',
    ensures
        list_start(Seq::empty()) == ListView::Namespaces,
        list_start(seq![ns]) == ListView::Vars(ns),
        list_start(seq!["--backend=systemd"@]) == ListView::Namespaces,
        list_start(seq!["--backend=systemd"@, ns]) == ListView::Vars(ns),
        list_start(seq![ns, "--backend=systemd"@]) == ListView::Vars(ns),
{
    reveal_with_fuel(list_args, 4);
    reveal_strlit("-v");
    reveal_strlit("--show-value");
    reveal_strlit("--backend=systemd");
    reveal_strlit("-");
    assert("-v"@[0] == '-' && "--show-value"@[0] == '-' && "--backend=systemd"@[0] == '-');
    assert("--backend=systemd"@.len() == 17 && "-v"@.len() == 2 && "--show-value"@.len() == 12);
    assert("-"@[0] == '-');
    assert(!"-"@.is_prefix_of(ns)) by {
        if "-"@.is_prefix_of(ns) {
            assert(ns.subrange(0, 1)[0] == '-');
        }
    }
    let backend = "--backend=systemd"@;
    let none = Seq::<Seq<char>>::empty();
    assert(seq![ns].drop_first() =~= none);
    assert(seq![backend].drop_first() =~= none);
    assert(seq![backend, ns].drop_first() =~= seq![ns]);
    assert(seq![ns, backend].drop_first() =~= seq![backend]);
}

/// At most one namespace can be listed, and only one of a valid name: what is wrong is
/// told, and nothing is listed.
pub proof fn other_listings_are_refused(
    first: Seq<char>,
    second: Seq<char>,
    rest: Seq<Seq<char>>,
)
    requires
        first.len() == 0 || first[0] != '-',
        second.len() == 0 || second[0] != '-',
    ensures
        list_start(seq![first, second] + rest) matches ListView::Done(r) && r.code == 2
            && r.out.len() == 0,
        !valid_namespace(first) ==> (list_start(seq![first]) matches ListView::Done(r) && r.code
            == 1 && r.out.len() == 0 && occurs(namespace_complaint(first), r.err)),
{
    reveal_with_fuel(list_args, 4);
    no_dash_is_no_option(first);
    no_dash_is_no_option(second);
    let all = seq![first, second] + rest;
    let more = all.drop_first();
    assert(all[0] == first);
    assert(more[0] == second);
    let none = Seq::<Seq<char>>::empty();
    assert(seq![first].drop_first() =~= none);
    let (a, b, z) = ("credchain: "@, "invalid namespace: "@, "\n"@);
    let m = namespace_complaint(first);
    told_within(a + b, m, z);
    assert(a + (b + m) + z =~= (a + b) + m + z);
}

proof fn no_dash_is_no_option(arg: Seq<char>)
    requires
        arg.len() == 0 || arg[0] != '-',
    ensures
        !is_show_value(arg),
        arg != "--backend=systemd"@,
        !"-"@.is_prefix_of(arg),
{
    reveal_strlit("-v");
    reveal_strlit("--show-value");
    reveal_strlit("--backend=systemd");
    reveal_strlit("-");
    assert("-v"@[0] == '-' && "--show-value"@[0] == '-' && "--backend=systemd"@[0] == '-');
    if "-"@.is_prefix_of(arg) {
        assert(arg.subrange(0, 1)[0] == arg[0]);
        assert("-"@[0] == '-');
    }
}

/// An option that `--list` does not have is refused where it is reached, behind
/// nothing, a backend option or a namespace, and told whole.
pub proof fn unknown_list_options_are_told(
    flag: Seq<char>,
    ns: Seq<char>,
    rest: Seq<Seq<char>>,
)
    requires
        flag.len() > 0,
        flag[0] == '-',
        !is_show_value(flag),
        flag != "--backend=systemd"@,
        ns.len() == 0 || ns[0] != '-',
    ensures
        list_start(seq![flag] + rest) matches ListView::Done(r) && r.code == 2 && r.out.len() == 0
            && occurs(flag, r.err),
        list_start(seq![ns, flag] + rest) == list_start(seq![flag] + rest),
        list_start(seq!["--backend=systemd"@, flag] + rest) == list_start(seq![flag] + rest),
{
    reveal_with_fuel(list_args, 4);
    no_dash_is_no_option(ns);
    reveal_strlit("-");
    assert("-"@ =~= seq!['-']);
    assert(flag.subrange(0, 1) =~= "-"@);
    let one = seq![flag] + rest;
    let two = seq![ns, flag] + rest;
    let three = seq!["--backend=systemd"@, flag] + rest;
    assert(one[0] == flag && two[0] == ns && three[0] == "--backend=systemd"@);
    assert(two.drop_first() =~= one);
    assert(three.drop_first() =~= one);
    reveal_strlit("--backend=systemd");
    reveal_strlit("-v");
    reveal_strlit("--show-value");
    assert("--backend=systemd"@.len() == 17 && "-v"@.len() == 2 && "--show-value"@.len() == 12);
    let (a, b, z) = ("credchain: "@, "--list: unknown option: "@, "\n"@);
    told_within(a + b, flag, z);
    assert(a + (b + flag) + z =~= (a + b) + flag + z);
}

} // verus!
