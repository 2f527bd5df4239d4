//! What `--unset` promises over whole runs, and of the listings that follow it.

use vstd::prelude::*;

use crate::dirs::FileKind;
use crate::failure::{FailureKind, FailureView};
use crate::listing::{
    cred_files_list_their_variable, is_cred_file, list_next, list_run, listings_are_complete,
    var_of_file, vars_found, VarListEventView, VarListView,
};
use crate::order::{
    in_order, ordered, ordered_holds_the_same_names, text_le, text_order_is_total,
};
use crate::outside::lossy_text;
use crate::report::{complaint_of, ReportView};
use crate::store::{cred_file_of, namespace_complaint, valid_namespace, valid_var, var_complaint};
use crate::text::{occurs, told_within};
use crate::unset::{
    removed, to_unset, unset_next, unset_removes_what_is_named, unset_run, unset_start,
    UnsetEventView, UnsetView,
};

verus! {

// ---- what a listing reads ----------------------------------------------------------

/// The names of the entries that a listing reads, in the order in which they come.
pub open spec fn entries_read(s: VarListView, events: Seq<VarListEventView>) -> Seq<Seq<char>>
    decreases events.len(),
{
    if events.len() == 0 {
        Seq::empty()
    } else {
        let later = entries_read(list_next(s, events[0]), events.drop_first());
        match (s, events[0]) {
            (VarListView::Entry { ns, vars }, VarListEventView::Entry(Ok(name))) => seq![name]
                + later,
            _ => later,
        }
    }
}

/// The variables of the ciphertext files among some entries.
pub open spec fn vars_among(names: Seq<Seq<char>>) -> Seq<Seq<char>>
    decreases names.len(),
{
    if names.len() == 0 {
        Seq::empty()
    } else if is_cred_file(names[0]) {
        seq![var_of_file(names[0])] + vars_among(names.drop_first())
    } else {
        vars_among(names.drop_first())
    }
}

proof fn vars_found_are_among_the_entries(s: VarListView, events: Seq<VarListEventView>)
    ensures
        vars_found(s, events) == vars_among(entries_read(s, events)),
    decreases events.len(),
{
    if events.len() > 0 {
        let t = list_next(s, events[0]);
        let later = events.drop_first();
        vars_found_are_among_the_entries(t, later);
        if let VarListView::Entry { ns, vars } = s {
            if let VarListEventView::Entry(Ok(name)) = events[0] {
                assert((seq![name] + entries_read(t, later)).drop_first() =~= entries_read(
                    t,
                    later,
                ));
            }
        }
    }
}

/// Only the ciphertext file of a variable is listed under its name.
proof fn one_file_lists_a_variable(name: Seq<char>, var: Seq<char>)
    ensures
        is_cred_file(name) && var_of_file(name) == var <==> name == cred_file_of(var),
{
    cred_files_list_their_variable(var);
    if is_cred_file(name) && var_of_file(name) == var {
        let n = name.len() - ".cred"@.len();
        assert(name.subrange(n, name.len() as int) == ".cred"@);
        assert(name =~= name.take(n) + name.subrange(n, name.len() as int));
    }
}

/// One more in front is one more of its name, and of no other.
proof fn counted_in_front(first: Seq<char>, tail: Seq<Seq<char>>, x: Seq<char>)
    ensures
        (seq![first] + tail).to_multiset().count(x) == tail.to_multiset().count(x) + if x == first {
            1nat
        } else {
            0nat
        },
{
    let one = seq![first];
    let none = Seq::<Seq<char>>::empty();
    vstd::seq_lib::lemma_multiset_commutative(one, tail);
    none.to_multiset_ensures();
    assert(one =~= none.push(first));
    assert(none.to_multiset().len() == 0);
    assert(none.to_multiset().count(x) == 0) by {
        assert(!none.contains(x));
    }
}

/// A variable is found as often as its ciphertext file is read.
proof fn vars_mirror_their_files(names: Seq<Seq<char>>, var: Seq<char>)
    ensures
        vars_among(names).to_multiset().count(var) == names.to_multiset().count(cred_file_of(var)),
    decreases names.len(),
{
    if names.len() > 0 {
        let first = names[0];
        let tail = names.drop_first();
        vars_mirror_their_files(tail, var);
        one_file_lists_a_variable(first, var);
        assert(names =~= seq![first] + tail);
        counted_in_front(first, tail, cred_file_of(var));
        if is_cred_file(first) {
            counted_in_front(var_of_file(first), vars_among(tail), var);
        }
    } else {
        names.to_multiset_ensures();
        vars_among(names).to_multiset_ensures();
        assert(!names.contains(cred_file_of(var)));
        assert(!vars_among(names).contains(var));
    }
}

// ---- lists without some names ------------------------------------------------------

/// A list without the given names, in the same order.
pub open spec fn without(names: Seq<Seq<char>>, gone: Seq<Seq<char>>) -> Seq<Seq<char>> {
    names.filter(|v: Seq<char>| !gone.contains(v))
}

/// What is left are the names that are not gone, each as often as before, and in
/// order if they were.
proof fn what_is_left(names: Seq<Seq<char>>, gone: Seq<Seq<char>>)
    ensures
        forall|v: Seq<char>| #[trigger]
            without(names, gone).to_multiset().count(v) == if gone.contains(v) {
                0
            } else {
                names.to_multiset().count(v)
            },
        in_order(names) ==> in_order(without(names, gone)),
    decreases names.len(),
{
    reveal(Seq::filter);
    let le = |x: Seq<char>, y: Seq<char>| text_le(x, y);
    let left = without(names, gone);
    names.to_multiset_ensures();
    left.to_multiset_ensures();
    if names.len() == 0 {
        assert forall|v: Seq<char>| #[trigger] left.to_multiset().count(v) == if gone.contains(v) {
            0
        } else {
            names.to_multiset().count(v)
        } by {
            assert(!left.contains(v) && !names.contains(v));
        }
    } else {
        let front = names.drop_last();
        let last = names.last();
        let kept = without(front, gone);
        what_is_left(front, gone);
        front.to_multiset_ensures();
        kept.to_multiset_ensures();
        assert(names =~= front.push(last));
        assert(left == if !gone.contains(last) {
            kept.push(last)
        } else {
            kept
        });
        assert forall|v: Seq<char>| #[trigger] left.to_multiset().count(v) == if gone.contains(v) {
            0
        } else {
            names.to_multiset().count(v)
        } by {
            assert(kept.to_multiset().count(v) == if gone.contains(v) {
                0
            } else {
                front.to_multiset().count(v)
            });
        }
        if in_order(names) {
            assert forall|i: int, j: int| 0 <= i < j < front.len() implies #[trigger] le(
                front[i],
                front[j],
            ) by {
                assert(le(names[i], names[j]));
            }
            assert forall|i: int, j: int| 0 <= i < j < left.len() implies #[trigger] le(
                left[i],
                left[j],
            ) by {
                if j < kept.len() {
                    assert(le(kept[i], kept[j]));
                } else {
                    assert(kept.contains(kept[i]));
                    assert(kept.to_multiset().count(kept[i]) > 0);
                    assert(front.contains(kept[i]));
                    let p = choose|p: int| 0 <= p < front.len() && front[p] == kept[i];
                    assert(le(names[p], names[names.len() - 1]));
                }
            }
        }
    }
}

// ---- laws --------------------------------------------------------------------------

/// The ciphertext file of one of the variables in `vars`.
pub open spec fn is_file_of(name: Seq<char>, vars: Seq<Seq<char>>) -> bool {
    exists|v: Seq<char>| vars.contains(v) && name == #[trigger] cred_file_of(v)
}

/// The entries of a directory after an unset: those from before, each name as often
/// as it was there, but for the ciphertext files of the variables in `gone`, which
/// are there no more.
pub open spec fn files_are_gone(
    before: Seq<Seq<char>>,
    after: Seq<Seq<char>>,
    gone: Seq<Seq<char>>,
) -> bool {
    forall|name: Seq<char>| #[trigger]
        after.to_multiset().count(name) == if is_file_of(name, gone) {
            0
        } else {
            before.to_multiset().count(name)
        }
}

/// A listing of a namespace after an unset is the one from before, in the same
/// order, without the variables that were removed: after success those are the
/// named ones, and nothing else is missing. Nothing but the unset has changed the
/// directory; the order in which its entries come may be another.
pub proof fn unset_variables_are_no_longer_listed(
    args: Seq<Seq<char>>,
    unset: Seq<UnsetEventView>,
    a: Seq<VarListEventView>,
    b: Seq<VarListEventView>,
    before: Seq<Seq<char>>,
    after: Seq<Seq<char>>,
)
    requires
        args.len() >= 2,
        list_run(VarListView::Dir { ns: args[0] }, a) == VarListView::Done(Ok(before)),
        list_run(VarListView::Dir { ns: args[0] }, b) == VarListView::Done(Ok(after)),
        files_are_gone(
            entries_read(VarListView::Dir { ns: args[0] }, a),
            entries_read(VarListView::Dir { ns: args[0] }, b),
            removed(unset_start(args), unset),
        ),
    ensures
        after == without(before, removed(unset_start(args), unset)),
        unset_run(unset_start(args), unset) matches UnsetView::Done(r) ==> r.code == 0 ==> after
            == without(before, args.drop_first()),
{
    let s = VarListView::Dir { ns: args[0] };
    let gone = removed(unset_start(args), unset);
    let x = entries_read(s, a);
    let y = entries_read(s, b);
    let left = without(before, gone);
    unset_removes_what_is_named(args, unset);
    vars_found_are_among_the_entries(s, a);
    vars_found_are_among_the_entries(s, b);
    listings_are_complete(s, a);
    listings_are_complete(s, b);
    assert(Seq::<Seq<char>>::empty() + vars_among(x) =~= vars_among(x));
    assert(Seq::<Seq<char>>::empty() + vars_among(y) =~= vars_among(y));
    assert(before == ordered(vars_among(x)));
    assert(after == ordered(vars_among(y)));
    ordered_holds_the_same_names(vars_among(x));
    ordered_holds_the_same_names(vars_among(y));
    what_is_left(before, gone);
    assert forall|v: Seq<char>| #[trigger]
        left.to_multiset().count(v) == after.to_multiset().count(v) by {
        let file = cred_file_of(v);
        vars_mirror_their_files(x, v);
        vars_mirror_their_files(y, v);
        assert(y.to_multiset().count(file) == if is_file_of(file, gone) {
            0
        } else {
            x.to_multiset().count(file)
        });
        if is_file_of(file, gone) {
            let w = choose|w: Seq<char>| gone.contains(w) && file == #[trigger] cred_file_of(w);
            cred_files_list_their_variable(v);
            cred_files_list_their_variable(w);
        }
    }
    assert(left.to_multiset() =~= after.to_multiset());
    text_order_is_total();
    vstd::seq_lib::lemma_sorted_unique(
        left,
        after,
        |p: Seq<char>, q: Seq<char>| text_le(p, q),
    );
}

/// The events of reading some entries when nothing fails and every ciphertext file
/// among them is a regular file.
pub open spec fn calm_entries(names: Seq<Seq<char>>) -> Seq<VarListEventView>
    decreases names.len(),
{
    if names.len() == 0 {
        seq![VarListEventView::End]
    } else if is_cred_file(names[0]) {
        seq![VarListEventView::Entry(Ok(names[0])), VarListEventView::Stat(Ok(FileKind::Regular))]
            + calm_entries(names.drop_first())
    } else {
        seq![VarListEventView::Entry(Ok(names[0]))] + calm_entries(names.drop_first())
    }
}

/// The events of a listing when nothing fails and every ciphertext file among the
/// entries is a regular file.
pub open spec fn calm_listing(dir: Seq<u8>, names: Seq<Seq<char>>) -> Seq<VarListEventView> {
    seq![VarListEventView::Dir(Ok(dir)), VarListEventView::Opened(Ok(()))] + calm_entries(names)
}

proof fn calm_entries_are_read(ns: Seq<char>, vars: Seq<Seq<char>>, names: Seq<Seq<char>>)
    ensures
        list_run(VarListView::Entry { ns, vars }, calm_entries(names)) == VarListView::Done(
            Ok(ordered(vars + vars_among(names))),
        ),
        entries_read(VarListView::Entry { ns, vars }, calm_entries(names)) == names,
    decreases names.len(),
{
    let s = VarListView::Entry { ns, vars };
    let events = calm_entries(names);
    let none = Seq::<VarListEventView>::empty();
    if names.len() == 0 {
        let t = list_next(s, events[0]);
        assert(events.drop_first() =~= none);
        assert(list_run(t, none) == t);
        assert(entries_read(t, none) =~= names);
        assert(vars + vars_among(names) =~= vars);
    } else {
        let name = names[0];
        let tail = names.drop_first();
        let later = calm_entries(tail);
        let t = list_next(s, events[0]);
        assert(names =~= seq![name] + tail);
        if is_cred_file(name) {
            let var = var_of_file(name);
            let stat = events.drop_first();
            let u = list_next(t, stat[0]);
            calm_entries_are_read(ns, vars.push(var), tail);
            assert(stat[0] == events[1]);
            assert(stat.drop_first() =~= later);
            assert(list_run(t, stat) == list_run(u, later));
            assert(entries_read(t, stat) == entries_read(u, later));
            assert(vars + vars_among(names) =~= vars.push(var) + vars_among(tail));
        } else {
            calm_entries_are_read(ns, vars, tail);
            assert(events.drop_first() =~= later);
        }
    }
}

/// A listing in which nothing fails, of a directory whose ciphertext files are
/// regular files, succeeds with the variables of these files, in order.
pub proof fn calm_listings_succeed(ns: Seq<char>, dir: Seq<u8>, names: Seq<Seq<char>>)
    ensures
        list_run(VarListView::Dir { ns }, calm_listing(dir, names)) == VarListView::Done(
            Ok(ordered(vars_among(names))),
        ),
        entries_read(VarListView::Dir { ns }, calm_listing(dir, names)) == names,
{
    let s = VarListView::Dir { ns };
    let events = calm_listing(dir, names);
    let none = Seq::<Seq<char>>::empty();
    let t = list_next(s, events[0]);
    let rest = events.drop_first();
    let u = list_next(t, rest[0]);
    calm_entries_are_read(ns, none, names);
    assert(rest[0] == events[1]);
    assert(rest.drop_first() =~= calm_entries(names));
    assert(list_run(s, events) == list_run(t, rest));
    assert(list_run(t, rest) == list_run(u, rest.drop_first()));
    assert(entries_read(s, events) == entries_read(t, rest));
    assert(entries_read(t, rest) == entries_read(u, rest.drop_first()));
    assert(none + vars_among(names) =~= vars_among(names));
}

/// After an unset of a namespace that could be listed, the namespace can be listed
/// again, and what is listed then is the earlier listing without the variables that
/// were removed.
pub proof fn listings_succeed_after_an_unset(
    args: Seq<Seq<char>>,
    unset: Seq<UnsetEventView>,
    a: Seq<VarListEventView>,
    before: Seq<Seq<char>>,
    dir: Seq<u8>,
    entries: Seq<Seq<char>>,
)
    requires
        args.len() >= 2,
        list_run(VarListView::Dir { ns: args[0] }, a) == VarListView::Done(Ok(before)),
        files_are_gone(
            entries_read(VarListView::Dir { ns: args[0] }, a),
            entries,
            removed(unset_start(args), unset),
        ),
    ensures
        list_run(VarListView::Dir { ns: args[0] }, calm_listing(dir, entries)) == VarListView::Done(
            Ok(without(before, removed(unset_start(args), unset))),
        ),
        unset_run(unset_start(args), unset) matches UnsetView::Done(r) ==> r.code == 0 ==> list_run(
            VarListView::Dir { ns: args[0] },
            calm_listing(dir, entries),
        ) == VarListView::Done(Ok(without(before, args.drop_first()))),
{
    calm_listings_succeed(args[0], dir, entries);
    unset_variables_are_no_longer_listed(
        args,
        unset,
        a,
        calm_listing(dir, entries),
        before,
        ordered(vars_among(entries)),
    );
}

/// The report on a variable that is not there.
pub open spec fn variable_not_found(ns: Seq<char>, var: Seq<char>) -> ReportView {
    complaint_of(1, "variable not found: "@ + ns + "."@ + var)
}

/// To unset a variable that is not there, as after an unset of it, removes nothing
/// and reports that it was not found: nothing else can be the end where every try
/// to open its file finds none, and the first such try is the end.
pub proof fn a_second_unset_finds_nothing(
    ns: Seq<char>,
    var: Seq<char>,
    path: Seq<u8>,
    missing: FailureView,
    events: Seq<UnsetEventView>,
)
    requires
        valid_namespace(ns),
        valid_var(var),
        missing.kind == FailureKind::NotFound,
        forall|i: int|
            0 <= i < events.len() ==> match #[trigger] events[i] {
                UnsetEventView::Path(r) => r is Ok,
                UnsetEventView::Opened(r) => r matches Err(f) && f.kind == FailureKind::NotFound,
                UnsetEventView::Removed(_) => true,
            },
    ensures
        removed(unset_start(seq![ns, var]), events).len() == 0,
        match unset_run(unset_start(seq![ns, var]), events) {
            UnsetView::Done(r) => r == variable_not_found(ns, var),
            UnsetView::Remove { ns: _, var: _, path: _, rest: _ } => false,
            UnsetView::Path { ns: n, var: v, rest: _ } => n == ns && v == var,
            UnsetView::Open { ns: n, var: v, path: _, rest: _ } => n == ns && v == var,
        },
        unset_run(
            unset_start(seq![ns, var]),
            seq![UnsetEventView::Path(Ok(path)), UnsetEventView::Opened(Err(missing))],
        ) == UnsetView::Done(variable_not_found(ns, var)),
    decreases events.len(),
{
    let start = unset_start(seq![ns, var]);
    assert(seq![ns, var].drop_first() =~= seq![var]);
    if events.len() > 0 {
        let before = events.drop_last();
        assert forall|i: int| 0 <= i < before.len() implies match #[trigger] before[i] {
            UnsetEventView::Path(r) => r is Ok,
            UnsetEventView::Opened(r) => r matches Err(f) && f.kind == FailureKind::NotFound,
            UnsetEventView::Removed(_) => true,
        } by {
            assert(before[i] == events[i]);
        }
        a_second_unset_finds_nothing(ns, var, path, missing, before);
        assert(events.last() == events[events.len() - 1]);
    } else {
        let one = UnsetEventView::Path(Ok(path));
        let two = UnsetEventView::Opened(Err(missing));
        assert(seq![one, two].drop_last() =~= seq![one]);
        assert(seq![one].drop_last() =~= Seq::<UnsetEventView>::empty());
        assert(unset_run(start, seq![one].drop_last()) == start);
        assert(unset_run(start, seq![one]) == unset_next(start, one));
        assert(unset_run(start, seq![one, two]) == unset_next(unset_next(start, one), two));
    }
}

// ---- which files go ----------------------------------------------------------------

/// A variable and a file of it.
pub struct VarFile {
    pub var: Seq<char>,
    pub path: Seq<u8>,
}

/// The files that were found for the variables, in order.
pub open spec fn found_files(s: UnsetView, events: Seq<UnsetEventView>) -> Seq<VarFile>
    decreases events.len(),
{
    if events.len() == 0 {
        Seq::empty()
    } else {
        let before = found_files(s, events.drop_last());
        match (unset_run(s, events.drop_last()), events.last()) {
            (UnsetView::Path { ns, var, rest }, UnsetEventView::Path(Ok(path))) => before.push(
                VarFile { var, path },
            ),
            _ => before,
        }
    }
}

/// The files that were removed, in order.
pub open spec fn removed_files(s: UnsetView, events: Seq<UnsetEventView>) -> Seq<VarFile>
    decreases events.len(),
{
    if events.len() == 0 {
        Seq::empty()
    } else {
        let before = removed_files(s, events.drop_last());
        match (unset_run(s, events.drop_last()), events.last()) {
            (
                UnsetView::Remove { ns, var, path, rest },
                UnsetEventView::Removed(Ok(_)),
            ) => before.push(VarFile { var, path }),
            _ => before,
        }
    }
}

/// The files that are removed are those that were found, in the order of the
/// variables on the command line, and each was found for its variable in the given
/// namespace. What is due concerns the next variable, and the file that was found
/// for it. Success means that the file of every named variable was removed.
pub proof fn the_found_files_are_removed(args: Seq<Seq<char>>, events: Seq<UnsetEventView>)
    requires
        args.len() >= 2,
    ensures
        ({
            let start = unset_start(args);
            let found = found_files(start, events);
            let gone = removed_files(start, events);
            &&& gone.is_prefix_of(found)
            &&& found.len() <= args.len() - 1
            &&& forall|i: int| 0 <= i < found.len() ==> (#[trigger] found[i]).var == args[i + 1]
            &&& match unset_run(start, events) {
                UnsetView::Path { ns, var, rest } => ns == args[0] && found == gone && seq![var]
                    + rest == args.skip(1 + gone.len() as int),
                UnsetView::Open { ns, var, path, rest } => ns == args[0] && found == gone.push(
                    VarFile { var, path },
                ) && seq![var] + rest == args.skip(1 + gone.len() as int),
                UnsetView::Remove { ns, var, path, rest } => ns == args[0] && found == gone.push(
                    VarFile { var, path },
                ) && seq![var] + rest == args.skip(1 + gone.len() as int),
                UnsetView::Done(r) => r.code == 0 ==> found == gone && found.len() == args.len()
                    - 1,
            }
        }),
    decreases events.len(),
{
    let start = unset_start(args);
    if events.len() == 0 {
        let vars = args.drop_first();
        assert(seq![vars[0]] + vars.drop_first() =~= args.skip(1));
    } else {
        let before = events.drop_last();
        the_found_files_are_removed(args, before);
        let found = found_files(start, before);
        let gone = removed_files(start, before);
        let n = 1 + gone.len() as int;
        match unset_run(start, before) {
            UnsetView::Path { ns, var, rest } => {
                assert((seq![var] + rest)[0] == var);
                assert((seq![var] + rest).len() > 0);
                assert(args.skip(n)[0] == args[n]);
            },
            UnsetView::Remove { ns, var, path, rest } => {
                assert((seq![var] + rest).drop_first() =~= rest);
                assert(args.skip(n).drop_first() =~= args.skip(n + 1));
                if rest.len() > 0 {
                    assert(seq![rest[0]] + rest.drop_first() =~= rest);
                }
            },
            _ => {},
        }
    }
}

/// The events of a removal when nothing fails.
pub open spec fn calm_unset(paths: Seq<Seq<u8>>) -> Seq<UnsetEventView>
    decreases paths.len(),
{
    if paths.len() == 0 {
        Seq::empty()
    } else {
        calm_unset(paths.drop_last()) + seq![
            UnsetEventView::Path(Ok(paths.last())),
            UnsetEventView::Opened(Ok(())),
            UnsetEventView::Removed(Ok(())),
        ]
    }
}

/// Where nothing fails, a removal of valid names succeeds, tells nothing, and
/// removes the file of each named variable, in their order.
pub proof fn calm_unsets_succeed(args: Seq<Seq<char>>, paths: Seq<Seq<u8>>)
    requires
        args.len() >= 2,
        paths.len() == args.len() - 1,
        valid_namespace(args[0]),
        forall|i: int| 1 <= i < args.len() ==> valid_var(#[trigger] args[i]),
    ensures
        unset_run(unset_start(args), calm_unset(paths)) matches UnsetView::Done(r) && r.code == 0
            && r.out.len() == 0 && r.err.len() == 0,
        removed_files(unset_start(args), calm_unset(paths)) == Seq::new(
            paths.len(),
            |i: int| VarFile { var: args[i + 1], path: paths[i] },
        ),
{
    calm_unsets_go_on(args, paths, paths.len());
    assert(paths.take(paths.len() as int) =~= paths);
    assert(args.skip(1 + paths.len() as int) =~= Seq::<Seq<char>>::empty());
}

proof fn calm_unsets_go_on(args: Seq<Seq<char>>, paths: Seq<Seq<u8>>, n: nat)
    requires
        args.len() >= 2,
        n <= paths.len() == args.len() - 1,
        valid_namespace(args[0]),
        forall|i: int| 1 <= i < args.len() ==> valid_var(#[trigger] args[i]),
    ensures
        unset_run(unset_start(args), calm_unset(paths.take(n as int))) == to_unset(
            args[0],
            args.skip(1 + n as int),
        ),
        removed_files(unset_start(args), calm_unset(paths.take(n as int))) == Seq::new(
            n,
            |i: int| VarFile { var: args[i + 1], path: paths[i] },
        ),
    decreases n,
{
    let start = unset_start(args);
    let now = paths.take(n as int);
    let ns = args[0];
    if n == 0 {
        assert(args.skip(1) =~= args.drop_first());
        assert(removed_files(start, calm_unset(now)) =~= Seq::new(
            n,
            |i: int| VarFile { var: args[i + 1], path: paths[i] },
        ));
    } else {
        let m = (n - 1) as nat;
        let path = paths[m as int];
        let a = calm_unset(paths.take(m as int));
        calm_unsets_go_on(args, paths, m);
        assert(now.drop_last() =~= paths.take(m as int));
        assert(now.last() == path);
        let vars = args.skip(n as int);
        assert(vars[0] == args[n as int]);
        assert(vars.drop_first() =~= args.skip(1 + n as int));
        let b = a.push(UnsetEventView::Path(Ok(path)));
        let c = b.push(UnsetEventView::Opened(Ok(())));
        let d = c.push(UnsetEventView::Removed(Ok(())));
        assert(b.drop_last() =~= a && c.drop_last() =~= b && d.drop_last() =~= c);
        assert(calm_unset(now) =~= d);
        let (var, rest) = (vars[0], vars.drop_first());
        assert(unset_run(start, a) == (UnsetView::Path { ns, var, rest }));
        assert(unset_run(start, b) == (UnsetView::Open { ns, var, path, rest }));
        assert(unset_run(start, c) == (UnsetView::Remove { ns, var, path, rest }));
        assert(unset_run(start, d) == to_unset(ns, rest));
        let gone = removed_files(start, a);
        assert(removed_files(start, b) == gone);
        assert(removed_files(start, c) == gone);
        assert(removed_files(start, d) == gone.push(VarFile { var, path }));
        assert(gone.push(VarFile { var, path }) =~= Seq::new(
            n,
            |i: int| VarFile { var: args[i + 1], path: paths[i] },
        ));
    }
}

/// What ends a removal early is told, with the variable and the namespace or the
/// file that it concerns, and every failure whole.
pub proof fn failed_unsets_say_why(s: UnsetView, f: FailureView)
    ensures
        match s {
            UnsetView::Path { ns, var, rest } => unset_next(
                s,
                UnsetEventView::Path(Err(f)),
            ) matches UnsetView::Done(r) && r.code == 1 && r.out.len() == 0 && occurs(
                f.message,
                r.err,
            ),
            UnsetView::Open { ns, var, path, rest } => unset_next(
                s,
                UnsetEventView::Opened(Err(f)),
            ) matches UnsetView::Done(r) && r.code == 1 && r.out.len() == 0 && occurs(ns, r.err)
                && occurs(var, r.err) && (f.kind != FailureKind::NotFound ==> occurs(
                f.message,
                r.err,
            )),
            UnsetView::Remove { ns, var, path, rest } => unset_next(
                s,
                UnsetEventView::Removed(Err(f)),
            ) matches UnsetView::Done(r) && r.code == 1 && r.out.len() == 0 && occurs(
                f.message,
                r.err,
            ) && occurs(lossy_text(path), r.err),
            UnsetView::Done(_) => true,
        },
{
    let (a, z) = ("credchain: "@, "\n"@);
    let m = f.message;
    match s {
        UnsetView::Path { ns, var, rest } => {
            told_within(a, m, z);
        },
        UnsetView::Open { ns, var, path, rest } => {
            if f.kind == FailureKind::NotFound {
                let b = "variable not found: "@;
                let all = a + (b + ns + "."@ + var) + z;
                told_within(a + b, ns, "."@ + var + z);
                assert(all =~= (a + b) + ns + ("."@ + var + z));
                told_within(a + b + ns + "."@, var, z);
                assert(all =~= (a + b + ns + "."@) + var + z);
            } else {
                let b = "refusing to unset "@;
                let all = a + (b + ns + ":"@ + var + " "@ + m) + z;
                told_within(a + b, ns, ":"@ + var + " "@ + m + z);
                assert(all =~= (a + b) + ns + (":"@ + var + " "@ + m + z));
                told_within(a + b + ns + ":"@, var, " "@ + m + z);
                assert(all =~= (a + b + ns + ":"@) + var + (" "@ + m + z));
                told_within(a + b + ns + ":"@ + var + " "@, m, z);
                assert(all =~= (a + b + ns + ":"@ + var + " "@) + m + z);
            }
        },
        UnsetView::Remove { ns, var, path, rest } => {
            let b = "failed to remove "@;
            let p = lossy_text(path);
            let all = a + (b + p + ": "@ + m) + z;
            told_within(a + b, p, ": "@ + m + z);
            assert(all =~= (a + b) + p + (": "@ + m + z));
            told_within(a + b + p + ": "@, m, z);
            assert(all =~= (a + b + p + ": "@) + m + z);
        },
        UnsetView::Done(_) => {},
    }
}

/// A removal does not start without a namespace and a variable, nor on an invalid
/// namespace; at an invalid variable name it ends, and the name is told.
pub proof fn invalid_names_are_not_unset(args: Seq<Seq<char>>, ns: Seq<char>, vars: Seq<Seq<char>>)
    ensures
        args.len() < 2 ==> (unset_start(args) matches UnsetView::Done(r) && r.code == 2
            && r.out.len() == 0),
        args.len() >= 2 && !valid_namespace(args[0]) ==> (unset_start(args) matches UnsetView::Done(
            r,
        ) && r.code == 1 && r.out.len() == 0 && occurs(namespace_complaint(args[0]), r.err)),
        vars.len() > 0 && !valid_var(vars[0]) ==> (to_unset(ns, vars) matches UnsetView::Done(r)
            && r.code == 1 && r.out.len() == 0 && occurs(vars[0], r.err) && occurs(
            var_complaint(vars[0]),
            r.err,
        )),
{
    let (a, z) = ("credchain: "@, "\n"@);
    if args.len() >= 2 {
        let b = "invalid namespace: "@;
        let m = namespace_complaint(args[0]);
        told_within(a + b, m, z);
        assert(a + (b + m) + z =~= (a + b) + m + z);
    }
    if vars.len() > 0 {
        let b = "invalid variable name '"@;
        let v = vars[0];
        let m = var_complaint(v);
        let all = a + (b + v + "': "@ + m) + z;
        told_within(a + b, v, "': "@ + m + z);
        assert(all =~= (a + b) + v + ("': "@ + m + z));
        told_within(a + b + v + "': "@, m, z);
        assert(all =~= (a + b + v + "': "@) + m + z);
    }
}

} // verus!
