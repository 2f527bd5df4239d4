//! Listings of namespaces and variables. Nothing here decrypts.

use vstd::prelude::*;
use vstd::utf8::{decode_utf8, encode_utf8, valid_utf8};

use crate::dirs::FileKind;
use crate::failure::{bytes_view, outcome_view, Failure, FailureKind, FailureView};
use crate::order::{ordered, sort_names};
use crate::outside::{lossy_text, text_lossy, text_strict};
use crate::path::copy_bytes;
use crate::store::{cred_file_of, staging_name_of, Namespace};
use crate::text::{
    chars_of, decimal_of, ends_with, occurs, take_chars, told_last, told_within,
};

verus! {

/// An entry of the base directory.
pub struct DirEntry {
    pub name: Vec<u8>,
    /// It is a directory itself, not a symlink to one.
    pub is_dir: bool,
}

/// The names of the directories among `entries`, as far as they are text.
pub open spec fn dir_names(entries: Seq<DirEntry>) -> Seq<Seq<char>>
    decreases entries.len(),
{
    if entries.len() == 0 {
        Seq::empty()
    } else {
        let before = dir_names(entries.drop_last());
        let e = entries.last();
        if e.is_dir && valid_utf8(e.name@) {
            before.push(decode_utf8(e.name@))
        } else {
            before
        }
    }
}

/// Namespace names: the directories of the base directory, in order. Symlinks
/// are not directories.
pub fn list_namespaces(entries: &[DirEntry]) -> (r: Vec<String>)
    ensures
        r.deep_view() == ordered(dir_names(entries@)),
{
    let mut names: Vec<String> = Vec::new();
    let mut i: usize = 0;
    assert(names.deep_view() =~= Seq::<Seq<char>>::empty());
    assert(entries@.take(0) =~= Seq::<DirEntry>::empty());
    while i < entries.len()
        invariant
            i <= entries@.len(),
            names.deep_view() == dir_names(entries@.take(i as int)),
        decreases entries@.len() - i,
    {
        let ghost before = names.deep_view();
        assert(entries@.take(i + 1).drop_last() =~= entries@.take(i as int));
        if entries[i].is_dir {
            let found = text_strict(copy_bytes(entries[i].name.as_slice()));
            if let Some(name) = found {
                let ghost text = name@;
                names.push(name);
                assert(names.deep_view() =~= before.push(text));
            }
        }
        i = i + 1;
    }
    assert(entries@.take(entries@.len() as int) =~= entries@);
    sort_names(names)
}

/// The name of a ciphertext file.
pub open spec fn is_cred_file(name: Seq<char>) -> bool {
    ".cred"@.is_suffix_of(name)
}

/// The variable that a ciphertext file is named after.
pub open spec fn var_of_file(name: Seq<char>) -> Seq<char> {
    name.take(name.len() - ".cred"@.len())
}

/// The variable that the ciphertext file `name` is named after.
fn strip_cred(name: &str) -> (r: Option<String>)
    ensures
        match r {
            Some(var) => is_cred_file(name@) && var@ == var_of_file(name@),
            None => !is_cred_file(name@),
        },
{
    if ends_with(name, ".cred") {
        let size: usize = chars_of(".cred").len();
        let total: usize = chars_of(name).len();
        Some(take_chars(name, total - size).to_owned())
    } else {
        None
    }
}

/// The state of listing the variables of a namespace, named after the operation
/// that is due.
pub enum VarList {
    /// Secure the namespace directory.
    Dir { ns: Namespace },
    /// Open the directory for reading.
    Open { ns: Namespace, dir: Vec<u8> },
    /// Read the next entry.
    Entry { ns: Namespace, vars: Vec<String> },
    /// Look at the entry `name`, the ciphertext file of `var`, without following
    /// a symlink.
    Stat { ns: Namespace, vars: Vec<String>, name: String, var: String },
    Done(Result<Vec<String>, String>),
}

pub enum VarListView {
    Dir { ns: Seq<char> },
    Open { ns: Seq<char>, dir: Seq<u8> },
    Entry { ns: Seq<char>, vars: Seq<Seq<char>> },
    Stat { ns: Seq<char>, vars: Seq<Seq<char>>, name: Seq<char>, var: Seq<char> },
    Done(Result<Seq<Seq<char>>, Seq<char>>),
}

/// A list of names or a message, over their characters.
pub open spec fn names_view(r: Result<Vec<String>, String>) -> Result<Seq<Seq<char>>, Seq<char>> {
    match r {
        Ok(names) => Ok(names.deep_view()),
        Err(e) => Err(e@),
    }
}

impl View for VarList {
    type V = VarListView;

    open spec fn view(&self) -> VarListView {
        match *self {
            VarList::Dir { ns } => VarListView::Dir { ns: ns@ },
            VarList::Open { ns, dir } => VarListView::Open { ns: ns@, dir: dir@ },
            VarList::Entry { ns, vars } => VarListView::Entry { ns: ns@, vars: vars.deep_view() },
            VarList::Stat { ns, vars, name, var } => VarListView::Stat {
                ns: ns@,
                vars: vars.deep_view(),
                name: name@,
                var: var@,
            },
            VarList::Done(r) => VarListView::Done(names_view(r)),
        }
    }
}

/// The outcome of an operation of a listing.
pub enum VarListEvent {
    Dir(Result<Vec<u8>, Failure>),
    Opened(Result<(), Failure>),
    /// An entry, by the bytes of its name.
    Entry(Result<Vec<u8>, Failure>),
    /// There are no more entries.
    End,
    Stat(Result<FileKind, Failure>),
}

pub enum VarListEventView {
    Dir(Result<Seq<u8>, FailureView>),
    Opened(Result<(), FailureView>),
    Entry(Result<Seq<char>, FailureView>),
    End,
    Stat(Result<FileKind, FailureView>),
}

impl View for VarListEvent {
    type V = VarListEventView;

    open spec fn view(&self) -> VarListEventView {
        match *self {
            VarListEvent::Dir(r) => VarListEventView::Dir(bytes_view(r)),
            VarListEvent::Opened(r) => VarListEventView::Opened(outcome_view(r)),
            VarListEvent::Entry(Ok(name)) => VarListEventView::Entry(Ok(lossy_text(name@))),
            VarListEvent::Entry(Err(f)) => VarListEventView::Entry(Err(f@)),
            VarListEvent::End => VarListEventView::End,
            VarListEvent::Stat(Ok(kind)) => VarListEventView::Stat(Ok(kind)),
            VarListEvent::Stat(Err(f)) => VarListEventView::Stat(Err(f@)),
        }
    }
}

pub open spec fn not_found_message(ns: Seq<char>) -> Seq<char> {
    "namespace not found: "@ + ns
}

pub open spec fn symlinked_entry_message(ns: Seq<char>, name: Seq<char>) -> Seq<char> {
    "refusing symlinked credential file in namespace "@ + ns + ": "@ + name
}

pub open spec fn irregular_entry_message(ns: Seq<char>, name: Seq<char>) -> Seq<char> {
    "non-regular credential entry in namespace "@ + ns + ": "@ + name
}

/// The state after `event`. Entries that are not ciphertext files are passed
/// over; a ciphertext file that is a symlink or no regular file ends the listing
/// with an error.
pub open spec fn list_next(s: VarListView, event: VarListEventView) -> VarListView {
    match (s, event) {
        (VarListView::Dir { ns }, VarListEventView::Dir(r)) => match r {
            Ok(dir) => VarListView::Open { ns, dir },
            Err(f) => VarListView::Done(Err(f.message)),
        },
        (VarListView::Open { ns, dir }, VarListEventView::Opened(r)) => match r {
            Ok(_) => VarListView::Entry { ns, vars: Seq::empty() },
            Err(f) => if f.kind == FailureKind::NotFound {
                VarListView::Done(Err(not_found_message(ns)))
            } else {
                VarListView::Done(Err(f.message))
            },
        },
        (VarListView::Entry { ns, vars }, VarListEventView::Entry(r)) => match r {
            Ok(name) => if is_cred_file(name) {
                VarListView::Stat { ns, vars, name, var: var_of_file(name) }
            } else {
                s
            },
            Err(f) => VarListView::Done(Err(f.message)),
        },
        (VarListView::Entry { ns, vars }, VarListEventView::End) => VarListView::Done(
            Ok(ordered(vars)),
        ),
        (VarListView::Stat { ns, vars, name, var }, VarListEventView::Stat(r)) => match r {
            Ok(kind) => if kind == FileKind::Symlink {
                VarListView::Done(Err(symlinked_entry_message(ns, name)))
            } else if kind != FileKind::Regular {
                VarListView::Done(Err(irregular_entry_message(ns, name)))
            } else {
                VarListView::Entry { ns, vars: vars.push(var) }
            },
            Err(f) => VarListView::Done(Err(f.message)),
        },
        _ => s,
    }
}

/// Starts to list the variable names (`<VAR>` stripped of `.cred`) of a namespace.
pub fn list_vars(ns: &Namespace) -> (r: VarList)
    ensures
        r@ == (VarListView::Dir { ns: ns@ }),
{
    VarList::Dir { ns: ns.clone() }
}

/// `first`, `middle`, `": "` and `last`, one behind the other.
fn entry_message(first: &str, middle: &str, last: &str) -> (r: String)
    ensures
        r@ == first@ + middle@ + ": "@ + last@,
{
    let mut m = first.to_owned();
    m.append(middle);
    m.append(": ");
    m.append(last);
    m
}

/// The message for a namespace that is not there.
pub(crate) fn not_found(ns: &Namespace) -> (r: String)
    ensures
        r@ == not_found_message(ns@),
{
    let mut m = "namespace not found: ".to_owned();
    m.append(ns.as_str());
    m
}

impl VarList {
    /// The state after `event`.
    pub fn step(self, event: VarListEvent) -> (r: VarList)
        ensures
            r@ == list_next(self@, event@),
    {
        match (self, event) {
            (VarList::Dir { ns }, VarListEvent::Dir(r)) => match r {
                Ok(dir) => VarList::Open { ns, dir },
                Err(f) => VarList::Done(Err(f.message)),
            },
            (VarList::Open { ns, dir: _ }, VarListEvent::Opened(r)) => match r {
                Ok(_) => {
                    let vars: Vec<String> = Vec::new();
                    assert(vars.deep_view() =~= Seq::<Seq<char>>::empty());
                    VarList::Entry { ns, vars }
                },
                Err(f) => if f.kind == FailureKind::NotFound {
                    VarList::Done(Err(not_found(&ns)))
                } else {
                    VarList::Done(Err(f.message))
                },
            },
            (VarList::Entry { ns, vars }, VarListEvent::Entry(r)) => match r {
                Ok(bytes) => {
                    let name = text_lossy(bytes.as_slice());
                    match strip_cred(name.as_str()) {
                        Some(var) => VarList::Stat { ns, vars, name, var },
                        None => VarList::Entry { ns, vars },
                    }
                },
                Err(f) => VarList::Done(Err(f.message)),
            },
            (VarList::Entry { ns: _, vars }, VarListEvent::End) => VarList::Done(
                Ok(sort_names(vars)),
            ),
            (VarList::Stat { ns, vars, name, var }, VarListEvent::Stat(r)) => match r {
                Ok(kind) => if kind == FileKind::Symlink {
                    VarList::Done(
                        Err(
                            entry_message(
                                "refusing symlinked credential file in namespace ",
                                ns.as_str(),
                                name.as_str(),
                            ),
                        ),
                    )
                } else if kind != FileKind::Regular {
                    VarList::Done(
                        Err(
                            entry_message(
                                "non-regular credential entry in namespace ",
                                ns.as_str(),
                                name.as_str(),
                            ),
                        ),
                    )
                } else {
                    listed(ns, vars, var)
                },
                Err(f) => VarList::Done(Err(f.message)),
            },
            (s, _) => s,
        }
    }
}

/// The ciphertext file of `var` is a good one: it joins the listing.
fn listed(ns: Namespace, vars: Vec<String>, var: String) -> (r: VarList)
    ensures
        r@ == (VarListView::Entry { ns: ns@, vars: vars.deep_view().push(var@) }),
{
    let ghost before = vars.deep_view();
    let ghost text = var@;
    let mut vars = vars;
    vars.push(var);
    assert(vars.deep_view() =~= before.push(text));
    VarList::Entry { ns, vars }
}

// ---- laws --------------------------------------------------------------------

/// The state after a sequence of events.
pub open spec fn list_run(s: VarListView, events: Seq<VarListEventView>) -> VarListView
    decreases events.len(),
{
    if events.len() == 0 {
        s
    } else {
        list_run(list_next(s, events[0]), events.drop_first())
    }
}

/// The variables whose ciphertext files turn up among the entries that are read.
pub open spec fn vars_found(s: VarListView, events: Seq<VarListEventView>) -> Seq<Seq<char>>
    decreases events.len(),
{
    if events.len() == 0 {
        Seq::empty()
    } else {
        let later = vars_found(list_next(s, events[0]), events.drop_first());
        match (s, events[0]) {
            (VarListView::Entry { ns, vars }, VarListEventView::Entry(Ok(name))) => if is_cred_file(
                name,
            ) {
                seq![var_of_file(name)] + later
            } else {
                later
            },
            _ => later,
        }
    }
}

/// The variables that a state holds already.
pub open spec fn vars_so_far(s: VarListView) -> Seq<Seq<char>> {
    match s {
        VarListView::Entry { ns, vars } => vars,
        VarListView::Stat { ns, vars, name, var } => vars.push(var),
        _ => Seq::empty(),
    }
}

/// A finished listing stays as it is.
proof fn listing_ends_stay(s: VarListView, events: Seq<VarListEventView>)
    requires
        s is Done,
    ensures
        list_run(s, events) == s,
        vars_found(s, events) == Seq::<Seq<char>>::empty(),
    decreases events.len(),
{
    if events.len() > 0 {
        listing_ends_stay(s, events.drop_first());
    }
}

/// A listing that succeeds leaves nothing out: it holds the variable of every
/// ciphertext file that was read, and no other, in order.
pub proof fn listings_are_complete(s: VarListView, events: Seq<VarListEventView>)
    requires
        !(s is Done),
        list_run(s, events) matches VarListView::Done(Ok(_)),
    ensures
        list_run(s, events) == VarListView::Done(
            Ok(ordered(vars_so_far(s) + vars_found(s, events))),
        ),
    decreases events.len(),
{
    if events.len() > 0 {
        let t = list_next(s, events[0]);
        let later = events.drop_first();
        if t is Done {
            listing_ends_stay(t, later);
            assert(vars_so_far(s) + vars_found(s, events) =~= vars_so_far(s));
        } else {
            listings_are_complete(t, later);
            assert(vars_so_far(s) + vars_found(s, events) =~= vars_so_far(t) + vars_found(
                t,
                later,
            ));
        }
    }
}

/// A ciphertext file that is a symlink or not regular ends the listing with an
/// error, whatever else the directory holds.
pub proof fn unsafe_entries_end_the_listing(
    ns: Seq<char>,
    vars: Seq<Seq<char>>,
    name: Seq<char>,
    kind: FileKind,
    later: Seq<VarListEventView>,
)
    requires
        is_cred_file(name),
        kind != FileKind::Regular,
    ensures
        list_run(
            VarListView::Entry { ns, vars },
            seq![VarListEventView::Entry(Ok(name)), VarListEventView::Stat(Ok(kind))] + later,
        ) matches VarListView::Done(Err(_)),
{
    let s = VarListView::Entry { ns, vars };
    let events = seq![VarListEventView::Entry(Ok(name)), VarListEventView::Stat(Ok(kind))] + later;
    let t = list_next(s, events[0]);
    let u = list_next(t, events[1]);
    assert(events.drop_first()[0] == events[1]);
    assert(events.drop_first().drop_first() =~= later);
    assert(list_run(s, events) == list_run(t, events.drop_first()));
    assert(list_run(t, events.drop_first()) == list_run(u, later));
    listing_ends_stay(u, later);
}

/// A staging file is never taken for a variable.
pub proof fn staging_files_are_not_listed(var: Seq<char>, pid: nat, n: nat)
    ensures
        !is_cred_file(staging_name_of(var, pid, n)),
{
    reveal_strlit(".cred");
    crate::text::decimal_is_not_empty(n);
    let name = staging_name_of(var, pid, n);
    let d = decimal_of(n);
    assert(name.last() == d.last());
    assert(d[d.len() - 1] <= '9');
    if is_cred_file(name) {
        let tail = name.subrange(name.len() - 5, name.len() as int);
        assert(tail[4] == 'd');
        assert(tail[4] == name.last());
    }
}

/// The ciphertext file of a variable is listed under that variable's name.
pub proof fn cred_files_list_their_variable(var: Seq<char>)
    ensures
        is_cred_file(cred_file_of(var)),
        var_of_file(cred_file_of(var)) == var,
{
    let name = cred_file_of(var);
    assert(name.subrange(name.len() - ".cred"@.len(), name.len() as int) =~= ".cred"@);
    assert(name.take(name.len() - ".cred"@.len()) =~= var);
}

/// A name is listed as a namespace exactly as often as a directory of that name is
/// among the entries, whatever else there is.
pub proof fn namespaces_are_the_directories(entries: Seq<DirEntry>, name: Seq<char>)
    ensures
        ordered(dir_names(entries)).to_multiset().count(name) == entries.filter(
            |e: DirEntry| e.is_dir && e.name@ == encode_utf8(name),
        ).len(),
{
    crate::order::ordered_holds_the_same_names(dir_names(entries));
    directories_are_counted(entries, name);
}

proof fn directories_are_counted(entries: Seq<DirEntry>, name: Seq<char>)
    ensures
        dir_names(entries).to_multiset().count(name) == entries.filter(
            |e: DirEntry| e.is_dir && e.name@ == encode_utf8(name),
        ).len(),
    decreases entries.len(),
{
    reveal(Seq::filter);
    let found = dir_names(entries);
    found.to_multiset_ensures();
    if entries.len() == 0 {
        assert(!found.contains(name));
    } else {
        let before = entries.drop_last();
        let e = entries.last();
        directories_are_counted(before, name);
        dir_names(before).to_multiset_ensures();
        vstd::utf8::encode_utf8_decode_utf8(name);
        vstd::utf8::encode_utf8_valid_utf8(name);
        if valid_utf8(e.name@) {
            vstd::utf8::decode_utf8_encode_utf8(e.name@);
        }
    }
}

/// A file is one of a variable exactly if its name is that of the variable and
/// `.cred` behind it.
pub proof fn cred_files_are_told_by_their_names(name: Seq<char>)
    ensures
        is_cred_file(name) <==> exists|var: Seq<char>| name == #[trigger] cred_file_of(var),
        is_cred_file(name) ==> name == cred_file_of(var_of_file(name)),
{
    if is_cred_file(name) {
        let n = name.len() - ".cred"@.len();
        assert(name.subrange(n, name.len() as int) == ".cred"@);
        assert(name =~= name.take(n) + name.subrange(n, name.len() as int));
        assert(name == cred_file_of(var_of_file(name)));
    }
    if exists|var: Seq<char>| name == #[trigger] cred_file_of(var) {
        let var = choose|var: Seq<char>| name == #[trigger] cred_file_of(var);
        cred_files_list_their_variable(var);
    }
}

/// What ends a listing in failure is told: the namespace that is not there, the
/// entry that is not safe, and any other failure as it is.
pub proof fn failed_listings_say_why(
    ns: Seq<char>,
    dir: Seq<u8>,
    vars: Seq<Seq<char>>,
    name: Seq<char>,
    var: Seq<char>,
    f: FailureView,
)
    ensures
        ({
            let open = VarListView::Open { ns, dir };
            let entry = VarListView::Entry { ns, vars };
            let stat = VarListView::Stat { ns, vars, name, var };
            &&& list_next(VarListView::Dir { ns }, VarListEventView::Dir(Ok(dir))) == open
            &&& list_next(VarListView::Dir { ns }, VarListEventView::Dir(Err(f)))
                == VarListView::Done(Err(f.message))
            &&& f.kind == FailureKind::NotFound ==> (list_next(
                open,
                VarListEventView::Opened(Err(f)),
            ) matches VarListView::Done(Err(m)) && ns.is_suffix_of(m))
            &&& f.kind != FailureKind::NotFound ==> list_next(
                open,
                VarListEventView::Opened(Err(f)),
            ) == VarListView::Done(Err(f.message))
            &&& list_next(entry, VarListEventView::Entry(Err(f))) == VarListView::Done(
                Err(f.message),
            )
            &&& list_next(stat, VarListEventView::Stat(Err(f))) == VarListView::Done(
                Err(f.message),
            )
            &&& (list_next(stat, VarListEventView::Stat(Ok(FileKind::Symlink))) matches
                VarListView::Done(Err(m)) && occurs(ns, m) && name.is_suffix_of(m))
            &&& (list_next(stat, VarListEventView::Stat(Ok(FileKind::Directory))) matches
                VarListView::Done(Err(m)) && occurs(ns, m) && name.is_suffix_of(m))
        }),
{
    told_last("namespace not found: "@, ns);
    let a = "refusing symlinked credential file in namespace "@;
    let b = "non-regular credential entry in namespace "@;
    told_within(a, ns, ": "@ + name);
    told_within(b, ns, ": "@ + name);
    assert(a + ns + (": "@ + name) =~= a + ns + ": "@ + name);
    assert(b + ns + (": "@ + name) =~= b + ns + ": "@ + name);
    told_last(a + ns + ": "@, name);
    told_last(b + ns + ": "@, name);
}

} // verus!
