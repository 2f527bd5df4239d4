//! What is handed to a procedure is what it works on: its arguments reach the first
//! operation that is due whole and unchanged, and the names it takes and gives are
//! the whole ones.

use vstd::prelude::*;
use vstd::utf8::encode_utf8;

use crate::creds::{backoff_of, decrypt_args, transport_backoff};
use crate::decrypt::{decrypt_to_memory, read_from_credentials_directory, CredDir, Decrypt};
use crate::dirs::{
    ensure_dir_secure, ensure_lock_dir, namespace_exists, namespace_path, DirPurpose, Dirs,
    FileKind, FileStat,
};
use crate::encrypt::{encrypt_args, encrypt_to_file, Encrypt};
use crate::exec::{resolve, resolve_due, Exec, ExecError, ExecPlan, Resolve};
use crate::failure::{Failure, FailureKind};
use crate::input::{read_line, read_value, PromptResult, Prompting};
use crate::install::{install_atomic, Install};
use crate::listing::{list_vars, VarList};
use crate::order::{in_order, ordered_holds_the_same_names, sort_names};
use crate::path::{join_text, joined_text};
use crate::report::Report;
use crate::slots::{acquire_decrypt_slot_in, slot_path, Slots};
use crate::store::{
    cred_file, cred_name, valid_namespace, valid_var, Namespace, VarName,
};
use crate::text::{decimal_of, same_text};

verus! {

// ---- names -------------------------------------------------------------------------

/// A name is taken as a whole or not at all, and given back as it was taken.
pub proof fn names_are_taken_whole(
    text: &str,
    ns: Result<Namespace, String>,
    var: Result<VarName, String>,
    shown: &str,
    label: &str,
)
    requires
        call_ensures(Namespace::parse, (text,), ns),
        call_ensures(VarName::parse, (text,), var),
        ns matches Ok(n) ==> call_ensures(Namespace::as_str, (&n,), shown),
        var matches Ok(v) ==> call_ensures(VarName::as_str, (&v,), label),
    ensures
        ns is Ok <==> valid_namespace(text@),
        ns is Ok ==> shown@ == text@,
        var is Ok <==> valid_var(text@),
        var is Ok ==> label@ == text@,
{
}

/// The credential of a variable is named after the program, its namespace and the
/// variable; its file after the variable alone. Both hold the names as a whole.
pub proof fn credentials_are_named_in_full(
    ns: &Namespace,
    var: &VarName,
    credential: String,
    file: String,
)
    requires
        call_ensures(cred_name, (ns, var), credential),
        call_ensures(cred_file, (var,), file),
    ensures
        credential@ == "credchain."@ + ns@ + "."@ + var@,
        file@ == var@ + ".cred"@,
{
}

/// Two texts are the same if they hold the same characters, and only then.
pub proof fn same_texts_are_equal(a: &str, b: &str, r: bool)
    requires
        call_ensures(same_text, (a, b), r),
    ensures
        r <==> a@ == b@,
{
}

/// Sorting loses no name, adds none, and puts them in order.
pub proof fn sorting_keeps_the_names(names: Vec<String>, sorted: Vec<String>)
    requires
        call_ensures(sort_names, (names,), sorted),
    ensures
        sorted.deep_view().to_multiset() == names.deep_view().to_multiset(),
        in_order(sorted.deep_view()),
{
    ordered_holds_the_same_names(names.deep_view());
}

// ---- programs to run -----------------------------------------------------------------

/// `systemd-creds` is told the whole credential name, behind `--name`, and to work
/// for the user, from stdin.
pub proof fn programs_are_told_the_name(
    name: &str,
    encryption: Vec<String>,
    decryption: Vec<String>,
)
    requires
        call_ensures(encrypt_args, (name,), encryption),
        call_ensures(decrypt_args, (name,), decryption),
    ensures
        ({
            let args = encryption.deep_view();
            &&& args.len() == 6
            &&& args[0] == "encrypt"@
            &&& args[1] == "--user"@
            &&& args[3] == "--name"@
            &&& args[4] == name@
            &&& args[5] == "-"@
        }),
        ({
            let args = decryption.deep_view();
            &&& args.len() == 6
            &&& args[0] == "decrypt"@
            &&& args[1] == "--user"@
            &&& args[2] == "--name"@
            &&& args[3] == name@
            &&& args[4] == "-"@
            &&& args[5] == "-"@
        }),
{
}

/// The wait after an attempt is the backoff and up to half of it more.
pub proof fn waits_lie_between_their_bounds(attempt: u32, pid: u32, nanos: u32, wait: u64)
    requires
        call_ensures(transport_backoff, (attempt, pid, nanos), wait),
    ensures
        backoff_of(attempt as nat) <= wait <= backoff_of(attempt as nat) + backoff_of(
            attempt as nat,
        ) / 2,
{
    let range = backoff_of(attempt as nat) / 2 + 1;
    let draw = (pid as u64 ^ nanos as u64) as nat;
    assert(0 <= draw % range < range) by (nonlinear_arith)
        requires
            range > 0,
            draw >= 0,
    ;
}

// ---- what a procedure starts on --------------------------------------------------------

/// An encryption starts on the whole plaintext, the whole name and the given file.
pub proof fn encryptions_start_on_what_is_given(
    name: &str,
    plaintext: &[u8],
    path: &[u8],
    s: Encrypt,
)
    requires
        call_ensures(encrypt_to_file, (name, plaintext, path), s),
    ensures
        s matches Encrypt::Create(job) && job.cred_name@ == name@ && job.plaintext@ == plaintext@
            && job.out_path@ == path@,
{
}

/// An installation starts on the given files, each in its place.
pub proof fn installations_start_on_what_is_given(staging: &[u8], target: &[u8], s: Install)
    requires
        call_ensures(install_atomic, (staging, target), s),
    ensures
        s matches Install::Protect(job) && job.staging@ == staging@ && job.target@ == target@,
{
}

/// A decryption starts on the given file, under the whole name.
pub proof fn decryptions_start_on_what_is_given(name: &str, file: &[u8], s: Decrypt)
    requires
        call_ensures(decrypt_to_memory, (name, file), s),
    ensures
        s matches Decrypt::Open { cred_name, path, shown } && cred_name@ == name@ && path@ == file@,
{
}

/// A value that was decrypted by the service manager is looked for under the whole
/// name in the credentials directory, if there is one.
pub proof fn credentials_are_looked_for_by_name(dir: Option<Vec<u8>>, name: &str, s: CredDir)
    requires
        call_ensures(read_from_credentials_directory, (dir, name), s),
    ensures
        match dir {
            Some(d) => if d@.len() > 0 {
                s matches CredDir::Stat { name: n, path } && n@ == name@ && encode_utf8(
                    name@,
                ).is_suffix_of(path@) && path@ == joined_text(d@, name@)
            } else {
                s matches CredDir::Done(Ok(None))
            },
            None => s matches CredDir::Done(Ok(None)),
        },
{
    if let Some(d) = dir {
        if d@.len() > 0 {
            crate::path::joined_paths_keep_both_parts(d@, encode_utf8(name@));
        }
    }
}

/// Directories are secured at the path that is given, and that path is handed out.
pub proof fn directories_are_secured_where_asked(p: &[u8], s: Dirs, t: Dirs)
    requires
        call_ensures(ensure_dir_secure, (p,), s),
        call_ensures(ensure_lock_dir, (p,), t),
    ensures
        s matches Dirs::Stat(job) && job.path@ == p@ && job.answer@ == p@ && job.rest@.len() == 0
            && job.purpose == DirPurpose::Store,
        t matches Dirs::Stat(job) && job.path@ == p@ && job.answer@ == p@ && job.rest@.len() == 0
            && job.purpose == DirPurpose::Lock,
{
    if let Dirs::Stat(job) = s {
        assert(job@.rest.len() == job.rest@.len());
    }
    if let Dirs::Stat(job) = t {
        assert(job@.rest.len() == job.rest@.len());
    }
}

/// A namespace is where its whole name leads from the base directory, and it exists
/// exactly if a directory is there; what fails for another reason is told.
pub proof fn namespaces_are_looked_for_by_name(
    base: &[u8],
    ns: &Namespace,
    path: Vec<u8>,
    st: FileStat,
    f: Failure,
    a: Result<bool, Failure>,
    b: Result<bool, Failure>,
)
    requires
        call_ensures(namespace_path, (base, ns), path),
        call_ensures(namespace_exists, (Ok::<FileStat, Failure>(st),), a),
        call_ensures(namespace_exists, (Err::<FileStat, Failure>(f),), b),
    ensures
        path@ == joined_text(base@, ns@),
        a matches Ok(found) && found == (st.kind == FileKind::Directory),
        match b {
            Ok(found) => !found && f.kind == FailureKind::NotFound,
            Err(e) => f.kind != FailureKind::NotFound && e.message@ == f.message@,
        },
{
}

/// A variable is resolved under its own credential name, in its own namespace.
pub proof fn variables_are_resolved_by_name(
    plan: &ExecPlan,
    v: &VarName,
    name: &str,
    n: &Namespace,
    due: Resolve,
    s: Resolve,
)
    requires
        call_ensures(resolve_due, (plan, v), due),
        call_ensures(resolve, (name, n, v), s),
    ensures
        due matches Resolve::Directory { cred_name, ns, var } && cred_name@ == "credchain."@
            + plan.ns@ + "."@ + v@ && ns@ == plan.ns@ && var@ == v@,
        s matches Resolve::Directory { cred_name, ns, var } && cred_name@ == name@ && ns@ == n@
            && var@ == v@,
{
}

/// Exec mode starts on the first of the namespaces, with the others behind it in
/// their order, on the given command, and on an empty environment of its own.
pub proof fn exec_mode_starts_on_what_is_given(
    namespaces: Vec<Namespace>,
    argv: Vec<String>,
    s: Exec,
)
    requires
        call_ensures(crate::exec::run, (namespaces, argv), s),
        namespaces@.len() > 0,
        argv@.len() > 0,
    ensures
        s matches Exec::Exists(plan) && plan.ns@ == namespaces@[0]@ && plan.rest.deep_view()
            == namespaces.deep_view().skip(1) && plan.argv.deep_view() == argv.deep_view()
            && plan.env@.len() == 0,
{
    let names = namespaces.deep_view();
    assert(names.len() == namespaces@.len());
    assert(names[0] == namespaces@[0]@);
    assert(argv.deep_view().len() == argv@.len());
    assert(names.drop_first() =~= names.skip(1));
    if let Exec::Exists(plan) = s {
        assert(plan@.env.len() == plan.env@.len());
    }
}

/// Why the target was not run is told whole, on stderr, with a failing exit code.
pub proof fn exec_errors_are_told_whole(e: ExecError, r: Report)
    requires
        call_ensures(crate::cli::exec_report, (e,), r),
    ensures
        r.code == 1,
        r.out@.len() == 0,
        r.err@ == "credchain: "@ + e.0@ + "\n"@,
{
}

/// A prompt shows its whole label; without echo the terminal is asked first.
pub proof fn prompts_show_their_label(label: &str, s: Prompting, t: Prompting)
    requires
        call_ensures(read_value, (label, false), s),
        call_ensures(read_value, (label, true), t),
    ensures
        s matches Prompting::Show { text, hidden } && label@.is_prefix_of(text@) && !hidden,
        t matches Prompting::Query { prompt } && prompt@ == label@,
{
    if let Prompting::Show { text, hidden } = s {
        assert(text@.subrange(0, label@.len() as int) =~= label@);
    }
}

/// The value of a line is the line, but for the newline at its end.
pub proof fn lines_are_taken_whole(line: Vec<u8>, r: PromptResult)
    requires
        call_ensures(read_line, (line,), r),
    ensures
        r.eof <==> line@.len() == 0,
        r.value@.is_prefix_of(line@),
        line@.skip(r.value@.len() as int) == Seq::<u8>::empty() || line@.skip(r.value@.len() as int)
            == seq![0x0au8] || line@.skip(r.value@.len() as int) == seq![0x0du8, 0x0au8],
{
    let rest = line@.skip(r.value@.len() as int);
    assert(r.value@ =~= line@.subrange(0, r.value@.len() as int));
    if line@.len() > 0 && line@.last() == 0x0a {
        let body = line@.drop_last();
        if body.len() > 0 && body.last() == 0x0d {
            assert(rest =~= seq![0x0du8, 0x0au8]);
        } else {
            assert(rest =~= seq![0x0au8]);
        }
    } else {
        assert(rest =~= Seq::<u8>::empty());
    }
}

/// A listing starts on the given namespace.
pub proof fn listings_start_on_what_is_given(n: &Namespace, s: VarList)
    requires
        call_ensures(list_vars, (n,), s),
    ensures
        s matches VarList::Dir { ns } && ns@ == n@,
{
}

/// Slots are looked for in the given directory, from the first on, and waited for as
/// long as asked; the file of a slot is named after its number.
pub proof fn slots_are_looked_for_where_asked(
    d: &[u8],
    wait_ms: u64,
    number: u32,
    s: Slots,
    path: Vec<u8>,
)
    requires
        call_ensures(acquire_decrypt_slot_in, (d, wait_ms), s),
        call_ensures(slot_path, (d, number), path),
    ensures
        s matches Slots::Open { dir, wait, slot } && dir@ == d@ && wait.millis == wait_ms && slot
            == 0,
        path@ == joined_text(d@, "decrypt.slot."@ + decimal_of(number as nat)),
{
}

/// A path is joined from both of its parts.
pub proof fn paths_are_joined_from_both_parts(base: &[u8], part: &str, path: Vec<u8>)
    requires
        call_ensures(join_text, (base, part), path),
    ensures
        path@ == joined_text(base@, part@),
        encode_utf8(part@).is_suffix_of(path@),
{
    crate::path::joined_paths_keep_both_parts(base@, encode_utf8(part@));
}

} // verus!
