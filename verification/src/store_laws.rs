//! How variables are kept apart in the store.

use vstd::prelude::*;
use vstd::utf8::encode_utf8;

use crate::dirs::{
    answers_stay, base_path_of, cred_file_path, cred_path_of, dir_run, namespace_dir_of,
    DirEventView, DirsView, StoreEnvView,
};
use crate::failure::FailureView;
use crate::listing::{is_cred_file, staging_files_are_not_listed};
use crate::path::{joined, joined_text, within, SEPARATOR};
use crate::store::{
    cred_file_of, cred_name_of, file_name_safe, last_mark_splits, names_are_file_name_safe,
    namespace_char, namespace_complaint, staging_name_of, valid_namespace, valid_var, var_char,
    var_complaint, var_start,
};
use crate::text::{
    decimal_is_injective, decimal_is_not_empty, decimal_of, one_byte, starts_with_its_first,
    utf8_append,
};

verus! {

/// The UTF-8 form of a name without a separator has none either.
proof fn safe_names_in_bytes(s: Seq<char>)
    requires
        s.len() > 0,
        !s.contains('/'),
        vstd::utf8::is_ascii_chars(s),
    ensures
        encode_utf8(s).len() > 0,
        !encode_utf8(s).contains(SEPARATOR),
{
    vstd::utf8::is_ascii_chars_encode_utf8(s);
    assert forall|i: int| 0 <= i < s.len() implies encode_utf8(s)[i] != SEPARATOR by {
        assert(s[i] != '/');
        assert(s.contains(s[i]));
    }
}

/// Two sequences of a part without a separator, a separator, and another part are
/// equal only part by part.
proof fn parts_are_told_apart(a: Seq<u8>, x: Seq<u8>, b: Seq<u8>, y: Seq<u8>)
    requires
        !a.contains(SEPARATOR),
        !b.contains(SEPARATOR),
        a.push(SEPARATOR) + x == b.push(SEPARATOR) + y,
    ensures
        a == b,
        x == y,
{
    let p = a.push(SEPARATOR) + x;
    let q = b.push(SEPARATOR) + y;
    assert(p[a.len() as int] == SEPARATOR);
    assert(q[b.len() as int] == SEPARATOR);
    if a.len() < b.len() {
        assert(q[a.len() as int] == b[a.len() as int]);
        assert(b.contains(SEPARATOR));
    } else if b.len() < a.len() {
        assert(p[b.len() as int] == a[b.len() as int]);
        assert(a.contains(SEPARATOR));
    }
    assert(p.take(a.len() as int) =~= a);
    assert(q.take(b.len() as int) =~= b);
    assert(p.skip(a.len() as int + 1) =~= x);
    assert(q.skip(b.len() as int + 1) =~= y);
}

/// Each variable has a ciphertext file of its own: no two variables of valid
/// names share one.
pub proof fn variables_have_files_of_their_own(
    base: Seq<u8>,
    ns1: Seq<char>,
    var1: Seq<char>,
    ns2: Seq<char>,
    var2: Seq<char>,
)
    requires
        valid_namespace(ns1),
        valid_var(var1),
        valid_namespace(ns2),
        valid_var(var2),
        cred_file_path(base, ns1, var1) == cred_file_path(base, ns2, var2),
    ensures
        ns1 == ns2,
        var1 == var2,
{
    reveal_strlit(".cred");
    names_are_file_name_safe(ns1, var1, 0, 0);
    names_are_file_name_safe(ns2, var2, 0, 0);
    names_are_ascii(ns1, var1);
    names_are_ascii(ns2, var2);
    let f1 = cred_file_of(var1);
    let f2 = cred_file_of(var2);
    safe_names_in_bytes(ns1);
    safe_names_in_bytes(ns2);
    safe_names_in_bytes(f1);
    safe_names_in_bytes(f2);
    let (n, m) = (encode_utf8(ns1), encode_utf8(ns2));
    let (g, h) = (encode_utf8(f1), encode_utf8(f2));
    assert(n.contains(n[0]) && n.contains(n.last()) && m.contains(m[0]) && m.contains(m.last()));
    assert(g.contains(g[0]) && h.contains(h[0]));
    let head = within(base);
    assert(joined(base, n) == head + n);
    assert(joined(base, m) == head + m);
    assert((head + n).last() == n.last() && (head + m).last() == m.last());
    let p = n.push(SEPARATOR) + g;
    let q = m.push(SEPARATOR) + h;
    assert(cred_file_path(base, ns1, var1) =~= head + p);
    assert(cred_file_path(base, ns2, var2) =~= head + q);
    assert((head + p).skip(head.len() as int) =~= p);
    assert((head + q).skip(head.len() as int) =~= q);
    parts_are_told_apart(n, g, m, h);
    vstd::utf8::encode_utf8_decode_utf8(ns1);
    vstd::utf8::encode_utf8_decode_utf8(ns2);
    vstd::utf8::encode_utf8_decode_utf8(f1);
    vstd::utf8::encode_utf8_decode_utf8(f2);
    assert(f1.take(var1.len() as int) =~= var1);
    assert(f2.take(var2.len() as int) =~= var2);
    assert(f1.len() == var1.len() + 5 && f2.len() == var2.len() + 5);
}

/// Names are plain ASCII.
proof fn names_are_ascii(ns: Seq<char>, var: Seq<char>)
    requires
        valid_namespace(ns),
        valid_var(var),
    ensures
        vstd::utf8::is_ascii_chars(ns),
        vstd::utf8::is_ascii_chars(cred_file_of(var)),
{
    reveal_strlit(".cred");
    assert forall|i: int| 0 <= i < ns.len() implies (#[trigger] ns[i] as nat) < 128 by {
        assert(namespace_char(ns[i]));
    }
    let file = cred_file_of(var);
    assert forall|i: int| 0 <= i < file.len() implies (#[trigger] file[i] as nat) < 128 by {
        if 0 < i < var.len() {
            assert(var_char(var[i]));
        }
    }
}

// ---- staging files -----------------------------------------------------------------

/// The UTF-8 form of a number in decimal: at least one byte, all of them digits.
proof fn decimal_in_bytes(n: nat)
    ensures
        vstd::utf8::is_ascii_chars(decimal_of(n)),
        encode_utf8(decimal_of(n)).len() > 0,
        forall|i: int|
            0 <= i < encode_utf8(decimal_of(n)).len() ==> 0x30 <= #[trigger] encode_utf8(
                decimal_of(n),
            )[i] <= 0x39,
{
    let text = decimal_of(n);
    decimal_is_not_empty(n);
    assert forall|i: int| 0 <= i < text.len() implies '0' <= #[trigger] text[i] <= '9' by {}
    assert(vstd::utf8::is_ascii_chars(text));
    vstd::utf8::is_ascii_chars_encode_utf8(text);
    assert forall|i: int| 0 <= i < encode_utf8(text).len() implies 0x30 <= #[trigger] encode_utf8(
        text,
    )[i] <= 0x39 by {
        assert('0' <= text[i] <= '9');
    }
}

/// What a staging path holds before the last dot in it.
spec fn before_counter(dir: Seq<u8>, var: Seq<char>, pid: nat) -> Seq<u8> {
    within(dir) + encode_utf8("."@ + var + "."@ + decimal_of(pid) + ".tmp"@)
}

/// A staging path is its directory, the name up to the last dot, the dot, and the
/// counter.
proof fn staging_path_in_parts(dir: Seq<u8>, var: Seq<char>, pid: nat, n: nat)
    ensures
        joined_text(dir, staging_name_of(var, pid, n)) == within(dir) + encode_utf8(
            staging_name_of(var, pid, n),
        ),
        joined_text(dir, staging_name_of(var, pid, n)) == before_counter(dir, var, pid).push(0x2e)
            + encode_utf8(decimal_of(n)),
{
    reveal_strlit(".");
    let name = staging_name_of(var, pid, n);
    let head = "."@ + var + "."@ + decimal_of(pid) + ".tmp"@;
    let rest = name.drop_first();
    assert(vstd::utf8::leading_byte_width_1(0x2e) == 0x2e) by (bit_vector);
    assert(name[0] == '.');
    assert(encode_utf8(name) == vstd::utf8::encode_scalar('.' as u32) + encode_utf8(rest));
    assert(encode_utf8(name)[0] == 0x2e);
    utf8_append(head + "."@, decimal_of(n));
    assert(head + "."@ =~= head.push('.'));
    crate::text::utf8_push(head, '.');
    assert(vstd::utf8::encode_scalar('.' as u32) =~= seq![0x2eu8]);
    assert(joined_text(dir, name) =~= before_counter(dir, var, pid).push(0x2e) + encode_utf8(
        decimal_of(n),
    ));
}

/// Staging paths are unique within a process: a different counter gives a
/// different path, whatever the directories and the variables.
pub proof fn staging_paths_are_unique(
    dir1: Seq<u8>,
    dir2: Seq<u8>,
    var1: Seq<char>,
    var2: Seq<char>,
    pid: nat,
    n1: nat,
    n2: nat,
)
    requires
        n1 != n2,
    ensures
        joined_text(dir1, staging_name_of(var1, pid, n1)) != joined_text(
            dir2,
            staging_name_of(var2, pid, n2),
        ),
{
    if joined_text(dir1, staging_name_of(var1, pid, n1)) == joined_text(
        dir2,
        staging_name_of(var2, pid, n2),
    ) {
        staging_path_in_parts(dir1, var1, pid, n1);
        staging_path_in_parts(dir2, var2, pid, n2);
        decimal_in_bytes(n1);
        decimal_in_bytes(n2);
        let x = encode_utf8(decimal_of(n1));
        let y = encode_utf8(decimal_of(n2));
        last_mark_splits(
            before_counter(dir1, var1, pid),
            x,
            before_counter(dir2, var2, pid),
            y,
            0x2e,
        );
        vstd::utf8::encode_utf8_decode_utf8(decimal_of(n1));
        vstd::utf8::encode_utf8_decode_utf8(decimal_of(n2));
        decimal_is_injective(n1, n2);
    }
}

/// A staging file lies directly in its directory, under a name made of the
/// variable, the process number and the counter. It is no ciphertext file: it is
/// never listed, and no ciphertext file of any variable, in whatever directory,
/// has its path.
pub proof fn staging_files_are_no_live_files(
    dir: Seq<u8>,
    var: Seq<char>,
    pid: nat,
    n: nat,
    other_dir: Seq<u8>,
    other: Seq<char>,
)
    requires
        valid_var(var),
        valid_var(other),
    ensures
        joined_text(dir, staging_name_of(var, pid, n)) == within(dir) + encode_utf8(
            staging_name_of(var, pid, n),
        ),
        file_name_safe(staging_name_of(var, pid, n)),
        ("."@ + var + "."@ + decimal_of(pid) + ".tmp"@ + "."@).is_prefix_of(
            staging_name_of(var, pid, n),
        ),
        !is_cred_file(staging_name_of(var, pid, n)),
        joined_text(dir, staging_name_of(var, pid, n)) != joined_text(
            other_dir,
            cred_file_of(other),
        ),
{
    let name = staging_name_of(var, pid, n);
    let head = "."@ + var + "."@ + decimal_of(pid) + ".tmp"@ + "."@;
    staging_path_in_parts(dir, var, pid, n);
    decimal_in_bytes(n);
    assert(head =~= name.take(head.len() as int));
    staging_files_are_not_listed(var, pid, n);
    let ns = seq!['n'];
    assert(ns[0] == 'n');
    reveal_strlit(".");
    reveal_strlit("..");
    assert(valid_namespace(ns)) by {
        assert(namespace_char(ns[0]));
        assert(vstd::utf8::is_ascii_chars(ns));
        vstd::utf8::is_ascii_chars_encode_utf8(ns);
    }
    names_are_file_name_safe(ns, var, pid, n);
    names_are_ascii(ns, other);
    let file = cred_file_of(other);
    reveal_strlit(".cred");
    vstd::utf8::is_ascii_chars_encode_utf8(file);
    assert(file.last() == 'd');
    assert(encode_utf8(file).last() == 0x64) by {
        assert(file[file.len() - 1] == 'd');
    }
    assert(joined_text(other_dir, file).last() == 0x64);
    let counter = encode_utf8(decimal_of(n));
    assert(joined_text(dir, name).last() == counter[counter.len() - 1]);
}

// ---- the shape of names ------------------------------------------------------------

/// A namespace name is one to 63 letters, digits, dots, underscores and dashes, but
/// neither `.` nor `..`.
pub proof fn namespace_names_have_their_shape(s: Seq<char>)
    ensures
        valid_namespace(s) <==> {
            &&& 1 <= s.len() <= 63
            &&& s != seq!['.']
            &&& s != seq!['.', '.']
            &&& forall|i: int|
                0 <= i < s.len() ==> ('A' <= #[trigger] s[i] <= 'Z' || 'a' <= s[i] <= 'z' || '0'
                    <= s[i] <= '9' || s[i] == '.' || s[i] == '_' || s[i] == '-')
        },
{
    reveal_strlit(".");
    reveal_strlit("..");
    assert("."@ =~= seq!['.']);
    assert(".."@ =~= seq!['.', '.']);
    if valid_namespace(s) {
        assert forall|i: int| 0 <= i < s.len() implies ('A' <= #[trigger] s[i] <= 'Z' || 'a' <= s[i]
            <= 'z' || '0' <= s[i] <= '9' || s[i] == '.' || s[i] == '_' || s[i] == '-') by {
            assert(namespace_char(s[i]));
        }
    } else if 1 <= s.len() <= 63 && s != seq!['.'] && s != seq!['.', '.'] {
        let i = choose|i: int| 0 <= i < s.len() && !namespace_char(#[trigger] s[i]);
        assert(!('A' <= s[i] <= 'Z' || 'a' <= s[i] <= 'z' || '0' <= s[i] <= '9' || s[i] == '.'
            || s[i] == '_' || s[i] == '-'));
    }
}

/// A variable name is a letter or an underscore, and any letters, digits and
/// underscores behind it.
pub proof fn variable_names_have_their_shape(s: Seq<char>)
    ensures
        valid_var(s) <==> {
            &&& s.len() > 0
            &&& !('0' <= s[0] <= '9')
            &&& forall|i: int|
                0 <= i < s.len() ==> ('A' <= #[trigger] s[i] <= 'Z' || 'a' <= s[i] <= 'z' || '0'
                    <= s[i] <= '9' || s[i] == '_')
        },
{
    if valid_var(s) {
        assert forall|i: int| 0 <= i < s.len() implies ('A' <= #[trigger] s[i] <= 'Z' || 'a' <= s[i]
            <= 'z' || '0' <= s[i] <= '9' || s[i] == '_') by {
            if i > 0 {
                assert(var_char(s[i]));
            }
        }
    } else if s.len() > 0 && !('0' <= s[0] <= '9') {
        if !var_start(s[0]) {
            assert(!('A' <= s[0] <= 'Z' || 'a' <= s[0] <= 'z' || '0' <= s[0] <= '9' || s[0]
                == '_'));
        } else {
            let i = choose|i: int| 1 <= i < s.len() && !var_char(#[trigger] s[i]);
            assert(!('A' <= s[i] <= 'Z' || 'a' <= s[i] <= 'z' || '0' <= s[i] <= '9' || s[i]
                == '_'));
        }
    }
}

/// A name that is refused is refused for what is wrong with it.
pub proof fn refusals_name_the_fault(s: Seq<char>)
    ensures
        s.len() == 0 || encode_utf8(s).len() > 63 ==> namespace_complaint(s)
            == "namespace name must be 1..63 chars"@,
        s == seq!['.'] || s == seq!['.', '.'] ==> namespace_complaint(s)
            == "namespace name may not be . or .."@,
        !valid_namespace(s) && s.len() > 0 && encode_utf8(s).len() <= 63 && s != seq!['.'] && s
            != seq!['.', '.'] ==> namespace_complaint(s)
            == "namespace name must match [A-Za-z0-9._-]"@,
        s.len() == 0 ==> var_complaint(s) == "variable name must be non-empty"@,
        s.len() > 0 && !('A' <= s[0] <= 'Z' || 'a' <= s[0] <= 'z' || s[0] == '_') ==> var_complaint(
            s,
        ) == "variable name must start with [A-Za-z_]"@,
        !valid_var(s) && s.len() > 0 && ('A' <= s[0] <= 'Z' || 'a' <= s[0] <= 'z' || s[0] == '_')
            ==> var_complaint(s) == "variable name must match [A-Za-z_][A-Za-z0-9_]*"@,
{
    reveal_strlit(".");
    reveal_strlit("..");
    assert("."@ =~= seq!['.']);
    assert(".."@ =~= seq!['.', '.']);
    if s == seq!['.'] || s == seq!['.', '.'] {
        assert forall|i: int| 0 <= i < s.len() implies s[i] as nat <= 127 by {
            assert(s[i] == '.');
        }
        assert(vstd::utf8::is_ascii_chars(s));
        vstd::utf8::is_ascii_chars_encode_utf8(s);
    }
}

/// The credential name holds the namespace and the variable whole, the namespace
/// behind `credchain.`, the variable behind a dot; the file of a variable is its
/// name and `.cred`.
pub proof fn credential_names_hold_both_names(ns: Seq<char>, var: Seq<char>)
    ensures
        cred_name_of(ns, var).len() == 10 + ns.len() + 1 + var.len(),
        cred_name_of(ns, var).take(10) == seq!['c', 'r', 'e', 'd', 'c', 'h', 'a', 'i', 'n', '.'],
        cred_name_of(ns, var).subrange(10, 10 + ns.len() as int) == ns,
        cred_name_of(ns, var)[10 + ns.len() as int] == '.',
        cred_name_of(ns, var).skip(11 + ns.len() as int) == var,
        cred_file_of(var).len() == var.len() + 5,
        cred_file_of(var).take(var.len() as int) == var,
        cred_file_of(var).skip(var.len() as int) == seq!['.', 'c', 'r', 'e', 'd'],
{
    reveal_strlit("credchain.");
    reveal_strlit(".");
    reveal_strlit(".cred");
    let name = cred_name_of(ns, var);
    assert(name.take(10) =~= seq!['c', 'r', 'e', 'd', 'c', 'h', 'a', 'i', 'n', '.']);
    assert(name.subrange(10, 10 + ns.len() as int) =~= ns);
    assert(name.skip(11 + ns.len() as int) =~= var);
    assert(cred_file_of(var).take(var.len() as int) =~= var);
    assert(cred_file_of(var).skip(var.len() as int) =~= seq!['.', 'c', 'r', 'e', 'd']);
}

// ---- where files lie ---------------------------------------------------------------

proof fn not_a_separator(c: char)
    requires
        c <= '\u{7f}',
        c != '/',
    ensures
        c as u8 != 0x2f,
{
}

/// A name that is no path is appended behind a separator.
proof fn appended_behind_a_separator(base: Seq<u8>, name: Seq<char>)
    requires
        base.len() > 0,
        base.last() != 0x2f,
        name.len() > 0,
        name[0] <= '\u{7f}',
        name[0] != '/',
    ensures
        joined_text(base, name) == base + encode_utf8(seq!['/'] + name),
{
    one_byte('/');
    utf8_append(seq!['/'], name);
    starts_with_its_first(name);
    not_a_separator(name[0]);
    assert(encode_utf8(seq!['/'] + name) =~= seq![0x2fu8] + encode_utf8(name));
    assert(base.push(0x2f) + encode_utf8(name) =~= base + encode_utf8(seq!['/'] + name));
}

/// The ciphertext file of a variable is `<base>/<namespace>/<VAR>.cred`, in the
/// directory `<base>/<namespace>`.
pub proof fn files_lie_where_they_are_looked_for(base: Seq<u8>, ns: Seq<char>, var: Seq<char>)
    requires
        base.len() > 0,
        base.last() != 0x2f,
        valid_namespace(ns),
        valid_var(var),
    ensures
        joined_text(base, ns) == base + encode_utf8("/"@ + ns),
        cred_file_path(base, ns, var) == base + encode_utf8("/"@ + ns + "/"@ + var + ".cred"@),
{
    reveal_strlit("/");
    reveal_strlit(".cred");
    assert("/"@ =~= seq!['/']);
    names_are_file_name_safe(ns, var, 0, 0);
    names_are_ascii(ns, var);
    let file = cred_file_of(var);
    vstd::utf8::is_ascii_chars_encode_utf8(ns);
    assert(ns.contains(ns[0]) && ns.contains(ns[ns.len() - 1]));
    assert(file.contains(file[0]));
    appended_behind_a_separator(base, ns);
    utf8_append("/"@, ns);
    let dir = joined_text(base, ns);
    let bytes = encode_utf8(ns);
    assert(dir.last() == bytes[bytes.len() - 1]);
    assert(ns[ns.len() - 1] as u8 == bytes[bytes.len() - 1]);
    appended_behind_a_separator(dir, file);
    utf8_append("/"@ + ns, "/"@ + file);
    assert("/"@ + ns + "/"@ + var + ".cred"@ =~= ("/"@ + ns) + ("/"@ + file));
    assert(cred_file_path(base, ns, var) =~= base + encode_utf8(
        "/"@ + ns + "/"@ + var + ".cred"@,
    ));
}

/// The store is `credchain` in `$XDG_DATA_HOME`, or else in `.local/share` in
/// `$HOME`; what is found for a namespace and for a variable lies in it, by their
/// names.
pub proof fn the_store_is_in_the_data_directory(
    data: Seq<u8>,
    home: Seq<u8>,
    any: Option<Seq<u8>>,
    ns: Seq<char>,
    var: Seq<char>,
    events: Seq<DirEventView>,
)
    requires
        data.len() > 0,
        data.last() != 0x2f,
        home.len() > 0,
        home.last() != 0x2f,
        valid_namespace(ns),
        valid_var(var),
    ensures
        ({
            let env = StoreEnvView { xdg_data_home: Some(data), home: any };
            let base = data + encode_utf8("/credchain"@);
            &&& base_path_of(env) == Ok::<Seq<u8>, FailureView>(base)
            &&& (dir_run(namespace_dir_of(env, ns), events) matches DirsView::Done(Ok(p)) ==> p
                == base + encode_utf8("/"@ + ns))
            &&& (dir_run(cred_path_of(env, ns, var), events) matches DirsView::Done(Ok(p)) ==> p
                == base + encode_utf8("/"@ + ns + "/"@ + var + ".cred"@))
        }),
        ({
            let env = StoreEnvView { xdg_data_home: None, home: Some(home) };
            let empty = StoreEnvView { xdg_data_home: Some(Seq::empty()), home: Some(home) };
            let base = home + encode_utf8("/.local/share/credchain"@);
            &&& base_path_of(env) == Ok::<Seq<u8>, FailureView>(base)
            &&& base_path_of(empty) == base_path_of(env)
            &&& (dir_run(namespace_dir_of(env, ns), events) matches DirsView::Done(Ok(p)) ==> p
                == base + encode_utf8("/"@ + ns))
            &&& (dir_run(cred_path_of(env, ns, var), events) matches DirsView::Done(Ok(p)) ==> p
                == base + encode_utf8("/"@ + ns + "/"@ + var + ".cred"@))
        }),
{
    reveal_strlit("credchain");
    reveal_strlit("/credchain");
    reveal_strlit(".local");
    reveal_strlit("share");
    reveal_strlit("/.local");
    reveal_strlit("/share");
    reveal_strlit("/.local/share/credchain");
    assert("/credchain"@ =~= seq!['/'] + "credchain"@);
    appended_behind_a_separator(data, "credchain"@);
    let base = data + encode_utf8("/credchain"@);
    ends_in_a_letter("/credchain"@);
    assert(base.last() == encode_utf8("/credchain"@).last());
    files_lie_where_they_are_looked_for(base, ns, var);
    let env = StoreEnvView { xdg_data_home: Some(data), home: any };
    answers_stay(namespace_dir_of(env, ns), events, joined_text(base, ns));
    answers_stay(cred_path_of(env, ns, var), events, cred_file_path(base, ns, var));
    let local = "/.local"@;
    let share = "/share"@;
    let last = "/credchain"@;
    assert(local =~= seq!['/'] + ".local"@);
    assert(share =~= seq!['/'] + "share"@);
    assert("/.local/share/credchain"@ =~= local + share + last);
    utf8_append(local + share, last);
    utf8_append(local, share);
    ends_in_a_letter(local);
    ends_in_a_letter(share);
    let one = home + encode_utf8(local);
    let two = one + encode_utf8(share);
    let three = home + encode_utf8("/.local/share/credchain"@);
    assert(one.last() == encode_utf8(local).last());
    assert(two.last() == encode_utf8(share).last());
    appended_behind_a_separator(home, ".local"@);
    appended_behind_a_separator(one, "share"@);
    appended_behind_a_separator(two, "credchain"@);
    assert(two + encode_utf8(last) =~= three);
    assert(three.last() == encode_utf8(last).last());
    files_lie_where_they_are_looked_for(three, ns, var);
    let env = StoreEnvView { xdg_data_home: None, home: Some(home) };
    answers_stay(namespace_dir_of(env, ns), events, joined_text(three, ns));
    answers_stay(cred_path_of(env, ns, var), events, cred_file_path(three, ns, var));
}

/// The UTF-8 form of a text whose last character is a small letter ends in no
/// separator.
proof fn ends_in_a_letter(s: Seq<char>)
    requires
        s.len() > 0,
        'a' <= s.last() <= 'z',
    ensures
        encode_utf8(s).len() > 0,
        encode_utf8(s).last() != 0x2f,
{
    crate::text::utf8_push(s.drop_last(), s.last());
    assert(s.drop_last().push(s.last()) =~= s);
    one_byte(s.last());
}

} // verus!
