//! Names: of namespaces and variables, of credentials, and of the files that hold
//! them.

use vstd::prelude::*;
use vstd::utf8::encode_utf8;

use crate::path::{join_text, joined_text};
use crate::text::{chars_of, decimal, decimal_of, same_text};

verus! {

pub open spec fn ascii_letter(c: char) -> bool {
    'a' <= c <= 'z' || 'A' <= c <= 'Z'
}

pub open spec fn ascii_digit(c: char) -> bool {
    '0' <= c <= '9'
}

/// A character of `[A-Za-z0-9._-]`.
pub open spec fn namespace_char(c: char) -> bool {
    ascii_letter(c) || ascii_digit(c) || c == '.' || c == '_' || c == '-'
}

/// `s` matches `[A-Za-z0-9._-]{1,63}` and is neither `.` nor `..`.
pub open spec fn valid_namespace(s: Seq<char>) -> bool {
    &&& 1 <= s.len() <= 63
    &&& s != "."@
    &&& s != ".."@
    &&& forall|i: int| 0 <= i < s.len() ==> namespace_char(#[trigger] s[i])
}

/// Why `s` is not a namespace name: its size in bytes, then the reserved names,
/// then its characters.
pub open spec fn namespace_complaint(s: Seq<char>) -> Seq<char> {
    if s.len() == 0 || encode_utf8(s).len() > 63 {
        "namespace name must be 1..63 chars"@
    } else if s == "."@ || s == ".."@ {
        "namespace name may not be . or .."@
    } else {
        "namespace name must match [A-Za-z0-9._-]"@
    }
}

/// A character of `[A-Za-z_]`.
pub open spec fn var_start(c: char) -> bool {
    ascii_letter(c) || c == '_'
}

/// A character of `[A-Za-z0-9_]`.
pub open spec fn var_char(c: char) -> bool {
    ascii_letter(c) || ascii_digit(c) || c == '_'
}

/// `s` matches `[A-Za-z_][A-Za-z0-9_]*`.
pub open spec fn valid_var(s: Seq<char>) -> bool {
    &&& s.len() > 0
    &&& var_start(s[0])
    &&& forall|i: int| 1 <= i < s.len() ==> var_char(#[trigger] s[i])
}

/// Why `s` is not a variable name.
pub open spec fn var_complaint(s: Seq<char>) -> Seq<char> {
    if s.len() == 0 {
        "variable name must be non-empty"@
    } else if !var_start(s[0]) {
        "variable name must start with [A-Za-z_]"@
    } else {
        "variable name must match [A-Za-z_][A-Za-z0-9_]*"@
    }
}

/// A validated namespace name: `[A-Za-z0-9._-]{1,63}`, not `.` or `..`.
#[derive(Debug)]
pub struct Namespace(String);

/// A validated environment-variable name: `[A-Za-z_][A-Za-z0-9_]*`.
#[derive(Debug)]
pub struct VarName(String);

impl View for Namespace {
    type V = Seq<char>;

    closed spec fn view(&self) -> Seq<char> {
        self.0@
    }
}

impl DeepView for Namespace {
    type V = Seq<char>;

    open spec fn deep_view(&self) -> Seq<char> {
        self@
    }
}

impl View for VarName {
    type V = Seq<char>;

    closed spec fn view(&self) -> Seq<char> {
        self.0@
    }
}

impl DeepView for VarName {
    type V = Seq<char>;

    open spec fn deep_view(&self) -> Seq<char> {
        self@
    }
}

impl Clone for Namespace {
    fn clone(&self) -> (r: Self)
        ensures
            r@ == self@,
    {
        proof {
            use_type_invariant(self);
        }
        Namespace(self.0.clone())
    }
}

impl Clone for VarName {
    fn clone(&self) -> (r: Self)
        ensures
            r@ == self@,
    {
        proof {
            use_type_invariant(self);
        }
        VarName(self.0.clone())
    }
}

fn is_ascii_letter(c: char) -> (r: bool)
    ensures
        r == ascii_letter(c),
{
    ('a' <= c && c <= 'z') || ('A' <= c && c <= 'Z')
}

fn is_ascii_digit(c: char) -> (r: bool)
    ensures
        r == ascii_digit(c),
{
    '0' <= c && c <= '9'
}

proof fn namespace_chars_are_ascii(s: Seq<char>)
    requires
        forall|i: int| 0 <= i < s.len() ==> namespace_char(#[trigger] s[i]),
    ensures
        encode_utf8(s).len() == s.len(),
{
    assert(vstd::utf8::is_ascii_chars(s));
    vstd::utf8::is_ascii_chars_encode_utf8(s);
}

impl Namespace {
    #[verifier::type_invariant]
    spec fn valid(self) -> bool {
        valid_namespace(self.0@)
    }

    /// Takes `s` as a namespace name if it is a valid one.
    pub fn parse(s: &str) -> (r: Result<Self, String>)
        ensures
            match r {
                Ok(ns) => valid_namespace(s@) && ns@ == s@,
                Err(e) => !valid_namespace(s@) && e@ == namespace_complaint(s@),
            },
    {
        let cs = chars_of(s);
        let size: usize = s.as_bytes().len();
        proof {
            if forall|i: int| 0 <= i < s@.len() ==> namespace_char(#[trigger] s@[i]) {
                namespace_chars_are_ascii(s@);
            }
        }
        if cs.len() == 0 || size > 63 {
            return Err("namespace name must be 1..63 chars".to_owned());
        }
        if same_text(s, ".") || same_text(s, "..") {
            return Err("namespace name may not be . or ..".to_owned());
        }
        let mut i: usize = 0;
        while i < cs.len()
            invariant
                i <= cs@.len(),
                cs@ == s@,
                s@.len() > 0,
                size == encode_utf8(s@).len(),
                size <= 63,
                s@ != "."@,
                s@ != ".."@,
                forall|j: int| 0 <= j < i ==> namespace_char(#[trigger] s@[j]),
            decreases cs@.len() - i,
        {
            let c = cs[i];
            if !(is_ascii_letter(c) || is_ascii_digit(c) || c == '.' || c == '_' || c == '-') {
                assert(!namespace_char(s@[i as int]));
                return Err("namespace name must match [A-Za-z0-9._-]".to_owned());
            }
            i = i + 1;
        }
        proof {
            namespace_chars_are_ascii(s@);
        }
        Ok(Namespace(s.to_owned()))
    }

    /// The name as text.
    pub fn as_str(&self) -> (r: &str)
        ensures
            r@ == self@,
            valid_namespace(self@),
    {
        proof {
            use_type_invariant(self);
        }
        self.0.as_str()
    }
}

impl VarName {
    #[verifier::type_invariant]
    spec fn valid(self) -> bool {
        valid_var(self.0@)
    }

    /// Takes `s` as a variable name if it is a valid one.
    pub fn parse(s: &str) -> (r: Result<Self, String>)
        ensures
            match r {
                Ok(var) => valid_var(s@) && var@ == s@,
                Err(e) => !valid_var(s@) && e@ == var_complaint(s@),
            },
    {
        let cs = chars_of(s);
        if cs.len() == 0 {
            return Err("variable name must be non-empty".to_owned());
        }
        let first = cs[0];
        if !(is_ascii_letter(first) || first == '_') {
            return Err("variable name must start with [A-Za-z_]".to_owned());
        }
        let mut i: usize = 1;
        while i < cs.len()
            invariant
                1 <= i <= cs@.len(),
                cs@ == s@,
                var_start(s@[0]),
                forall|j: int| 1 <= j < i ==> var_char(#[trigger] s@[j]),
            decreases cs@.len() - i,
        {
            let c = cs[i];
            if !(is_ascii_letter(c) || is_ascii_digit(c) || c == '_') {
                assert(!var_char(s@[i as int]));
                return Err("variable name must match [A-Za-z_][A-Za-z0-9_]*".to_owned());
            }
            i = i + 1;
        }
        Ok(VarName(s.to_owned()))
    }

    /// The name as text.
    pub fn as_str(&self) -> (r: &str)
        ensures
            r@ == self@,
            valid_var(self@),
    {
        proof {
            use_type_invariant(self);
        }
        self.0.as_str()
    }
}

/// The credential name of a variable: `credchain.<ns>.<VAR>`.
pub open spec fn cred_name_of(ns: Seq<char>, var: Seq<char>) -> Seq<char> {
    "credchain."@ + ns + "."@ + var
}

/// The systemd-creds credential name embedded in ciphertext: `credchain.<ns>.<VAR>`.
pub fn cred_name(ns: &Namespace, var: &VarName) -> (r: String)
    ensures
        r@ == cred_name_of(ns@, var@),
{
    let mut name = "credchain.".to_owned();
    name.append(ns.as_str());
    name.append(".");
    name.append(var.as_str());
    name
}

/// The name of a variable's ciphertext file: `<VAR>.cred`.
pub open spec fn cred_file_of(var: Seq<char>) -> Seq<char> {
    var + ".cred"@
}

/// The name of a variable's ciphertext file.
pub fn cred_file(var: &VarName) -> (r: String)
    ensures
        r@ == cred_file_of(var@),
{
    let mut name = var.as_str().to_owned();
    name.append(".cred");
    name
}

/// The name of a staging file: `.<VAR>.<pid>.tmp.<n>`.
pub open spec fn staging_name_of(var: Seq<char>, pid: nat, n: nat) -> Seq<char> {
    "."@ + var + "."@ + decimal_of(pid) + ".tmp"@ + "."@ + decimal_of(n)
}

/// A staging path in `dir`, made of the process number and a counter.
pub fn staging_path(dir: &[u8], var: &VarName, pid: u32, n: u64) -> (r: Vec<u8>)
    ensures
        r@ == joined_text(dir@, staging_name_of(var@, pid as nat, n as nat)),
{
    let mut name = ".".to_owned();
    name.append(var.as_str());
    name.append(".");
    name.append(decimal(pid as u64).as_str());
    name.append(".tmp");
    name.append(".");
    name.append(decimal(n).as_str());
    join_text(dir, name.as_str())
}

// ---- laws --------------------------------------------------------------------

/// A variable name holds no dot.
proof fn var_has_no_dot(var: Seq<char>)
    requires
        valid_var(var),
    ensures
        !var.contains('.'),
{
    if var.contains('.') {
        let i = choose|i: int| 0 <= i < var.len() && var[i] == '.';
        if i > 0 {
            assert(var_char(var[i]));
        }
    }
}

/// A sequence that ends in a mark and a part without one determines what stands
/// before the mark, and the part.
pub(crate) proof fn last_mark_splits<A>(a: Seq<A>, x: Seq<A>, b: Seq<A>, y: Seq<A>, mark: A)
    requires
        a.push(mark) + x == b.push(mark) + y,
        !x.contains(mark),
        !y.contains(mark),
    ensures
        a == b,
        x == y,
{
    let s = a.push(mark) + x;
    let t = b.push(mark) + y;
    assert(s.len() == a.len() + 1 + x.len());
    assert(t.len() == b.len() + 1 + y.len());
    if x.len() < y.len() {
        assert(s[a.len() as int] == mark);
        assert(t[a.len() as int] == y[a.len() - b.len() - 1]);
    } else if y.len() < x.len() {
        assert(t[b.len() as int] == mark);
        assert(s[b.len() as int] == x[b.len() - a.len() - 1]);
    }
    assert(s.take(a.len() as int) =~= a);
    assert(t.take(b.len() as int) =~= b);
    assert(s.skip(a.len() as int + 1) =~= x);
    assert(t.skip(b.len() as int + 1) =~= y);
}

/// Credential names are unambiguous: two variables of valid names share one only
/// if they are the same variable of the same namespace.
pub proof fn cred_names_are_unambiguous(
    ns1: Seq<char>,
    var1: Seq<char>,
    ns2: Seq<char>,
    var2: Seq<char>,
)
    requires
        valid_namespace(ns1),
        valid_var(var1),
        valid_namespace(ns2),
        valid_var(var2),
        cred_name_of(ns1, var1) == cred_name_of(ns2, var2),
    ensures
        ns1 == ns2,
        var1 == var2,
{
    reveal_strlit(".");
    let head = "credchain."@;
    var_has_no_dot(var1);
    var_has_no_dot(var2);
    assert(head + ns1 + "."@ =~= (head + ns1).push('.'));
    assert(head + ns2 + "."@ =~= (head + ns2).push('.'));
    last_mark_splits(head + ns1, var1, head + ns2, var2, '.');
    assert((head + ns1).skip(head.len() as int) =~= ns1);
    assert((head + ns2).skip(head.len() as int) =~= ns2);
}

/// A name that can be a single component of a path: not empty, no separator, no
/// NUL, neither `.` nor `..`.
pub open spec fn file_name_safe(s: Seq<char>) -> bool {
    &&& s.len() > 0
    &&& !s.contains('/')
    &&& !s.contains('\0')
    &&& s != "."@
    &&& s != ".."@
}

/// Namespace names, credential names, ciphertext file names and staging file
/// names are each a single, safe component of a path.
pub proof fn names_are_file_name_safe(ns: Seq<char>, var: Seq<char>, pid: nat, n: nat)
    requires
        valid_namespace(ns),
        valid_var(var),
    ensures
        file_name_safe(ns),
        file_name_safe(cred_name_of(ns, var)),
        file_name_safe(cred_file_of(var)),
        file_name_safe(staging_name_of(var, pid, n)),
{
    reveal_strlit(".");
    reveal_strlit("..");
    reveal_strlit("credchain.");
    reveal_strlit(".cred");
    reveal_strlit(".tmp");
    crate::text::decimal_is_not_empty(pid);
    crate::text::decimal_is_not_empty(n);
    let safe = |c: char| c != '/' && c != '\0';
    assert forall|i: int| 0 <= i < ns.len() implies safe(#[trigger] ns[i]) by {
        assert(namespace_char(ns[i]));
    }
    assert forall|i: int| 0 <= i < var.len() implies safe(#[trigger] var[i]) by {
        if i > 0 {
            assert(var_char(var[i]));
        }
    }
    let name = cred_name_of(ns, var);
    assert forall|i: int| 0 <= i < name.len() implies safe(#[trigger] name[i]) by {}
    let file = cred_file_of(var);
    assert forall|i: int| 0 <= i < file.len() implies safe(#[trigger] file[i]) by {}
    let staging = staging_name_of(var, pid, n);
    let digits = decimal_of(n);
    assert forall|i: int| 0 <= i < staging.len() implies safe(#[trigger] staging[i]) by {
        let a = "."@ + var + "."@ + decimal_of(pid) + ".tmp"@ + "."@;
        if i >= a.len() {
            assert(staging[i] == digits[i - a.len()]);
        } else {
            assert(staging[i] == a[i]);
            let p = decimal_of(pid);
            let b = "."@ + var + "."@;
            if b.len() <= i < b.len() + p.len() {
                assert(a[i] == p[i - b.len()]);
            }
        }
    }
}

} // verus!
