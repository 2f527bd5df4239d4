//! File system paths as bytes.

use vstd::prelude::*;
use vstd::utf8::encode_utf8;

verus! {

/// The byte that separates the components of a path.
pub const SEPARATOR: u8 = 0x2f;

/// What stands before the names of the entries of `base`: `base`, with a separator
/// behind it unless it is empty or ends with one.
pub open spec fn within(base: Seq<u8>) -> Seq<u8> {
    if base.len() > 0 && base.last() != SEPARATOR {
        base.push(SEPARATOR)
    } else {
        base
    }
}

/// `base` extended by `part`: an absolute `part` replaces `base`, any other is
/// appended within it.
pub open spec fn joined(base: Seq<u8>, part: Seq<u8>) -> Seq<u8> {
    if part.len() > 0 && part[0] == SEPARATOR {
        part
    } else {
        within(base) + part
    }
}

/// `base` extended by the text `part`.
pub open spec fn joined_text(base: Seq<u8>, part: Seq<char>) -> Seq<u8> {
    joined(base, encode_utf8(part))
}

/// A list of paths, over their bytes.
pub open spec fn paths_view(v: Seq<Vec<u8>>) -> Seq<Seq<u8>> {
    v.map_values(|p: Vec<u8>| p@)
}

/// A copy of some bytes.
pub(crate) fn copy_bytes(b: &[u8]) -> (r: Vec<u8>)
    ensures
        r@ == b@,
{
    vstd::slice::slice_to_vec(b)
}

/// `base` extended by `part`.
pub fn join(base: &[u8], part: &[u8]) -> (r: Vec<u8>)
    ensures
        r@ == joined(base@, part@),
{
    if part.len() > 0 && part[0] == SEPARATOR {
        return copy_bytes(part);
    }
    let mut out = copy_bytes(base);
    if base.len() > 0 && base[base.len() - 1] != SEPARATOR {
        out.push(SEPARATOR);
    }
    let mut tail = copy_bytes(part);
    out.append(&mut tail);
    out
}

/// `base` extended by the text `part`.
pub fn join_text(base: &[u8], part: &str) -> (r: Vec<u8>)
    ensures
        r@ == joined_text(base@, part@),
{
    join(base, part.as_bytes())
}

/// Paths that extend one base by different relative parts are different.
pub proof fn join_keeps_parts_apart(base: Seq<u8>, a: Seq<u8>, b: Seq<u8>)
    requires
        a.len() == 0 || a[0] != SEPARATOR,
        b.len() == 0 || b[0] != SEPARATOR,
        joined(base, a) == joined(base, b),
    ensures
        a == b,
{
    let head = within(base);
    assert(joined(base, a) == head + a);
    assert(joined(base, b) == head + b);
    assert((head + a).skip(head.len() as int) =~= a);
    assert((head + b).skip(head.len() as int) =~= b);
}

/// A relative part is appended whole to the whole base, with one separator between
/// them where the base does not end with one; an absolute part stands for itself.
pub proof fn joined_paths_keep_both_parts(base: Seq<u8>, part: Seq<u8>)
    ensures
        part.is_suffix_of(joined(base, part)),
        part.len() > 0 && part[0] == 0x2f ==> joined(base, part) == part,
        part.len() == 0 || part[0] != 0x2f ==> {
            &&& base.is_prefix_of(joined(base, part))
            &&& base.len() == 0 || base.last() == 0x2f ==> joined(base, part).len() == base.len()
                + part.len()
            &&& base.len() > 0 && base.last() != 0x2f ==> joined(base, part).len() == base.len() + 1
                + part.len() && joined(base, part)[base.len() as int] == 0x2f
        },
{
    let j = joined(base, part);
    assert(j.subrange(j.len() - part.len(), j.len() as int) =~= part);
    if part.len() == 0 || part[0] != SEPARATOR {
        assert(j.subrange(0, base.len() as int) =~= base);
    }
}

} // verus!
