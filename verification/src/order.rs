//! The order of names in listings: by their UTF-8 bytes, as text is ordered.

use vstd::prelude::*;
use vstd::relations::{sorted_by, total_ordering};
use vstd::utf8::encode_utf8;

verus! {

/// Lexicographic order of bytes.
pub open spec fn bytes_le(a: Seq<u8>, b: Seq<u8>) -> bool
    decreases a.len(),
{
    if a.len() == 0 {
        true
    } else if b.len() == 0 {
        false
    } else if a[0] == b[0] {
        bytes_le(a.drop_first(), b.drop_first())
    } else {
        a[0] < b[0]
    }
}

/// Order of texts by their UTF-8 bytes.
pub open spec fn text_le(a: Seq<char>, b: Seq<char>) -> bool {
    bytes_le(encode_utf8(a), encode_utf8(b))
}

/// Every text comes before or is the same as each later one.
pub open spec fn in_order(names: Seq<Seq<char>>) -> bool {
    sorted_by(names, |a: Seq<char>, b: Seq<char>| text_le(a, b))
}

/// `names` in order.
pub open spec fn ordered(names: Seq<Seq<char>>) -> Seq<Seq<char>> {
    names.sort_by(|a: Seq<char>, b: Seq<char>| text_le(a, b))
}

proof fn bytes_le_is_reflexive(a: Seq<u8>)
    ensures
        bytes_le(a, a),
    decreases a.len(),
{
    if a.len() > 0 {
        bytes_le_is_reflexive(a.drop_first());
    }
}

proof fn bytes_le_is_antisymmetric(a: Seq<u8>, b: Seq<u8>)
    requires
        bytes_le(a, b),
        bytes_le(b, a),
    ensures
        a == b,
    decreases a.len(),
{
    if a.len() > 0 && b.len() > 0 {
        bytes_le_is_antisymmetric(a.drop_first(), b.drop_first());
        assert(a =~= seq![a[0]] + a.drop_first());
        assert(b =~= seq![b[0]] + b.drop_first());
    } else {
        assert(a =~= b);
    }
}

proof fn bytes_le_is_transitive(a: Seq<u8>, b: Seq<u8>, c: Seq<u8>)
    requires
        bytes_le(a, b),
        bytes_le(b, c),
    ensures
        bytes_le(a, c),
    decreases a.len(),
{
    if a.len() > 0 && b.len() > 0 && c.len() > 0 && a[0] == b[0] && b[0] == c[0] {
        bytes_le_is_transitive(a.drop_first(), b.drop_first(), c.drop_first());
    }
}

proof fn bytes_le_is_total(a: Seq<u8>, b: Seq<u8>)
    ensures
        bytes_le(a, b) || bytes_le(b, a),
    decreases a.len(),
{
    if a.len() > 0 && b.len() > 0 && a[0] == b[0] {
        bytes_le_is_total(a.drop_first(), b.drop_first());
    }
}

/// The order of texts is total: any two texts are ordered, and two that are
/// ordered both ways are the same.
pub proof fn text_order_is_total()
    ensures
        total_ordering(|a: Seq<char>, b: Seq<char>| text_le(a, b)),
{
    let le = |a: Seq<char>, b: Seq<char>| text_le(a, b);
    assert forall|a: Seq<char>| #[trigger] le(a, a) by {
        bytes_le_is_reflexive(encode_utf8(a));
    }
    assert forall|a: Seq<char>, b: Seq<char>| #[trigger] le(a, b) && #[trigger] le(b, a) implies a
        == b by {
        bytes_le_is_antisymmetric(encode_utf8(a), encode_utf8(b));
        vstd::utf8::encode_utf8_decode_utf8(a);
        vstd::utf8::encode_utf8_decode_utf8(b);
    }
    assert forall|a: Seq<char>, b: Seq<char>, c: Seq<char>| #[trigger]
        le(a, b) && #[trigger] le(b, c) implies le(a, c) by {
        bytes_le_is_transitive(encode_utf8(a), encode_utf8(b), encode_utf8(c));
    }
    assert forall|a: Seq<char>, b: Seq<char>| #[trigger] le(a, b) || #[trigger] le(b, a) by {
        bytes_le_is_total(encode_utf8(a), encode_utf8(b));
    }
}

/// Whether `a` comes before `b` or is the same.
fn text_not_after(a: &str, b: &str) -> (r: bool)
    ensures
        r == text_le(a@, b@),
{
    let x = a.as_bytes();
    let y = b.as_bytes();
    let mut i: usize = 0;
    assert(x@.skip(0) =~= x@);
    assert(y@.skip(0) =~= y@);
    loop
        invariant
            i <= x@.len(),
            i <= y@.len(),
            x@ == encode_utf8(a@),
            y@ == encode_utf8(b@),
            bytes_le(x@.skip(i as int), y@.skip(i as int)) == text_le(a@, b@),
        decreases x@.len() - i,
    {
        if i == x.len() {
            return true;
        }
        if i == y.len() {
            return false;
        }
        if x[i] != y[i] {
            return x[i] < y[i];
        }
        assert(x@.skip(i as int).drop_first() =~= x@.skip(i + 1));
        assert(y@.skip(i as int).drop_first() =~= y@.skip(i + 1));
        i = i + 1;
    }
}

/// Puts `name` into the ordered `names`.
fn put_in_order(names: &mut Vec<String>, name: String)
    requires
        in_order(old(names).deep_view()),
    ensures
        in_order(final(names).deep_view()),
        final(names).deep_view().to_multiset() == old(names).deep_view().to_multiset().insert(
            name@,
        ),
{
    let ghost le = |a: Seq<char>, b: Seq<char>| text_le(a, b);
    let ghost before = names.deep_view();
    proof {
        text_order_is_total();
    }
    let mut at: usize = 0;
    while at < names.len() && text_not_after(names[at].as_str(), name.as_str())
        invariant
            at <= names@.len(),
            names.deep_view() == before,
            forall|j: int| 0 <= j < at ==> text_le(#[trigger] before[j], name@),
        decreases names@.len() - at,
    {
        assert(before[at as int] == names@[at as int]@);
        at = at + 1;
    }
    let ghost text = name@;
    proof {
        if at < before.len() {
            assert(le(before[at as int], text) || le(text, before[at as int]));
            assert(text_le(text, before[at as int]));
            assert forall|j: int| at <= j < before.len() implies text_le(
                text,
                #[trigger] before[j],
            ) by {
                if j > at {
                    assert(le(before[at as int], before[j]));
                    assert(le(text, before[at as int]));
                    assert(le(text, before[j]));
                }
            }
        }
    }
    names.insert(at, name);
    let ghost after = names.deep_view();
    proof {
        assert(after =~= before.insert(at as int, text));
        assert forall|i: int, j: int| 0 <= i < j < after.len() implies #[trigger] le(
            after[i],
            after[j],
        ) by {
            if i < at && j > at {
                assert(le(before[i], before[j - 1]));
            } else if i > at {
                assert(le(before[i - 1], before[j - 1]));
            } else if j < at {
                assert(le(before[i], before[j]));
            }
        }
        after.to_multiset_ensures();
        before.to_multiset_ensures();
        assert(after.remove(at as int) =~= before);
        assert(after.to_multiset().remove(text) =~= before.to_multiset());
        assert(after.contains(text)) by {
            assert(after[at as int] == text);
        }
        assert(after.to_multiset() =~= before.to_multiset().insert(text));
    }
}

/// `names` in order.
pub fn sort_names(names: Vec<String>) -> (r: Vec<String>)
    ensures
        r.deep_view() == ordered(names.deep_view()),
{
    let ghost given = names.deep_view();
    let ghost le = |a: Seq<char>, b: Seq<char>| text_le(a, b);
    let mut out: Vec<String> = Vec::new();
    let mut i: usize = 0;
    assert(given.take(0) =~= Seq::<Seq<char>>::empty());
    assert(out.deep_view() =~= Seq::<Seq<char>>::empty());
    while i < names.len()
        invariant
            i <= names@.len(),
            given == names.deep_view(),
            in_order(out.deep_view()),
            out.deep_view().to_multiset() == given.take(i as int).to_multiset(),
        decreases names@.len() - i,
    {
        put_in_order(&mut out, names[i].clone());
        proof {
            let next = given.take(i + 1);
            assert(next =~= given.take(i as int).push(given[i as int]));
            given.take(i as int).to_multiset_ensures();
        }
        i = i + 1;
    }
    proof {
        assert(given.take(given.len() as int) =~= given);
        text_order_is_total();
        given.lemma_sort_by_ensures(le);
        vstd::seq_lib::lemma_sorted_unique(out.deep_view(), ordered(given), le);
    }
    out
}

/// A listing does not depend on the order in which its names were found.
pub proof fn order_ignores_arrival(a: Seq<Seq<char>>, b: Seq<Seq<char>>)
    requires
        a.to_multiset() == b.to_multiset(),
    ensures
        ordered(a) == ordered(b),
{
    let le = |x: Seq<char>, y: Seq<char>| text_le(x, y);
    text_order_is_total();
    a.lemma_sort_by_ensures(le);
    b.lemma_sort_by_ensures(le);
    vstd::seq_lib::lemma_sorted_unique(ordered(a), ordered(b), le);
}

/// A listing is in order and holds each name as often as it was found.
pub proof fn ordered_holds_the_same_names(names: Seq<Seq<char>>)
    ensures
        in_order(ordered(names)),
        ordered(names).to_multiset() == names.to_multiset(),
{
    text_order_is_total();
    names.lemma_sort_by_ensures(|x: Seq<char>, y: Seq<char>| text_le(x, y));
}

proof fn first_difference_decides(p: Seq<u8>, x: u8, s: Seq<u8>, y: u8, t: Seq<u8>)
    requires
        x < y,
    ensures
        bytes_le(p.push(x) + s, p.push(y) + t),
        !bytes_le(p.push(y) + t, p.push(x) + s),
    decreases p.len(),
{
    let a = p.push(x) + s;
    let b = p.push(y) + t;
    if p.len() > 0 {
        let q = p.drop_first();
        first_difference_decides(q, x, s, y, t);
        assert(a[0] == p[0] && b[0] == p[0]);
        assert(a.drop_first() =~= q.push(x) + s);
        assert(b.drop_first() =~= q.push(y) + t);
    } else {
        assert(a[0] == x && b[0] == y);
    }
}

proof fn beginnings_come_first(p: Seq<u8>, t: Seq<u8>)
    ensures
        bytes_le(p, p + t),
    decreases p.len(),
{
    if p.len() > 0 {
        beginnings_come_first(p.drop_first(), t);
        assert((p + t).drop_first() =~= p.drop_first() + t);
    }
}

/// Names are ordered by the first byte in which they differ, the smaller one
/// first; a name that is the beginning of another comes before it.
pub proof fn names_are_ordered_by_their_bytes(a: Seq<char>, b: Seq<char>)
    ensures
        forall|p: Seq<u8>, x: u8, s: Seq<u8>, y: u8, t: Seq<u8>|
            encode_utf8(a) == #[trigger] (p.push(x) + s) && encode_utf8(b) == #[trigger] (p.push(y)
                + t) && x < y ==> text_le(a, b) && !text_le(b, a),
        forall|t: Seq<u8>|
            encode_utf8(b) == #[trigger] (encode_utf8(a) + t) ==> text_le(a, b),
{
    assert forall|p: Seq<u8>, x: u8, s: Seq<u8>, y: u8, t: Seq<u8>|
        encode_utf8(a) == #[trigger] (p.push(x) + s) && encode_utf8(b) == #[trigger] (p.push(y) + t)
            && x < y implies text_le(a, b) && !text_le(b, a) by {
        first_difference_decides(p, x, s, y, t);
    }
    assert forall|t: Seq<u8>|
        encode_utf8(b) == #[trigger] (encode_utf8(a) + t) implies text_le(a, b) by {
        beginnings_come_first(encode_utf8(a), t);
    }
}

/// A list in order has each name at or before every later one, and holds exactly
/// the names that were given, each as often.
pub proof fn ordered_lists_are_sorted(names: Seq<Seq<char>>)
    ensures
        forall|i: int, j: int|
            0 <= i < j < ordered(names).len() ==> text_le(
                #[trigger] ordered(names)[i],
                #[trigger] ordered(names)[j],
            ),
        ordered(names).to_multiset() == names.to_multiset(),
{
    ordered_holds_the_same_names(names);
    let le = |x: Seq<char>, y: Seq<char>| text_le(x, y);
    let o = ordered(names);
    assert forall|i: int, j: int| 0 <= i < j < o.len() implies text_le(
        #[trigger] o[i],
        #[trigger] o[j],
    ) by {
        assert(le(o[i], o[j]));
    }
}

} // verus!
