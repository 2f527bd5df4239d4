//! Text primitives: equality, prefixes, suffixes, substring search, trimming,
//! splitting and decimal notation, each stated over the characters of a string.

use vstd::prelude::*;
use vstd::utf8::{encode_scalar, encode_utf8};

verus! {

/// `needle` stands in `hay` at position `at`.
pub open spec fn occurs_at(needle: Seq<char>, hay: Seq<char>, at: int) -> bool {
    &&& 0 <= at
    &&& at + needle.len() <= hay.len()
    &&& hay.subrange(at, at + needle.len()) == needle
}

/// `needle` stands somewhere in `hay`.
pub open spec fn occurs(needle: Seq<char>, hay: Seq<char>) -> bool {
    exists|at: int| occurs_at(needle, hay, at)
}

/// A character with the Unicode `White_Space` property.
pub open spec fn white_space(c: char) -> bool {
    ||| '\u{9}' <= c <= '\u{d}'
    ||| c == '\u{20}'
    ||| c == '\u{85}'
    ||| c == '\u{a0}'
    ||| c == '\u{1680}'
    ||| '\u{2000}' <= c <= '\u{200a}'
    ||| c == '\u{2028}'
    ||| c == '\u{2029}'
    ||| c == '\u{202f}'
    ||| c == '\u{205f}'
    ||| c == '\u{3000}'
}

/// `s` without its leading white space.
pub open spec fn trim_front(s: Seq<char>) -> Seq<char>
    decreases s.len(),
{
    if s.len() > 0 && white_space(s.first()) {
        trim_front(s.drop_first())
    } else {
        s
    }
}

/// `s` without its trailing white space.
pub open spec fn trim_back(s: Seq<char>) -> Seq<char>
    decreases s.len(),
{
    if s.len() > 0 && white_space(s.last()) {
        trim_back(s.drop_last())
    } else {
        s
    }
}

/// `s` without leading and trailing white space.
pub open spec fn trimmed(s: Seq<char>) -> Seq<char> {
    trim_back(trim_front(s))
}

/// The parts of `s` between the separators: one more part than there are
/// separators, and no part holds one.
pub open spec fn split_on(s: Seq<char>, separator: char) -> Seq<Seq<char>>
    decreases s.len(),
{
    if s.len() == 0 {
        seq![Seq::<char>::empty()]
    } else {
        let before = split_on(s.drop_last(), separator);
        if s.last() == separator {
            before.push(Seq::<char>::empty())
        } else {
            before.drop_last().push(before.last().push(s.last()))
        }
    }
}

/// The character for one decimal digit.
pub open spec fn digit(d: nat) -> char {
    if d == 0 {
        '0'
    } else if d == 1 {
        '1'
    } else if d == 2 {
        '2'
    } else if d == 3 {
        '3'
    } else if d == 4 {
        '4'
    } else if d == 5 {
        '5'
    } else if d == 6 {
        '6'
    } else if d == 7 {
        '7'
    } else if d == 8 {
        '8'
    } else {
        '9'
    }
}

/// `n` in decimal, without leading zeros.
pub open spec fn decimal_of(n: nat) -> Seq<char>
    decreases n,
{
    if n < 10 {
        seq![digit(n)]
    } else {
        decimal_of(n / 10).push(digit(n % 10))
    }
}

/// The characters of `s`, one by one.
pub(crate) fn chars_of(s: &str) -> (r: Vec<char>)
    ensures
        r@ == s@,
{
    let mut out: Vec<char> = Vec::new();
    for c in it: s.chars()
        invariant
            out@ == it.seq().take(it.index() as int),
            it.seq() == s@,
    {
        out.push(c);
        assert(it.seq().take(it.index() + 1) =~= it.seq().take(it.index() as int).push(c));
    }
    assert(s@.take(s@.len() as int) =~= s@);
    out
}

/// Whether two strings hold the same characters.
pub fn same_text(a: &str, b: &str) -> (r: bool)
    ensures
        r == (a@ == b@),
{
    let x = chars_of(a);
    let y = chars_of(b);
    if x.len() != y.len() {
        return false;
    }
    let mut i: usize = 0;
    while i < x.len()
        invariant
            i <= x@.len(),
            x@.len() == y@.len(),
            x@ == a@,
            y@ == b@,
            forall|j: int| 0 <= j < i ==> x@[j] == y@[j],
        decreases x@.len() - i,
    {
        if x[i] != y[i] {
            return false;
        }
        i = i + 1;
    }
    assert(a@ =~= b@);
    true
}

/// Whether `needle` stands in `hay` at `at`.
fn stands_at(needle: &Vec<char>, hay: &Vec<char>, at: usize) -> (r: bool)
    requires
        at + needle@.len() <= hay@.len(),
    ensures
        r == occurs_at(needle@, hay@, at as int),
{
    let end: usize = hay.len();
    let mut i: usize = 0;
    while i < needle.len()
        invariant
            i <= needle@.len(),
            at + needle@.len() <= end,
            end == hay@.len(),
            forall|j: int| 0 <= j < i ==> needle@[j] == hay@[at + j],
        decreases needle@.len() - i,
    {
        if needle[i] != hay[at + i] {
            assert(hay@.subrange(at as int, at + needle@.len())[i as int] == hay@[at + i]);
            return false;
        }
        i = i + 1;
    }
    assert(hay@.subrange(at as int, at + needle@.len()) =~= needle@);
    true
}

/// Whether `s` begins with `prefix`.
pub fn starts_with(s: &str, prefix: &str) -> (r: bool)
    ensures
        r == prefix@.is_prefix_of(s@),
{
    let hay = chars_of(s);
    let needle = chars_of(prefix);
    if needle.len() > hay.len() {
        return false;
    }
    stands_at(&needle, &hay, 0)
}

/// Whether `s` ends with `suffix`.
pub fn ends_with(s: &str, suffix: &str) -> (r: bool)
    ensures
        r == suffix@.is_suffix_of(s@),
{
    let hay = chars_of(s);
    let needle = chars_of(suffix);
    if needle.len() > hay.len() {
        return false;
    }
    stands_at(&needle, &hay, hay.len() - needle.len())
}

/// Whether `needle` stands somewhere in `s`.
pub fn contains(s: &str, needle: &str) -> (r: bool)
    ensures
        r == occurs(needle@, s@),
{
    let hay = chars_of(s);
    let pin = chars_of(needle);
    if pin.len() > hay.len() {
        return false;
    }
    let last: usize = hay.len() - pin.len();
    let mut at: usize = 0;
    loop
        invariant
            hay@ == s@,
            pin@ == needle@,
            last == hay@.len() - pin@.len(),
            at <= last,
            forall|j: int| 0 <= j < at ==> !occurs_at(needle@, s@, j),
        decreases last - at,
    {
        if stands_at(&pin, &hay, at) {
            return true;
        }
        if at == last {
            return false;
        }
        at = at + 1;
    }
}

/// Whether `c` has the Unicode `White_Space` property.
pub fn is_white_space(c: char) -> (r: bool)
    ensures
        r == white_space(c),
{
    ('\u{9}' <= c && c <= '\u{d}') || c == '\u{20}' || c == '\u{85}' || c == '\u{a0}' || c
        == '\u{1680}' || ('\u{2000}' <= c && c <= '\u{200a}') || c == '\u{2028}' || c == '\u{2029}'
        || c == '\u{202f}' || c == '\u{205f}' || c == '\u{3000}'
}

/// `s` without leading and trailing white space.
pub fn trim(s: &str) -> (r: &str)
    ensures
        r@ == trimmed(s@),
{
    let cs = chars_of(s);
    let mut from: usize = 0;
    assert(s@.subrange(0, s@.len() as int) =~= s@);
    while from < cs.len() && is_white_space(cs[from])
        invariant
            cs@ == s@,
            from <= cs@.len(),
            trim_front(s@.subrange(from as int, s@.len() as int)) == trim_front(s@),
        decreases cs@.len() - from,
    {
        assert(s@.subrange(from as int, s@.len() as int).drop_first() =~= s@.subrange(
            from + 1,
            s@.len() as int,
        ));
        from = from + 1;
    }
    let mut to: usize = cs.len();
    let ghost front = s@.subrange(from as int, s@.len() as int);
    assert(trim_front(s@) == front);
    while to > from && is_white_space(cs[to - 1])
        invariant
            cs@ == s@,
            from <= to <= cs@.len(),
            trim_back(s@.subrange(from as int, to as int)) == trim_back(front),
        decreases to,
    {
        assert(s@.subrange(from as int, to as int).drop_last() =~= s@.subrange(
            from as int,
            to - 1,
        ));
        to = to - 1;
    }
    s.substring_char(from, to)
}

/// The first `n` characters of `s`.
pub(crate) fn take_chars(s: &str, n: usize) -> (r: &str)
    requires
        n <= s@.len(),
    ensures
        r@ == s@.take(n as int),
{
    s.substring_char(0, n)
}

/// The parts of `s` between the separators.
pub fn split(s: &str, separator: char) -> (r: Vec<String>)
    ensures
        r.deep_view() == split_on(s@, separator),
{
    let cs = chars_of(s);
    let mut parts: Vec<String> = Vec::new();
    let mut start: usize = 0;
    let mut i: usize = 0;
    assert(s@.take(0) =~= Seq::<char>::empty());
    assert(s@.subrange(0, 0) =~= Seq::<char>::empty());
    assert(split_on(s@.take(0), separator) =~= parts.deep_view().push(s@.subrange(0, 0)));
    while i < cs.len()
        invariant
            cs@ == s@,
            start <= i <= cs@.len(),
            split_on(s@.take(i as int), separator) == parts.deep_view().push(
                s@.subrange(start as int, i as int),
            ),
        decreases cs@.len() - i,
    {
        let ghost before = s@.take(i as int);
        let ghost now = s@.take(i + 1);
        let ghost old_parts = parts.deep_view();
        assert(now.drop_last() =~= before);
        assert(now.last() == s@[i as int]);
        if cs[i] == separator {
            parts.push(s.substring_char(start, i).to_owned());
            start = i + 1;
            assert(parts.deep_view() =~= split_on(before, separator));
            assert(s@.subrange(i + 1, i + 1) =~= Seq::<char>::empty());
        } else {
            assert(split_on(before, separator).drop_last() =~= old_parts);
            assert(s@.subrange(start as int, i + 1) =~= s@.subrange(start as int, i as int).push(
                s@[i as int],
            ));
        }
        i = i + 1;
    }
    assert(s@.take(s@.len() as int) =~= s@);
    parts.push(s.substring_char(start, i).to_owned());
    assert(parts.deep_view() =~= split_on(s@, separator));
    parts
}

/// The string for one decimal digit.
fn digit_text(d: u64) -> (r: &'static str)
    requires
        d < 10,
    ensures
        r@ == seq![digit(d as nat)],
{
    proof {
        reveal_strlit("0");
        reveal_strlit("1");
        reveal_strlit("2");
        reveal_strlit("3");
        reveal_strlit("4");
        reveal_strlit("5");
        reveal_strlit("6");
        reveal_strlit("7");
        reveal_strlit("8");
        reveal_strlit("9");
    }
    let r = match d {
        0 => "0",
        1 => "1",
        2 => "2",
        3 => "3",
        4 => "4",
        5 => "5",
        6 => "6",
        7 => "7",
        8 => "8",
        _ => "9",
    };
    assert(r@ =~= seq![digit(d as nat)]);
    r
}

/// `n` in decimal.
pub fn decimal(n: u64) -> (r: String)
    ensures
        r@ == decimal_of(n as nat),
    decreases n,
{
    if n < 10 {
        digit_text(n).to_owned()
    } else {
        let mut s = decimal(n / 10);
        s.append(digit_text(n % 10));
        assert(s@ =~= decimal_of(n as nat));
        s
    }
}

/// A copy of a list of strings from `from` on.
pub(crate) fn texts_from(v: &[String], from: usize) -> (r: Vec<String>)
    requires
        from <= v@.len(),
    ensures
        r.deep_view() == v.deep_view().skip(from as int),
{
    let mut out: Vec<String> = Vec::new();
    let mut i: usize = from;
    while i < v.len()
        invariant
            from <= i <= v@.len(),
            out@.len() == i - from,
            forall|j: int| 0 <= j < i - from ==> (#[trigger] out@[j])@ == v@[j + from]@,
        decreases v@.len() - i,
    {
        out.push(v[i].clone());
        i = i + 1;
    }
    assert(out.deep_view() =~= v.deep_view().skip(from as int));
    out
}

/// A copy of a list of strings.
pub(crate) fn copy_texts(v: &[String]) -> (r: Vec<String>)
    ensures
        r.deep_view() == v.deep_view(),
{
    assert(v.deep_view().skip(0) =~= v.deep_view());
    texts_from(v, 0)
}

/// Texts, with a separator between any two.
pub open spec fn joined_parts(parts: Seq<Seq<char>>, separator: char) -> Seq<char>
    decreases parts.len(),
{
    if parts.len() == 0 {
        Seq::empty()
    } else if parts.len() == 1 {
        parts[0]
    } else {
        joined_parts(parts.drop_last(), separator).push(separator) + parts.last()
    }
}

/// Splitting loses nothing: the parts hold no separator, and with separators
/// between them they make up the text again.
pub proof fn splitting_loses_nothing(s: Seq<char>, separator: char)
    ensures
        split_on(s, separator).len() > 0,
        joined_parts(split_on(s, separator), separator) == s,
        forall|i: int|
            0 <= i < split_on(s, separator).len() ==> !(#[trigger] split_on(
                s,
                separator,
            )[i]).contains(separator),
    decreases s.len(),
{
    let parts = split_on(s, separator);
    if s.len() == 0 {
        assert(s =~= Seq::<char>::empty());
    } else {
        let before = split_on(s.drop_last(), separator);
        splitting_loses_nothing(s.drop_last(), separator);
        if s.last() == separator {
            assert(parts.drop_last() =~= before);
            assert(joined_parts(parts, separator) =~= s);
        } else {
            let last = before.last().push(s.last());
            assert(parts.drop_last() =~= before.drop_last());
            assert(joined_parts(parts, separator) =~= joined_parts(before, separator).push(
                s.last(),
            ));
            assert(s =~= s.drop_last().push(s.last()));
            assert forall|i: int| 0 <= i < parts.len() implies !(#[trigger] parts[i]).contains(
                separator,
            ) by {
                if i < parts.len() - 1 {
                    assert(parts[i] == before[i]);
                } else {
                    let old = before[i];
                    assert forall|j: int| 0 <= j < last.len() implies last[j] != separator by {
                        if j < old.len() {
                            assert(old.contains(old[j]));
                        }
                    }
                }
            }
        }
    }
}

/// Decimal notation tells numbers apart.
pub proof fn decimal_is_injective(a: nat, b: nat)
    requires
        decimal_of(a) == decimal_of(b),
    ensures
        a == b,
    decreases a,
{
    decimal_is_not_empty(a / 10);
    decimal_is_not_empty(b / 10);
    if a < 10 && b < 10 {
        assert(decimal_of(a)[0] == digit(a));
        assert(decimal_of(b)[0] == digit(b));
    } else if a < 10 {
        assert(decimal_of(b).len() == decimal_of(b / 10).len() + 1);
    } else if b < 10 {
        assert(decimal_of(a).len() == decimal_of(a / 10).len() + 1);
    } else {
        assert(decimal_of(a).drop_last() =~= decimal_of(a / 10));
        assert(decimal_of(b).drop_last() =~= decimal_of(b / 10));
        assert(decimal_of(a).last() == digit(a % 10));
        assert(decimal_of(b).last() == digit(b % 10));
        decimal_is_injective(a / 10, b / 10);
    }
}

/// A decimal number has at least one character, and all are digits.
pub proof fn decimal_is_not_empty(n: nat)
    ensures
        decimal_of(n).len() > 0,
        forall|i: int| 0 <= i < decimal_of(n).len() ==> '0' <= #[trigger] decimal_of(n)[i] <= '9',
    decreases n,
{
    if n >= 10 {
        decimal_is_not_empty(n / 10);
    }
}

/// The UTF-8 form of two texts, one behind the other.
pub(crate) proof fn utf8_append(a: Seq<char>, b: Seq<char>)
    ensures
        encode_utf8(a + b) == encode_utf8(a) + encode_utf8(b),
    decreases a.len(),
{
    if a.len() == 0 {
        assert(a + b =~= b);
        assert(encode_utf8(a) + encode_utf8(b) =~= encode_utf8(b));
    } else {
        utf8_append(a.drop_first(), b);
        assert((a + b).drop_first() =~= a.drop_first() + b);
        assert(encode_utf8(a + b) =~= encode_utf8(a) + encode_utf8(b));
    }
}

/// The UTF-8 form of a text that is one character longer.
pub(crate) proof fn utf8_push(s: Seq<char>, c: char)
    ensures
        encode_utf8(s.push(c)) == encode_utf8(s) + encode_scalar(c as u32),
{
    let one = seq![c];
    utf8_append(s, one);
    assert(s.push(c) =~= s + one);
    assert(one.drop_first() =~= Seq::<char>::empty());
    assert(encode_utf8(one.drop_first()) =~= Seq::<u8>::empty());
    assert(encode_utf8(one) =~= encode_scalar(c as u32));
}

/// Nothing but white space.
pub open spec fn blank(s: Seq<char>) -> bool {
    forall|i: int| 0 <= i < s.len() ==> white_space(#[trigger] s[i])
}

proof fn blank_front_goes(a: Seq<char>, s: Seq<char>)
    requires
        blank(a),
        s.len() > 0 ==> !white_space(s[0]),
    ensures
        trim_front(a + s) == s,
    decreases a.len(),
{
    if a.len() == 0 {
        assert(a + s =~= s);
    } else {
        let tail = a.drop_first();
        assert(white_space(a[0]));
        assert forall|i: int| 0 <= i < tail.len() implies white_space(#[trigger] tail[i]) by {
            assert(tail[i] == a[i + 1]);
        }
        assert((a + s).drop_first() =~= tail + s);
        blank_front_goes(tail, s);
    }
}

proof fn blank_back_goes(s: Seq<char>, b: Seq<char>)
    requires
        blank(b),
        s.len() > 0 ==> !white_space(s.last()),
    ensures
        trim_back(s + b) == s,
    decreases b.len(),
{
    if b.len() == 0 {
        assert(s + b =~= s);
    } else {
        let front = b.drop_last();
        assert(white_space(b[b.len() - 1]));
        assert forall|i: int| 0 <= i < front.len() implies white_space(#[trigger] front[i]) by {
            assert(front[i] == b[i]);
        }
        assert((s + b).drop_last() =~= s + front);
        blank_back_goes(s, front);
    }
}

/// Trimming takes away the white space around a text and nothing of the text
/// itself, however much there is of either.
pub proof fn trimming_keeps_the_text(a: Seq<char>, text: Seq<char>, b: Seq<char>)
    requires
        blank(a),
        blank(b),
        text.len() > 0 ==> !white_space(text[0]) && !white_space(text.last()),
    ensures
        trimmed(a + text + b) == text,
{
    if text.len() > 0 {
        assert(a + text + b =~= a + (text + b));
        assert((text + b)[0] == text[0]);
        blank_front_goes(a, text + b);
        blank_back_goes(text, b);
    } else {
        let all = a + text + b;
        assert forall|i: int| 0 <= i < all.len() implies white_space(#[trigger] all[i]) by {
            if i < a.len() {
                assert(all[i] == a[i]);
            } else {
                assert(all[i] == b[i - a.len()]);
            }
        }
        assert(all + text =~= all);
        blank_front_goes(all, text);
        assert(trim_back(text) == text);
    }
}

/// A text is found in another exactly if that is made of something before it, the
/// text, and something behind it.
pub proof fn found_texts_are_parts(needle: Seq<char>, hay: Seq<char>)
    ensures
        occurs(needle, hay) <==> exists|a: Seq<char>, b: Seq<char>|
            hay == #[trigger] (a + needle + b),
{
    if occurs(needle, hay) {
        let at = choose|at: int| occurs_at(needle, hay, at);
        let a = hay.take(at);
        let b = hay.skip(at + needle.len());
        assert(hay =~= a + needle + b);
    }
    if exists|a: Seq<char>, b: Seq<char>| hay == #[trigger] (a + needle + b) {
        let (a, b) = choose|a: Seq<char>, b: Seq<char>| hay == #[trigger] (a + needle + b);
        assert(hay.subrange(a.len() as int, (a.len() + needle.len()) as int) =~= needle);
        assert(occurs_at(needle, hay, a.len() as int));
    }
}

/// The number that a row of decimal digits stands for.
pub open spec fn number(digits: Seq<char>) -> int
    decreases digits.len(),
{
    if digits.len() == 0 {
        0
    } else {
        10 * number(digits.drop_last()) + (digits.last() as int - '0' as int)
    }
}

/// Decimal notation is made of digits, reads back as the number, and has no zero
/// in front of another digit.
pub proof fn decimal_reads_back(n: nat)
    ensures
        number(decimal_of(n)) == n,
        decimal_of(n).len() > 0,
        decimal_of(n).len() > 1 ==> decimal_of(n)[0] != '0',
        n > 0 ==> decimal_of(n)[0] != '0',
        forall|i: int|
            0 <= i < decimal_of(n).len() ==> '0' <= #[trigger] decimal_of(n)[i] <= '9',
    decreases n,
{
    let digits = decimal_of(n);
    if n < 10 {
        assert(digits.drop_last() =~= Seq::<char>::empty());
        assert(number(digits.drop_last()) == 0);
    } else {
        decimal_reads_back(n / 10);
        assert(digits.drop_last() =~= decimal_of(n / 10));
    }
}

/// A text is found between what stands before and behind it.
pub proof fn told_within(a: Seq<char>, text: Seq<char>, b: Seq<char>)
    ensures
        occurs(text, a + text + b),
{
    let all = a + text + b;
    assert(all.subrange(a.len() as int, (a.len() + text.len()) as int) =~= text);
    assert(occurs_at(text, all, a.len() as int));
}

proof fn trim_front_leaves_a_tail(s: Seq<char>)
    ensures
        exists|i: int| 0 <= i <= s.len() && trim_front(s) == #[trigger] s.skip(i) && blank(s.take(i)),
    decreases s.len(),
{
    if s.len() > 0 && white_space(s.first()) {
        let t = s.drop_first();
        trim_front_leaves_a_tail(t);
        let i = choose|i: int|
            0 <= i <= t.len() && trim_front(t) == #[trigger] t.skip(i) && blank(t.take(i));
        assert(t.skip(i) =~= s.skip(i + 1));
        assert forall|j: int| 0 <= j < s.take(i + 1).len() implies white_space(
            #[trigger] s.take(i + 1)[j],
        ) by {
            if j > 0 {
                assert(t.take(i)[j - 1] == s[j]);
            }
        }
    } else {
        assert(s.skip(0) =~= s);
        assert(s.take(0) =~= Seq::<char>::empty());
    }
}

proof fn trim_back_leaves_a_front(s: Seq<char>)
    ensures
        exists|i: int| 0 <= i <= s.len() && trim_back(s) == #[trigger] s.take(i) && blank(s.skip(i)),
    decreases s.len(),
{
    if s.len() > 0 && white_space(s.last()) {
        let t = s.drop_last();
        trim_back_leaves_a_front(t);
        let i = choose|i: int|
            0 <= i <= t.len() && trim_back(t) == #[trigger] t.take(i) && blank(t.skip(i));
        assert(t.take(i) =~= s.take(i));
        assert forall|j: int| 0 <= j < s.skip(i).len() implies white_space(
            #[trigger] s.skip(i)[j],
        ) by {
            if j + i < t.len() {
                assert(t.skip(i)[j] == s[i + j]);
            }
        }
    } else {
        assert(s.take(s.len() as int) =~= s);
        assert(s.skip(s.len() as int) =~= Seq::<char>::empty());
    }
}

/// Nothing is left of a text by trimming only if it is nothing but white space.
pub proof fn only_blanks_trim_to_nothing(s: Seq<char>)
    requires
        trimmed(s).len() == 0,
    ensures
        blank(s),
{
    let t = trim_front(s);
    trim_front_leaves_a_tail(s);
    trim_back_leaves_a_front(t);
    let i = choose|i: int|
        0 <= i <= s.len() && trim_front(s) == #[trigger] s.skip(i) && blank(s.take(i));
    let k = choose|k: int|
        0 <= k <= t.len() && trim_back(t) == #[trigger] t.take(k) && blank(t.skip(k));
    assert(k == 0);
    assert forall|j: int| 0 <= j < s.len() implies white_space(#[trigger] s[j]) by {
        if j < i {
            assert(s.take(i)[j] == s[j]);
        } else {
            assert(t.skip(0)[j - i] == s[j]);
        }
    }
}

/// What is told last stands whole at the end.
pub proof fn told_last(a: Seq<char>, last: Seq<char>)
    ensures
        last.is_suffix_of(a + last),
{
    let all = a + last;
    assert(all.subrange(all.len() - last.len(), all.len() as int) =~= last);
}

/// An ASCII character is one byte.
pub(crate) proof fn one_byte(c: char)
    requires
        c <= '\u{7f}',
    ensures
        encode_scalar(c as u32) == seq![c as u8],
        encode_utf8(seq![c]) == seq![c as u8],
{
    let one = seq![c];
    assert(vstd::utf8::is_ascii_chars(one)) by {
        assert(one[0] == c);
    }
    vstd::utf8::is_ascii_chars_encode_utf8(one);
    assert(one[0] == c);
    assert(encode_utf8(one) =~= seq![c as u8]);
    assert(one.drop_first() =~= Seq::<char>::empty());
    assert(encode_utf8(one.drop_first()) =~= Seq::<u8>::empty());
    assert(encode_scalar(c as u32) =~= seq![c as u8]);
}

/// The UTF-8 form of a text that starts with an ASCII character starts with its
/// byte.
pub(crate) proof fn starts_with_its_first(s: Seq<char>)
    requires
        s.len() > 0,
        s[0] <= '\u{7f}',
    ensures
        encode_utf8(s).len() > 0,
        encode_utf8(s)[0] == s[0] as u8,
{
    one_byte(s[0]);
    assert(encode_utf8(s) == encode_scalar(s[0] as u32) + encode_utf8(s.drop_first()));
}

/// A text without separators goes to the last part of what stands before it.
pub(crate) proof fn split_behind(s: Seq<char>, t: Seq<char>, separator: char)
    requires
        !t.contains(separator),
    ensures
        split_on(s + t, separator) == split_on(s, separator).drop_last().push(
            split_on(s, separator).last() + t,
        ),
    decreases t.len(),
{
    let parts = split_on(s, separator);
    splitting_loses_nothing(s, separator);
    if t.len() == 0 {
        assert(s + t =~= s);
        assert(parts.last() + t =~= parts.last());
        assert(parts.drop_last().push(parts.last()) =~= parts);
    } else {
        let u = t.drop_last();
        assert(!u.contains(separator)) by {
            if u.contains(separator) {
                let i = choose|i: int| 0 <= i < u.len() && u[i] == separator;
                assert(t[i] == separator);
            }
        }
        split_behind(s, u, separator);
        assert((s + t).drop_last() =~= s + u);
        assert((s + t).last() == t.last());
        assert(t[t.len() - 1] != separator);
        let grown = parts.drop_last().push(parts.last() + u);
        assert(grown.drop_last() =~= parts.drop_last());
        assert((parts.last() + u).push(t.last()) =~= parts.last() + t);
    }
}

/// Parts without separators read back from the text that they make up with
/// separators between them, each whole and in its place.
pub proof fn joined_parts_read_back(parts: Seq<Seq<char>>, separator: char)
    requires
        parts.len() > 0,
        forall|i: int| 0 <= i < parts.len() ==> !(#[trigger] parts[i]).contains(separator),
    ensures
        split_on(joined_parts(parts, separator), separator) == parts,
    decreases parts.len(),
{
    let none = Seq::<char>::empty();
    let last = parts.last();
    assert(!parts[parts.len() - 1].contains(separator));
    assert(none + last =~= last);
    if parts.len() == 1 {
        split_behind(none, last, separator);
        assert(split_on(none, separator) == seq![none]);
        assert(split_on(last, separator) =~= parts);
    } else {
        let front = parts.drop_last();
        assert forall|i: int| 0 <= i < front.len() implies !(#[trigger] front[i]).contains(
            separator,
        ) by {
            assert(front[i] == parts[i]);
        }
        joined_parts_read_back(front, separator);
        let head = joined_parts(front, separator).push(separator);
        assert(head.drop_last() =~= joined_parts(front, separator));
        assert(split_on(head, separator) == front.push(none));
        split_behind(head, last, separator);
        assert(front.push(none).drop_last().push(last) =~= parts);
    }
}

/// White space are the characters with these numbers, and no others; of ASCII those
/// that leave no mark, from tab to carriage return, and the space.
pub proof fn white_space_by_number(c: char)
    ensures
        white_space(c) <==> ({
            let n = c as u32;
            ||| 9 <= n <= 13
            ||| n == 32
            ||| n == 133
            ||| n == 160
            ||| n == 5760
            ||| 8192 <= n <= 8202
            ||| n == 8232 || n == 8233
            ||| n == 8239
            ||| n == 8287
            ||| n == 12288
        }),
        '!' <= c <= '~' ==> !white_space(c),
{
}

} // verus!
