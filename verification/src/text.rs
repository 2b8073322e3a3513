//! Character-level helpers on strings: the lexicographic order by code point
//! and the searches that the rest of the library is built on.

use std::str::Chars;
use vstd::prelude::*;
use vstd::string::StrSliceExecFns;
use vstd::std_specs::iter::IteratorSpec;

verus! {

/// Strict lexicographic order on character sequences, by code point; a proper
/// prefix comes before the sequence it starts.
pub open spec fn lex_lt(a: Seq<char>, b: Seq<char>) -> bool
    decreases a.len(),
{
    if b.len() == 0 {
        false
    } else if a.len() == 0 {
        true
    } else if a[0] == b[0] {
        lex_lt(a.drop_first(), b.drop_first())
    } else {
        (a[0] as u32) < (b[0] as u32)
    }
}

/// Non-strict lexicographic order: `a` does not come after `b`.
pub open spec fn lex_le(a: Seq<char>, b: Seq<char>) -> bool {
    !lex_lt(b, a)
}

/// `String::push` of the standard library appends the character to the end of
/// the string and changes nothing else.
pub assume_specification[ String::push ](s: &mut String, c: char)
    ensures
        final(s)@ == old(s)@.push(c),
;

/// The contents of a vector of strings, each as its character sequence.
pub open spec fn texts(v: Seq<String>) -> Seq<Seq<char>> {
    v.map_values(|s: String| s@)
}

/// The characters of `s`, in order.
pub fn chars_of(s: &str) -> (r: Vec<char>)
    ensures
        r@ == s@,
{
    broadcast use vstd::string::group_string_axioms;
    let mut it: Chars = s.chars();
    let mut out: Vec<char> = Vec::new();
    loop
        invariant
            out@ + it.remaining() == s@,
            it.decrease() is Some,
        ensures
            out@ == s@,
        decreases it.decrease()->0,
    {
        match it.next() {
            Some(c) => {
                out.push(c);
                proof {
                    assert(out@ + it.remaining() =~= s@);
                }
            },
            None => {
                proof {
                    assert(out@ + it.remaining() =~= out@);
                }
                break;
            },
        }
    }
    out
}

/// Distinct characters have distinct code points.
pub proof fn lemma_code_point_injective(x: char, y: char)
    ensures
        (x as u32) == (y as u32) ==> x == y,
{
    assert((x as u32) as char == x);
    assert((y as u32) as char == y);
}

/// No sequence comes before itself.
pub proof fn lemma_lex_lt_irreflexive(a: Seq<char>)
    ensures
        !lex_lt(a, a),
    decreases a.len(),
{
    if a.len() > 0 {
        lemma_lex_lt_irreflexive(a.drop_first());
    }
}

/// Of two sequences at most one comes before the other.
pub proof fn lemma_lex_lt_asymmetric(a: Seq<char>, b: Seq<char>)
    ensures
        lex_lt(a, b) ==> !lex_lt(b, a),
    decreases a.len(),
{
    if a.len() > 0 && b.len() > 0 && a[0] == b[0] {
        lemma_lex_lt_asymmetric(a.drop_first(), b.drop_first());
    }
}

/// Two sequences of which neither comes before the other are equal.
pub proof fn lemma_lex_le_antisymmetric(a: Seq<char>, b: Seq<char>)
    ensures
        lex_le(a, b) && lex_le(b, a) ==> a == b,
    decreases a.len(),
{
    if a.len() > 0 && b.len() > 0 {
        lemma_code_point_injective(a[0], b[0]);
        if a[0] == b[0] {
            lemma_lex_le_antisymmetric(a.drop_first(), b.drop_first());
            if lex_le(a, b) && lex_le(b, a) {
                assert(a =~= seq![a[0]] + a.drop_first());
                assert(b =~= seq![b[0]] + b.drop_first());
            }
        }
    } else if lex_le(a, b) && lex_le(b, a) {
        assert(a =~= b);
    }
}

/// The non-strict order is transitive.
pub proof fn lemma_lex_le_transitive(a: Seq<char>, b: Seq<char>, c: Seq<char>)
    ensures
        lex_le(a, b) && lex_le(b, c) ==> lex_le(a, c),
    decreases a.len(),
{
    if a.len() > 0 && b.len() > 0 && c.len() > 0 {
        lemma_code_point_injective(a[0], b[0]);
        lemma_code_point_injective(b[0], c[0]);
        if a[0] == b[0] && b[0] == c[0] {
            lemma_lex_le_transitive(a.drop_first(), b.drop_first(), c.drop_first());
        }
    }
}

/// The non-strict order as a relation, for the sorting vocabulary of `vstd`.
pub open spec fn lex_order() -> spec_fn(Seq<char>, Seq<char>) -> bool {
    |a: Seq<char>, b: Seq<char>| lex_le(a, b)
}

/// The non-strict order is a total order.
pub proof fn lemma_lex_order_total()
    ensures
        vstd::relations::total_ordering(lex_order()),
{
    let r = lex_order();
    assert forall|x: Seq<char>| #[trigger] r(x, x) by {
        lemma_lex_lt_irreflexive(x);
    }
    assert forall|x: Seq<char>, y: Seq<char>| #[trigger] r(x, y) && #[trigger] r(y, x) implies x
        == y by {
        lemma_lex_le_antisymmetric(x, y);
    }
    assert forall|x: Seq<char>, y: Seq<char>, z: Seq<char>| #[trigger]
        r(x, y) && #[trigger] r(y, z) implies r(x, z) by {
        lemma_lex_le_transitive(x, y, z);
    }
    assert forall|x: Seq<char>, y: Seq<char>| #[trigger] r(x, y) || #[trigger] r(y, x) by {
        lemma_lex_lt_asymmetric(x, y);
    }
}

/// Whether `a` comes strictly before `b` in lexicographic order.
pub fn str_lt(a: &str, b: &str) -> (r: bool)
    ensures
        r == lex_lt(a@, b@),
{
    broadcast use vstd::string::group_string_axioms;
    let mut ia: Chars = a.chars();
    let mut ib: Chars = b.chars();
    loop
        invariant
            lex_lt(a@, b@) == lex_lt(ia.remaining(), ib.remaining()),
            ia.decrease() is Some,
        decreases ia.decrease()->0,
    {
        let x = ia.next();
        let y = ib.next();
        match y {
            None => {
                return false;
            },
            Some(cy) => {
                match x {
                    None => {
                        return true;
                    },
                    Some(cx) => {
                        if cx != cy {
                            return (cx as u32) < (cy as u32);
                        }
                    },
                }
            },
        }
    }
}

/// Whether `a` does not come after `b` in lexicographic order.
pub fn str_le(a: &str, b: &str) -> (r: bool)
    ensures
        r == lex_le(a@, b@),
{
    !str_lt(b, a)
}

/// Whether two strings hold the same characters.
pub fn str_eq(a: &str, b: &str) -> (r: bool)
    ensures
        r == (a@ == b@),
{
    broadcast use vstd::string::group_string_axioms;
    let mut ia: Chars = a.chars();
    let mut ib: Chars = b.chars();
    let ghost mut done: Seq<char> = Seq::empty();
    loop
        invariant
            done + ia.remaining() == a@,
            done + ib.remaining() == b@,
            ia.decrease() is Some,
        decreases ia.decrease()->0,
    {
        let ghost ra = ia.remaining();
        let ghost rb = ib.remaining();
        let x = ia.next();
        let y = ib.next();
        match (x, y) {
            (None, None) => {
                return true;
            },
            (Some(cx), Some(cy)) => {
                if cx != cy {
                    proof {
                        assert(a@[done.len() as int] == ra[0]);
                        assert(b@[done.len() as int] == rb[0]);
                    }
                    return false;
                }
                proof {
                    assert(done.push(cx) + ia.remaining() =~= done + ra);
                    assert(done.push(cx) + ib.remaining() =~= done + rb);
                    done = done.push(cx);
                }
            },
            _ => {
                proof {
                    assert((done + ra).len() == done.len() + ra.len());
                    assert((done + rb).len() == done.len() + rb.len());
                }
                return false;
            },
        }
    }
}

/// `needle` stands in `hay` at index `i`.
pub open spec fn occurs_at(hay: Seq<char>, needle: Seq<char>, i: int) -> bool {
    0 <= i && i + needle.len() <= hay.len() && hay.subrange(i, i + needle.len()) == needle
}

/// `needle` stands somewhere in `hay`.
pub open spec fn contains_text(hay: Seq<char>, needle: Seq<char>) -> bool {
    exists|i: int| occurs_at(hay, needle, i)
}

/// `hay` begins with `prefix`.
pub open spec fn starts_with(hay: Seq<char>, prefix: Seq<char>) -> bool {
    occurs_at(hay, prefix, 0)
}

/// `hay` ends with `suffix`.
pub open spec fn ends_with(hay: Seq<char>, suffix: Seq<char>) -> bool {
    occurs_at(hay, suffix, hay.len() - suffix.len())
}

/// `i` is the index of the first `c` in `s`.
pub open spec fn is_first_index(s: Seq<char>, c: char, i: int) -> bool {
    &&& 0 <= i < s.len()
    &&& s[i] == c
    &&& forall|j: int| 0 <= j < i ==> s[j] != c
}

/// The index of the first `c` in `s`, where `s` holds one.
pub open spec fn first_index(s: Seq<char>, c: char) -> int {
    choose|i: int| is_first_index(s, c, i)
}

/// There is only one first index.
pub proof fn lemma_first_index_unique(s: Seq<char>, c: char, i: int)
    requires
        is_first_index(s, c, i),
    ensures
        first_index(s, c) == i,
{
    let k = first_index(s, c);
    assert(is_first_index(s, c, k));
    if k < i {
        assert(s[k] != c);
    } else if i < k {
        assert(s[i] != c);
    }
}

/// Whether `needle` stands in `hay` at index `at`.
pub fn chars_match_at(hay: &Vec<char>, needle: &Vec<char>, at: usize) -> (r: bool)
    ensures
        r == occurs_at(hay@, needle@, at as int),
{
    if needle.len() > hay.len() || at > hay.len() - needle.len() {
        return false;
    }
    let mut k: usize = 0;
    while k < needle.len()
        invariant
            k <= needle.len(),
            at + needle.len() <= hay.len(),
            forall|j: int| 0 <= j < k ==> hay@[at + j] == needle@[j],
        decreases needle.len() - k,
    {
        if hay[at + k] != needle[k] {
            proof {
                assert(hay@.subrange(at as int, at + needle.len())[k as int] == hay@[at + k]);
            }
            return false;
        }
        k = k + 1;
    }
    proof {
        assert(hay@.subrange(at as int, at + needle.len()) =~= needle@);
    }
    true
}

/// The first index at which `needle` stands in `hay`, if there is one.
pub fn find_chars(hay: &Vec<char>, needle: &Vec<char>) -> (r: Option<usize>)
    ensures
        match r {
            Some(i) => occurs_at(hay@, needle@, i as int) && forall|j: int|
                0 <= j < i ==> !occurs_at(hay@, needle@, j),
            None => !contains_text(hay@, needle@),
        },
{
    if needle.len() > hay.len() {
        return None;
    }
    let last: usize = hay.len() - needle.len();
    let mut i: usize = 0;
    loop
        invariant
            i <= last,
            last == hay.len() - needle.len(),
            forall|j: int| 0 <= j < i ==> !occurs_at(hay@, needle@, j),
        decreases last - i,
    {
        if chars_match_at(hay, needle, i) {
            return Some(i);
        }
        if i == last {
            return None;
        }
        i = i + 1;
    }
}

/// The index of the first `c` in `s`, if there is one.
pub fn find_char(s: &Vec<char>, c: char) -> (r: Option<usize>)
    ensures
        match r {
            Some(i) => is_first_index(s@, c, i as int) && first_index(s@, c) == i,
            None => !s@.contains(c),
        },
{
    let mut i: usize = 0;
    while i < s.len()
        invariant
            i <= s.len(),
            forall|j: int| 0 <= j < i ==> s@[j] != c,
        decreases s.len() - i,
    {
        if s[i] == c {
            proof {
                lemma_first_index_unique(s@, c, i as int);
            }
            return Some(i);
        }
        i = i + 1;
    }
    None
}

/// Whether `needle` stands somewhere in `hay`.
pub fn str_contains(hay: &str, needle: &str) -> (r: bool)
    ensures
        r == contains_text(hay@, needle@),
{
    let h = chars_of(hay);
    let n = chars_of(needle);
    find_chars(&h, &n).is_some()
}

/// Whether `hay` begins with `prefix`.
pub fn str_starts_with(hay: &str, prefix: &str) -> (r: bool)
    ensures
        r == starts_with(hay@, prefix@),
{
    let h = chars_of(hay);
    let p = chars_of(prefix);
    chars_match_at(&h, &p, 0)
}

/// Whether `hay` ends with `suffix`.
pub fn str_ends_with(hay: &str, suffix: &str) -> (r: bool)
    ensures
        r == ends_with(hay@, suffix@),
{
    let h = chars_of(hay);
    let x = chars_of(suffix);
    if x.len() > h.len() {
        return false;
    }
    chars_match_at(&h, &x, h.len() - x.len())
}

/// A character that ends a line: a carriage return or a line feed.
pub open spec fn is_line_end(c: char) -> bool {
    c == '\r' || c == '\n'
}

/// The text without the line-ending characters at its end.
pub open spec fn trimmed_end(s: Seq<char>) -> Seq<char>
    decreases s.len(),
{
    if s.len() > 0 && is_line_end(s.last()) {
        trimmed_end(s.drop_last())
    } else {
        s
    }
}

/// The line as it was read, without the carriage returns and line feeds at
/// its end.
pub fn trim_line_end(line: &str) -> (r: &str)
    ensures
        r@ == trimmed_end(line@),
{
    let chars = chars_of(line);
    let mut n: usize = chars.len();
    proof {
        assert(line@.take(n as int) =~= line@);
    }
    while n > 0 && (chars[n - 1] == '\r' || chars[n - 1] == '\n')
        invariant
            n <= chars.len(),
            chars@ == line@,
            trimmed_end(line@) == trimmed_end(line@.take(n as int)),
        decreases n,
    {
        proof {
            assert(line@.take(n as int).drop_last() =~= line@.take(n - 1));
        }
        n = n - 1;
    }
    line.substring_char(0, n)
}

} // verus!
