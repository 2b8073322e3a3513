//! Keeping paths in ascending lexicographic order.

use crate::text::{
    lemma_lex_le_transitive, lemma_lex_lt_asymmetric, lemma_lex_order_total, lex_le, lex_lt,
    lex_order, str_lt, texts,
};
use vstd::prelude::*;
use vstd::relations::sorted_by;
use vstd::seq_lib::lemma_sorted_unique;

verus! {

/// `paths` in ascending lexicographic order.
pub open spec fn ascending(paths: Seq<Seq<char>>) -> Seq<Seq<char>> {
    paths.sort_by(lex_order())
}

/// Index `pos` is a place at which `p` can enter `sorted` without breaking
/// the order: nothing before it is greater, nothing from it on is less.
pub open spec fn is_sorted_position(sorted: Seq<Seq<char>>, p: Seq<char>, pos: int) -> bool {
    &&& 0 <= pos <= sorted.len()
    &&& forall|i: int| 0 <= i < pos ==> lex_le(#[trigger] sorted[i], p)
    &&& forall|i: int| pos <= i < sorted.len() ==> lex_le(p, #[trigger] sorted[i])
}

/// Inserting one element adds exactly that element to the multiset.
pub proof fn lemma_insert_to_multiset(s: Seq<Seq<char>>, pos: int, x: Seq<char>)
    requires
        0 <= pos <= s.len(),
    ensures
        s.insert(pos, x).to_multiset() =~= s.to_multiset().insert(x),
{
    broadcast use vstd::multiset::group_multiset_axioms;

    let t = s.insert(pos, x);
    s.insert_ensures(pos, x);
    assert(t.remove(pos) =~= s);
    t.to_multiset_ensures();
    assert(t[pos] == x);
    assert(t.remove(pos).to_multiset() =~= t.to_multiset().remove(t[pos]));
}

/// Inserting at a sorted position keeps a sorted sequence sorted.
pub proof fn lemma_insert_keeps_sorted(sorted: Seq<Seq<char>>, p: Seq<char>, pos: int)
    requires
        sorted_by(sorted, lex_order()),
        is_sorted_position(sorted, p, pos),
    ensures
        sorted_by(sorted.insert(pos, p), lex_order()),
{
    let ord = lex_order();
    let grown = sorted.insert(pos, p);
    sorted.insert_ensures(pos, p);
    assert forall|i: int, j: int| 0 <= i < j < grown.len() implies #[trigger] ord(
        grown[i],
        grown[j],
    ) by {
        if j < pos {
            assert(ord(sorted[i], sorted[j]));
        } else if j == pos {
            assert(lex_le(sorted[i], p));
        } else if i < pos {
            assert(lex_le(sorted[i], p));
            assert(lex_le(p, sorted[j - 1]));
            lemma_lex_le_transitive(sorted[i], p, sorted[j - 1]);
        } else if i == pos {
            assert(lex_le(p, sorted[j - 1]));
        } else {
            assert(ord(sorted[i - 1], sorted[j - 1]));
        }
    }
}

/// Puts `path` into the sorted `paths`, behind the paths that are not
/// greater, and says where it went.
pub(crate) fn insert_sorted(paths: &mut Vec<String>, path: String) -> (pos: usize)
    requires
        sorted_by(texts(old(paths)@), lex_order()),
    ensures
        is_sorted_position(texts(old(paths)@), path@, pos as int),
        texts(final(paths)@) == texts(old(paths)@).insert(pos as int, path@),
        sorted_by(texts(final(paths)@), lex_order()),
        texts(final(paths)@).to_multiset() == texts(old(paths)@).to_multiset().insert(path@),
        final(paths).len() == old(paths).len() + 1,
{
    let ghost before = texts(paths@);
    let ghost p = path@;
    let mut pos: usize = 0;
    while pos < paths.len() && !str_lt(path.as_str(), paths[pos].as_str())
        invariant
            pos <= paths.len(),
            before == texts(paths@),
            p == path@,
            forall|i: int| 0 <= i < pos ==> lex_le(#[trigger] before[i], p),
        decreases paths.len() - pos,
    {
        pos = pos + 1;
    }
    proof {
        assert forall|i: int| pos <= i < before.len() implies lex_le(p, #[trigger] before[i]) by {
            assert(lex_lt(p, before[pos as int]));
            lemma_lex_lt_asymmetric(p, before[pos as int]);
            if i > pos {
                assert(lex_order()(before[pos as int], before[i]));
                lemma_lex_le_transitive(p, before[pos as int], before[i]);
            }
        }
        lemma_insert_keeps_sorted(before, p, pos as int);
        lemma_insert_to_multiset(before, pos as int, p);
    }
    paths.insert(pos, path);
    proof {
        assert(texts(paths@) =~= before.insert(pos as int, p));
    }
    pos
}

/// The paths in ascending lexicographic order.
pub fn sort_paths(paths: &Vec<String>) -> (r: Vec<String>)
    ensures
        texts(r@) == ascending(texts(paths@)),
        r.len() == paths.len(),
        sorted_by(texts(r@), lex_order()),
        texts(r@).to_multiset() == texts(paths@).to_multiset(),
{
    broadcast use vstd::multiset::group_multiset_axioms;

    let ghost all = texts(paths@);
    let mut out: Vec<String> = Vec::new();
    let mut i: usize = 0;
    proof {
        assert(all.take(0) =~= Seq::<Seq<char>>::empty());
        assert(texts(out@) =~= Seq::<Seq<char>>::empty());
    }
    while i < paths.len()
        invariant
            i <= paths.len(),
            all == texts(paths@),
            out.len() == i,
            sorted_by(texts(out@), lex_order()),
            texts(out@).to_multiset() == all.take(i as int).to_multiset(),
        decreases paths.len() - i,
    {
        proof {
            assert(all.take(i + 1) =~= all.take(i as int).push(paths@[i as int]@));
            all.take(i as int).to_multiset_ensures();
        }
        insert_sorted(&mut out, paths[i].clone());
        i = i + 1;
    }
    proof {
        assert(all.take(i as int) =~= all);
        lemma_lex_order_total();
        all.lemma_sort_by_ensures(lex_order());
        lemma_sorted_unique(texts(out@), ascending(all), lex_order());
    }
    out
}

} // verus!
