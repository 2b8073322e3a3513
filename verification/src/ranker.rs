//! Bounded selection of the most recent paths: the lexicographically greatest
//! few of everything offered, kept in ascending order.

use crate::sorting::{
    ascending, insert_sorted, is_sorted_position, lemma_insert_keeps_sorted,
    lemma_insert_to_multiset,
};
use crate::text::{lemma_lex_le_transitive, lemma_lex_order_total, lex_le, lex_order, texts};
use vstd::prelude::*;
use vstd::relations::sorted_by;
use vstd::seq_lib::{lemma_multiset_commutative, lemma_sorted_unique};

verus! {

/// How many paths a recency query retains.
pub const RECENT_LIMIT: usize = 10;

/// The greatest `limit` of `paths` in ascending order: the tail of the sorted
/// input, or all of it where it holds no more than `limit`.
pub open spec fn most_recent(paths: Seq<Seq<char>>, limit: nat) -> Seq<Seq<char>> {
    let sorted = ascending(paths);
    if sorted.len() <= limit {
        sorted
    } else {
        sorted.skip(sorted.len() - limit)
    }
}

/// One step of the selection: placing `p` at its sorted position among the
/// retained paths, and dropping the least where that exceeds the limit, gives
/// the selection over the longer history.
proof fn lemma_offer_step(
    seen: Seq<Seq<char>>,
    kept: Seq<Seq<char>>,
    p: Seq<char>,
    pos: int,
    limit: nat,
)
    requires
        limit > 0,
        kept == most_recent(seen, limit),
        is_sorted_position(kept, p, pos),
    ensures
        kept.insert(pos, p).len() <= limit ==> most_recent(seen.push(p), limit) == kept.insert(
            pos,
            p,
        ),
        kept.insert(pos, p).len() > limit ==> most_recent(seen.push(p), limit) == kept.insert(
            pos,
            p,
        ).remove(0),
{
    broadcast use vstd::multiset::group_multiset_axioms;

    lemma_lex_order_total();
    let ord = lex_order();
    let sorted = seen.sort_by(ord);
    seen.lemma_sort_by_ensures(ord);
    seen.to_multiset_ensures();
    sorted.to_multiset_ensures();
    let next = seen.push(p);
    let target = next.sort_by(ord);
    next.lemma_sort_by_ensures(ord);
    next.to_multiset_ensures();
    target.to_multiset_ensures();
    let k1 = kept.insert(pos, p);
    kept.insert_ensures(pos, p);
    lemma_insert_to_multiset(kept, pos, p);
    k1.to_multiset_ensures();
    kept.to_multiset_ensures();
    assert(sorted_by(kept, ord)) by {
        assert forall|i: int, j: int| 0 <= i < j < kept.len() implies #[trigger] ord(
            kept[i],
            kept[j],
        ) by {
            let off = sorted.len() - kept.len();
            assert(ord(sorted[i + off], sorted[j + off]));
        }
    }
    lemma_insert_keeps_sorted(kept, p, pos);
    let d = sorted.take(sorted.len() - kept.len());
    assert(d + kept =~= sorted);
    if k1.len() <= limit {
        assert(kept =~= sorted);
        assert(k1.to_multiset() =~= next.to_multiset());
        lemma_sorted_unique(k1, target, ord);
    } else {
        let e = k1[0];
        let k2 = k1.remove(0);
        let grown = d.push(e);
        let d2 = grown.sort_by(ord);
        grown.lemma_sort_by_ensures(ord);
        grown.to_multiset_ensures();
        d2.to_multiset_ensures();
        d.to_multiset_ensures();
        k2.to_multiset_ensures();
        let whole = d2 + k2;
        lemma_multiset_commutative(d2, k2);
        lemma_multiset_commutative(d, kept);
        assert(k2.to_multiset() =~= k1.to_multiset().remove(e));
        assert(whole.to_multiset() =~= next.to_multiset());
        assert(sorted_by(whole, ord)) by {
            assert forall|i: int, j: int| 0 <= i < j < whole.len() implies #[trigger] ord(
                whole[i],
                whole[j],
            ) by {
                if j < d2.len() {
                    assert(ord(d2[i], d2[j]));
                } else if i >= d2.len() {
                    assert(ord(k1[i - d2.len() + 1], k1[j - d2.len() + 1]));
                } else {
                    let x = d2[i];
                    let jj = j - d2.len() + 1;
                    assert(whole[j] == k1[jj]);
                    assert(d2.contains(x));
                    assert(grown.contains(x));
                    let m = choose|m: int| 0 <= m < grown.len() && grown[m] == x;
                    if m == d.len() {
                        assert(ord(k1[0], k1[jj]));
                    } else {
                        assert(ord(sorted[m], sorted[d.len() as int]));
                        assert(lex_le(x, kept[0]));
                        if jj == pos {
                            assert(lex_le(kept[0], p));
                        } else if jj < pos {
                            assert(ord(kept[0], kept[jj]));
                        } else {
                            if jj - 1 > 0 {
                                assert(ord(kept[0], kept[jj - 1]));
                            }
                        }
                        lemma_lex_le_transitive(x, kept[0], k1[jj]);
                    }
                }
            }
        }
        lemma_sorted_unique(whole, target, ord);
        assert(target.skip(target.len() - limit) =~= k2);
    }
}

/// What the selection retains is the greatest part of its input.
///
/// The selection holds `min(limit, |paths|)` paths in ascending order, each
/// taken from the input, and every occurrence that it leaves out is no greater
/// than any path that it retains.
pub proof fn lemma_most_recent_is_greatest(paths: Seq<Seq<char>>, limit: nat)
    ensures
        most_recent(paths, limit).len() == if paths.len() <= limit {
            paths.len()
        } else {
            limit
        },
        sorted_by(most_recent(paths, limit), lex_order()),
        most_recent(paths, limit).to_multiset().subset_of(paths.to_multiset()),
        paths.len() <= limit ==> most_recent(paths, limit).to_multiset() == paths.to_multiset(),
        forall|x: Seq<char>, i: int|
            0 <= i < most_recent(paths, limit).len() && paths.to_multiset().count(x)
                > most_recent(paths, limit).to_multiset().count(x) ==> #[trigger] lex_le(
                x,
                most_recent(paths, limit)[i],
            ),
{
    broadcast use vstd::multiset::group_multiset_axioms;

    lemma_lex_order_total();
    let ord = lex_order();
    let sorted = paths.sort_by(ord);
    paths.lemma_sort_by_ensures(ord);
    paths.to_multiset_ensures();
    sorted.to_multiset_ensures();
    let r = most_recent(paths, limit);
    let d = sorted.take(sorted.len() - r.len());
    assert(d + r =~= sorted);
    lemma_multiset_commutative(d, r);
    d.to_multiset_ensures();
    r.to_multiset_ensures();
    assert forall|i: int, j: int| 0 <= i < j < r.len() implies #[trigger] ord(r[i], r[j]) by {
        assert(ord(sorted[i + d.len()], sorted[j + d.len()]));
    }
    assert forall|x: Seq<char>, i: int|
        0 <= i < r.len() && paths.to_multiset().count(x) > r.to_multiset().count(
            x,
        ) implies #[trigger] lex_le(x, r[i]) by {
        assert(d.to_multiset().count(x) > 0);
        assert(d.contains(x));
        let m = choose|m: int| 0 <= m < d.len() && d[m] == x;
        assert(ord(sorted[m], sorted[i + d.len()]));
    }
    if paths.len() <= limit {
        assert(r =~= sorted);
    }
}

/// The selection goes by what the input holds and how often, not by the
/// order in which it comes.
pub proof fn lemma_most_recent_ignores_order(
    first: Seq<Seq<char>>,
    second: Seq<Seq<char>>,
    limit: nat,
)
    requires
        first.to_multiset() == second.to_multiset(),
    ensures
        most_recent(first, limit) == most_recent(second, limit),
{
    lemma_lex_order_total();
    first.lemma_sort_by_ensures(lex_order());
    second.lemma_sort_by_ensures(lex_order());
    lemma_sorted_unique(ascending(first), ascending(second), lex_order());
}

/// A running selection of the most recent paths among those offered so far.
pub struct RecencyRanker {
    kept: Vec<String>,
    seen: Ghost<Seq<Seq<char>>>,
}

impl RecencyRanker {
    /// Every path offered so far, in the order of the offers.
    pub closed spec fn seen(&self) -> Seq<Seq<char>> {
        self.seen@
    }

    /// The paths retained at this point, in ascending order.
    pub closed spec fn retained(&self) -> Seq<Seq<char>> {
        texts(self.kept@)
    }

    /// The ranker retains exactly the most recent of what it has seen.
    pub open spec fn wf(&self) -> bool {
        self.retained() == most_recent(self.seen(), RECENT_LIMIT as nat)
    }

    /// A ranker that has seen nothing.
    pub fn new() -> (r: RecencyRanker)
        ensures
            r.wf(),
            r.seen() == Seq::<Seq<char>>::empty(),
            r.retained() == Seq::<Seq<char>>::empty(),
    {
        let r = RecencyRanker { kept: Vec::new(), seen: Ghost(Seq::empty()) };
        proof {
            lemma_lex_order_total();
            let none = Seq::<Seq<char>>::empty();
            none.lemma_sort_by_ensures(lex_order());
            none.to_multiset_ensures();
            none.sort_by(lex_order()).to_multiset_ensures();
            assert(none.sort_by(lex_order()) =~= none);
            assert(texts(r.kept@) =~= none);
        }
        r
    }

    /// Takes one more path into account: it is retained unless ten greater or
    /// equal paths are already held, and then the least of the eleven leaves.
    pub fn offer(&mut self, path: String)
        requires
            old(self).wf(),
        ensures
            final(self).wf(),
            final(self).seen() == old(self).seen().push(path@),
            final(self).retained().len() <= RECENT_LIMIT,
    {
        let ghost kept0 = texts(self.kept@);
        let ghost p = path@;
        proof {
            lemma_most_recent_is_greatest(self.seen@, RECENT_LIMIT as nat);
        }
        let pos = insert_sorted(&mut self.kept, path);
        proof {
            lemma_offer_step(self.seen@, kept0, p, pos as int, RECENT_LIMIT as nat);
        }
        if self.kept.len() > RECENT_LIMIT {
            self.kept.remove(0);
            assert(texts(self.kept@) =~= kept0.insert(pos as int, p).remove(0));
        }
        self.seen = Ghost(self.seen@.push(p));
        proof {
            lemma_most_recent_is_greatest(self.seen@, RECENT_LIMIT as nat);
        }
    }

    /// How many paths are retained.
    pub fn len(&self) -> (n: usize)
        requires
            self.wf(),
        ensures
            n == self.retained().len(),
            n <= RECENT_LIMIT,
            n == if self.seen().len() <= RECENT_LIMIT {
                self.seen().len()
            } else {
                RECENT_LIMIT as nat
            },
    {
        proof {
            lemma_most_recent_is_greatest(self.seen@, RECENT_LIMIT as nat);
        }
        self.kept.len()
    }

    /// Hands out the retained paths, oldest first.
    pub fn into_sorted(self) -> (r: Vec<String>)
        requires
            self.wf(),
        ensures
            texts(r@) == most_recent(self.seen(), RECENT_LIMIT as nat),
            r.len() == if self.seen().len() <= RECENT_LIMIT {
                self.seen().len()
            } else {
                RECENT_LIMIT as nat
            },
            sorted_by(texts(r@), lex_order()),
    {
        proof {
            lemma_most_recent_is_greatest(self.seen@, RECENT_LIMIT as nat);
        }
        self.kept
    }
}

/// The ten most recent of `paths`, oldest first.
pub fn rank_recent(paths: &Vec<String>) -> (r: Vec<String>)
    ensures
        texts(r@) == most_recent(texts(paths@), RECENT_LIMIT as nat),
        r.len() == if paths.len() <= RECENT_LIMIT {
            paths.len()
        } else {
            RECENT_LIMIT
        },
        sorted_by(texts(r@), lex_order()),
{
    let mut ranker = RecencyRanker::new();
    let mut i: usize = 0;
    while i < paths.len()
        invariant
            i <= paths.len(),
            ranker.wf(),
            ranker.seen() == texts(paths@).take(i as int),
        decreases paths.len() - i,
    {
        ranker.offer(paths[i].clone());
        proof {
            assert(texts(paths@).take(i as int).push(paths@[i as int]@) =~= texts(paths@).take(
                i + 1,
            ));
        }
        i = i + 1;
    }
    proof {
        assert(texts(paths@).take(i as int) =~= texts(paths@));
        lemma_most_recent_is_greatest(texts(paths@), RECENT_LIMIT as nat);
    }
    ranker.into_sorted()
}

} // verus!
