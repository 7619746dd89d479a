//! Stable ascending sort of a deck by score.
//!
//! The ordering is specified by `stable_sorted`: each card in turn is
//! inserted into the already-ordered prefix after every card whose score is
//! at most its own, so cards with equal scores keep their relative order.

use vstd::prelude::*;
use crate::cards::{Kanjicard, Vocabcard};

verus! {

/// A card kind that carries a proficiency score.
pub trait Scored: Sized {
    /// The score, for specifications.
    spec fn score_spec(&self) -> u32;

    /// The score.
    fn read_score(&self) -> (r: u32)
        ensures
            r == self.score_spec(),
    ;
}

impl Scored for Kanjicard {
    open spec fn score_spec(&self) -> u32 {
        self.score
    }

    fn read_score(&self) -> (r: u32) {
        self.score
    }
}

impl Scored for Vocabcard {
    open spec fn score_spec(&self) -> u32 {
        self.score
    }

    fn read_score(&self) -> (r: u32) {
        self.score
    }
}

/// `x` placed into `s` directly before the first element whose score
/// exceeds `x`'s (at the end when there is none).
pub open spec fn insert_by_score<T: Scored>(x: T, s: Seq<T>) -> Seq<T>
    decreases s.len(),
{
    if s.len() == 0 {
        seq![x]
    } else if s[0].score_spec() <= x.score_spec() {
        seq![s[0]] + insert_by_score(x, s.drop_first())
    } else {
        seq![x] + s
    }
}

/// The stable ascending-score ordering of `s`.
pub open spec fn stable_sorted<T: Scored>(s: Seq<T>) -> Seq<T>
    decreases s.len(),
{
    if s.len() == 0 {
        Seq::<T>::empty()
    } else {
        insert_by_score(s.last(), stable_sorted(s.drop_last()))
    }
}

/// Scores never decrease from left to right.
pub open spec fn sorted_by_score<T: Scored>(s: Seq<T>) -> bool {
    forall|i: int, j: int| 0 <= i < j < s.len() ==> s[i].score_spec() <= s[j].score_spec()
}

/// Where `p` is the first index of `t` whose score exceeds `x`'s (or
/// `t.len()` when there is none), inserting `x` splits `t` exactly there.
pub proof fn lemma_insert_position<T: Scored>(x: T, t: Seq<T>, p: int)
    requires
        0 <= p <= t.len(),
        forall|q: int| 0 <= q < p ==> t[q].score_spec() <= x.score_spec(),
        p < t.len() ==> t[p].score_spec() > x.score_spec(),
    ensures
        insert_by_score(x, t) == t.take(p) + seq![x] + t.skip(p),
    decreases t.len(),
{
    if t.len() == 0 {
        assert(insert_by_score(x, t) =~= t.take(p) + seq![x] + t.skip(p));
    } else if p == 0 {
        assert(insert_by_score(x, t) == seq![x] + t);
        assert(seq![x] + t =~= t.take(0) + seq![x] + t.skip(0));
    } else {
        lemma_insert_position(x, t.drop_first(), p - 1);
        assert(insert_by_score(x, t) == seq![t[0]] + insert_by_score(x, t.drop_first()));
        assert(seq![t[0]] + (t.drop_first().take(p - 1) + seq![x] + t.drop_first().skip(p - 1))
            =~= t.take(p) + seq![x] + t.skip(p));
    }
}

/// Every element of `insert_by_score(x, t)` is `x` or an element of `t`.
proof fn lemma_insert_elements<T: Scored>(x: T, t: Seq<T>, k: int)
    requires
        0 <= k < insert_by_score(x, t).len(),
    ensures
        insert_by_score(x, t)[k] == x || t.contains(insert_by_score(x, t)[k]),
    decreases t.len(),
{
    if t.len() == 0 {
    } else if t[0].score_spec() <= x.score_spec() {
        if k == 0 {
            assert(t.contains(t[0]));
        } else {
            lemma_insert_elements(x, t.drop_first(), k - 1);
            let e = insert_by_score(x, t.drop_first())[k - 1];
            if t.drop_first().contains(e) {
                let j = choose|j: int|
                    0 <= j < t.drop_first().len() && t.drop_first()[j] == e;
                assert(t[j + 1] == e);
                assert(t.contains(e));
            }
        }
    } else {
        if k > 0 {
            assert(t.contains(t[k - 1]));
        }
    }
}

/// Inserting into an ordered deck keeps it ordered.
pub proof fn lemma_insert_keeps_sorted<T: Scored>(x: T, t: Seq<T>)
    requires
        sorted_by_score(t),
    ensures
        sorted_by_score(insert_by_score(x, t)),
    decreases t.len(),
{
    let r = insert_by_score(x, t);
    if t.len() == 0 {
    } else if t[0].score_spec() <= x.score_spec() {
        assert(sorted_by_score(t.drop_first()));
        lemma_insert_keeps_sorted(x, t.drop_first());
        let inner = insert_by_score(x, t.drop_first());
        assert forall|j: int| #![trigger r[j]] 1 <= j < r.len() implies r[0].score_spec()
            <= r[j].score_spec() by {
            lemma_insert_elements(x, t.drop_first(), j - 1);
            let e = inner[j - 1];
            if e == x {
                assert(t[0].score_spec() <= x.score_spec());
            } else {
                let q = choose|q: int|
                    0 <= q < t.drop_first().len() && t.drop_first()[q] == e;
                assert(t[0].score_spec() <= t[q + 1].score_spec());
            }
        };
        assert forall|i: int, j: int| #![trigger r[i], r[j]] 0 <= i < j < r.len() implies r[
            i
        ].score_spec() <= r[j].score_spec() by {
            if i >= 1 {
                assert(inner[i - 1].score_spec() <= inner[j - 1].score_spec());
            }
        };
    } else {
        assert forall|i: int, j: int| #![trigger r[i], r[j]] 0 <= i < j < r.len() implies r[
            i
        ].score_spec() <= r[j].score_spec() by {
            if i == 0 {
                assert(x.score_spec() < t[0].score_spec());
                assert(r[j] == t[j - 1]);
                assert(t[0].score_spec() <= t[j - 1].score_spec());
            }
        };
    }
}

/// A stably sorted deck is in non-decreasing score order.
pub proof fn lemma_stable_sorted_is_sorted<T: Scored>(s: Seq<T>)
    ensures
        sorted_by_score(stable_sorted(s)),
    decreases s.len(),
{
    if s.len() > 0 {
        lemma_stable_sorted_is_sorted(s.drop_last());
        lemma_insert_keeps_sorted(s.last(), stable_sorted(s.drop_last()));
    }
}

/// Inserting into an ordered deck puts the new card after every present
/// card of its own score and changes no other card's relative position:
/// for each score the subsequence of matching cards gains at most the new
/// card, at its end.
pub proof fn lemma_insert_filter<T: Scored>(x: T, t: Seq<T>, v: u32)
    requires
        sorted_by_score(t),
    ensures
        insert_by_score(x, t).filter(|c: T| c.score_spec() == v) == if x.score_spec() == v {
            t.filter(|c: T| c.score_spec() == v).push(x)
        } else {
            t.filter(|c: T| c.score_spec() == v)
        },
    decreases t.len(),
{
    reveal(Seq::filter);
    let pred = |c: T| c.score_spec() == v;
    broadcast use vstd::seq_lib::group_seq_properties;

    if t.len() == 0 {
        assert(insert_by_score(x, t) =~= Seq::<T>::empty().push(x));
        assert(Seq::<T>::empty().push(x).drop_last() =~= Seq::<T>::empty());
        if x.score_spec() == v {
            assert(insert_by_score(x, t).filter(pred) =~= t.filter(pred).push(x));
        } else {
            assert(insert_by_score(x, t).filter(pred) =~= t.filter(pred));
        }
    } else if t[0].score_spec() <= x.score_spec() {
        assert(sorted_by_score(t.drop_first()));
        lemma_insert_filter(x, t.drop_first(), v);
        let inner = insert_by_score(x, t.drop_first());
        assert(insert_by_score(x, t) == seq![t[0]] + inner);
        Seq::filter_distributes_over_add(seq![t[0]], inner, pred);
        assert(t =~= seq![t[0]] + t.drop_first());
        Seq::filter_distributes_over_add(seq![t[0]], t.drop_first(), pred);
        if x.score_spec() == v {
            assert(seq![t[0]].filter(pred) + t.drop_first().filter(pred).push(x)
                =~= (seq![t[0]].filter(pred) + t.drop_first().filter(pred)).push(x));
        }
    } else {
        assert(insert_by_score(x, t) == seq![x] + t);
        Seq::filter_distributes_over_add(seq![x], t, pred);
        if x.score_spec() == v {
            // every card of t scores above x's score, so none matches v
            assert forall|i: int| 0 <= i < t.len() implies !pred(t[i]) by {
                assert(t[i].score_spec() >= t[0].score_spec()) by {
                    if i > 0 {
                        assert(t[0].score_spec() <= t[i].score_spec());
                    }
                };
            };
            lemma_filter_of_none(t, pred);
            assert(seq![x].filter(pred) =~= Seq::<T>::empty().push(x));
            assert(seq![x].filter(pred) + t.filter(pred) =~= t.filter(pred).push(x));
        } else {
            lemma_filter_of_none(seq![x], pred);
            assert(seq![x].filter(pred) + t.filter(pred) =~= t.filter(pred));
        }
    }
}

/// A sequence none of whose elements satisfies `pred` filters to empty.
proof fn lemma_filter_of_none<T>(s: Seq<T>, pred: spec_fn(T) -> bool)
    requires
        forall|i: int| 0 <= i < s.len() ==> !pred(s[i]),
    ensures
        s.filter(pred) == Seq::<T>::empty(),
    decreases s.len(),
{
    reveal(Seq::filter);
    if s.len() > 0 {
        lemma_filter_of_none(s.drop_last(), pred);
    }
}

/// Stability: for every score, the cards of that score stand in the sorted
/// deck exactly as they stood in the original.
pub proof fn lemma_stable_sorted_is_stable<T: Scored>(s: Seq<T>, v: u32)
    ensures
        stable_sorted(s).filter(|c: T| c.score_spec() == v) == s.filter(
            |c: T| c.score_spec() == v,
        ),
    decreases s.len(),
{
    reveal(Seq::filter);
    let pred = |c: T| c.score_spec() == v;
    if s.len() > 0 {
        lemma_stable_sorted_is_stable(s.drop_last(), v);
        lemma_stable_sorted_is_sorted(s.drop_last());
        lemma_insert_filter(s.last(), stable_sorted(s.drop_last()), v);
    }
}

/// Reorders `v` into the stable ascending-score order.
pub fn sort_cards<T: Scored>(v: &mut Vec<T>)
    ensures
        final(v)@ == stable_sorted(old(v)@),
{
    let ghost orig = v@;
    let mut out: Vec<T> = Vec::new();
    while v.len() > 0
        invariant
            v@.len() <= orig.len(),
            v@ == orig.skip(orig.len() - v@.len()),
            out@ == stable_sorted(orig.take(orig.len() - v@.len())),
        decreases v@.len(),
    {
        let ghost k = orig.len() - v@.len();
        let x = v.remove(0);
        proof {
            assert(x == orig[k]);
            assert(v@ =~= orig.skip(k + 1));
        }
        let xs = x.read_score();
        let mut p: usize = 0;
        while p < out.len() && out[p].read_score() <= xs
            invariant
                p <= out.len(),
                xs == x.score_spec(),
                forall|q: int| 0 <= q < p ==> out@[q].score_spec() <= x.score_spec(),
            decreases out.len() - p,
        {
            p = p + 1;
        }
        proof {
            lemma_insert_position(x, out@, p as int);
            assert(orig.take(k + 1).drop_last() =~= orig.take(k));
            assert(orig.take(k + 1).last() == orig[k]);
        }
        out.insert(p, x);
        proof {
            assert(out@ =~= stable_sorted(orig.take(k + 1)));
        }
    }
    proof {
        assert(orig.take(orig.len() as int) =~= orig);
    }
    *v = out;
}

} // verus!
