//! Properties of the engine, stated and proved over its model.
//!
//! The mutators' contracts pin the engine's model after each call; the
//! lemmas here state what follows for the derived filtered index and for the
//! retrieval windows, for every model.

use crate::engine::{
    filtered_index, ge_pred, le_pred, lemma_filtered_upto_props, ordinal_passes, sorted_strict,
    window_fwd, window_rev, with_rules, EngineModel,
};
use crate::pattern::RuleModel;
use vstd::prelude::*;

verus! {

/// Filtering is idempotent: rebuilding with the same rule set twice leaves
/// the same filtered index as rebuilding once, because the index is a
/// function of the line store and the rule set alone.
pub proof fn lemma_filter_idempotent(m: EngineModel, rules: Seq<RuleModel>)
    ensures
        filtered_index(with_rules(with_rules(m, rules), rules)) == filtered_index(
            with_rules(m, rules),
        ),
{
    assert(with_rules(with_rules(m, rules), rules) == with_rules(m, rules));
}

/// Filter correctness: an ordinal is in the filtered index iff it is in
/// range and its line passes every active rule (negation inverted, inactive
/// rules ignored).
pub proof fn lemma_filter_correct(m: EngineModel, o: usize)
    requires
        m.lines.len() <= usize::MAX,
    ensures
        filtered_index(m).contains(o) <==> ordinal_passes(m, o as int),
{
    lemma_filtered_upto_props(m.lines, m.rules, m.lines.len() as int);
    let f = filtered_index(m);
    if f.contains(o) {
        let i = choose|i: int| 0 <= i < f.len() && f[i] == o;
        assert(((f[i]) as int) < m.lines.len());
    }
}

proof fn lemma_filter_sorted_subset(s: Seq<usize>, pred: spec_fn(usize) -> bool)
    requires
        sorted_strict(s),
    ensures
        sorted_strict(s.filter(pred)),
        forall|x: usize| #[trigger] s.filter(pred).contains(x) ==> s.contains(x),
    decreases s.len(),
{
    reveal(Seq::filter);
    if s.len() == 0 {
    } else {
        let sub = s.drop_last();
        assert forall|i: int, j: int| 0 <= i < j < sub.len() implies sub[i] < sub[j] by {
            assert(sub[i] == s[i] && sub[j] == s[j]);
        }
        lemma_filter_sorted_subset(sub, pred);
        let fsub = sub.filter(pred);
        assert forall|x: usize| #[trigger] s.filter(pred).contains(x) implies s.contains(x) by {
            let i = choose|i: int| 0 <= i < s.filter(pred).len() && s.filter(pred)[i] == x;
            if pred(s.last()) {
                if i < fsub.len() {
                    assert(fsub.contains(x));
                    assert(sub.contains(x));
                    let j = choose|j: int| 0 <= j < sub.len() && sub[j] == x;
                    assert(s[j] == x);
                } else {
                    assert(x == s.last());
                    assert(s[s.len() - 1] == x);
                }
            } else {
                assert(fsub.contains(x));
                assert(sub.contains(x));
                let j = choose|j: int| 0 <= j < sub.len() && sub[j] == x;
                assert(s[j] == x);
            }
        }
        if pred(s.last()) {
            assert(s.filter(pred) =~= fsub.push(s.last()));
            assert forall|i: int, j: int| 0 <= i < j < s.filter(pred).len() implies s.filter(
                pred,
            )[i] < s.filter(pred)[j] by {
                if j < s.filter(pred).len() - 1 {
                    assert(fsub[i] < fsub[j]);
                } else {
                    assert(fsub.contains(fsub[i]));
                    assert(sub.contains(fsub[i]));
                    let idx = choose|idx: int| 0 <= idx < sub.len() && sub[idx] == fsub[i];
                    assert(s[idx] < s[s.len() - 1]);
                }
            }
        }
    }
}

/// Window order: over a strictly ascending filtered index, both windows
/// return their ordinals in strictly ascending order, for every starting
/// point and every count.
pub proof fn lemma_window_ascending(
    f: Seq<usize>,
    first: usize,
    last: usize,
    cnt: Option<usize>,
)
    requires
        sorted_strict(f),
    ensures
        sorted_strict(window_fwd(f, first, cnt)),
        sorted_strict(window_rev(f, last, cnt)),
{
    lemma_filter_sorted_subset(f, ge_pred(first));
    lemma_filter_sorted_subset(f, le_pred(last));
    let tail = f.filter(ge_pred(first));
    let head = f.filter(le_pred(last));
    let w1 = window_fwd(f, first, cnt);
    let w2 = window_rev(f, last, cnt);
    assert forall|i: int, j: int| 0 <= i < j < w1.len() implies w1[i] < w1[j] by {
        assert(w1[i] == tail[i] && w1[j] == tail[j]);
    }
    assert forall|i: int, j: int| 0 <= i < j < w2.len() implies w2[i] < w2[j] by {
        match cnt {
            Some(c) => {
                if (c as int) < head.len() {
                    let off = head.len() - c;
                    assert(w2[i] == head[off + i] && w2[j] == head[off + j]);
                } else {
                    assert(w2[i] == head[i] && w2[j] == head[j]);
                }
            },
            None => {
                assert(w2[i] == head[i] && w2[j] == head[j]);
            },
        }
    }
}

/// Forward window boundary: with a positive (or absent) count, the forward
/// window is empty exactly when every filtered ordinal lies before `first`.
pub proof fn lemma_window_fwd_empty(f: Seq<usize>, first: usize, cnt: Option<usize>)
    requires
        cnt matches Some(c) ==> c > 0,
    ensures
        window_fwd(f, first, cnt).len() == 0 <==> forall|j: int| 0 <= j < f.len() ==> f[j] < first,
{
    let tail = f.filter(ge_pred(first));
    if forall|j: int| 0 <= j < f.len() ==> f[j] < first {
        assert forall|j: int| 0 <= j < f.len() implies !ge_pred(first)(#[trigger] f[j]) by {
            assert(f[j] < first);
        }
        crate::engine::lemma_filter_all_false(f, ge_pred(first));
    } else {
        let j = choose|j: int| 0 <= j < f.len() && f[j] >= first;
        assert(ge_pred(first)(f[j]));
        f.lemma_filter_contains(ge_pred(first), j);
        assert(tail.len() > 0);
    }
}

/// Backward window boundary: with a positive (or absent) count, the backward
/// window is empty exactly when every filtered ordinal lies after `last`.
pub proof fn lemma_window_rev_empty(f: Seq<usize>, last: usize, cnt: Option<usize>)
    requires
        cnt matches Some(c) ==> c > 0,
    ensures
        window_rev(f, last, cnt).len() == 0 <==> forall|j: int| 0 <= j < f.len() ==> f[j] > last,
{
    let head = f.filter(le_pred(last));
    if forall|j: int| 0 <= j < f.len() ==> f[j] > last {
        assert forall|j: int| 0 <= j < f.len() implies !le_pred(last)(#[trigger] f[j]) by {
            assert(f[j] > last);
        }
        crate::engine::lemma_filter_all_false(f, le_pred(last));
    } else {
        let j = choose|j: int| 0 <= j < f.len() && f[j] <= last;
        assert(le_pred(last)(f[j]));
        f.lemma_filter_contains(le_pred(last), j);
        assert(head.len() > 0);
    }
}

/// Out-of-range boundary: a forward query from at or past the line count
/// yields an empty window, whatever the rules.
pub proof fn lemma_window_fwd_out_of_range(m: EngineModel, first: usize, cnt: Option<usize>)
    requires
        m.lines.len() <= usize::MAX,
        first >= m.lines.len(),
        cnt matches Some(c) ==> c > 0,
    ensures
        window_fwd(filtered_index(m), first, cnt).len() == 0,
{
    lemma_filtered_upto_props(m.lines, m.rules, m.lines.len() as int);
    let f = filtered_index(m);
    assert forall|j: int| 0 <= j < f.len() implies f[j] < first by {
        assert(((f[j]) as int) < m.lines.len());
    }
    lemma_window_fwd_empty(f, first, cnt);
}

} // verus!
