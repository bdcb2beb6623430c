//! Splitting raw text into lines.
//!
//! A line terminator is a line feed byte, optionally preceded by a carriage
//! return (which is then not part of the line). A final line without a
//! terminator is kept as-is; a final terminator does not produce an extra
//! empty line.

use vstd::prelude::*;
use vstd::slice::{slice_index_get, slice_subrange, slice_to_vec};

verus! {

/// Line feed byte.
pub open spec fn lf() -> u8 {
    10u8
}

/// Carriage return byte.
pub open spec fn cr() -> u8 {
    13u8
}

/// A line with its terminating carriage return removed, if one is there.
pub open spec fn strip_cr(l: Seq<u8>) -> Seq<u8> {
    if l.len() > 0 && l.last() == cr() {
        l.drop_last()
    } else {
        l
    }
}

/// Index of the first line feed in `t`; `t.len()` if there is none.
pub open spec fn first_lf(t: Seq<u8>) -> int
    decreases t.len(),
{
    if t.len() == 0 {
        0
    } else if t[0] == lf() {
        0
    } else {
        1 + first_lf(t.drop_first())
    }
}

/// The first line feed is wherever a line feed stands with none before it.
pub proof fn lemma_first_lf_at(t: Seq<u8>, k: int)
    requires
        0 <= k < t.len(),
        t[k] == lf(),
        forall|j: int| 0 <= j < k ==> t[j] != lf(),
    ensures
        first_lf(t) == k,
    decreases t.len(),
{
    if k == 0 {
    } else {
        assert forall|j: int| 0 <= j < k - 1 implies t.drop_first()[j] != lf() by {
            assert(t[j + 1] != lf());
        }
        lemma_first_lf_at(t.drop_first(), k - 1);
    }
}

/// A text without any line feed has `first_lf` at its end.
pub proof fn lemma_first_lf_none(t: Seq<u8>)
    requires
        forall|j: int| 0 <= j < t.len() ==> t[j] != lf(),
    ensures
        first_lf(t) == t.len(),
    decreases t.len(),
{
    if t.len() > 0 {
        assert forall|j: int| 0 <= j < t.len() - 1 implies t.drop_first()[j] != lf() by {
            assert(t[j + 1] != lf());
        }
        lemma_first_lf_none(t.drop_first());
    }
}

/// The sequence of lines that `t` splits into.
pub open spec fn split_lines(t: Seq<u8>) -> Seq<Seq<u8>>
    decreases t.len(),
{
    if t.len() == 0 {
        Seq::empty()
    } else {
        let i = first_lf(t);
        if i == t.len() {
            seq![t]
        } else if 0 <= i < t.len() {
            seq![strip_cr(t.take(i))] + split_lines(t.skip(i + 1))
        } else {
            Seq::empty()
        }
    }
}

/// Split `text` into its lines.
pub fn split_into_lines(text: &[u8]) -> (lines: Vec<Vec<u8>>)
    ensures
        lines@.map_values(|l: Vec<u8>| l@) == split_lines(text@),
{
    let n = text.len();
    let mut lines: Vec<Vec<u8>> = Vec::new();
    let mut start: usize = 0;
    let mut i: usize = 0;
    proof {
        assert(text@.skip(0) =~= text@);
        assert(lines@.map_values(|l: Vec<u8>| l@) =~= Seq::<Seq<u8>>::empty());
    }
    while i < n
        invariant
            n == text@.len(),
            0 <= start <= i <= n,
            forall|j: int| start <= j < i ==> text@[j] != lf(),
            split_lines(text@) == lines@.map_values(|l: Vec<u8>| l@) + split_lines(
                text@.skip(start as int),
            ),
        decreases n - i,
    {
        if *slice_index_get(text, i) == 10u8 {
            let end: usize = if i > start && *slice_index_get(text, i - 1) == 13u8 {
                i - 1
            } else {
                i
            };
            let line: Vec<u8> = slice_to_vec(slice_subrange(text, start, end));
            proof {
                let rest = text@.skip(start as int);
                assert forall|j: int| 0 <= j < i - start implies rest[j] != lf() by {
                    assert(rest[j] == text@[start + j]);
                }
                lemma_first_lf_at(rest, i - start);
                assert(rest.take(i - start) =~= text@.subrange(start as int, i as int));
                assert(strip_cr(text@.subrange(start as int, i as int)) =~= line@);
                assert(rest.skip(i - start + 1) =~= text@.skip(i + 1));
                assert(split_lines(rest) == seq![line@] + split_lines(text@.skip(i + 1)));
                assert((lines@.push(line)).map_values(|l: Vec<u8>| l@) =~= lines@.map_values(
                    |l: Vec<u8>| l@,
                ).push(line@));
                assert(lines@.map_values(|l: Vec<u8>| l@) + split_lines(rest)
                    =~= lines@.map_values(|l: Vec<u8>| l@).push(line@) + split_lines(
                    text@.skip(i + 1),
                ));
            }
            lines.push(line);
            start = i + 1;
        }
        i = i + 1;
    }
    if start < n {
        let line: Vec<u8> = slice_to_vec(slice_subrange(text, start, n));
        proof {
            let rest = text@.skip(start as int);
            assert forall|j: int| 0 <= j < rest.len() implies rest[j] != lf() by {
                assert(rest[j] == text@[start + j]);
            }
            lemma_first_lf_none(rest);
            assert(rest =~= text@.subrange(start as int, n as int));
            assert(split_lines(rest) == seq![rest]);
            assert((lines@.push(line)).map_values(|l: Vec<u8>| l@) =~= lines@.map_values(
                |l: Vec<u8>| l@,
            ).push(line@));
            assert(lines@.map_values(|l: Vec<u8>| l@) + split_lines(rest) =~= (lines@.push(
                line,
            )).map_values(|l: Vec<u8>| l@));
        }
        lines.push(line);
    } else {
        proof {
            assert(text@.skip(start as int).len() == 0);
            assert(split_lines(text@.skip(start as int)) == Seq::<Seq<u8>>::empty());
            assert(lines@.map_values(|l: Vec<u8>| l@) + split_lines(text@.skip(start as int))
                =~= lines@.map_values(|l: Vec<u8>| l@));
        }
    }
    lines
}

} // verus!
