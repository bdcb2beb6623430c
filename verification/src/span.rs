//! Decomposing one line into plain and highlighted spans.
//!
//! [`decorate`] splits a line around the matches of a highlight pattern into
//! an alternating sequence of raw and highlighted spans. The spans partition
//! the line: concatenating their contents gives the line back exactly.

use crate::pattern::{ranges_ordered, regex_match_ranges, Pattern};
use vstd::prelude::*;
use vstd::slice::{slice_subrange, slice_to_vec};

verus! {

/// Whether a span is plain text or part of a highlighted match.
#[derive(Clone, Copy, Debug, PartialEq, Eq, Structural)]
pub enum SpanKind {
    Raw,
    Highlight,
}

/// The model of one span: its bytes and its kind.
pub ghost struct SpanModel {
    pub content: Seq<u8>,
    pub kind: SpanKind,
}

/// A span that owns its content.
#[derive(Clone, Debug)]
pub struct Span {
    pub content: Vec<u8>,
    pub kind: SpanKind,
}

impl View for Span {
    type V = SpanModel;

    open spec fn view(&self) -> SpanModel {
        SpanModel { content: self.content@, kind: self.kind }
    }
}

impl DeepView for Span {
    type V = SpanModel;

    open spec fn deep_view(&self) -> SpanModel {
        self@
    }
}

/// A span that borrows its content from the line it was cut from.
#[derive(Clone, Debug)]
pub struct SpanRef<'a> {
    pub content: &'a [u8],
    pub kind: SpanKind,
}

impl<'a> View for SpanRef<'a> {
    type V = SpanModel;

    open spec fn view(&self) -> SpanModel {
        SpanModel { content: self.content@, kind: self.kind }
    }
}

impl<'a> DeepView for SpanRef<'a> {
    type V = SpanModel;

    open spec fn deep_view(&self) -> SpanModel {
        self@
    }
}

impl<'a> SpanRef<'a> {
    /// A plain span holding `content`.
    pub fn raw(content: &'a [u8]) -> (r: SpanRef<'a>)
        ensures
            r@ == (SpanModel { content: content@, kind: SpanKind::Raw }),
    {
        SpanRef { content, kind: SpanKind::Raw }
    }

    /// A highlighted span holding `content`.
    pub fn highlight(content: &'a [u8]) -> (r: SpanRef<'a>)
        ensures
            r@ == (SpanModel { content: content@, kind: SpanKind::Highlight }),
    {
        SpanRef { content, kind: SpanKind::Highlight }
    }

    /// An owning copy of this span.
    pub fn to_span(&self) -> (r: Span)
        ensures
            r@ == self@,
    {
        Span { content: slice_to_vec(self.content), kind: self.kind }
    }
}

impl Span {
    /// The span with its first `n` bytes cut off.
    pub fn remove_left(&self, n: usize) -> (r: SpanRef<'_>)
        requires
            n <= self.content@.len(),
        ensures
            r@.content == self@.content.skip(n as int),
            r@.kind == self@.kind,
    {
        let r = SpanRef {
            content: slice_subrange(self.content.as_slice(), n, self.content.len()),
            kind: self.kind,
        };
        proof {
            assert(self.content@.subrange(n as int, self.content@.len() as int) =~= self.content@
                .skip(n as int));
        }
        r
    }
}

/// The spans that decompose `line` from position `pos` on, around the match
/// ranges: a raw span for each non-empty gap before a match, a highlighted
/// span for each match, and a raw span for a non-empty remainder after the
/// last match. Empty gaps and an empty remainder produce no span.
pub open spec fn spans_from(line: Seq<u8>, ranges: Seq<(usize, usize)>, pos: int) -> Seq<SpanModel>
    decreases ranges.len(),
{
    if ranges.len() == 0 {
        if pos == line.len() {
            Seq::empty()
        } else {
            seq![SpanModel { content: line.subrange(pos, line.len() as int), kind: SpanKind::Raw }]
        }
    } else {
        let s = ranges[0].0 as int;
        let e = ranges[0].1 as int;
        let gap: Seq<SpanModel> = if pos == s {
            Seq::empty()
        } else {
            seq![SpanModel { content: line.subrange(pos, s), kind: SpanKind::Raw }]
        };
        gap + seq![SpanModel { content: line.subrange(s, e), kind: SpanKind::Highlight }]
            + spans_from(line, ranges.drop_first(), e)
    }
}

/// The concatenation of the spans' contents.
pub open spec fn spans_content(spans: Seq<SpanModel>) -> Seq<u8>
    decreases spans.len(),
{
    if spans.len() == 0 {
        Seq::empty()
    } else {
        spans[0].content + spans_content(spans.drop_first())
    }
}

/// Match ranges usable for decomposing `line` from `pos` on: ordered within
/// the line, the first one no earlier than `pos`.
pub open spec fn ranges_from(ranges: Seq<(usize, usize)>, pos: int, n: nat) -> bool {
    &&& ranges_ordered(ranges, n)
    &&& 0 <= pos <= n
    &&& ranges.len() > 0 ==> pos <= ranges[0].0
}

proof fn lemma_spans_content_one(m: SpanModel)
    ensures
        spans_content(seq![m]) == m.content,
{
    assert(seq![m].drop_first() =~= Seq::<SpanModel>::empty());
    assert(spans_content(seq![m]) =~= m.content + spans_content(Seq::<SpanModel>::empty()));
    assert(m.content + Seq::<u8>::empty() =~= m.content);
}

proof fn lemma_spans_content_add(a: Seq<SpanModel>, b: Seq<SpanModel>)
    ensures
        spans_content(a + b) == spans_content(a) + spans_content(b),
    decreases a.len(),
{
    if a.len() == 0 {
        assert(a + b =~= b);
        assert(spans_content(a) + spans_content(b) =~= spans_content(b));
    } else {
        assert((a + b).drop_first() =~= a.drop_first() + b);
        lemma_spans_content_add(a.drop_first(), b);
        assert(spans_content(a + b) =~= spans_content(a) + spans_content(b));
    }
}

/// Round trip of the decomposition: the spans' contents concatenate back to
/// exactly the part of the line they were cut from.
pub proof fn lemma_spans_reconstruct(line: Seq<u8>, ranges: Seq<(usize, usize)>, pos: int)
    requires
        ranges_from(ranges, pos, line.len()),
    ensures
        spans_content(spans_from(line, ranges, pos)) == line.subrange(pos, line.len() as int),
    decreases ranges.len(),
{
    if ranges.len() == 0 {
        if pos == line.len() {
            assert(line.subrange(pos, line.len() as int) =~= Seq::<u8>::empty());
        } else {
            lemma_spans_content_one(
                SpanModel { content: line.subrange(pos, line.len() as int), kind: SpanKind::Raw },
            );
        }
    } else {
        let s = ranges[0].0 as int;
        let e = ranges[0].1 as int;
        let rest = ranges.drop_first();
        assert(ranges[0].0 <= ranges[0].1 <= line.len());
        assert forall|k: int| 0 <= k < rest.len() implies #[trigger] rest[k].0 <= rest[k].1
            <= line.len() by {
            assert(rest[k] == ranges[k + 1]);
        }
        assert forall|k: int| 0 <= k < rest.len() - 1 implies #[trigger] rest[k].1 <= rest[k
            + 1].0 by {
            assert(rest[k] == ranges[k + 1]);
            assert(rest[k + 1] == ranges[k + 2]);
        }
        if rest.len() > 0 {
            assert(rest[0] == ranges[1]);
            assert(ranges[0].1 <= ranges[1].0);
        }
        lemma_spans_reconstruct(line, rest, e);
        let gap: Seq<SpanModel> = if pos == s {
            Seq::empty()
        } else {
            seq![SpanModel { content: line.subrange(pos, s), kind: SpanKind::Raw }]
        };
        let hl = seq![SpanModel { content: line.subrange(s, e), kind: SpanKind::Highlight }];
        lemma_spans_content_add(gap + hl, spans_from(line, rest, e));
        lemma_spans_content_add(gap, hl);
        if pos != s {
            lemma_spans_content_one(gap[0]);
            assert(gap =~= seq![gap[0]]);
        }
        assert(spans_content(gap) =~= if pos == s {
            Seq::<u8>::empty()
        } else {
            line.subrange(pos, s)
        });
        lemma_spans_content_one(hl[0]);
        assert(hl =~= seq![hl[0]]);
        assert(spans_content(hl) =~= line.subrange(s, e));
        assert((gap + hl) + spans_from(line, rest, e) =~= spans_from(line, ranges, pos));
        assert(spans_content(spans_from(line, ranges, pos)) == spans_content(gap + hl)
            + spans_content(spans_from(line, rest, e)));
        assert(spans_content(gap + hl) == spans_content(gap) + spans_content(hl));
        assert(spans_content(spans_from(line, ranges, pos)) =~= line.subrange(
            pos,
            line.len() as int,
        ));
    }
}

/// Split `line` into spans around the matches of `highlight`: with no
/// pattern, one raw span holding the whole line; with a pattern, the
/// alternating decomposition around its matches. Either way the spans'
/// contents concatenate back to `line`.
pub fn decorate<'a>(line: &'a [u8], highlight: Option<&Pattern>) -> (r: Vec<SpanRef<'a>>)
    ensures
        highlight is None ==> r.deep_view() == seq![
            SpanModel { content: line@, kind: SpanKind::Raw },
        ],
        highlight matches Some(p) ==> r.deep_view() == spans_from(
            line@,
            regex_match_ranges(p@, line@),
            0,
        ),
        spans_content(r.deep_view()) == line@,
{
    match highlight {
        None => {
            let mut spans: Vec<SpanRef<'a>> = Vec::new();
            spans.push(SpanRef::raw(line));
            proof {
                assert(spans.deep_view() =~= seq![
                    SpanModel { content: line@, kind: SpanKind::Raw },
                ]);
                lemma_spans_content_one(SpanModel { content: line@, kind: SpanKind::Raw });
            }
            spans
        },
        Some(p) => {
            let ranges = p.find_ranges(line);
            let ghost all = ranges@;
            let n = line.len();
            let mut spans: Vec<SpanRef<'a>> = Vec::new();
            let mut pos: usize = 0;
            let mut k: usize = 0;
            proof {
                assert(all.skip(0) =~= all);
                assert(spans.deep_view() =~= Seq::<SpanModel>::empty());
                assert(Seq::<SpanModel>::empty() + spans_from(line@, all, 0) =~= spans_from(
                    line@,
                    all,
                    0,
                ));
            }
            while k < ranges.len()
                invariant
                    ranges@ == all,
                    n == line@.len(),
                    ranges_ordered(all, line@.len()),
                    0 <= k <= all.len(),
                    k == 0 ==> pos == 0,
                    k > 0 ==> pos == all[k - 1].1,
                    pos <= n,
                    spans.deep_view() + spans_from(line@, all.skip(k as int), pos as int)
                        == spans_from(line@, all, 0),
                decreases all.len() - k,
            {
                let s = ranges[k].0;
                let e = ranges[k].1;
                proof {
                    assert(all[k as int].0 <= all[k as int].1 <= line@.len());
                    if k > 0 {
                        assert(all[k - 1].1 <= all[k as int].0);
                    }
                }
                let ghost old_spans = spans.deep_view();
                let ghost old_pos = pos as int;
                if pos < s {
                    let gap_span = SpanRef::raw(slice_subrange(line, pos, s));
                    spans.push(gap_span);
                }
                let hl_span = SpanRef::highlight(slice_subrange(line, s, e));
                spans.push(hl_span);
                proof {
                    let tail = all.skip(k as int);
                    assert(tail[0] == all[k as int]);
                    assert(tail.drop_first() =~= all.skip(k + 1));
                    let gap: Seq<SpanModel> = if old_pos == s {
                        Seq::empty()
                    } else {
                        seq![SpanModel { content: line@.subrange(old_pos, s as int), kind: SpanKind::Raw }]
                    };
                    let hl = seq![
                        SpanModel { content: line@.subrange(s as int, e as int), kind: SpanKind::Highlight },
                    ];
                    assert(spans_from(line@, tail, old_pos) =~= gap + hl + spans_from(
                        line@,
                        all.skip(k + 1),
                        e as int,
                    ));
                    assert(spans.deep_view() =~= old_spans + gap + hl);
                    assert(spans.deep_view() + spans_from(line@, all.skip(k + 1), e as int)
                        =~= old_spans + spans_from(line@, tail, old_pos));
                }
                pos = e;
                k = k + 1;
            }
            let ghost old_spans = spans.deep_view();
            proof {
                assert(all.skip(all.len() as int) =~= Seq::<(usize, usize)>::empty());
            }
            if pos < n {
                let tail_span = SpanRef::raw(slice_subrange(line, pos, n));
                spans.push(tail_span);
                proof {
                    assert(spans_from(line@, all.skip(k as int), pos as int) =~= seq![
                        SpanModel {
                            content: line@.subrange(pos as int, line@.len() as int),
                            kind: SpanKind::Raw,
                        },
                    ]);
                    assert(spans.deep_view() =~= old_spans + spans_from(
                        line@,
                        all.skip(k as int),
                        pos as int,
                    ));
                }
            } else {
                proof {
                    assert(spans_from(line@, all.skip(k as int), pos as int) =~= Seq::<
                        SpanModel,
                    >::empty());
                    assert(spans.deep_view() =~= old_spans + spans_from(
                        line@,
                        all.skip(k as int),
                        pos as int,
                    ));
                }
            }
            proof {
                assert(spans.deep_view() == spans_from(line@, all, 0));
                lemma_spans_reconstruct(line@, all, 0);
                assert(line@.subrange(0, line@.len() as int) =~= line@);
            }
            spans
        },
    }
}

} // verus!
