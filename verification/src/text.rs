//! One rendered line: its ordinal and its spans.

use crate::span::{spans_content, Span, SpanModel, SpanRef};
use vstd::prelude::*;

verus! {

/// The model of one rendered line: its ordinal and its spans.
pub ghost struct TextLineModel {
    pub line_num: usize,
    pub spans: Seq<SpanModel>,
}

/// A rendered line that owns its spans' contents.
#[derive(Clone, Debug)]
pub struct TextLine {
    pub line_num: usize,
    pub spans: Vec<Span>,
}

impl View for TextLine {
    type V = TextLineModel;

    open spec fn view(&self) -> TextLineModel {
        TextLineModel { line_num: self.line_num, spans: self.spans.deep_view() }
    }
}

impl DeepView for TextLine {
    type V = TextLineModel;

    open spec fn deep_view(&self) -> TextLineModel {
        self@
    }
}

/// A rendered line whose spans borrow from the stored raw line.
#[derive(Clone, Debug)]
pub struct TextLineRef<'a> {
    pub line_num: usize,
    pub spans: Vec<SpanRef<'a>>,
}

impl<'a> View for TextLineRef<'a> {
    type V = TextLineModel;

    open spec fn view(&self) -> TextLineModel {
        TextLineModel { line_num: self.line_num, spans: self.spans.deep_view() }
    }
}

impl<'a> DeepView for TextLineRef<'a> {
    type V = TextLineModel;

    open spec fn deep_view(&self) -> TextLineModel {
        self@
    }
}

impl<'a> TextLineRef<'a> {
    /// A line made of one raw span holding all of `text`.
    pub fn raw(line_num: usize, text: &'a [u8]) -> (r: TextLineRef<'a>)
        ensures
            r@.line_num == line_num,
            r@.spans == seq![
                SpanModel { content: text@, kind: crate::span::SpanKind::Raw },
            ],
    {
        let mut spans: Vec<SpanRef<'a>> = Vec::new();
        spans.push(SpanRef::raw(text));
        proof {
            assert(spans.deep_view() =~= seq![
                SpanModel { content: text@, kind: crate::span::SpanKind::Raw },
            ]);
        }
        TextLineRef { line_num, spans }
    }

    /// An owning copy of this line.
    pub fn to_text_line(&self) -> (r: TextLine)
        ensures
            r@ == self@,
    {
        let mut spans: Vec<Span> = Vec::new();
        let n = self.spans.len();
        let mut i: usize = 0;
        while i < n
            invariant
                n == self.spans@.len(),
                0 <= i <= n,
                spans.deep_view() =~= self.spans.deep_view().take(i as int),
            decreases n - i,
        {
            let s = self.spans[i].to_span();
            proof {
                assert(spans.deep_view().push(s@) =~= self.spans.deep_view().take(i + 1));
            }
            spans.push(s);
            i = i + 1;
        }
        proof {
            assert(self.spans.deep_view().take(n as int) =~= self.spans.deep_view());
        }
        TextLine { line_num: self.line_num, spans }
    }

    /// The raw bytes of the line: its spans' contents, concatenated.
    pub fn content_bytes(&self) -> (r: Vec<u8>)
        ensures
            r@ == spans_content(self@.spans),
    {
        concat_spans_refs(&self.spans)
    }
}

impl TextLine {
    /// The raw bytes of the line: its spans' contents, concatenated.
    pub fn content_bytes(&self) -> (r: Vec<u8>)
        ensures
            r@ == spans_content(self@.spans),
    {
        let mut out: Vec<u8> = Vec::new();
        let n = self.spans.len();
        let mut i: usize = 0;
        proof {
            assert(self.spans.deep_view().skip(0) =~= self.spans.deep_view());
            assert(out@ + spans_content(self.spans.deep_view()) =~= spans_content(
                self.spans.deep_view(),
            ));
        }
        while i < n
            invariant
                n == self.spans@.len(),
                0 <= i <= n,
                out@ + spans_content(self.spans.deep_view().skip(i as int)) == spans_content(
                    self.spans.deep_view(),
                ),
            decreases n - i,
        {
            proof {
                let tail = self.spans.deep_view().skip(i as int);
                assert(tail[0] == self.spans.deep_view()[i as int]);
                assert(tail.drop_first() =~= self.spans.deep_view().skip(i + 1));
                assert(out@ + tail[0].content + spans_content(self.spans.deep_view().skip(i + 1))
                    =~= out@ + spans_content(tail));
            }
            out.extend_from_slice(self.spans[i].content.as_slice());
            i = i + 1;
        }
        proof {
            assert(self.spans.deep_view().skip(n as int) =~= Seq::<SpanModel>::empty());
            assert(out@ + Seq::<u8>::empty() =~= out@);
        }
        out
    }
}

fn concat_spans_refs(spans: &Vec<SpanRef<'_>>) -> (r: Vec<u8>)
    ensures
        r@ == spans_content(spans.deep_view()),
{
    let mut out: Vec<u8> = Vec::new();
    let n = spans.len();
    let mut i: usize = 0;
    proof {
        assert(spans.deep_view().skip(0) =~= spans.deep_view());
        assert(out@ + spans_content(spans.deep_view()) =~= spans_content(spans.deep_view()));
    }
    while i < n
        invariant
            n == spans@.len(),
            0 <= i <= n,
            out@ + spans_content(spans.deep_view().skip(i as int)) == spans_content(
                spans.deep_view(),
            ),
        decreases n - i,
    {
        proof {
            let tail = spans.deep_view().skip(i as int);
            assert(tail[0] == spans.deep_view()[i as int]);
            assert(tail.drop_first() =~= spans.deep_view().skip(i + 1));
            assert(out@ + tail[0].content + spans_content(spans.deep_view().skip(i + 1)) =~= out@
                + spans_content(tail));
        }
        out.extend_from_slice(spans[i].content);
        i = i + 1;
    }
    proof {
        assert(spans.deep_view().skip(n as int) =~= Seq::<SpanModel>::empty());
        assert(out@ + Seq::<u8>::empty() =~= out@);
    }
    out
}

} // verus!
