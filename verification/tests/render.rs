use sherlog::{decorate, Pattern, Span, SpanKind, SpanRef, TextLineRef};

fn parts(spans: &[SpanRef<'_>]) -> Vec<(String, SpanKind)> {
    spans
        .iter()
        .map(|s| (String::from_utf8(s.content.to_vec()).unwrap(), s.kind))
        .collect()
}

#[test]
fn no_highlight_gives_one_raw_span() {
    let spans = decorate(b"hello world", None);
    assert_eq!(
        parts(&spans),
        vec![(String::from("hello world"), SpanKind::Raw)]
    );
}

#[test]
fn highlight_alternates_raw_and_highlight() {
    let p = Pattern::new("foo").unwrap();
    let spans = decorate(b"foo bar foo baz", Some(&p));
    assert_eq!(
        parts(&spans),
        vec![
            (String::from("foo"), SpanKind::Highlight),
            (String::from(" bar "), SpanKind::Raw),
            (String::from("foo"), SpanKind::Highlight),
            (String::from(" baz"), SpanKind::Raw),
        ]
    );
}

#[test]
fn adjacent_matches_emit_no_empty_gap() {
    let p = Pattern::new("o").unwrap();
    let spans = decorate(b"oo", Some(&p));
    assert_eq!(
        parts(&spans),
        vec![
            (String::from("o"), SpanKind::Highlight),
            (String::from("o"), SpanKind::Highlight),
        ]
    );
}

#[test]
fn trailing_raw_span_is_omitted_when_empty() {
    let p = Pattern::new("end").unwrap();
    let spans = decorate(b"the end", Some(&p));
    assert_eq!(
        parts(&spans),
        vec![
            (String::from("the "), SpanKind::Raw),
            (String::from("end"), SpanKind::Highlight),
        ]
    );
}

#[test]
fn spans_concatenate_back_to_the_line() {
    let line = b"one two one two one";
    for pat in ["one", "two", "e", "xyz", "o.e"] {
        let p = Pattern::new(pat).unwrap();
        let spans = decorate(line, Some(&p));
        let mut joined: Vec<u8> = Vec::new();
        for s in &spans {
            joined.extend_from_slice(s.content);
        }
        assert_eq!(joined, line.to_vec());
    }
}

#[test]
fn unmatched_pattern_gives_one_raw_span() {
    let p = Pattern::new("zzz").unwrap();
    let spans = decorate(b"hello", Some(&p));
    assert_eq!(parts(&spans), vec![(String::from("hello"), SpanKind::Raw)]);
}

#[test]
fn span_constructors_and_copies() {
    let raw = SpanRef::raw(b"abc");
    assert!(matches!(raw.kind, SpanKind::Raw));
    assert_eq!(raw.content, b"abc");

    let hl = SpanRef::highlight(b"xyz");
    assert!(matches!(hl.kind, SpanKind::Highlight));

    let owned: Span = hl.to_span();
    assert!(matches!(owned.kind, SpanKind::Highlight));
    assert_eq!(owned.content, b"xyz".to_vec());
}

#[test]
fn remove_left_cuts_the_prefix() {
    let span = Span {
        content: b"scrolled".to_vec(),
        kind: SpanKind::Raw,
    };
    let rest = span.remove_left(3);
    assert_eq!(rest.content, b"olled");
    assert!(matches!(rest.kind, SpanKind::Raw));
    let all = span.remove_left(0);
    assert_eq!(all.content, b"scrolled");
    let none = span.remove_left(8);
    assert_eq!(none.content, b"");
}

#[test]
fn text_line_round_trip() {
    let line = TextLineRef::raw(7, b"content");
    assert_eq!(line.line_num, 7);
    assert_eq!(line.spans.len(), 1);
    assert_eq!(line.content_bytes(), b"content".to_vec());

    let owned = line.to_text_line();
    assert_eq!(owned.line_num, 7);
    assert_eq!(owned.content_bytes(), b"content".to_vec());
}
