use sherlog::{Pattern, RegexFilter, Sherlog, TextLineRef};

fn as_strings(lines: Vec<TextLineRef>) -> Vec<String> {
    lines
        .into_iter()
        .map(|l| String::from_utf8(l.content_bytes()).unwrap())
        .collect()
}

fn filter_of(text: &str) -> RegexFilter {
    RegexFilter::new(Pattern::new(text).unwrap())
}

#[test]
fn can_provide_all_lines() {
    let data = "line1\nline2\nline3\n";
    let sherlog = Sherlog::new(data);
    assert_eq!(
        as_strings(sherlog.get_lines(0, None)),
        vec![
            String::from("line1"),
            String::from("line2"),
            String::from("line3")
        ]
    );
}

#[test]
fn can_scroll_filtered_lines() {
    let data = "line1\nline2a\nline2b\nline3\nline2c\nline3\n";
    let mut sherlog = Sherlog::new(data);
    sherlog.filter(vec![filter_of("line2")]);

    assert_eq!(
        as_strings(sherlog.get_lines(0, None)),
        vec![
            String::from("line2a"),
            String::from("line2b"),
            String::from("line2c"),
        ]
    );

    assert_eq!(
        as_strings(sherlog.get_lines(0, Some(1))),
        vec![String::from("line2a")]
    );

    assert_eq!(
        as_strings(sherlog.get_lines(0, Some(2))),
        vec![String::from("line2a"), String::from("line2b"),]
    );

    assert_eq!(
        as_strings(sherlog.get_lines(0, Some(3))),
        vec![
            String::from("line2a"),
            String::from("line2b"),
            String::from("line2c")
        ]
    );

    assert_eq!(
        as_strings(sherlog.get_lines(2, Some(1))),
        vec![String::from("line2b")]
    );

    assert_eq!(
        as_strings(sherlog.get_lines(2, Some(2))),
        vec![String::from("line2b"), String::from("line2c")]
    );

    assert_eq!(
        as_strings(sherlog.get_lines(2, None)),
        vec![String::from("line2b"), String::from("line2c")]
    );

    assert_eq!(
        as_strings(sherlog.get_lines(4, None)),
        vec![String::from("line2c")]
    );

    assert_eq!(as_strings(sherlog.get_lines(5, None)), Vec::<String>::new());
}

#[test]
fn can_filter() {
    let data = "line1\nline2\nline3\n";
    let mut sherlog = Sherlog::new(data);
    sherlog.filter(vec![filter_of("line2")]);
    assert_eq!(
        as_strings(sherlog.get_lines(0, None)),
        vec![String::from("line2")]
    );
}

#[test]
fn can_search() {
    let data = "line1\nline2\nline3\n";
    let mut sherlog = Sherlog::new(data);
    sherlog.search(Some(Pattern::new("line2").unwrap()));
    assert_eq!(sherlog.next_search_result(0), Some(1));
    assert_eq!(sherlog.next_search_result(1), Some(1));
    assert_eq!(sherlog.next_search_result(2), None);
    assert_eq!(sherlog.next_search_result(3), None);

    assert_eq!(sherlog.prev_search_result(3), Some(1));
    assert_eq!(sherlog.prev_search_result(2), Some(1));
    assert_eq!(sherlog.prev_search_result(1), Some(1));
    assert_eq!(sherlog.prev_search_result(0), None);
}

#[test]
fn can_search_filtered() {
    let data = "line1\nline2\nline3\n";
    let mut sherlog = Sherlog::new(data);
    sherlog.filter(vec![filter_of("line2|3")]);
    sherlog.search(Some(Pattern::new("line").unwrap()));

    assert_eq!(sherlog.next_search_result(0), Some(1));
    assert_eq!(sherlog.next_search_result(1), Some(1));
    assert_eq!(sherlog.next_search_result(2), Some(2));
    assert_eq!(sherlog.next_search_result(3), None);

    assert_eq!(sherlog.prev_search_result(3), Some(2));
    assert_eq!(sherlog.prev_search_result(2), Some(2));
    assert_eq!(sherlog.prev_search_result(1), Some(1));
    assert_eq!(sherlog.prev_search_result(0), None);
}

#[test]
fn backward_windows_are_ascending_and_bounded() {
    let data = "line1\nline2a\nline2b\nline3\nline2c\nline3\n";
    let mut sherlog = Sherlog::new(data);
    sherlog.filter(vec![filter_of("line2")]);

    // Filtered ordinals are 1, 2, 4.
    assert_eq!(
        as_strings(sherlog.get_lines_rev(4, None)),
        vec![
            String::from("line2a"),
            String::from("line2b"),
            String::from("line2c"),
        ]
    );
    assert_eq!(
        as_strings(sherlog.get_lines_rev(4, Some(2))),
        vec![String::from("line2b"), String::from("line2c")]
    );
    assert_eq!(
        as_strings(sherlog.get_lines_rev(3, Some(2))),
        vec![String::from("line2a"), String::from("line2b")]
    );
    // `last` before the first filtered ordinal: empty window.
    assert_eq!(
        as_strings(sherlog.get_lines_rev(0, None)),
        Vec::<String>::new()
    );
    let lines = sherlog.get_lines_rev(4, Some(2));
    assert!(lines.windows(2).all(|w| w[0].line_num < w[1].line_num));
}

#[test]
fn window_ordinals_are_stable_line_numbers() {
    let data = "line1\nline2a\nline2b\nline3\nline2c\nline3\n";
    let mut sherlog = Sherlog::new(data);
    sherlog.filter(vec![filter_of("line2")]);
    let nums: Vec<usize> = sherlog.get_lines(0, None).iter().map(|l| l.line_num).collect();
    assert_eq!(nums, vec![1, 2, 4]);
}

#[test]
fn negated_filter_inverts_the_match() {
    let data = "line1\nline2a\nline2b\nline3\nline2c\nline3\n";
    let mut sherlog = Sherlog::new(data);
    let mut f = filter_of("line2");
    f.negate = true;
    sherlog.filter(vec![f]);
    assert_eq!(
        as_strings(sherlog.get_lines(0, None)),
        vec![
            String::from("line1"),
            String::from("line3"),
            String::from("line3"),
        ]
    );
}

#[test]
fn inactive_filter_is_ignored() {
    let data = "line1\nline2\nline3\n";
    let mut sherlog = Sherlog::new(data);
    let mut f = filter_of("line2");
    f.active = false;
    sherlog.filter(vec![f]);
    assert_eq!(
        as_strings(sherlog.get_lines(0, None)),
        vec![
            String::from("line1"),
            String::from("line2"),
            String::from("line3"),
        ]
    );
}

#[test]
fn filtering_twice_gives_the_same_window() {
    let data = "line1\nline2a\nline2b\nline3\nline2c\nline3\n";
    let mut sherlog = Sherlog::new(data);
    sherlog.filter(vec![filter_of("line2")]);
    let once = as_strings(sherlog.get_lines(0, None));
    sherlog.filter(vec![filter_of("line2")]);
    let twice = as_strings(sherlog.get_lines(0, None));
    assert_eq!(once, twice);
}

#[test]
fn search_on_filtered_out_line_is_skipped() {
    let data = "match here\nskip\nmatch there\n";
    let mut sherlog = Sherlog::new(data);
    sherlog.filter(vec![filter_of("there")]);
    sherlog.search(Some(Pattern::new("match").unwrap()));
    // Ordinal 0 matches the search but is filtered out: never surfaced.
    assert_eq!(sherlog.next_search_result(0), Some(2));
    assert_eq!(sherlog.prev_search_result(1), None);
}

#[test]
fn clearing_the_search_clears_the_highlight() {
    let data = "line1\nline2\n";
    let mut sherlog = Sherlog::new(data);
    sherlog.search(Some(Pattern::new("line").unwrap()));
    assert!(sherlog.has_highlight());
    assert_eq!(sherlog.next_search_result(0), Some(0));
    sherlog.search(None);
    assert!(!sherlog.has_highlight());
    assert_eq!(sherlog.next_search_result(0), None);
}

#[test]
fn line_count_and_terminators() {
    assert_eq!(Sherlog::new("").line_count(), 0);
    assert_eq!(Sherlog::new("one line").line_count(), 1);
    assert_eq!(Sherlog::new("a\nb").line_count(), 2);
    assert_eq!(Sherlog::new("a\nb\n").line_count(), 2);
    assert_eq!(as_strings(Sherlog::new("a\r\nb").get_lines(0, None)), vec!["a", "b"]);
    assert_eq!(as_strings(Sherlog::new("a\r").get_lines(0, None)), vec!["a\r"]);
    assert_eq!(as_strings(Sherlog::new("a\n\nb").get_lines(0, None)), vec!["a", "", "b"]);
}

#[test]
fn invalid_pattern_is_rejected() {
    let err = Pattern::new("foo(bar").unwrap_err();
    assert!(!err.message.is_empty());
    // The engine is never touched by a failed compilation: the same state
    // answers queries as before.
    let data = "line1\nline2\n";
    let mut sherlog = Sherlog::new(data);
    sherlog.filter(vec![filter_of("line2")]);
    assert!(Pattern::new("line(").is_err());
    assert_eq!(as_strings(sherlog.get_lines(0, None)), vec!["line2"]);
}

#[test]
fn pattern_keeps_its_text() {
    let p = Pattern::new("foo|bar").unwrap();
    assert_eq!(p.as_str(), "foo|bar");
}

#[test]
fn valid_text_yields_a_default_rule() {
    // A valid pattern must compile, and the rule built from it keeps the
    // text, is not negated, and is active.
    let f = RegexFilter::new(Pattern::new("foo").unwrap());
    assert_eq!(f.pattern.as_str(), "foo");
    assert!(!f.negate);
    assert!(f.active);
}
