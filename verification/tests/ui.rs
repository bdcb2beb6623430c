use sherlog::{
    Cursor, Filters, SearchKind, StatusLine, StatusLineContent, TextArea, TextLineRef, ViewArea,
};

#[test]
fn filters_selection_is_clamped() {
    let mut filters = Filters {
        entries: vec![String::from("a"), String::from("b"), String::from("c")],
        visible: false,
        selected: 0,
    };
    filters.select_next();
    assert_eq!(filters.selected, 1);
    filters.select_next();
    assert_eq!(filters.selected, 2);
    filters.select_next();
    assert_eq!(filters.selected, 2);
    filters.select_prev();
    assert_eq!(filters.selected, 1);
    filters.select_prev();
    filters.select_prev();
    assert_eq!(filters.selected, 0);
}

#[test]
fn view_area_scrolls_within_bounds() {
    let mut view = ViewArea {
        y: 0,
        x: 0,
        wrap: false,
        max_y: 9,
    };
    view.scroll_down(3);
    assert_eq!(view.y, 3);
    view.scroll_down(100);
    assert_eq!(view.y, 9);
    view.scroll_up(4);
    assert_eq!(view.y, 5);
    view.scroll_up(100);
    assert_eq!(view.y, 0);
    view.scroll_right();
    view.scroll_right();
    assert_eq!(view.x, 2);
    view.scroll_left();
    assert_eq!(view.x, 1);
    view.scroll_left();
    view.scroll_left();
    assert_eq!(view.x, 0);
    view.go_bottom();
    assert_eq!(view.y, 9);
    view.go_top();
    assert_eq!(view.y, 0);
}

#[test]
fn text_area_state_changes() {
    let mut area = TextArea::new();
    assert_eq!(area.x, 0);
    assert!(!area.wrap);
    assert!(area.first_line().is_none());
    assert!(area.last_line().is_none());

    assert!(area.toggle_wrap());
    assert!(!area.toggle_wrap());

    area.scroll_right();
    area.scroll_right();
    assert_eq!(area.x, 2);
    area.scroll_left();
    assert_eq!(area.x, 1);

    area.lines = vec![
        TextLineRef::raw(0, b"first").to_text_line(),
        TextLineRef::raw(1, b"second").to_text_line(),
    ];
    assert_eq!(area.first_line().unwrap().line_num, 0);
    assert_eq!(area.last_line().unwrap().line_num, 1);
}

#[test]
fn status_line_content_modes() {
    let empty = StatusLineContent::with_empty();
    assert!(matches!(&empty, StatusLineContent::Status(s) if s.is_empty()));
    assert_eq!(empty.header(), Some(""));
    assert!(empty.editable().is_none());

    let command = StatusLineContent::Command(String::from(":wrap"));
    assert!(command.header().is_none());
    assert_eq!(command.editable(), Some(String::from(":wrap")));

    let pattern = StatusLineContent::SearchPattern(SearchKind::Search, String::from("err"));
    assert_eq!(pattern.header(), Some("search"));
    assert_eq!(pattern.editable(), Some(String::from("err")));
}

#[test]
fn search_kind_names() {
    assert_eq!(SearchKind::Highlight.as_str(), "highlight");
    assert_eq!(SearchKind::Search.as_str(), "search");
}

#[test]
fn status_line_transitions() {
    let mut status = StatusLine {
        content: StatusLineContent::with_empty(),
        filename: String::from("app.log"),
        line_count: 42,
        line_shown: None,
    };
    status.print_error(String::from("Invalid pattern: oops"));
    assert!(matches!(&status.content, StatusLineContent::Status(s) if s.contains("oops")));
    status.print_info(String::from("word wrap on"));
    assert!(matches!(&status.content, StatusLineContent::Status(s) if s == "word wrap on"));
    status.enter_command_mode();
    assert!(matches!(&status.content, StatusLineContent::Command(s) if s == ":"));
    status.enter_highlight_pattern_mode(String::from("warn"));
    assert!(matches!(
        &status.content,
        StatusLineContent::SearchPattern(SearchKind::Highlight, s) if s == "warn"
    ));
    status.enter_search_mode(String::new());
    assert!(matches!(
        &status.content,
        StatusLineContent::SearchPattern(SearchKind::Search, s) if s.is_empty()
    ));
    status.clear();
    assert!(matches!(&status.content, StatusLineContent::Status(s) if s.is_empty()));
    assert_eq!(status.filename, "app.log");
    assert_eq!(status.line_count, 42);
}

#[test]
fn cursor_holds_its_coordinates() {
    let c = Cursor::new(3, 9);
    assert_eq!(c.x, 3);
    assert_eq!(c.y, 9);
}
