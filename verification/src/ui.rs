//! Pure state of the viewer's user interface: focus, scroll positions, the
//! status line, and list selections. Terminal rendering and event decoding
//! live outside the library; these types only hold and step that state.

use crate::text::TextLine;
use vstd::prelude::*;

verus! {

/// Which part of the interface has focus.
#[derive(Clone, Copy, PartialEq, Eq, Structural, Debug)]
pub enum Focus {
    General,
    StatusLine,
    Filters,
}

/// What kind of pattern the status line is collecting.
#[derive(Clone, Copy, PartialEq, Eq, Structural, Debug)]
pub enum SearchKind {
    Highlight,
    Search,
}

impl SearchKind {
    /// The kind's name, as shown in the status line.
    pub fn as_str(&self) -> (r: &'static str)
        ensures
            self is Highlight ==> r@ == "highlight"@,
            self is Search ==> r@ == "search"@,
    {
        match self {
            SearchKind::Highlight => "highlight",
            SearchKind::Search => "search",
        }
    }
}

/// What the status line shows: a command being typed (its leading colon
/// included), a pattern being typed (with its kind), or a status message.
#[derive(Debug)]
pub enum StatusLineContent {
    Command(String),
    SearchPattern(SearchKind, String),
    Status(String),
}

impl StatusLineContent {
    /// An empty status message.
    pub fn with_empty() -> (r: StatusLineContent)
        ensures
            r matches StatusLineContent::Status(s) && s@ == Seq::<char>::empty(),
    {
        StatusLineContent::Status(String::new())
    }

    /// The non-editable text shown in front: the pattern kind's name, or the
    /// status message itself; nothing for a command.
    pub fn header(&self) -> (r: Option<&str>)
        ensures
            match self {
                StatusLineContent::Command(_) => r is None,
                StatusLineContent::SearchPattern(k, _) => r matches Some(h) && (k is Highlight
                    ==> h@ == "highlight"@) && (k is Search ==> h@ == "search"@),
                StatusLineContent::Status(s) => r matches Some(h) && h@ == s@,
            },
    {
        match self {
            StatusLineContent::Command(_) => None,
            StatusLineContent::SearchPattern(k, _) => Some(k.as_str()),
            StatusLineContent::Status(s) => Some(s.as_str()),
        }
    }

    /// The text under edit, when there is one: the command as typed or the
    /// pattern as typed; a status message is not editable.
    pub fn editable(&self) -> (r: Option<String>)
        ensures
            match self {
                StatusLineContent::Command(s) => r matches Some(t) && t@ == s@,
                StatusLineContent::SearchPattern(_, s) => r matches Some(t) && t@ == s@,
                StatusLineContent::Status(_) => r is None,
            },
    {
        match self {
            StatusLineContent::Command(s) => Some(s.clone()),
            StatusLineContent::SearchPattern(_, s) => Some(s.clone()),
            StatusLineContent::Status(_) => None,
        }
    }
}

/// What the status line asks the application to do after a key.
#[derive(Debug)]
pub enum StatusLineReaction {
    Defocus,
    ExecuteCommand(String),
    Highlight(String),
    Search(String),
}

/// What the filter list asks the application to do after a key.
#[derive(Debug)]
pub enum FilterListReaction {
    Nothing,
    Defocus,
}

/// The status line's state: its content and the fixed facts shown beside it.
pub struct StatusLine {
    pub content: StatusLineContent,
    pub filename: String,
    pub line_count: usize,
    pub line_shown: Option<usize>,
}

impl StatusLine {
    /// Show `error` as the status message.
    pub fn print_error(&mut self, error: String)
        ensures
            final(self).content matches StatusLineContent::Status(s) && s@ == error@,
            final(self).filename == old(self).filename,
            final(self).line_count == old(self).line_count,
            final(self).line_shown == old(self).line_shown,
    {
        self.content = StatusLineContent::Status(error);
    }

    /// Show `info` as the status message.
    pub fn print_info(&mut self, info: String)
        ensures
            final(self).content matches StatusLineContent::Status(s) && s@ == info@,
            final(self).filename == old(self).filename,
            final(self).line_count == old(self).line_count,
            final(self).line_shown == old(self).line_shown,
    {
        self.content = StatusLineContent::Status(info);
    }

    /// Clear the status message.
    pub fn clear(&mut self)
        ensures
            final(self).content matches StatusLineContent::Status(s) && s@
                == Seq::<char>::empty(),
            final(self).filename == old(self).filename,
            final(self).line_count == old(self).line_count,
            final(self).line_shown == old(self).line_shown,
    {
        self.content = StatusLineContent::with_empty();
    }

    /// Start collecting a command; the colon is part of the content.
    pub fn enter_command_mode(&mut self)
        ensures
            final(self).content matches StatusLineContent::Command(s) && s@ == ":"@,
            final(self).filename == old(self).filename,
            final(self).line_count == old(self).line_count,
            final(self).line_shown == old(self).line_shown,
    {
        self.content = StatusLineContent::Command(":".to_owned());
    }

    /// Start collecting a highlight pattern, with `value` as its first text.
    pub fn enter_highlight_pattern_mode(&mut self, value: String)
        ensures
            final(self).content matches StatusLineContent::SearchPattern(k, s) && k
                == SearchKind::Highlight && s@ == value@,
            final(self).filename == old(self).filename,
            final(self).line_count == old(self).line_count,
            final(self).line_shown == old(self).line_shown,
    {
        self.content = StatusLineContent::SearchPattern(SearchKind::Highlight, value);
    }

    /// Start collecting a search pattern, with `value` as its first text.
    pub fn enter_search_mode(&mut self, value: String)
        ensures
            final(self).content matches StatusLineContent::SearchPattern(k, s) && k
                == SearchKind::Search && s@ == value@,
            final(self).filename == old(self).filename,
            final(self).line_count == old(self).line_count,
            final(self).line_shown == old(self).line_shown,
    {
        self.content = StatusLineContent::SearchPattern(SearchKind::Search, value);
    }
}

/// The filter popup's state: its rows, its visibility, the selected row.
pub struct Filters {
    pub entries: Vec<String>,
    pub visible: bool,
    pub selected: usize,
}

impl Filters {
    /// Move the selection down one row, stopping at the last.
    pub fn select_next(&mut self)
        requires
            old(self).entries@.len() > 0,
            old(self).selected < usize::MAX,
        ensures
            final(self).selected == if old(self).selected + 1 < old(self).entries@.len() {
                old(self).selected + 1
            } else {
                old(self).entries@.len() - 1
            },
            final(self).entries == old(self).entries,
            final(self).visible == old(self).visible,
    {
        let n = self.entries.len();
        self.selected = self.selected + 1;
        if self.selected > n - 1 {
            self.selected = n - 1;
        }
    }

    /// Move the selection up one row, stopping at the first.
    pub fn select_prev(&mut self)
        ensures
            final(self).selected == if old(self).selected > 0 {
                old(self).selected - 1
            } else {
                0
            },
            final(self).entries == old(self).entries,
            final(self).visible == old(self).visible,
    {
        if self.selected > 0 {
            self.selected = self.selected - 1;
        }
    }
}

/// The text view's scroll state: vertical position, horizontal offset, and
/// word wrap.
pub struct ViewArea {
    pub y: usize,
    pub x: usize,
    pub wrap: bool,
    pub max_y: usize,
}

impl ViewArea {
    /// Scroll up by `line_cnt` lines, stopping at the top.
    pub fn scroll_up(&mut self, line_cnt: usize)
        ensures
            final(self).y == if old(self).y >= line_cnt {
                old(self).y - line_cnt
            } else {
                0
            },
            final(self).x == old(self).x,
            final(self).wrap == old(self).wrap,
            final(self).max_y == old(self).max_y,
    {
        if self.y >= line_cnt {
            self.y = self.y - line_cnt;
        } else {
            self.y = 0;
        }
    }

    /// Scroll down by `line_cnt` lines, stopping at the last line.
    pub fn scroll_down(&mut self, line_cnt: usize)
        ensures
            final(self).y == if old(self).y + line_cnt <= old(self).max_y {
                old(self).y + line_cnt
            } else {
                old(self).max_y as int
            },
            final(self).x == old(self).x,
            final(self).wrap == old(self).wrap,
            final(self).max_y == old(self).max_y,
    {
        if self.y <= self.max_y {
            let room = self.max_y - self.y;
            if line_cnt <= room {
                self.y = self.y + line_cnt;
            } else {
                self.y = self.max_y;
            }
        } else {
            self.y = self.max_y;
        }
    }

    /// Scroll one column left, stopping at the first.
    pub fn scroll_left(&mut self)
        ensures
            final(self).x == if old(self).x > 0 {
                old(self).x - 1
            } else {
                0
            },
            final(self).y == old(self).y,
            final(self).wrap == old(self).wrap,
            final(self).max_y == old(self).max_y,
    {
        if self.x > 0 {
            self.x = self.x - 1;
        }
    }

    /// Scroll one column right, stopping at the largest offset.
    pub fn scroll_right(&mut self)
        ensures
            final(self).x == if old(self).x < usize::MAX {
                old(self).x + 1
            } else {
                usize::MAX as int
            },
            final(self).y == old(self).y,
            final(self).wrap == old(self).wrap,
            final(self).max_y == old(self).max_y,
    {
        if self.x < usize::MAX {
            self.x = self.x + 1;
        }
    }

    /// Jump to the first line.
    pub fn go_top(&mut self)
        ensures
            final(self).y == 0,
            final(self).x == old(self).x,
            final(self).wrap == old(self).wrap,
            final(self).max_y == old(self).max_y,
    {
        self.y = 0;
    }

    /// Jump to the last line.
    pub fn go_bottom(&mut self)
        ensures
            final(self).y == old(self).max_y,
            final(self).x == old(self).x,
            final(self).wrap == old(self).wrap,
            final(self).max_y == old(self).max_y,
    {
        self.y = self.max_y;
    }
}

/// The text area's state: the lines on display and how they are shown.
pub struct TextArea {
    pub x: usize,
    pub height: u16,
    pub wrap: bool,
    pub lines: Vec<TextLine>,
}

impl TextArea {
    /// An empty text area, unscrolled and unwrapped.
    pub fn new() -> (r: TextArea)
        ensures
            r.x == 0,
            r.height == 0,
            r.wrap == false,
            r.lines@.len() == 0,
    {
        TextArea { x: 0, height: 0, wrap: false, lines: Vec::new() }
    }

    /// Scroll one column left, stopping at the first.
    pub fn scroll_left(&mut self)
        ensures
            final(self).x == if old(self).x > 0 {
                old(self).x - 1
            } else {
                0
            },
            final(self).height == old(self).height,
            final(self).wrap == old(self).wrap,
            final(self).lines == old(self).lines,
    {
        if self.x > 0 {
            self.x = self.x - 1;
        }
    }

    /// Scroll one column right, stopping at the largest offset.
    pub fn scroll_right(&mut self)
        ensures
            final(self).x == if old(self).x < usize::MAX {
                old(self).x + 1
            } else {
                usize::MAX as int
            },
            final(self).height == old(self).height,
            final(self).wrap == old(self).wrap,
            final(self).lines == old(self).lines,
    {
        if self.x < usize::MAX {
            self.x = self.x + 1;
        }
    }

    /// Flip word wrap and report the new setting.
    pub fn toggle_wrap(&mut self) -> (r: bool)
        ensures
            final(self).wrap == !old(self).wrap,
            r == final(self).wrap,
            final(self).x == old(self).x,
            final(self).height == old(self).height,
            final(self).lines == old(self).lines,
    {
        self.wrap = !self.wrap;
        self.wrap
    }

    /// The first line on display, if any.
    pub fn first_line(&self) -> (r: Option<&TextLine>)
        ensures
            self.lines@.len() == 0 ==> r is None,
            self.lines@.len() > 0 ==> (r matches Some(l) && l == self.lines@[0]),
    {
        if self.lines.len() == 0 {
            None
        } else {
            Some(&self.lines[0])
        }
    }

    /// The last line on display, if any.
    pub fn last_line(&self) -> (r: Option<&TextLine>)
        ensures
            self.lines@.len() == 0 ==> r is None,
            self.lines@.len() > 0 ==> (r matches Some(l) && l == self.lines@[self.lines@.len()
                - 1]),
    {
        if self.lines.len() == 0 {
            None
        } else {
            Some(&self.lines[self.lines.len() - 1])
        }
    }
}

/// A cursor position in the terminal, in columns and rows.
#[derive(Clone, Copy, Debug)]
pub struct Cursor {
    pub x: u16,
    pub y: u16,
}

impl Cursor {
    /// The cursor at column `x` and row `y`.
    pub fn new(x: u16, y: u16) -> (r: Cursor)
        ensures
            r.x == x,
            r.y == y,
    {
        Cursor { x, y }
    }
}

} // verus!
