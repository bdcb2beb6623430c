//! Core engine of an interactive log viewer: an in-memory line store with
//! regex filtering, search, highlighting, and windowed retrieval over the
//! filtered set of lines.

mod engine;
mod laws;
mod lines;
mod pattern;
mod span;
mod text;
mod ui;

pub use laws::{
    lemma_filter_correct, lemma_filter_idempotent, lemma_window_ascending, lemma_window_fwd_empty,
    lemma_window_fwd_out_of_range, lemma_window_rev_empty,
};
pub use engine::{
    entry_lines, filtered_index, filtered_members, filtered_upto, ge_pred, le_pred,
    lemma_filtered_upto_props, lemma_search_index_upto_props, ordinal_passes, rendered_line,
    rendered_window, search_hit, search_index_upto, search_members, sorted_strict, window_fwd,
    window_rev, with_rules, EngineModel, SearchEntry, SearchEntryModel, Sherlog,
};

pub use lines::split_lines;
pub use span::{
    decorate, lemma_spans_reconstruct, ranges_from, spans_content, spans_from, Span, SpanKind,
    SpanModel, SpanRef,
};
pub use text::{TextLine, TextLineModel, TextLineRef};
pub use ui::{
    Cursor, FilterListReaction, Filters, Focus, SearchKind, StatusLine, StatusLineContent,
    StatusLineReaction, TextArea, ViewArea,
};
pub use pattern::{
    line_passes, ranges_ordered, regex_accepts, regex_compiles, regex_match_ranges, rule_matches,
    Pattern, PatternError, RegexFilter, RuleModel,
};
