//! The viewing engine: an immutable line store with regex filter rules, a
//! search index, a highlight pattern, and windowed retrieval over the
//! filtered set of lines.
//!
//! The filtered index and the search index are derived caches: both are
//! rebuilt in full by the mutators that change what they depend on, and
//! [`Sherlog::wf`] ties them exactly to the engine's model.

use crate::lines::split_lines;
use crate::pattern::{line_passes, regex_match_ranges, Pattern, RegexFilter, RuleModel};
use crate::span::{decorate, spans_content, SpanKind, SpanModel};
use crate::text::{TextLineModel, TextLineRef};
use vstd::prelude::*;
use vstd::string::StringSliceAdditionalSpecFns;

verus! {

/// The model of the engine: its lines, rules and patterns. The two derived
/// indices are functions of this model ([`filtered_index`], [`search_index`]).
pub ghost struct EngineModel {
    pub lines: Seq<Seq<u8>>,
    pub rules: Seq<RuleModel>,
    pub highlight: Option<Seq<char>>,
    pub search: Option<Seq<char>>,
}

/// The ordinals below `n` whose lines pass every active rule, ascending.
pub open spec fn filtered_upto(lines: Seq<Seq<u8>>, rules: Seq<RuleModel>, n: int) -> Seq<usize>
    decreases n,
{
    if n <= 0 {
        Seq::empty()
    } else if line_passes(rules, lines[n - 1]) {
        filtered_upto(lines, rules, n - 1).push((n - 1) as usize)
    } else {
        filtered_upto(lines, rules, n - 1)
    }
}

/// The ordered set of ordinals passing the model's active rules.
pub open spec fn filtered_index(m: EngineModel) -> Seq<usize> {
    filtered_upto(m.lines, m.rules, m.lines.len() as int)
}

/// Whether ordinal `n` names a line that passes the model's active rules.
pub open spec fn ordinal_passes(m: EngineModel, n: int) -> bool {
    0 <= n < m.lines.len() && line_passes(m.rules, m.lines[n])
}

/// The model after a full rebuild with `rules`: only the rule set changes.
pub open spec fn with_rules(m: EngineModel, rules: Seq<RuleModel>) -> EngineModel {
    EngineModel { rules, ..m }
}

/// A strictly ascending sequence of ordinals.
pub open spec fn sorted_strict(s: Seq<usize>) -> bool {
    forall|i: int, j: int| 0 <= i < j < s.len() ==> s[i] < s[j]
}

/// What `filtered_upto` holds: ordinals below `n`, each passing, ascending,
/// and complete.
pub open spec fn filtered_members(
    f: Seq<usize>,
    lines: Seq<Seq<u8>>,
    rules: Seq<RuleModel>,
    n: int,
) -> bool {
    &&& forall|i: int|
        0 <= i < f.len() ==> ((#[trigger] f[i]) as int) < n && line_passes(
            rules,
            lines[f[i] as int],
        )
    &&& forall|o: usize|
        (o as int) < n && line_passes(rules, lines[o as int]) ==> #[trigger] f.contains(o)
}

pub proof fn lemma_filtered_upto_props(lines: Seq<Seq<u8>>, rules: Seq<RuleModel>, n: int)
    requires
        n <= usize::MAX + 1,
    ensures
        sorted_strict(filtered_upto(lines, rules, n)),
        filtered_members(filtered_upto(lines, rules, n), lines, rules, n),
    decreases n,
{
    if n <= 0 {
    } else {
        lemma_filtered_upto_props(lines, rules, n - 1);
        let prev = filtered_upto(lines, rules, n - 1);
        let cur = filtered_upto(lines, rules, n);
        if line_passes(rules, lines[n - 1]) {
            assert(cur == prev.push((n - 1) as usize));
            assert forall|i: int, j: int| 0 <= i < j < cur.len() implies cur[i] < cur[j] by {
                if j < cur.len() - 1 {
                    assert(prev[i] < prev[j]);
                } else {
                    assert(cur[i] == prev[i]);
                    assert((prev[i] as int) < n - 1);
                    assert(cur[j] == (n - 1) as usize);
                }
            }
            assert forall|o: usize| (o as int) < n && line_passes(rules, lines[o as int]) implies cur.contains(
                o,
            ) by {
                if (o as int) < n - 1 {
                    assert(prev.contains(o));
                    let k = choose|k: int| 0 <= k < prev.len() && prev[k] == o;
                    assert(cur[k] == o);
                } else {
                    assert(cur[cur.len() - 1] == o);
                }
            }
        } else {
            assert(cur == prev);
            assert forall|o: usize| (o as int) < n && line_passes(rules, lines[o as int]) implies cur.contains(
                o,
            ) by {
                assert((o as int) != n - 1);
                assert(prev.contains(o));
            }
        }
    }
}

/// The model of one search-index entry: an ordinal and its match ranges.
pub ghost struct SearchEntryModel {
    pub line: usize,
    pub ranges: Seq<(usize, usize)>,
}

/// One search-index entry: an ordinal with at least one match of the search
/// pattern, and the byte ranges of those matches.
pub struct SearchEntry {
    pub line: usize,
    pub ranges: Vec<(usize, usize)>,
}

impl View for SearchEntry {
    type V = SearchEntryModel;

    open spec fn view(&self) -> SearchEntryModel {
        SearchEntryModel { line: self.line, ranges: self.ranges@ }
    }
}

impl DeepView for SearchEntry {
    type V = SearchEntryModel;

    open spec fn deep_view(&self) -> SearchEntryModel {
        self@
    }
}

/// The search index over the lines below `n` for pattern `p`: one entry per
/// line with at least one match, ascending by ordinal.
pub open spec fn search_index_upto(lines: Seq<Seq<u8>>, p: Seq<char>, n: int) -> Seq<
    SearchEntryModel,
>
    decreases n,
{
    if n <= 0 {
        Seq::empty()
    } else {
        let prev = search_index_upto(lines, p, n - 1);
        let r = regex_match_ranges(p, lines[n - 1]);
        if r.len() > 0 {
            prev.push(SearchEntryModel { line: (n - 1) as usize, ranges: r })
        } else {
            prev
        }
    }
}

/// Whether ordinal `n` names a line with at least one match of the model's
/// search pattern.
pub open spec fn search_hit(m: EngineModel, n: int) -> bool {
    &&& 0 <= n < m.lines.len()
    &&& match m.search {
        Some(p) => regex_match_ranges(p, m.lines[n]).len() > 0,
        None => false,
    }
}

/// The ordinals of the search-index entries, in entry order.
pub open spec fn entry_lines(e: Seq<SearchEntryModel>) -> Seq<usize> {
    e.map_values(|x: SearchEntryModel| x.line)
}

/// What `search_index_upto` holds: entries below `n`, ascending by ordinal,
/// each with the pattern's non-empty match ranges, and complete.
pub open spec fn search_members(
    e: Seq<SearchEntryModel>,
    lines: Seq<Seq<u8>>,
    p: Seq<char>,
    n: int,
) -> bool {
    &&& forall|i: int|
        0 <= i < e.len() ==> ((#[trigger] e[i]).line as int) < n && e[i].ranges
            == regex_match_ranges(p, lines[e[i].line as int]) && e[i].ranges.len() > 0
    &&& forall|i: int, j: int| 0 <= i < j < e.len() ==> e[i].line < e[j].line
    &&& forall|o: usize|
        (o as int) < n && regex_match_ranges(p, lines[o as int]).len() > 0
            ==> #[trigger] entry_lines(e).contains(o)
}

pub proof fn lemma_search_index_upto_props(lines: Seq<Seq<u8>>, p: Seq<char>, n: int)
    requires
        n <= usize::MAX + 1,
    ensures
        search_members(search_index_upto(lines, p, n), lines, p, n),
    decreases n,
{
    if n <= 0 {
    } else {
        lemma_search_index_upto_props(lines, p, n - 1);
        let prev = search_index_upto(lines, p, n - 1);
        let cur = search_index_upto(lines, p, n);
        let r = regex_match_ranges(p, lines[n - 1]);
        if r.len() > 0 {
            let last = SearchEntryModel { line: (n - 1) as usize, ranges: r };
            assert(cur == prev.push(last));
            assert(entry_lines(cur) =~= entry_lines(prev).push(last.line));
            assert forall|i: int, j: int| 0 <= i < j < cur.len() implies cur[i].line
                < cur[j].line by {
                if j < cur.len() - 1 {
                    assert(prev[i].line < prev[j].line);
                } else {
                    assert(cur[i] == prev[i]);
                    assert((prev[i].line as int) < n - 1);
                    assert(cur[j].line == (n - 1) as usize);
                }
            }
            assert forall|o: usize|
                (o as int) < n && regex_match_ranges(p, lines[o as int]).len()
                    > 0 implies #[trigger] entry_lines(cur).contains(o) by {
                if (o as int) < n - 1 {
                    assert(entry_lines(prev).contains(o));
                    let i = choose|i: int|
                        0 <= i < entry_lines(prev).len() && entry_lines(prev)[i] == o;
                    assert(entry_lines(cur)[i] == o);
                } else {
                    assert(entry_lines(cur)[entry_lines(cur).len() - 1] == o);
                }
            }
        } else {
            assert(cur == prev);
            assert forall|o: usize|
                (o as int) < n && regex_match_ranges(p, lines[o as int]).len()
                    > 0 implies #[trigger] entry_lines(cur).contains(o) by {
                assert((o as int) != n - 1);
                assert(entry_lines(prev).contains(o));
            }
        }
    }
}

/// The engine. The line store is fixed at construction; the rules, the
/// search pattern and the highlight pattern change through the mutators,
/// which rebuild the two derived indices in full.
pub struct Sherlog {
    lines: Vec<Vec<u8>>,
    filters: Vec<RegexFilter>,
    highlight: Option<Pattern>,
    search: Ghost<Option<Seq<char>>>,
    index_filtered: Vec<usize>,
    index_search: Vec<SearchEntry>,
}

impl View for Sherlog {
    type V = EngineModel;

    closed spec fn view(&self) -> EngineModel {
        EngineModel {
            lines: self.lines.deep_view(),
            rules: self.filters.deep_view(),
            highlight: self.highlight.deep_view(),
            search: self.search@,
        }
    }
}

impl Sherlog {
    /// The derived indices agree exactly with the model: the filtered index
    /// is the ordered set of passing ordinals, and the search index matches
    /// the search pattern (empty when none is set).
    pub closed spec fn wf(&self) -> bool {
        &&& self.index_filtered@ == filtered_index(self@)
        &&& match self.search@ {
            Some(p) => self.index_search.deep_view() == search_index_upto(
                self@.lines,
                p,
                self@.lines.len() as int,
            ),
            None => self.index_search@.len() == 0,
        }
    }

    /// Load `text`: split it into lines, with no rules and no patterns set,
    /// so that every line passes.
    pub fn new(text: &str) -> (r: Sherlog)
        ensures
            r.wf(),
            r@ == (EngineModel {
                lines: split_lines(text.spec_bytes()),
                rules: Seq::<RuleModel>::empty(),
                highlight: None::<Seq<char>>,
                search: None::<Seq<char>>,
            }),
    {
        let lines = crate::lines::split_into_lines(text.as_bytes());
        let filters: Vec<RegexFilter> = Vec::new();
        let index_filtered = compute_filtered(&lines, &filters);
        let r = Sherlog {
            lines,
            filters,
            highlight: None,
            search: Ghost(None),
            index_filtered,
            index_search: Vec::new(),
        };
        proof {
            assert(r.filters.deep_view() =~= Seq::<RuleModel>::empty());
            assert(r.lines.deep_view() =~~= r.lines@.map_values(|l: Vec<u8>| l@));
        }
        r
    }

    /// The number of lines in the store.
    pub fn line_count(&self) -> (n: usize)
        ensures
            n == self@.lines.len(),
    {
        self.lines.len()
    }

    /// Replace the rule set and rebuild the filtered index in full: after
    /// the call an ordinal is in the filtered index iff its line passes
    /// every rule of `filters` that is active.
    pub fn filter(&mut self, filters: Vec<RegexFilter>)
        requires
            old(self).wf(),
        ensures
            final(self).wf(),
            final(self)@ == with_rules(old(self)@, filters.deep_view()),
    {
        let index_filtered = compute_filtered(&self.lines, &filters);
        self.filters = filters;
        self.index_filtered = index_filtered;
    }

    /// Set or clear the search pattern. Setting it rebuilds the search index
    /// in full over every raw line and forces the highlight pattern to the
    /// search pattern; clearing it empties the index and the highlight.
    pub fn search(&mut self, pattern: Option<Pattern>)
        requires
            old(self).wf(),
        ensures
            final(self).wf(),
            pattern matches Some(p) ==> final(self)@ == (EngineModel {
                highlight: Some(p@),
                search: Some(p@),
                ..old(self)@
            }),
            pattern is None ==> final(self)@ == (EngineModel {
                highlight: None::<Seq<char>>,
                search: None::<Seq<char>>,
                ..old(self)@
            }),
    {
        match pattern {
            Some(p) => self.do_search(p),
            None => {
                self.index_search = Vec::new();
                self.search = Ghost(None);
                self.highlight = None;
            },
        }
    }

    /// Rebuild the search index for `pattern` over every raw line and make
    /// `pattern` the highlight pattern as well.
    fn do_search(&mut self, pattern: Pattern)
        requires
            old(self).wf(),
        ensures
            final(self).wf(),
            final(self)@ == (EngineModel {
                highlight: Some(pattern@),
                search: Some(pattern@),
                ..old(self)@
            }),
    {
        let mut entries: Vec<SearchEntry> = Vec::new();
        let n = self.lines.len();
        let mut i: usize = 0;
        proof {
            assert(entries.deep_view() =~= search_index_upto(self.lines.deep_view(), pattern@, 0));
        }
        while i < n
            invariant
                n == self.lines@.len(),
                0 <= i <= n,
                entries.deep_view() == search_index_upto(
                    self.lines.deep_view(),
                    pattern@,
                    i as int,
                ),
            decreases n - i,
        {
            proof {
                assert(self.lines@[i as int]@ == self.lines.deep_view()[i as int]);
            }
            let ranges = pattern.find_ranges(self.lines[i].as_slice());
            if ranges.len() > 0 {
                let e = SearchEntry { line: i, ranges };
                proof {
                    assert(entries.deep_view().push(e@) =~= search_index_upto(
                        self.lines.deep_view(),
                        pattern@,
                        i + 1,
                    ));
                }
                entries.push(e);
            }
            i = i + 1;
        }
        self.index_search = entries;
        self.search = Ghost(Some(pattern@));
        self.highlight = Some(pattern);
    }

    /// Set or clear the highlight pattern; nothing else changes.
    pub fn highlight(&mut self, pattern: Option<Pattern>)
        requires
            old(self).wf(),
        ensures
            final(self).wf(),
            final(self)@ == (EngineModel { highlight: pattern.deep_view(), ..old(self)@ }),
    {
        self.highlight = pattern;
    }

    /// Whether a highlight pattern is set.
    pub fn has_highlight(&self) -> (b: bool)
        ensures
            b == (self@.highlight is Some),
    {
        self.highlight.is_some()
    }

    /// Whether ordinal `o` is in the filtered index: in range and passing
    /// every active rule.
    pub fn filtered_contains(&self, o: usize) -> (b: bool)
        requires
            self.wf(),
        ensures
            b == ordinal_passes(self@, o as int),
    {
        let _n = self.lines.len();
        proof {
            lemma_filtered_upto_props(self@.lines, self@.rules, self@.lines.len() as int);
        }
        let lo = lower_bound(&self.index_filtered, o);
        let b = if lo < self.index_filtered.len() {
            self.index_filtered[lo] == o
        } else {
            false
        };
        proof {
            let f = self.index_filtered@;
            if b {
                assert(f[lo as int] == o);
                assert(((f[lo as int]) as int) < self@.lines.len() && line_passes(
                    self@.rules,
                    self@.lines[f[lo as int] as int],
                ));
            } else {
                assert forall|j: int| 0 <= j < f.len() implies f[j] != o by {
                    if j >= lo {
                        if (lo as int) < f.len() && j > lo {
                            assert(f[lo as int] < f[j]);
                        }
                    }
                }
                if ordinal_passes(self@, o as int) {
                    assert(f.contains(o));
                    let j = choose|j: int| 0 <= j < f.len() && f[j] == o;
                    assert(false);
                }
            }
        }
        b
    }

    /// The first ordinal at or after `start` that both has a search match
    /// and is in the filtered index; a match on a filtered-out line is never
    /// returned.
    pub fn next_search_result(&self, start: usize) -> (r: Option<usize>)
        requires
            self.wf(),
        ensures
            r matches Some(n) ==> start <= n && search_hit(self@, n as int) && ordinal_passes(
                self@,
                n as int,
            ) && forall|m: int|
                start <= m < n ==> !(search_hit(self@, m) && ordinal_passes(self@, m)),
            r is None ==> forall|m: int|
                start <= m ==> !(search_hit(self@, m) && ordinal_passes(self@, m)),
    {
        let n_entries = self.index_search.len();
        let _n_lines = self.lines.len();
        proof {
            if self.search@ is Some {
                lemma_search_index_upto_props(
                    self@.lines,
                    self.search@->Some_0,
                    self@.lines.len() as int,
                );
            }
        }
        let mut k: usize = 0;
        while k < n_entries
            invariant
                self.wf(),
                self@.lines.len() <= usize::MAX,
                n_entries == self.index_search@.len(),
                0 <= k <= n_entries,
                forall|j: int|
                    0 <= j < k ==> !((#[trigger] self.index_search.deep_view()[j]).line >= start
                        && ordinal_passes(
                        self@,
                        self.index_search.deep_view()[j].line as int,
                    )),
            decreases n_entries - k,
        {
            proof {
                if self.search@ is Some {
                    lemma_search_index_upto_props(
                        self@.lines,
                        self.search@->Some_0,
                        self@.lines.len() as int,
                    );
                }
            }
            let line = self.index_search[k].line;
            proof {
                assert(self.index_search.deep_view()[k as int] == self.index_search@[k as int]@);
            }
            if line >= start && self.filtered_contains(line) {
                proof {
                    let ent = self.index_search.deep_view();
                    let p = self.search@->Some_0;
                    assert(ent[k as int].ranges.len() > 0);
                    assert(search_hit(self@, line as int));
                    assert forall|m: int|
                        start <= m < line implies !(search_hit(self@, m) && ordinal_passes(
                        self@,
                        m,
                    )) by {
                        if search_hit(self@, m) && ordinal_passes(self@, m) {
                            assert(regex_match_ranges(p, self@.lines[m]).len() > 0);
                            assert(entry_lines(ent).contains((m as usize)));
                            let j = choose|j: int|
                                0 <= j < entry_lines(ent).len() && entry_lines(ent)[j] == (
                                m as usize);
                            assert(ent[j].line == m as usize);
                            if j > k {
                                assert(ent[k as int].line < ent[j].line);
                            }
                            assert(0 <= j < k);
                            assert(false);
                        }
                    }
                }
                return Some(line);
            }
            k = k + 1;
        }
        proof {
            assert forall|m: int| start <= m implies !(search_hit(self@, m) && ordinal_passes(
                self@,
                m,
            )) by {
                if search_hit(self@, m) && ordinal_passes(self@, m) {
                    let ent = self.index_search.deep_view();
                    let p = self.search@->Some_0;
                    assert(regex_match_ranges(p, self@.lines[m]).len() > 0);
                    assert(entry_lines(ent).contains((m as usize)));
                    let j = choose|j: int|
                        0 <= j < entry_lines(ent).len() && entry_lines(ent)[j] == (m as usize);
                    assert(ent[j].line == m as usize);
                    assert(false);
                }
            }
        }
        None
    }

    /// The last ordinal at or before `start` that both has a search match
    /// and is in the filtered index; a match on a filtered-out line is never
    /// returned.
    pub fn prev_search_result(&self, start: usize) -> (r: Option<usize>)
        requires
            self.wf(),
        ensures
            r matches Some(n) ==> n <= start && search_hit(self@, n as int) && ordinal_passes(
                self@,
                n as int,
            ) && forall|m: int| n < m <= start ==> !(search_hit(self@, m) && ordinal_passes(self@, m)),
            r is None ==> forall|m: int|
                0 <= m <= start ==> !(search_hit(self@, m) && ordinal_passes(self@, m)),
    {
        let n_entries = self.index_search.len();
        let _n_lines = self.lines.len();
        proof {
            if self.search@ is Some {
                lemma_search_index_upto_props(
                    self@.lines,
                    self.search@->Some_0,
                    self@.lines.len() as int,
                );
            }
        }
        let mut k: usize = n_entries;
        while k > 0
            invariant
                self.wf(),
                self@.lines.len() <= usize::MAX,
                n_entries == self.index_search@.len(),
                0 <= k <= n_entries,
                forall|j: int|
                    k <= j < n_entries ==> !((#[trigger] self.index_search.deep_view()[j]).line
                        <= start && ordinal_passes(
                        self@,
                        self.index_search.deep_view()[j].line as int,
                    )),
            decreases k,
        {
            proof {
                if self.search@ is Some {
                    lemma_search_index_upto_props(
                        self@.lines,
                        self.search@->Some_0,
                        self@.lines.len() as int,
                    );
                }
            }
            let line = self.index_search[k - 1].line;
            proof {
                assert(self.index_search.deep_view()[k - 1] == self.index_search@[k - 1]@);
            }
            if line <= start && self.filtered_contains(line) {
                proof {
                    let ent = self.index_search.deep_view();
                    let p = self.search@->Some_0;
                    assert(ent[k - 1].ranges.len() > 0);
                    assert(search_hit(self@, line as int));
                    assert forall|m: int|
                        line < m <= start implies !(search_hit(self@, m) && ordinal_passes(
                        self@,
                        m,
                    )) by {
                        if search_hit(self@, m) && ordinal_passes(self@, m) {
                            assert(regex_match_ranges(p, self@.lines[m]).len() > 0);
                            assert(entry_lines(ent).contains((m as usize)));
                            let j = choose|j: int|
                                0 <= j < entry_lines(ent).len() && entry_lines(ent)[j] == (
                                m as usize);
                            assert(ent[j].line == m as usize);
                            if j < k - 1 {
                                assert(ent[j].line < ent[k - 1].line);
                            }
                            assert(k - 1 < j);
                            assert(false);
                        }
                    }
                }
                return Some(line);
            }
            k = k - 1;
        }
        proof {
            assert forall|m: int|
                0 <= m <= start implies !(search_hit(self@, m) && ordinal_passes(self@, m)) by {
                if search_hit(self@, m) && ordinal_passes(self@, m) {
                    let ent = self.index_search.deep_view();
                    let p = self.search@->Some_0;
                    assert(regex_match_ranges(p, self@.lines[m]).len() > 0);
                    assert(entry_lines(ent).contains((m as usize)));
                    let j = choose|j: int|
                        0 <= j < entry_lines(ent).len() && entry_lines(ent)[j] == (m as usize);
                    assert(ent[j].line == m as usize);
                    assert(false);
                }
            }
        }
        None
    }
}

/// The rendered form of line `n` of the model: its ordinal and its span
/// decomposition under the model's highlight pattern.
pub open spec fn rendered_line(m: EngineModel, n: int) -> TextLineModel {
    TextLineModel {
        line_num: n as usize,
        spans: match m.highlight {
            None => seq![SpanModel { content: m.lines[n], kind: SpanKind::Raw }],
            Some(h) => crate::span::spans_from(m.lines[n], regex_match_ranges(h, m.lines[n]), 0),
        },
    }
}

/// A window of ordinals, each rendered.
pub open spec fn rendered_window(m: EngineModel, w: Seq<usize>) -> Seq<TextLineModel> {
    w.map_values(|o: usize| rendered_line(m, o as int))
}

/// The predicate picking ordinals at or after `first`.
pub open spec fn ge_pred(first: usize) -> spec_fn(usize) -> bool {
    |o: usize| o >= first
}

/// The predicate picking ordinals at or before `last`.
pub open spec fn le_pred(last: usize) -> spec_fn(usize) -> bool {
    |o: usize| o <= last
}

/// The forward window over the filtered ordinals `f`: those at or after
/// `first`, ascending, at most `cnt` of them (all when `cnt` is `None`).
pub open spec fn window_fwd(f: Seq<usize>, first: usize, cnt: Option<usize>) -> Seq<usize> {
    let tail = f.filter(ge_pred(first));
    match cnt {
        Some(c) => if (c as int) < tail.len() {
            tail.take(c as int)
        } else {
            tail
        },
        None => tail,
    }
}

/// The backward window over the filtered ordinals `f`: the last up-to-`cnt`
/// of those at or before `last`, still ascending.
pub open spec fn window_rev(f: Seq<usize>, last: usize, cnt: Option<usize>) -> Seq<usize> {
    let head = f.filter(le_pred(last));
    match cnt {
        Some(c) => if (c as int) < head.len() {
            head.skip(head.len() - c)
        } else {
            head
        },
        None => head,
    }
}

proof fn lemma_filter_all_true<A>(s: Seq<A>, pred: spec_fn(A) -> bool)
    requires
        forall|i: int| 0 <= i < s.len() ==> pred(#[trigger] s[i]),
    ensures
        s.filter(pred) == s,
    decreases s.len(),
{
    reveal(Seq::filter);
    if s.len() == 0 {
        assert(s.filter(pred) =~= s);
    } else {
        assert forall|i: int| 0 <= i < s.drop_last().len() implies pred(
            #[trigger] s.drop_last()[i],
        ) by {
            assert(s.drop_last()[i] == s[i]);
        }
        lemma_filter_all_true(s.drop_last(), pred);
        assert(pred(s.last()));
        assert(s.filter(pred) =~= s.drop_last().push(s.last()));
        assert(s.drop_last().push(s.last()) =~= s);
    }
}

pub(crate) proof fn lemma_filter_all_false<A>(s: Seq<A>, pred: spec_fn(A) -> bool)
    requires
        forall|i: int| 0 <= i < s.len() ==> !pred(#[trigger] s[i]),
    ensures
        s.filter(pred) == Seq::<A>::empty(),
    decreases s.len(),
{
    reveal(Seq::filter);
    if s.len() == 0 {
        assert(s.filter(pred) =~= Seq::<A>::empty());
    } else {
        assert forall|i: int| 0 <= i < s.drop_last().len() implies !pred(
            #[trigger] s.drop_last()[i],
        ) by {
            assert(s.drop_last()[i] == s[i]);
        }
        lemma_filter_all_false(s.drop_last(), pred);
        assert(!pred(s.last()));
    }
}

/// Filtering keeps exactly the suffix from `lo` on when the predicate fails
/// before `lo` and holds from `lo` on.
proof fn lemma_filter_is_suffix<A>(s: Seq<A>, pred: spec_fn(A) -> bool, lo: int)
    requires
        0 <= lo <= s.len(),
        forall|j: int| 0 <= j < lo ==> !pred(#[trigger] s[j]),
        forall|j: int| lo <= j < s.len() ==> pred(#[trigger] s[j]),
    ensures
        s.filter(pred) == s.skip(lo),
{
    let a = s.take(lo);
    let b = s.skip(lo);
    assert(a + b =~= s);
    Seq::filter_distributes_over_add(a, b, pred);
    assert forall|i: int| 0 <= i < a.len() implies !pred(#[trigger] a[i]) by {
        assert(a[i] == s[i]);
    }
    lemma_filter_all_false(a, pred);
    assert forall|i: int| 0 <= i < b.len() implies pred(#[trigger] b[i]) by {
        assert(b[i] == s[lo + i]);
    }
    lemma_filter_all_true(b, pred);
    assert(Seq::<A>::empty() + b =~= b);
}

/// Filtering keeps exactly the prefix up to `hi` when the predicate holds
/// before `hi` and fails from `hi` on.
proof fn lemma_filter_is_prefix<A>(s: Seq<A>, pred: spec_fn(A) -> bool, hi: int)
    requires
        0 <= hi <= s.len(),
        forall|j: int| 0 <= j < hi ==> pred(#[trigger] s[j]),
        forall|j: int| hi <= j < s.len() ==> !pred(#[trigger] s[j]),
    ensures
        s.filter(pred) == s.take(hi),
{
    let a = s.take(hi);
    let b = s.skip(hi);
    assert(a + b =~= s);
    Seq::filter_distributes_over_add(a, b, pred);
    assert forall|i: int| 0 <= i < a.len() implies pred(#[trigger] a[i]) by {
        assert(a[i] == s[i]);
    }
    lemma_filter_all_true(a, pred);
    assert forall|i: int| 0 <= i < b.len() implies !pred(#[trigger] b[i]) by {
        assert(b[i] == s[hi + i]);
    }
    lemma_filter_all_false(b, pred);
    assert(a + Seq::<A>::empty() =~= a);
}

/// The least index of `v` whose value is at least `x`; `v.len()` if none.
fn lower_bound(v: &Vec<usize>, x: usize) -> (lo: usize)
    requires
        sorted_strict(v@),
    ensures
        lo <= v@.len(),
        forall|j: int| 0 <= j < lo ==> v@[j] < x,
        forall|j: int| lo <= j < v@.len() ==> v@[j] >= x,
{
    let mut lo: usize = 0;
    let mut hi: usize = v.len();
    while lo < hi
        invariant
            0 <= lo <= hi <= v@.len(),
            sorted_strict(v@),
            forall|j: int| 0 <= j < lo ==> v@[j] < x,
            forall|j: int| hi <= j < v@.len() ==> v@[j] >= x,
        decreases hi - lo,
    {
        let mid = lo + (hi - lo) / 2;
        if v[mid] < x {
            proof {
                assert forall|j: int| 0 <= j < mid + 1 implies v@[j] < x by {
                    if j < mid {
                        assert(v@[j] < v@[mid as int]);
                    }
                }
            }
            lo = mid + 1;
        } else {
            proof {
                assert forall|j: int| mid <= j < v@.len() implies v@[j] >= x by {
                    if j > mid {
                        assert(v@[mid as int] < v@[j]);
                    }
                }
            }
            hi = mid;
        }
    }
    lo
}

/// The least index of `v` whose value exceeds `x`; `v.len()` if none.
fn upper_bound(v: &Vec<usize>, x: usize) -> (hi: usize)
    requires
        sorted_strict(v@),
    ensures
        hi <= v@.len(),
        forall|j: int| 0 <= j < hi ==> v@[j] <= x,
        forall|j: int| hi <= j < v@.len() ==> v@[j] > x,
{
    let mut lo: usize = 0;
    let mut hi: usize = v.len();
    while lo < hi
        invariant
            0 <= lo <= hi <= v@.len(),
            sorted_strict(v@),
            forall|j: int| 0 <= j < lo ==> v@[j] <= x,
            forall|j: int| hi <= j < v@.len() ==> v@[j] > x,
        decreases hi - lo,
    {
        let mid = lo + (hi - lo) / 2;
        if v[mid] <= x {
            proof {
                assert forall|j: int| 0 <= j < mid + 1 implies v@[j] <= x by {
                    if j < mid {
                        assert(v@[j] < v@[mid as int]);
                    }
                }
            }
            lo = mid + 1;
        } else {
            proof {
                assert forall|j: int| mid <= j < v@.len() implies v@[j] > x by {
                    if j > mid {
                        assert(v@[mid as int] < v@[j]);
                    }
                }
            }
            hi = mid;
        }
    }
    lo
}

/// Whether `line` passes every active rule of `filters`.
fn passes_all(filters: &Vec<RegexFilter>, line: &[u8]) -> (b: bool)
    ensures
        b == line_passes(filters.deep_view(), line@),
{
    let n = filters.len();
    let mut k: usize = 0;
    while k < n
        invariant
            n == filters@.len(),
            0 <= k <= n,
            forall|j: int|
                0 <= j < k && filters.deep_view()[j].active ==> crate::pattern::rule_matches(
                    (#[trigger] filters.deep_view()[j]).pattern,
                    filters.deep_view()[j].negate,
                    line@,
                ),
        decreases n - k,
    {
        let f = &filters[k];
        if f.active {
            if !f.is_match(line) {
                proof {
                    assert(filters.deep_view()[k as int] == filters@[k as int]@);
                    assert(filters.deep_view()[k as int].active && !crate::pattern::rule_matches(
                        filters.deep_view()[k as int].pattern,
                        filters.deep_view()[k as int].negate,
                        line@,
                    ));
                }
                return false;
            }
        }
        k = k + 1;
    }
    true
}

/// The filtered index for `lines` under `filters`: every ordinal whose line
/// passes all active rules, ascending.
fn compute_filtered(lines: &Vec<Vec<u8>>, filters: &Vec<RegexFilter>) -> (r: Vec<usize>)
    ensures
        r@ == filtered_upto(lines.deep_view(), filters.deep_view(), lines@.len() as int),
{
    let n = lines.len();
    let mut idx: Vec<usize> = Vec::new();
    let mut i: usize = 0;
    proof {
        assert(idx@ =~= filtered_upto(lines.deep_view(), filters.deep_view(), 0));
    }
    while i < n
        invariant
            n == lines@.len(),
            0 <= i <= n,
            idx@ == filtered_upto(lines.deep_view(), filters.deep_view(), i as int),
        decreases n - i,
    {
        proof {
            assert(lines@[i as int]@ == lines.deep_view()[i as int]);
        }
        if passes_all(filters, lines[i].as_slice()) {
            idx.push(i);
        }
        i = i + 1;
    }
    idx
}

impl Sherlog {
    /// The window of at most `cnt` filtered lines at or after ordinal
    /// `first`, ascending, each decorated under the highlight pattern. An
    /// ordinal past the last filtered entry yields an empty window, not an
    /// error. Each returned line's spans concatenate back to its raw line.
    pub fn get_lines(&self, first: usize, cnt: Option<usize>) -> (r: Vec<TextLineRef<'_>>)
        requires
            self.wf(),
        ensures
            r.deep_view() == rendered_window(self@, window_fwd(filtered_index(self@), first, cnt)),
            forall|i: int, j: int|
                0 <= i < j < r.deep_view().len() ==> r.deep_view()[i].line_num
                    < r.deep_view()[j].line_num,
            forall|i: int|
                0 <= i < r.deep_view().len() ==> spans_content(#[trigger] r.deep_view()[i].spans)
                    == self@.lines[r.deep_view()[i].line_num as int],
    {
        let _n_lines = self.lines.len();
        proof {
            lemma_filtered_upto_props(self@.lines, self@.rules, self@.lines.len() as int);
        }
        let lo = lower_bound(&self.index_filtered, first);
        let total = self.index_filtered.len();
        let avail = total - lo;
        let take_n = match cnt {
            Some(c) => if c < avail {
                c
            } else {
                avail
            },
            None => avail,
        };
        proof {
            let f = self.index_filtered@;
            assert forall|j: int| 0 <= j < lo implies !ge_pred(first)(#[trigger] f[j]) by {
                assert(f[j] < first);
            }
            assert forall|j: int| lo <= j < f.len() implies ge_pred(first)(#[trigger] f[j]) by {
                assert(f[j] >= first);
            }
            lemma_filter_is_suffix(f, ge_pred(first), lo as int);
            assert(f.skip(lo as int).take(take_n as int) =~= f.subrange(
                lo as int,
                lo + take_n,
            ));
            assert(f.skip(lo as int) =~= f.subrange(lo as int, f.len() as int));
            assert(window_fwd(f, first, cnt) == f.subrange(lo as int, lo + take_n));
        }
        let mut out: Vec<TextLineRef<'_>> = Vec::new();
        let mut k: usize = 0;
        proof {
            assert(out.deep_view() =~= rendered_window(
                self@,
                self.index_filtered@.subrange(lo as int, lo as int),
            ));
        }
        while k < take_n
            invariant
                self.wf(),
                self@.lines.len() <= usize::MAX,
                self.index_filtered@.len() <= usize::MAX,
                0 <= k <= take_n,
                lo + take_n <= self.index_filtered@.len(),
                out.deep_view() == rendered_window(
                    self@,
                    self.index_filtered@.subrange(lo as int, lo + k),
                ),
                forall|i: int|
                    0 <= i < k ==> spans_content(#[trigger] out.deep_view()[i].spans)
                        == self@.lines[out.deep_view()[i].line_num as int],
            decreases take_n - k,
        {
            proof {
                lemma_filtered_upto_props(self@.lines, self@.rules, self@.lines.len() as int);
            }
            let o = self.index_filtered[lo + k];
            proof {
                assert(((self.index_filtered@[lo + k]) as int) < self@.lines.len());
                assert(self.lines@[o as int]@ == self@.lines[o as int]);
            }
            let spans = decorate(self.lines[o].as_slice(), self.highlight.as_ref());
            let t = TextLineRef { line_num: o, spans };
            proof {
                assert(t@ == rendered_line(self@, o as int));
                assert(spans_content(t@.spans) == self@.lines[o as int]);
                assert(self.index_filtered@.subrange(lo as int, lo + k + 1)
                    =~= self.index_filtered@.subrange(lo as int, lo + k).push(o));
                assert(out.deep_view().push(t@) =~= rendered_window(
                    self@,
                    self.index_filtered@.subrange(lo as int, lo + k + 1),
                ));
            }
            let ghost prev_dv = out.deep_view();
            out.push(t);
            proof {
                assert(out.deep_view() =~= prev_dv.push(t@));
                assert forall|i: int|
                    0 <= i < k + 1 implies spans_content(#[trigger] out.deep_view()[i].spans)
                    == self@.lines[out.deep_view()[i].line_num as int] by {
                    if i < k {
                        assert(out.deep_view()[i] == prev_dv[i]);
                    } else {
                        assert(out.deep_view()[i] == t@);
                    }
                }
            }
            k = k + 1;
        }
        proof {
            let f = self.index_filtered@;
            assert(out.deep_view() == rendered_window(self@, window_fwd(f, first, cnt)));
            assert forall|i: int, j: int| 0 <= i < j < out.deep_view().len() implies out.deep_view()[i].line_num
                < out.deep_view()[j].line_num by {
                assert(out.deep_view()[i].line_num == f.subrange(lo as int, lo + take_n)[i]);
                assert(out.deep_view()[j].line_num == f.subrange(lo as int, lo + take_n)[j]);
                assert(f[lo + i] < f[lo + j]);
            }
        }
        out
    }

    /// The window of at most `cnt` filtered lines at or before ordinal
    /// `last` — the nearest ones — returned in ascending order. A `last`
    /// before the first filtered entry yields an empty window, not an
    /// error. Each returned line's spans concatenate back to its raw line.
    pub fn get_lines_rev(&self, last: usize, cnt: Option<usize>) -> (r: Vec<TextLineRef<'_>>)
        requires
            self.wf(),
        ensures
            r.deep_view() == rendered_window(self@, window_rev(filtered_index(self@), last, cnt)),
            forall|i: int, j: int|
                0 <= i < j < r.deep_view().len() ==> r.deep_view()[i].line_num
                    < r.deep_view()[j].line_num,
            forall|i: int|
                0 <= i < r.deep_view().len() ==> spans_content(#[trigger] r.deep_view()[i].spans)
                    == self@.lines[r.deep_view()[i].line_num as int],
    {
        let _n_lines = self.lines.len();
        let _total = self.index_filtered.len();
        proof {
            lemma_filtered_upto_props(self@.lines, self@.rules, self@.lines.len() as int);
        }
        let hi = upper_bound(&self.index_filtered, last);
        let take_n = match cnt {
            Some(c) => if c < hi {
                c
            } else {
                hi
            },
            None => hi,
        };
        let start = hi - take_n;
        proof {
            let f = self.index_filtered@;
            assert forall|j: int| 0 <= j < hi implies le_pred(last)(#[trigger] f[j]) by {
                assert(f[j] <= last);
            }
            assert forall|j: int| hi <= j < f.len() implies !le_pred(last)(#[trigger] f[j]) by {
                assert(f[j] > last);
            }
            lemma_filter_is_prefix(f, le_pred(last), hi as int);
            assert(f.take(hi as int).skip(start as int) =~= f.subrange(start as int, hi as int));
            assert(f.take(hi as int) =~= f.subrange(0, hi as int));
            assert(window_rev(f, last, cnt) == f.subrange(start as int, hi as int));
        }
        let mut out: Vec<TextLineRef<'_>> = Vec::new();
        let mut k: usize = 0;
        proof {
            assert(out.deep_view() =~= rendered_window(
                self@,
                self.index_filtered@.subrange(start as int, start as int),
            ));
        }
        while k < take_n
            invariant
                self.wf(),
                self@.lines.len() <= usize::MAX,
                self.index_filtered@.len() <= usize::MAX,
                0 <= k <= take_n,
                start + take_n <= self.index_filtered@.len(),
                out.deep_view() == rendered_window(
                    self@,
                    self.index_filtered@.subrange(start as int, start + k),
                ),
                forall|i: int|
                    0 <= i < k ==> spans_content(#[trigger] out.deep_view()[i].spans)
                        == self@.lines[out.deep_view()[i].line_num as int],
            decreases take_n - k,
        {
            proof {
                lemma_filtered_upto_props(self@.lines, self@.rules, self@.lines.len() as int);
            }
            let o = self.index_filtered[start + k];
            proof {
                assert(((self.index_filtered@[start + k]) as int) < self@.lines.len());
                assert(self.lines@[o as int]@ == self@.lines[o as int]);
            }
            let spans = decorate(self.lines[o].as_slice(), self.highlight.as_ref());
            let t = TextLineRef { line_num: o, spans };
            proof {
                assert(t@ == rendered_line(self@, o as int));
                assert(spans_content(t@.spans) == self@.lines[o as int]);
                assert(self.index_filtered@.subrange(start as int, start + k + 1)
                    =~= self.index_filtered@.subrange(start as int, start + k).push(o));
                assert(out.deep_view().push(t@) =~= rendered_window(
                    self@,
                    self.index_filtered@.subrange(start as int, start + k + 1),
                ));
            }
            let ghost prev_dv = out.deep_view();
            out.push(t);
            proof {
                assert(out.deep_view() =~= prev_dv.push(t@));
                assert forall|i: int|
                    0 <= i < k + 1 implies spans_content(#[trigger] out.deep_view()[i].spans)
                    == self@.lines[out.deep_view()[i].line_num as int] by {
                    if i < k {
                        assert(out.deep_view()[i] == prev_dv[i]);
                    } else {
                        assert(out.deep_view()[i] == t@);
                    }
                }
            }
            k = k + 1;
        }
        proof {
            let f = self.index_filtered@;
            assert(out.deep_view() == rendered_window(self@, window_rev(f, last, cnt)));
            assert forall|i: int, j: int| 0 <= i < j < out.deep_view().len() implies out.deep_view()[i].line_num
                < out.deep_view()[j].line_num by {
                assert(out.deep_view()[i].line_num == f.subrange(start as int, start + take_n)[i]);
                assert(out.deep_view()[j].line_num == f.subrange(start as int, start + take_n)[j]);
                assert(f[start + i] < f[start + j]);
            }
        }
        out
    }
}

} // verus!
