//! Search history: the most recent searches first, one entry per pattern.

use vstd::prelude::*;
use crate::timeval::now;
use vstd::string::StringSliceAdditionalSpecFns;
use vstd::utf8::encode_utf8;

verus! {

/// One remembered search.
#[derive(Debug)]
pub struct SearchHistoryEntry {
    pub pattern: String,
    pub is_content_search: bool,
    pub use_regex: bool,
    pub case_sensitive: bool,
    pub timestamp: std::time::SystemTime,
}

/// The value of a `SearchHistoryEntry`.
pub struct HistoryEntryView {
    pub pattern: Seq<char>,
    pub is_content_search: bool,
    pub use_regex: bool,
    pub case_sensitive: bool,
    pub timestamp: std::time::SystemTime,
}

impl View for SearchHistoryEntry {
    type V = HistoryEntryView;

    open spec fn view(&self) -> HistoryEntryView {
        HistoryEntryView {
            pattern: self.pattern@,
            is_content_search: self.is_content_search,
            use_regex: self.use_regex,
            case_sensitive: self.case_sensitive,
            timestamp: self.timestamp,
        }
    }
}

impl Clone for SearchHistoryEntry {
    fn clone(&self) -> (r: Self)
        ensures
            r@ == self@,
    {
        SearchHistoryEntry {
            pattern: self.pattern.clone(),
            is_content_search: self.is_content_search,
            use_regex: self.use_regex,
            case_sensitive: self.case_sensitive,
            timestamp: self.timestamp,
        }
    }
}

/// The views of a sequence of history entries.
pub open spec fn history_views(v: Seq<SearchHistoryEntry>) -> Seq<HistoryEntryView> {
    v.map_values(|e: SearchHistoryEntry| e@)
}

/// Search history, most recent first, holding at most `max_entries` after each addition.
#[derive(Debug)]
pub struct SearchHistory {
    entries: Vec<SearchHistoryEntry>,
    max_entries: usize,
}

/// The value of a `SearchHistory`.
pub struct SearchHistoryView {
    pub entries: Seq<HistoryEntryView>,
    pub max_entries: usize,
}

impl View for SearchHistory {
    type V = SearchHistoryView;

    closed spec fn view(&self) -> SearchHistoryView {
        SearchHistoryView { entries: history_views(self.entries@), max_entries: self.max_entries }
    }
}

/// `s` without the entries whose pattern is `p`, order kept.
pub open spec fn without_pattern(s: Seq<HistoryEntryView>, p: Seq<char>) -> Seq<HistoryEntryView>
    decreases s.len(),
{
    if s.len() == 0 {
        Seq::empty()
    } else {
        let prev = without_pattern(s.drop_last(), p);
        if s.last().pattern == p {
            prev
        } else {
            prev.push(s.last())
        }
    }
}

/// The first `n` of `s`, or all of `s` when it is shorter.
pub open spec fn take_at_most<T>(s: Seq<T>, n: int) -> Seq<T> {
    if s.len() > n {
        s.take(n)
    } else {
        s
    }
}

/// The history after recording `e`: any earlier entry with the same pattern dropped,
/// `e` put first, and the list cut to `max_entries`.
pub open spec fn history_after_add(h: SearchHistoryView, e: HistoryEntryView) -> SearchHistoryView {
    SearchHistoryView {
        entries: take_at_most(seq![e] + without_pattern(h.entries, e.pattern), h.max_entries as int),
        ..h
    }
}

/// What a stored history keeps when loaded: entries with a pattern of 1 to 10000 bytes.
pub open spec fn loadable(s: Seq<HistoryEntryView>) -> Seq<HistoryEntryView>
    decreases s.len(),
{
    if s.len() == 0 {
        Seq::empty()
    } else {
        let prev = loadable(s.drop_last());
        let p = s.last().pattern;
        if p.len() > 0 && encode_utf8(p).len() <= 10000 {
            prev.push(s.last())
        } else {
            prev
        }
    }
}

/// No two entries share a pattern.
pub open spec fn patterns_distinct(s: Seq<HistoryEntryView>) -> bool {
    forall|i: int, j: int| 0 <= i < j < s.len() ==> s[i].pattern != s[j].pattern
}

impl SearchHistory {
    /// An empty history keeping at most `max_entries` entries.
    pub fn new(max_entries: usize) -> (r: SearchHistory)
        ensures
            r@.entries.len() == 0,
            r@.max_entries == max_entries,
    {
        SearchHistory { entries: Vec::new(), max_entries }
    }

    /// A history as it comes back from storage: the stored entries and limit.
    pub fn from_stored(entries: Vec<SearchHistoryEntry>, max_entries: usize) -> (r: SearchHistory)
        ensures
            r@.entries == history_views(entries@),
            r@.max_entries == max_entries,
    {
        SearchHistory { entries, max_entries }
    }

    /// The most entries kept after an addition.
    pub fn max_entries(&self) -> (r: usize)
        ensures
            r == self@.max_entries,
    {
        self.max_entries
    }

    /// Records a search made at `timestamp` (see `history_after_add`).
    pub fn add_search_at(
        &mut self,
        pattern: String,
        is_content_search: bool,
        use_regex: bool,
        case_sensitive: bool,
        timestamp: std::time::SystemTime,
    )
        ensures
            final(self)@ == history_after_add(old(self)@, HistoryEntryView {
                pattern: pattern@,
                is_content_search,
                use_regex,
                case_sensitive,
                timestamp,
            }),
    {
        let ghost p = pattern@;
        let mut kept: Vec<SearchHistoryEntry> = Vec::new();
        let mut i: usize = 0;
        while i < self.entries.len()
            invariant
                i <= self.entries@.len(),
                self@ == old(self)@,
                p == pattern@,
                history_views(kept@) == without_pattern(self@.entries.take(i as int), p),
            decreases self.entries@.len() - i,
        {
            assert(self@.entries.take(i + 1).drop_last() =~= self@.entries.take(i as int));
            assert(self@.entries.take(i + 1).last() == self.entries@[i as int]@);
            if self.entries[i].pattern != pattern {
                let ghost before = history_views(kept@);
                kept.push(self.entries[i].clone());
                assert(history_views(kept@) =~= before.push(self.entries@[i as int]@));
            }
            i = i + 1;
        }
        assert(self@.entries.take(self@.entries.len() as int) =~= self@.entries);
        let entry = SearchHistoryEntry { pattern, is_content_search, use_regex, case_sensitive, timestamp };
        let ghost rest = history_views(kept@);
        kept.insert(0, entry);
        assert(history_views(kept@) =~= seq![entry@] + rest);
        if kept.len() > self.max_entries {
            kept.truncate(self.max_entries);
            assert(history_views(kept@) =~= (seq![entry@] + rest).take(self.max_entries as int));
        }
        self.entries = kept;
    }

    /// Records a search made now: as `add_search_at` with the current time.
    pub fn add_search(&mut self, pattern: String, is_content_search: bool, use_regex: bool, case_sensitive: bool)
        ensures
            exists|t: std::time::SystemTime| final(self)@ == history_after_add(old(self)@, HistoryEntryView {
                pattern: pattern@,
                is_content_search,
                use_regex,
                case_sensitive,
                timestamp: t,
            }),
    {
        let t = now();
        self.add_search_at(pattern, is_content_search, use_regex, case_sensitive, t);
    }

    /// All entries, most recent first.
    pub fn entries(&self) -> (r: &[SearchHistoryEntry])
        ensures
            history_views(r@) == self@.entries,
    {
        self.entries.as_slice()
    }

    /// The `n` most recent entries (all of them when there are fewer).
    pub fn recent(&self, n: usize) -> (r: Vec<&SearchHistoryEntry>)
        ensures
            r@.map_values(|e: &SearchHistoryEntry| e@) == take_at_most(self@.entries, n as int),
    {
        let mut r: Vec<&SearchHistoryEntry> = Vec::new();
        let mut i: usize = 0;
        while i < self.entries.len() && i < n
            invariant
                i <= self.entries@.len(),
                i <= n,
                r@.map_values(|e: &SearchHistoryEntry| e@) == self@.entries.take(i as int),
            decreases self.entries@.len() - i,
        {
            r.push(&self.entries[i]);
            assert(self@.entries.take(i + 1) =~= self@.entries.take(i as int).push(self.entries@[i as int]@));
            assert(r@.map_values(|e: &SearchHistoryEntry| e@) =~= self@.entries.take(i + 1));
            i = i + 1;
        }
        if i == self.entries.len() {
            assert(self@.entries.take(i as int) =~= self@.entries);
        }
        r
    }

    /// Forgets every entry.
    pub fn clear(&mut self)
        ensures
            final(self)@ == (SearchHistoryView { entries: Seq::empty(), ..old(self)@ }),
    {
        self.entries.clear();
        assert(self@.entries =~= Seq::<HistoryEntryView>::empty());
    }

    /// The check a loaded history goes through: entries with an empty pattern or a
    /// pattern over 10000 bytes are dropped.
    pub fn sanitize_loaded(&mut self)
        ensures
            final(self)@ == (SearchHistoryView { entries: loadable(old(self)@.entries), ..old(self)@ }),
    {
        let mut kept: Vec<SearchHistoryEntry> = Vec::new();
        let mut i: usize = 0;
        while i < self.entries.len()
            invariant
                i <= self.entries@.len(),
                self@ == old(self)@,
                history_views(kept@) == loadable(self@.entries.take(i as int)),
            decreases self.entries@.len() - i,
        {
            assert(self@.entries.take(i + 1).drop_last() =~= self@.entries.take(i as int));
            assert(self@.entries.take(i + 1).last() == self.entries@[i as int]@);
            let p = self.entries[i].pattern.as_str();
            if !p.is_empty() && crate::text::bytes_of(p).len() <= 10000 {
                let ghost before = history_views(kept@);
                kept.push(self.entries[i].clone());
                assert(history_views(kept@) =~= before.push(self.entries@[i as int]@));
            }
            i = i + 1;
        }
        assert(self@.entries.take(self@.entries.len() as int) =~= self@.entries);
        self.entries = kept;
    }
}

impl Default for SearchHistory {
    fn default() -> (r: SearchHistory)
        ensures
            r@.entries.len() == 0,
            r@.max_entries == 100,
    {
        SearchHistory::new(100)
    }
}


proof fn lemma_without_pattern(s: Seq<HistoryEntryView>, p: Seq<char>)
    ensures
        without_pattern(s, p).len() <= s.len(),
        forall|i: int| 0 <= i < without_pattern(s, p).len() ==> (#[trigger] without_pattern(s, p)[i]).pattern != p,
        forall|i: int| 0 <= i < without_pattern(s, p).len() ==> exists|j: int| 0 <= j < s.len() && s[j] == #[trigger] without_pattern(s, p)[i],
        patterns_distinct(s) ==> patterns_distinct(without_pattern(s, p)),
    decreases s.len(),
{
    if s.len() > 0 {
        let prefix = s.drop_last();
        lemma_without_pattern(prefix, p);
        let w = without_pattern(prefix, p);
        assert forall|i: int| 0 <= i < without_pattern(s, p).len() implies exists|j: int| 0 <= j < s.len() && s[j] == #[trigger] without_pattern(s, p)[i] by {
            if i < w.len() {
                let j = choose|j: int| 0 <= j < prefix.len() && prefix[j] == w[i];
                assert(s[j] == without_pattern(s, p)[i]);
            } else {
                assert(s[s.len() - 1] == without_pattern(s, p)[i]);
            }
        }
        if patterns_distinct(s) {
            assert(patterns_distinct(prefix)) by {
                assert forall|i: int, j: int| 0 <= i < j < prefix.len() implies prefix[i].pattern != prefix[j].pattern by {
                    assert(prefix[i] == s[i] && prefix[j] == s[j]);
                }
            }
            if s.last().pattern != p {
                assert forall|i: int, j: int| 0 <= i < j < without_pattern(s, p).len() implies
                    without_pattern(s, p)[i].pattern != without_pattern(s, p)[j].pattern by {
                    if j == w.len() {
                        let k = choose|k: int| 0 <= k < prefix.len() && prefix[k] == #[trigger] w[i];
                        assert(prefix[k] == s[k]);
                    }
                }
            }
        }
    }
}

/// A search just recorded is the most recent entry (unless the history keeps no entries).
pub proof fn law_add_puts_search_first(h: SearchHistoryView, e: HistoryEntryView)
    requires
        h.max_entries > 0,
    ensures
        history_after_add(h, e).entries.len() > 0,
        history_after_add(h, e).entries[0] == e,
{
}

/// After an addition the history holds at most `max_entries` entries.
pub proof fn law_add_respects_limit(h: SearchHistoryView, e: HistoryEntryView)
    ensures
        history_after_add(h, e).entries.len() <= h.max_entries,
{
}

/// Adding never creates two entries with the same pattern: a repeated search replaces
/// its older entry.
pub proof fn law_add_keeps_patterns_distinct(h: SearchHistoryView, e: HistoryEntryView)
    requires
        patterns_distinct(h.entries),
    ensures
        patterns_distinct(history_after_add(h, e).entries),
{
    lemma_without_pattern(h.entries, e.pattern);
    let w = without_pattern(h.entries, e.pattern);
    let full = seq![e] + w;
    assert forall|i: int, j: int| 0 <= i < j < full.len() implies full[i].pattern != full[j].pattern by {
        if i == 0 {
            assert(full[j] == w[j - 1]);
        } else {
            assert(full[i] == w[i - 1] && full[j] == w[j - 1]);
        }
    }
    let r = history_after_add(h, e).entries;
    assert forall|i: int, j: int| 0 <= i < j < r.len() implies r[i].pattern != r[j].pattern by {
        assert(r[i] == full[i] && r[j] == full[j]);
    }
}
proof fn lemma_without_pattern_filter(s: Seq<HistoryEntryView>, p: Seq<char>)
    ensures
        without_pattern(s, p) == s.filter(|x: HistoryEntryView| x.pattern != p),
    decreases s.len(),
{
    reveal(Seq::filter);
    if s.len() > 0 {
        lemma_without_pattern_filter(s.drop_last(), p);
    }
}

/// Recording a search drops exactly the earlier entries with the same pattern: the
/// history afterwards is the new entry followed by every earlier entry whose pattern
/// differs, in their order, cut to the first `max_entries`. The limit is unchanged.
pub proof fn law_add_keeps_other_patterns(h: SearchHistoryView, e: HistoryEntryView)
    ensures
        ({
            let all = seq![e] + h.entries.filter(|x: HistoryEntryView| x.pattern != e.pattern);
            history_after_add(h, e).entries == if all.len() > h.max_entries { all.take(h.max_entries as int) } else { all }
        }),
        history_after_add(h, e).max_entries == h.max_entries,
{
    lemma_without_pattern_filter(h.entries, e.pattern);
}
} // verus!
