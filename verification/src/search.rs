//! File-name search over an index (fuzzy, glob and regex) and line-by-line
//! content search, with the size filters that queries carry.

use vstd::prelude::*;
use crate::index::{FileEntry, FileEntryView, FileIndex, entry_views};
use crate::matchers::{GlobPattern, CompiledRegex, FuzzyScorer, glob_compiles, glob_matches, regex_compiles, regex_is_match, regex_find, skim_match, is_subsequence};
use crate::text::{
    lowercase, to_lowercase, str_trim, trim_spec, trim_start_spec, leading_ws, leading_digits,
    parse_u64_spec, parse_u64_chars, skip_white_space, skip_digits, chars_of, is_white_space,
    is_digit, all_digits, string_from_range, find_char, find_bytes, find_in_bytes, bytes_of,
    byte_slice_str, decode_utf8_bytes, lemma_find_bytes_found,
};
use std::cmp::Ordering;
use vstd::string::StringSliceAdditionalSpecFns;
use vstd::utf8::{encode_utf8, decode_utf8, valid_utf8, is_char_boundary};

verus! {

/// Size bounds in bytes: `min_size` 0 means no lower bound, `max_size` `u64::MAX` no upper bound.
#[derive(Clone, Copy, Debug)]
pub struct SizeFilter {
    pub min_size: u64,
    pub max_size: u64,
}

impl Default for SizeFilter {
    fn default() -> (r: SizeFilter)
        ensures
            r.min_size == 0,
            r.max_size == 0,
    {
        SizeFilter { min_size: 0, max_size: 0 }
    }
}

/// The multiplier a size unit stands for: `k`/`kb`, `m`/`mb`, `g`/`gb`, `b` or nothing.
pub open spec fn unit_multiplier(u: Seq<char>) -> Option<nat> {
    if u.len() == 0 {
        Some(1)
    } else if u.len() == 1 || (u.len() == 2 && u[1] == 'b' && u[0] != 'b') {
        if u[0] == 'k' {
            Some(1024)
        } else if u[0] == 'm' {
            Some(1048576)
        } else if u[0] == 'g' {
            Some(1073741824)
        } else if u[0] == 'b' {
            Some(1)
        } else {
            None
        }
    } else {
        None
    }
}

/// The comparison prefix and the text after it, once the input is trimmed and
/// lowercased: `<` or `>` (with the white space after them dropped), or none (` `).
pub open spec fn size_prefix_split(low: Seq<char>) -> (char, Seq<char>) {
    if low.len() > 0 && low[0] == '<' {
        ('<', trim_start_spec(low.drop_first()))
    } else if low.len() > 0 && low[0] == '>' {
        ('>', trim_start_spec(low.drop_first()))
    } else {
        (' ', low)
    }
}

/// The parts of a size text: its prefix, its number and its unit's multiplier.
/// `None` when the text is empty, the number is missing or too large, or the unit unknown.
pub open spec fn size_text_parts(s: Seq<char>) -> Option<(char, u64, nat)> {
    if s.len() == 0 {
        None
    } else {
        let (prefix, rest) = size_prefix_split(lowercase(trim_spec(s)));
        let k = leading_digits(rest) as int;
        match parse_u64_spec(rest.take(k)) {
            None => None,
            Some(n) => match unit_multiplier(rest.skip(k)) {
                None => None,
                Some(m) => Some((prefix, n, m)),
            },
        }
    }
}

/// The size in bytes a single size text denotes, without its comparison prefix.
pub open spec fn size_value(s: Seq<char>) -> Option<nat> {
    match size_text_parts(s) {
        Some((p, n, m)) => Some(n as nat * m),
        None => None,
    }
}

/// The size a single size text denotes fits in 64 bits (or it denotes none).
pub open spec fn single_fits(s: Seq<char>) -> bool {
    match size_value(s) {
        Some(v) => v <= u64::MAX,
        None => true,
    }
}

/// The filter a single size text denotes: `<N` gives `[0, N]`; `>N` and a bare `N`
/// give `[N, ∞)`.
pub open spec fn single_filter_of(s: Seq<char>) -> Option<SizeFilter> {
    match size_text_parts(s) {
        Some((p, n, m)) => if p == '<' {
            Some(SizeFilter { min_size: 0, max_size: (n * m) as u64 })
        } else {
            Some(SizeFilter { min_size: (n * m) as u64, max_size: u64::MAX })
        },
        None => None,
    }
}

/// Position of the first `-` in `s`, or its length.
pub open spec fn first_dash(s: Seq<char>) -> int
    decreases s.len(),
{
    if s.len() == 0 {
        0
    } else if s[0] == '-' {
        0
    } else {
        1 + first_dash(s.drop_first())
    }
}

/// The filter a size text denotes: `A-B` bounds the size by the sizes `A` and `B`
/// (none unless both read as sizes); otherwise a single size (see `single_filter_of`).
pub open spec fn size_filter_of(s: Seq<char>) -> Option<SizeFilter> {
    let t = trim_spec(s);
    if s.len() == 0 {
        None
    } else if first_dash(t) < t.len() {
        let d = first_dash(t);
        match (size_value(t.take(d)), size_value(t.skip(d + 1))) {
            (Some(a), Some(b)) => Some(SizeFilter { min_size: a as u64, max_size: b as u64 }),
            _ => None,
        }
    } else {
        single_filter_of(s)
    }
}

/// Every size a size text denotes fits in 64 bits.
pub open spec fn size_text_fits(s: Seq<char>) -> bool {
    let t = trim_spec(s);
    if first_dash(t) < t.len() {
        let d = first_dash(t);
        single_fits(t.take(d)) && single_fits(t.skip(d + 1))
    } else {
        single_fits(s)
    }
}

/// The bound one side of a range contributes: its size, or `default` when the side
/// is empty or does not read as a size.
pub open spec fn range_endpoint(s: Seq<char>, default: u64) -> u64 {
    if s.len() == 0 {
        default
    } else {
        match size_value(s) {
            Some(v) => v as u64,
            None => default,
        }
    }
}

/// The filter a range text denotes: `A-B` bounds below by the size `A` (0 when `A` is
/// empty or does not read) and above by the size `B` (`u64::MAX` likewise); text
/// without `-` is a single size.
pub open spec fn size_range_of(s: Seq<char>) -> Option<SizeFilter> {
    let t = trim_spec(s);
    if t.len() == 0 {
        None
    } else if first_dash(t) < t.len() {
        let d = first_dash(t);
        Some(SizeFilter { min_size: range_endpoint(t.take(d), 0), max_size: range_endpoint(t.skip(d + 1), u64::MAX) })
    } else {
        single_filter_of(t)
    }
}

/// Every size text inside a range text fits in 64 bits.
pub open spec fn size_range_fits(s: Seq<char>) -> bool {
    let t = trim_spec(s);
    if first_dash(t) < t.len() {
        let d = first_dash(t);
        single_fits(t.take(d)) && single_fits(t.skip(d + 1))
    } else {
        single_fits(t)
    }
}

/// `first_dash` is the position of the first `-`.
pub proof fn lemma_first_dash(s: Seq<char>, j: int)
    requires
        0 <= j <= s.len(),
        j < s.len() ==> s[j] == '-',
        forall|k: int| 0 <= k < j ==> s[k] != '-',
    ensures
        first_dash(s) == j,
    decreases j,
{
    if j > 0 {
        assert(s[0] != '-');
        lemma_first_dash(s.drop_first(), j - 1);
    }
}

/// The multiplier of the unit `v[from..]`.
fn unit_multiplier_of(v: &Vec<char>, from: usize) -> (r: Option<u64>)
    requires
        from <= v@.len(),
    ensures
        r matches Some(m) ==> unit_multiplier(v@.skip(from as int)) == Some(m as nat),
        r is None ==> unit_multiplier(v@.skip(from as int)) is None,
{
    let ghost u = v@.skip(from as int);
    let n = v.len() - from;
    if n == 0 {
        return Some(1);
    }
    let c = v[from];
    assert(u[0] == c);
    if n == 1 {
        if c == 'k' {
            Some(1024)
        } else if c == 'm' {
            Some(1048576)
        } else if c == 'g' {
            Some(1073741824)
        } else if c == 'b' {
            Some(1)
        } else {
            None
        }
    } else if n == 2 && v[from + 1] == 'b' {
        assert(u[1] == 'b');
        if c == 'k' {
            Some(1024)
        } else if c == 'm' {
            Some(1048576)
        } else if c == 'g' {
            Some(1073741824)
        } else {
            None
        }
    } else {
        assert(n == 2 ==> u[1] != 'b');
        None
    }
}

/// The prefix, number and multiplier of a single size text (see `size_text_parts`).
fn size_parts(s: &str) -> (r: Option<(char, u64, u64)>)
    ensures
        match size_text_parts(s@) {
            Some((p, n, m)) => r == Some((p, n, m as u64)),
            None => r is None,
        },
        r matches Some((p, n, m)) ==> m > 0,
{
    if s.is_empty() {
        return None;
    }
    let low_string = to_lowercase(str_trim(s));
    let v = chars_of(low_string.as_str());
    let ghost low = v@;
    let mut prefix = ' ';
    let mut start: usize = 0;
    if v.len() > 0 && (v[0] == '<' || v[0] == '>') {
        prefix = v[0];
        start = skip_white_space(&v, 1);
        assert(low.subrange(1, low.len() as int) =~= low.drop_first());
        assert(low.drop_first().skip(leading_ws(low.drop_first()) as int) =~= low.subrange(start as int, low.len() as int));
    }
    let ghost rest = v@.subrange(start as int, v@.len() as int);
    assert(size_prefix_split(low) == (prefix, rest));
    let digits_end = skip_digits(&v, start);
    let ghost k = leading_digits(rest) as int;
    assert(rest.take(k) =~= v@.subrange(start as int, digits_end as int));
    assert(rest.skip(k) =~= v@.skip(digits_end as int));
    let num = match parse_u64_chars(&v, start, digits_end) {
        Some(n) => n,
        None => return None,
    };
    let multiplier = match unit_multiplier_of(&v, digits_end) {
        Some(m) => m,
        None => return None,
    };
    assert(multiplier > 0);
    Some((prefix, num, multiplier))
}

/// Whether `n * m` fits in 64 bits (`m > 0`).
fn product_fits(n: u64, m: u64) -> (r: bool)
    requires
        m > 0,
    ensures
        r == (n * m <= u64::MAX),
{
    let r = n <= u64::MAX / m;
    assert(r == (n * m <= u64::MAX)) by (nonlinear_arith)
        requires
            m > 0,
            r == (n <= u64::MAX / m),
    ;
    r
}

/// The size a single size text denotes (see `size_value`).
fn single_size(s: &str) -> (r: Option<u64>)
    requires
        single_fits(s@),
    ensures
        match size_value(s@) {
            Some(v) => r == Some(v as u64),
            None => r is None,
        },
{
    match size_parts(s) {
        Some((_, n, m)) => Some(n * m),
        None => None,
    }
}

/// Whether the size a single size text denotes fits in 64 bits.
fn single_fits_check(s: &str) -> (r: bool)
    ensures
        r == single_fits(s@),
{
    match size_parts(s) {
        Some((_, n, m)) => product_fits(n, m),
        None => true,
    }
}

/// The trimmed text, its characters, and where its first `-` is.
fn split_trimmed(s: &str) -> (r: (Vec<char>, usize))
    ensures
        r.0@ == trim_spec(s@),
        r.1 == first_dash(trim_spec(s@)),
        r.1 <= r.0@.len(),
{
    let t = str_trim(s);
    let v = chars_of(t);
    let d = find_char(&v, 0, '-');
    proof { lemma_first_dash(t@, d as int); }
    (v, d)
}

impl SizeFilter {
    /// A filter with the given bounds.
    pub fn new(min: u64, max: u64) -> (r: SizeFilter)
        ensures
            r.min_size == min,
            r.max_size == max,
    {
        SizeFilter { min_size: min, max_size: max }
    }

    /// Parses a size such as `1m`, `<10k`, `>2gb` or a range `1m-10m` (see `size_filter_of`).
    pub fn from_string(s: &str) -> (r: Option<SizeFilter>)
        requires
            size_text_fits(s@),
        ensures
            r == size_filter_of(s@),
    {
        if s.is_empty() {
            return None;
        }
        let (v, d) = split_trimmed(s);
        if d < v.len() {
            let a = string_from_range(&v, 0, d);
            let b = string_from_range(&v, d + 1, v.len());
            assert(a@ =~= trim_spec(s@).take(d as int));
            assert(b@ =~= trim_spec(s@).skip(d + 1));
            match (single_size(a.as_str()), single_size(b.as_str())) {
                (Some(x), Some(y)) => Some(SizeFilter { min_size: x, max_size: y }),
                _ => None,
            }
        } else {
            match size_parts(s) {
                Some((prefix, n, m)) => {
                    let size = n * m;
                    if prefix == '<' {
                        Some(SizeFilter { min_size: 0, max_size: size })
                    } else {
                        Some(SizeFilter { min_size: size, max_size: u64::MAX })
                    }
                },
                None => None,
            }
        }
    }

    /// `from_string`, checked first: `None` when a size would overflow 64 bits (where
    /// `from_string` has no answer), `Some` of its answer otherwise.
    pub fn from_string_checked(s: &str) -> (r: Option<Option<SizeFilter>>)
        ensures
            r is None <==> !size_text_fits(s@),
            r matches Some(f) ==> f == size_filter_of(s@),
    {
        if Self::text_fits(s) {
            Some(Self::from_string(s))
        } else {
            None
        }
    }

    /// Whether every size a size text denotes fits in 64 bits.
    pub(crate) fn text_fits(s: &str) -> (r: bool)
        ensures
            r == size_text_fits(s@),
    {
        let (v, d) = split_trimmed(s);
        if d < v.len() {
            let a = string_from_range(&v, 0, d);
            let b = string_from_range(&v, d + 1, v.len());
            assert(a@ =~= trim_spec(s@).take(d as int));
            assert(b@ =~= trim_spec(s@).skip(d + 1));
            single_fits_check(a.as_str()) && single_fits_check(b.as_str())
        } else {
            single_fits_check(s)
        }
    }

    /// Parses `min-max` (either side may be empty or hold a size), or a single size
    /// (see `size_range_of`).
    pub fn from_range(s: &str) -> (r: Option<SizeFilter>)
        requires
            size_range_fits(s@),
        ensures
            r == size_range_of(s@),
    {
        let (v, d) = split_trimmed(s);
        if v.len() == 0 {
            return None;
        }
        if d < v.len() {
            let a = string_from_range(&v, 0, d);
            let b = string_from_range(&v, d + 1, v.len());
            assert(a@ =~= trim_spec(s@).take(d as int));
            assert(b@ =~= trim_spec(s@).skip(d + 1));
            let min_size = if a.as_str().is_empty() {
                0
            } else {
                match single_size(a.as_str()) {
                    Some(x) => x,
                    None => 0,
                }
            };
            let max_size = if b.as_str().is_empty() {
                u64::MAX
            } else {
                match single_size(b.as_str()) {
                    Some(y) => y,
                    None => u64::MAX,
                }
            };
            Some(SizeFilter { min_size, max_size })
        } else {
            let t = string_from_range(&v, 0, v.len());
            assert(t@ =~= trim_spec(s@));
            match size_parts(t.as_str()) {
                Some((prefix, n, m)) => {
                    let size = n * m;
                    if prefix == '<' {
                        Some(SizeFilter { min_size: 0, max_size: size })
                    } else {
                        Some(SizeFilter { min_size: size, max_size: u64::MAX })
                    }
                },
                None => None,
            }
        }
    }

    /// `from_range`, checked first: `None` when a size in the text would overflow
    /// 64 bits, `Some` of its answer otherwise.
    pub fn from_range_checked(s: &str) -> (r: Option<Option<SizeFilter>>)
        ensures
            r is None <==> !size_range_fits(s@),
            r matches Some(f) ==> f == size_range_of(s@),
    {
        let (v, d) = split_trimmed(s);
        let fits = if d < v.len() {
            let a = string_from_range(&v, 0, d);
            let b = string_from_range(&v, d + 1, v.len());
            assert(a@ =~= trim_spec(s@).take(d as int));
            assert(b@ =~= trim_spec(s@).skip(d + 1));
            single_fits_check(a.as_str()) && single_fits_check(b.as_str())
        } else {
            let t = string_from_range(&v, 0, v.len());
            assert(t@ =~= trim_spec(s@));
            single_fits_check(t.as_str())
        };
        if fits {
            Some(Self::from_range(s))
        } else {
            None
        }
    }

    /// Whether `size` lies within the bounds (see `admits`).
    pub fn matches(&self, size: u64) -> (r: bool)
        ensures
            r == admits(*self, size),
    {
        if self.min_size > 0 && size < self.min_size {
            return false;
        }
        if self.max_size < u64::MAX && size > self.max_size {
            return false;
        }
        true
    }
}

/// Whether a filter admits a size: at least the minimum (a zero minimum bounds nothing)
/// and at most the maximum (a `u64::MAX` maximum bounds nothing).
pub open spec fn admits(f: SizeFilter, size: u64) -> bool {
    (f.min_size == 0 || size >= f.min_size) && (f.max_size == u64::MAX || size <= f.max_size)
}

/// The filter that bounds nothing.
pub open spec fn unbounded() -> SizeFilter {
    SizeFilter { min_size: 0, max_size: u64::MAX }
}

/// A file-name search request.
pub struct SearchQuery {
    pub pattern: String,
    pub case_sensitive: bool,
    pub regex: bool,
    pub glob: bool,
    pub offset: usize,
    pub limit: usize,
    pub size_filter: SizeFilter,
}

impl SearchQuery {
    /// A fuzzy, case-insensitive query for `pattern`: offset 0, limit 100, no size bounds.
    pub fn new(pattern: String) -> (r: SearchQuery)
        ensures
            r.pattern@ == pattern@,
            !r.case_sensitive,
            !r.regex,
            !r.glob,
            r.offset == 0,
            r.limit == 100,
            r.size_filter == unbounded(),
    {
        SearchQuery {
            pattern,
            case_sensitive: false,
            regex: false,
            glob: false,
            offset: 0,
            limit: 100,
            size_filter: SizeFilter { min_size: 0, max_size: u64::MAX },
        }
    }

    /// The query with case sensitivity set.
    pub fn with_case_sensitive(self, case_sensitive: bool) -> (r: SearchQuery)
        ensures
            r == (SearchQuery { case_sensitive, ..self }),
    {
        SearchQuery { case_sensitive, ..self }
    }

    /// The query with regex matching set.
    pub fn with_regex(self, regex: bool) -> (r: SearchQuery)
        ensures
            r == (SearchQuery { regex, ..self }),
    {
        SearchQuery { regex, ..self }
    }

    /// The query with glob matching set.
    pub fn with_glob(self, glob: bool) -> (r: SearchQuery)
        ensures
            r == (SearchQuery { glob, ..self }),
    {
        SearchQuery { glob, ..self }
    }

    /// The query with the given result offset.
    pub fn with_offset(self, offset: usize) -> (r: SearchQuery)
        ensures
            r == (SearchQuery { offset, ..self }),
    {
        SearchQuery { offset, ..self }
    }

    /// The query with the given result limit.
    pub fn with_limit(self, limit: usize) -> (r: SearchQuery)
        ensures
            r == (SearchQuery { limit, ..self }),
    {
        SearchQuery { limit, ..self }
    }

    /// The query with the given size filter.
    pub fn with_size_filter(self, size_filter: SizeFilter) -> (r: SearchQuery)
        ensures
            r == (SearchQuery { size_filter, ..self }),
    {
        SearchQuery { size_filter, ..self }
    }
}

/// Items `offset .. offset + limit` of `s` (fewer when `s` is shorter).
pub open spec fn page<T>(s: Seq<T>, offset: int, limit: int) -> Seq<T> {
    if offset >= s.len() {
        Seq::empty()
    } else if offset + limit < s.len() {
        s.subrange(offset, offset + limit)
    } else {
        s.subrange(offset, s.len() as int)
    }
}

proof fn lemma_page_push<T>(s: Seq<T>, x: T, offset: int, limit: int)
    requires
        offset >= 0,
        limit >= 0,
    ensures
        page(s.push(x), offset, limit) == (if offset <= s.len() < offset + limit {
            page(s, offset, limit).push(x)
        } else {
            page(s, offset, limit)
        }),
{
    if offset <= s.len() < offset + limit {
        if offset == s.len() {
            assert(page(s.push(x), offset, limit) =~= seq![x]);
            assert(page(s, offset, limit) =~= Seq::<T>::empty());
        } else {
            assert(page(s.push(x), offset, limit) =~= page(s, offset, limit).push(x));
        }
    } else {
        assert(page(s.push(x), offset, limit) =~= page(s, offset, limit));
    }
}

/// The entries whose size the filter admits and whose name (or stored lowercase name) a
/// glob pattern matches, in index order.
pub open spec fn glob_hits(entries: Seq<FileEntryView>, pattern: Seq<char>, case_sensitive: bool, f: SizeFilter) -> Seq<FileEntryView>
    decreases entries.len(),
{
    if entries.len() == 0 {
        Seq::empty()
    } else {
        let prev = glob_hits(entries.drop_last(), pattern, case_sensitive, f);
        let e = entries.last();
        if admits(f, e.size) && glob_matches(pattern, if case_sensitive { e.name } else { e.name_lower }) {
            prev.push(e)
        } else {
            prev
        }
    }
}

/// The glob search result: the page `offset .. offset + limit` of the matching entries,
/// nothing when the pattern (lowercased unless case-sensitive) does not compile.
pub open spec fn glob_search_spec(q: SearchQuery, entries: Seq<FileEntryView>) -> Seq<FileEntryView> {
    let pat = if q.case_sensitive { q.pattern@ } else { lowercase(q.pattern@) };
    if glob_compiles(pat) {
        page(glob_hits(entries, pat, q.case_sensitive, q.size_filter), q.offset as int, q.limit as int)
    } else {
        Seq::empty()
    }
}

/// The entries whose size the filter admits and whose name a regex matches, in index order.
pub open spec fn regex_hits(entries: Seq<FileEntryView>, pattern: Seq<char>, f: SizeFilter) -> Seq<FileEntryView>
    decreases entries.len(),
{
    if entries.len() == 0 {
        Seq::empty()
    } else {
        let prev = regex_hits(entries.drop_last(), pattern, f);
        if admits(f, entries.last().size) && regex_is_match(pattern, entries.last().name) {
            prev.push(entries.last())
        } else {
            prev
        }
    }
}

/// The regex source used: the pattern, prefixed with `(?i)` unless case-sensitive.
pub open spec fn regex_source(q: SearchQuery) -> Seq<char> {
    if q.case_sensitive {
        q.pattern@
    } else {
        seq!['(', '?', 'i', ')'] + q.pattern@
    }
}

/// The regex search result: every entry whose name matches (no offset or limit),
/// nothing when the regex does not compile.
pub open spec fn regex_search_spec(q: SearchQuery, entries: Seq<FileEntryView>) -> Seq<FileEntryView> {
    if regex_compiles(regex_source(q)) {
        regex_hits(entries, regex_source(q), q.size_filter)
    } else {
        Seq::empty()
    }
}

/// Number of pairs with a positive score.
pub open spec fn positives(s: Seq<(i64, usize)>) -> nat
    decreases s.len(),
{
    if s.len() == 0 {
        0
    } else {
        positives(s.drop_last()) + if s.last().0 > 0 { 1nat } else { 0nat }
    }
}

/// The (score, position) pairs of the first `n` entries whose size the filter admits and
/// that fuzzily match, in index order. With `cap` present, entries are no longer scored
/// once `cap` positive scores have been found.
pub open spec fn scored(entries: Seq<FileEntryView>, n: nat, pattern: Seq<char>, case_sensitive: bool, cap: Option<nat>, f: SizeFilter) -> Seq<(i64, usize)>
    decreases n,
{
    if n == 0 {
        Seq::empty()
    } else {
        let prev = scored(entries, (n - 1) as nat, pattern, case_sensitive, cap, f);
        let e = entries[n - 1];
        if cap matches Some(c) && positives(prev) >= c {
            prev
        } else if !admits(f, e.size) {
            prev
        } else {
            match skim_match(case_sensitive, if case_sensitive { e.name } else { e.name_lower }, pattern) {
                Some(score) => prev.push((score, (n - 1) as usize)),
                None => prev,
            }
        }
    }
}

/// `s` (sorted by descending score) with `x` placed after every pair whose score is
/// at least `x`'s.
pub open spec fn insert_desc(s: Seq<(i64, usize)>, x: (i64, usize)) -> Seq<(i64, usize)>
    decreases s.len(),
{
    if s.len() == 0 {
        seq![x]
    } else if s.last().0 >= x.0 {
        s.push(x)
    } else {
        insert_desc(s.drop_last(), x).push(s.last())
    }
}

/// Stable sort by descending score: pairs with equal scores keep their order.
pub open spec fn sort_desc(s: Seq<(i64, usize)>) -> Seq<(i64, usize)>
    decreases s.len(),
{
    if s.len() == 0 {
        Seq::empty()
    } else {
        insert_desc(sort_desc(s.drop_last()), s.last())
    }
}

proof fn lemma_insert_desc_bounded(s: Seq<(i64, usize)>, x: (i64, usize), n: int)
    requires
        forall|i: int| 0 <= i < s.len() ==> (#[trigger] s[i]).1 < n,
        x.1 < n,
    ensures
        insert_desc(s, x).len() == s.len() + 1,
        forall|i: int| 0 <= i < insert_desc(s, x).len() ==> (#[trigger] insert_desc(s, x)[i]).1 < n,
    decreases s.len(),
{
    if s.len() > 0 && s.last().0 < x.0 {
        lemma_insert_desc_bounded(s.drop_last(), x, n);
        let r = insert_desc(s.drop_last(), x);
        assert forall|i: int| 0 <= i < insert_desc(s, x).len() implies (#[trigger] insert_desc(s, x)[i]).1 < n by {
            if i < r.len() {
                assert(insert_desc(s, x)[i] == r[i]);
            }
        }
    }
}

proof fn lemma_sort_desc_bounded(s: Seq<(i64, usize)>, n: int)
    requires
        forall|i: int| 0 <= i < s.len() ==> (#[trigger] s[i]).1 < n,
    ensures
        sort_desc(s).len() == s.len(),
        forall|i: int| 0 <= i < sort_desc(s).len() ==> (#[trigger] sort_desc(s)[i]).1 < n,
    decreases s.len(),
{
    if s.len() > 0 {
        assert forall|i: int| 0 <= i < s.drop_last().len() implies (#[trigger] s.drop_last()[i]).1 < n by {
            assert(s.drop_last()[i] == s[i]);
        }
        lemma_sort_desc_bounded(s.drop_last(), n);
        lemma_insert_desc_bounded(sort_desc(s.drop_last()), s.last(), n);
    }
}

proof fn lemma_scored_bounded(entries: Seq<FileEntryView>, n: nat, pattern: Seq<char>, cs: bool, cap: Option<nat>, f: SizeFilter)
    requires
        n <= entries.len(),
        entries.len() <= usize::MAX,
    ensures
        scored(entries, n, pattern, cs, cap, f).len() <= n,
        forall|i: int| 0 <= i < scored(entries, n, pattern, cs, cap, f).len() ==> (#[trigger] scored(entries, n, pattern, cs, cap, f)[i]).1 < n,
    decreases n,
{
    if n > 0 {
        lemma_scored_bounded(entries, (n - 1) as nat, pattern, cs, cap, f);
    }
}

/// How many of the sorted matches the fuzzy search keeps before paging: the best
/// `limit` of them (with `limit` the query's limit plus its offset), or all when there
/// are fewer.
pub open spec fn fuzzy_keep(len: int, limit: int) -> int {
    if len > limit {
        limit
    } else {
        len
    }
}

/// The score cap of the fuzzy search: for indexes of more than 5000 and at most 50000
/// entries, scoring stops after ten times (limit + offset) positive scores.
pub open spec fn fuzzy_cap(n: nat, limit: nat) -> Option<nat> {
    if 5000 < n <= 50000 {
        Some(limit * 10)
    } else {
        None
    }
}

/// The fuzzy search result: the matches, stably sorted by descending score, cut to
/// `fuzzy_keep` of them, then the page `offset .. offset + limit`.
pub open spec fn fuzzy_search_spec(q: SearchQuery, entries: Seq<FileEntryView>) -> Seq<FileEntryView> {
    let pat = if q.case_sensitive { q.pattern@ } else { lowercase(q.pattern@) };
    let lim = q.limit + q.offset;
    let all = scored(entries, entries.len(), pat, q.case_sensitive, fuzzy_cap(entries.len(), lim as nat), q.size_filter);
    let sorted = sort_desc(all);
    let kept = sorted.take(fuzzy_keep(sorted.len() as int, lim));
    page(kept, q.offset as int, q.limit as int).map_values(|p: (i64, usize)| entries[p.1 as int])
}

/// What `Searcher::search` answers.
pub open spec fn search_spec(q: SearchQuery, entries: Seq<FileEntryView>) -> Seq<FileEntryView> {
    if q.pattern@.len() == 0 {
        Seq::empty()
    } else if q.glob {
        glob_search_spec(q, entries)
    } else if q.regex {
        regex_search_spec(q, entries)
    } else {
        fuzzy_search_spec(q, entries)
    }
}

/// The offset and limit arithmetic of a search does not overflow.
pub open spec fn search_fits(q: SearchQuery) -> bool {
    q.pattern@.len() > 0 ==> {
        &&& (q.glob || !q.regex) ==> q.limit + q.offset <= usize::MAX
        &&& (!q.glob && !q.regex) ==> (q.limit + q.offset) * 10 <= usize::MAX
    }
}

/// The order in which scored matches come out: a higher score first; equal scores
/// compare equal, so a stable sort keeps their index order.
pub fn score_order_desc(a: &(i64, usize), b: &(i64, usize)) -> (r: Ordering)
    ensures
        r == Ordering::Less <==> a.0 > b.0,
        r == Ordering::Greater <==> a.0 < b.0,
        r == Ordering::Equal <==> a.0 == b.0,
{
    if a.0 > b.0 {
        Ordering::Less
    } else if a.0 < b.0 {
        Ordering::Greater
    } else {
        Ordering::Equal
    }
}

/// `slice::sort_by` with `score_order_desc` as the comparison. That sort is stable, so
/// the result is the insertion-sort order `sort_desc`.
#[verifier::external_body]
fn sort_by_score_desc(v: &mut Vec<(i64, usize)>)
    ensures
        final(v)@ == sort_desc(old(v)@),
{
    v.sort_by(|a, b| score_order_desc(a, b))
}

/// Drops cached search results after the index changed. Searches here are answered
/// from the index each time and keep no cache, so there is nothing to drop.
pub fn invalidate_search_cache() {
}

/// File-name search over an index.
pub struct Searcher;

impl Searcher {
    /// Searches the index: glob matching when the query asks for it, else regex
    /// matching when asked, else fuzzy matching (see `search_spec`).
    pub fn search(query: &SearchQuery, index: &FileIndex) -> (r: Vec<FileEntry>)
        requires
            search_fits(*query),
        ensures
            entry_views(r@) == search_spec(*query, index@.entries),
    {
        if query.pattern.as_str().is_empty() {
            let r: Vec<FileEntry> = Vec::new();
            assert(entry_views(r@) =~= Seq::<FileEntryView>::empty());
            return r;
        }
        if query.glob {
            Self::glob_search_owned(query, index)
        } else if query.regex {
            Self::regex_search_owned(query, index)
        } else {
            Self::fuzzy_search_owned(query, index)
        }
    }

    /// `search`, checked first: `None` when the query's limit and offset are so large
    /// that the search's arithmetic would overflow (see `search_fits`), `Some` of its
    /// answer otherwise. The answer depends on the query and the index alone: nothing
    /// is kept from one search to the next.
    pub fn search_checked(query: &SearchQuery, index: &FileIndex) -> (r: Option<Vec<FileEntry>>)
        ensures
            r is None <==> !search_fits(*query),
            r matches Some(v) ==> entry_views(v@) == search_spec(*query, index@.entries),
    {
        if query.pattern.as_str().is_empty() {
            return Some(Self::search(query, index));
        }
        let fits = if query.glob || !query.regex {
            match query.limit.checked_add(query.offset) {
                None => false,
                Some(end) => query.glob || end.checked_mul(10).is_some(),
            }
        } else {
            true
        };
        if fits {
            Some(Self::search(query, index))
        } else {
            None
        }
    }

    fn glob_search_owned(query: &SearchQuery, index: &FileIndex) -> (r: Vec<FileEntry>)
        requires
            query.limit + query.offset <= usize::MAX,
        ensures
            entry_views(r@) == glob_search_spec(*query, index@.entries),
    {
        let case_sensitive = query.case_sensitive;
        let pattern = if case_sensitive {
            GlobPattern::new(query.pattern.as_str())
        } else {
            let lower = to_lowercase(query.pattern.as_str());
            GlobPattern::new(lower.as_str())
        };
        let pattern = match pattern {
            Some(p) => p,
            None => {
                let r: Vec<FileEntry> = Vec::new();
                assert(entry_views(r@) =~= Seq::<FileEntryView>::empty());
                return r;
            },
        };
        let ghost pat = pattern@;
        let entries = index.entries();
        let ghost ents = entry_views(entries@);
        let offset = query.offset;
        let end = query.limit + query.offset;
        let mut r: Vec<FileEntry> = Vec::new();
        let mut seen: usize = 0;
        let mut i: usize = 0;
        while i < entries.len()
            invariant
                i <= entries@.len(),
                ents == entry_views(entries@),
                ents == index@.entries,
                pattern@ == pat,
                end == offset + query.limit,
                seen as nat == glob_hits(ents.take(i as int), pat, case_sensitive, query.size_filter).len(),
                seen <= i,
                entry_views(r@) == page(glob_hits(ents.take(i as int), pat, case_sensitive, query.size_filter), offset as int, query.limit as int),
            decreases entries@.len() - i,
        {
            let e = &entries[i];
            assert(ents.take(i + 1).drop_last() =~= ents.take(i as int));
            assert(ents.take(i + 1).last() == e@);
            let hit = query.size_filter.matches(e.size) && if case_sensitive {
                pattern.matches(e.name.as_str())
            } else {
                pattern.matches(e.name_lower.as_str())
            };
            assert(glob_hits(ents.take(i + 1), pat, case_sensitive, query.size_filter) == if hit {
                glob_hits(ents.take(i as int), pat, case_sensitive, query.size_filter).push(e@)
            } else {
                glob_hits(ents.take(i as int), pat, case_sensitive, query.size_filter)
            });
            if hit {
                proof {
                    lemma_page_push(glob_hits(ents.take(i as int), pat, case_sensitive, query.size_filter), e@, offset as int, query.limit as int);
                }
                if offset <= seen && seen < end {
                    r.push(e.clone());
                    assert(entry_views(r@) =~= page(glob_hits(ents.take(i as int), pat, case_sensitive, query.size_filter), offset as int, query.limit as int).push(e@));
                }
                seen = seen + 1;
            }
            i = i + 1;
        }
        assert(ents.take(entries@.len() as int) =~= ents);
        r
    }

    fn regex_search_owned(query: &SearchQuery, index: &FileIndex) -> (r: Vec<FileEntry>)
        ensures
            entry_views(r@) == regex_search_spec(*query, index@.entries),
    {
        let source = if query.case_sensitive {
            query.pattern.clone()
        } else {
            let mut s = String::new();
            crate::text::push_char(&mut s, '(');
            crate::text::push_char(&mut s, '?');
            crate::text::push_char(&mut s, 'i');
            crate::text::push_char(&mut s, ')');
            let s = s.concat(query.pattern.as_str());
            s
        };
        assert(source@ =~= regex_source(*query));
        let re = match CompiledRegex::new(source.as_str()) {
            Some(re) => re,
            None => {
                let r: Vec<FileEntry> = Vec::new();
                assert(entry_views(r@) =~= Seq::<FileEntryView>::empty());
                return r;
            },
        };
        let entries = index.entries();
        let ghost ents = entry_views(entries@);
        let mut r: Vec<FileEntry> = Vec::new();
        let mut i: usize = 0;
        while i < entries.len()
            invariant
                i <= entries@.len(),
                ents == entry_views(entries@),
                re@ == regex_source(*query),
                entry_views(r@) == regex_hits(ents.take(i as int), re@, query.size_filter),
            decreases entries@.len() - i,
        {
            let e = &entries[i];
            assert(ents.take(i + 1).drop_last() =~= ents.take(i as int));
            assert(ents.take(i + 1).last() == e@);
            if query.size_filter.matches(e.size) && re.is_match(e.name.as_str()) {
                r.push(e.clone());
                assert(entry_views(r@) =~= regex_hits(ents.take(i as int), re@, query.size_filter).push(e@));
            }
            i = i + 1;
        }
        assert(ents.take(entries@.len() as int) =~= ents);
        r
    }

    fn fuzzy_search_owned(query: &SearchQuery, index: &FileIndex) -> (r: Vec<FileEntry>)
        requires
            query.limit + query.offset <= usize::MAX,
            (query.limit + query.offset) * 10 <= usize::MAX,
        ensures
            entry_views(r@) == fuzzy_search_spec(*query, index@.entries),
    {
        let case_sensitive = query.case_sensitive;
        let scorer = FuzzyScorer::new(case_sensitive);
        let pattern = if case_sensitive { query.pattern.clone() } else { to_lowercase(query.pattern.as_str()) };
        let limit = query.limit + query.offset;
        let high_quality_threshold = limit * 10;
        let entries = index.entries();
        let ghost ents = entry_views(entries@);
        let entry_count = entries.len();
        let capped = entry_count > 5000 && entry_count <= 50000;
        let ghost cap = fuzzy_cap(entry_count as nat, limit as nat);
        let mut matches: Vec<(i64, usize)> = Vec::new();
        let mut found_count: usize = 0;
        let mut i: usize = 0;
        while i < entry_count
            invariant
                i <= entry_count == entries@.len(),
                ents == entry_views(entries@),
                scorer@ == case_sensitive,
                capped == (cap is Some),
                cap matches Some(c) ==> c == high_quality_threshold,
                cap == fuzzy_cap(entry_count as nat, limit as nat),
                matches@ == scored(ents, i as nat, pattern@, case_sensitive, cap, query.size_filter),
                found_count as nat == positives(matches@),
                found_count <= i,
            decreases entry_count - i,
        {
            proof { lemma_scored_bounded(ents, i as nat, pattern@, case_sensitive, cap, query.size_filter); }
            if capped && found_count >= high_quality_threshold {
                i = i + 1;
                continue;
            }
            let e = &entries[i];
            assert(ents[i as int] == e@);
            if !query.size_filter.matches(e.size) {
                i = i + 1;
                continue;
            }
            let name = if case_sensitive { e.name.as_str() } else { e.name_lower.as_str() };
            match scorer.fuzzy_match(name, pattern.as_str()) {
                Some(score) => {
                    assert(matches@.push((score, i)).drop_last() =~= matches@);
                    matches.push((score, i));
                    if score > 0 {
                        found_count = found_count + 1;
                    }
                },
                None => {},
            }
            i = i + 1;
        }
        proof {
            lemma_scored_bounded(ents, entry_count as nat, pattern@, case_sensitive, cap, query.size_filter);
            lemma_sort_desc_bounded(matches@, entry_count as int);
        }
        let ghost all = matches@;
        sort_by_score_desc(&mut matches);
        let ghost sorted = matches@;
        let keep = if matches.len() > limit { limit } else { matches.len() };
        let ghost kept = sorted.take(keep as int);
        let offset = query.offset;
        let page_limit = query.limit;
        let mut r: Vec<FileEntry> = Vec::new();
        let mut j: usize = offset;
        let stop = if offset >= keep { keep } else if keep - offset > page_limit { offset + page_limit } else { keep };
        let ghost pg = page(kept, offset as int, page_limit as int);
        if offset >= keep {
            assert(pg =~= Seq::<(i64, usize)>::empty());
            assert(entry_views(r@) =~= pg.map_values(|p: (i64, usize)| ents[p.1 as int]));
            return r;
        }
        assert(pg =~= kept.subrange(offset as int, stop as int));
        while j < stop
            invariant
                offset <= j <= stop <= keep <= sorted.len(),
                sorted == matches@,
                kept == sorted.take(keep as int),
                ents == entry_views(entries@),
                forall|k: int| 0 <= k < sorted.len() ==> (#[trigger] sorted[k]).1 < entries@.len(),
                entry_views(r@) == kept.subrange(offset as int, j as int).map_values(|p: (i64, usize)| ents[p.1 as int]),
            decreases stop - j,
        {
            let idx = matches[j].1;
            assert(sorted[j as int].1 < entries@.len());
            r.push(entries[idx].clone());
            assert(kept.subrange(offset as int, j + 1) =~= kept.subrange(offset as int, j as int).push(kept[j as int]));
            assert(entry_views(r@) =~= kept.subrange(offset as int, j as int).map_values(|p: (i64, usize)| ents[p.1 as int]).push(ents[idx as int]));
            j = j + 1;
        }
        r
    }
}

/// Pairs in descending order of score.
pub open spec fn sorted_by_score_desc(s: Seq<(i64, usize)>) -> bool {
    forall|i: int, j: int| 0 <= i < j < s.len() ==> s[i].0 >= s[j].0
}

proof fn lemma_insert_desc(s: Seq<(i64, usize)>, x: (i64, usize))
    requires
        sorted_by_score_desc(s),
    ensures
        sorted_by_score_desc(insert_desc(s, x)),
        insert_desc(s, x).to_multiset() =~= s.to_multiset().insert(x),
    decreases s.len(),
{
    broadcast use vstd::seq_lib::group_to_multiset_ensures;
    if s.len() == 0 {
        assert(seq![x] =~= Seq::<(i64, usize)>::empty().push(x));
    } else if s.last().0 >= x.0 {
    } else {
        let p = s.drop_last();
        let l = s.last();
        lemma_insert_desc(p, x);
        let r = insert_desc(p, x);
        assert forall|i: int| 0 <= i < r.len() implies r[i].0 >= l.0 by {
            assert(r.to_multiset().count(r[i]) > 0);
            if r[i] != x {
                assert(p.to_multiset().count(r[i]) > 0);
                assert(p.contains(r[i]));
                let k = choose|k: int| 0 <= k < p.len() && p[k] == r[i];
                assert(s[k] == p[k]);
            }
        }
        assert(s =~= p.push(l));
    }
}

proof fn lemma_sort_desc(s: Seq<(i64, usize)>)
    ensures
        sorted_by_score_desc(sort_desc(s)),
        sort_desc(s).to_multiset() =~= s.to_multiset(),
    decreases s.len(),
{
    broadcast use vstd::seq_lib::group_to_multiset_ensures;
    if s.len() > 0 {
        lemma_sort_desc(s.drop_last());
        lemma_insert_desc(sort_desc(s.drop_last()), s.last());
        assert(s =~= s.drop_last().push(s.last()));
    } else {
        assert(s.to_multiset() =~= sort_desc(s).to_multiset());
    }
}

/// Fuzzy results are ranked by relevance: the scored matches are put in descending
/// order of score, with no match lost or added by the ordering.
pub proof fn law_fuzzy_ranking(s: Seq<(i64, usize)>)
    ensures
        sorted_by_score_desc(sort_desc(s)),
        sort_desc(s).to_multiset() == s.to_multiset(),
{
    lemma_sort_desc(s);
}

/// The name a file-name search looks at: the name as written when case-sensitive, its
/// stored lowercase form otherwise.
pub open spec fn search_key(e: FileEntryView, case_sensitive: bool) -> Seq<char> {
    if case_sensitive {
        e.name
    } else {
        e.name_lower
    }
}

proof fn lemma_glob_hits(entries: Seq<FileEntryView>, pat: Seq<char>, cs: bool, f: SizeFilter)
    ensures
        forall|i: int| 0 <= i < glob_hits(entries, pat, cs, f).len() ==> {
            &&& entries.contains(#[trigger] glob_hits(entries, pat, cs, f)[i])
            &&& glob_matches(pat, search_key(glob_hits(entries, pat, cs, f)[i], cs))
            &&& admits(f, glob_hits(entries, pat, cs, f)[i].size)
        },
    decreases entries.len(),
{
    if entries.len() > 0 {
        let p = entries.drop_last();
        lemma_glob_hits(p, pat, cs, f);
        let h = glob_hits(entries, pat, cs, f);
        let hp = glob_hits(p, pat, cs, f);
        assert forall|i: int| 0 <= i < h.len() implies entries.contains(#[trigger] h[i]) && glob_matches(pat, search_key(h[i], cs)) && admits(f, h[i].size) by {
            if i < hp.len() {
                assert(h[i] == hp[i]);
                assert(p.contains(hp[i]));
                let k = choose|k: int| 0 <= k < p.len() && p[k] == hp[i];
                assert(entries[k] == p[k]);
            } else {
                assert(h[i] == entries.last());
                assert(entries[entries.len() - 1] == entries.last());
            }
        }
    }
}

proof fn lemma_regex_hits(entries: Seq<FileEntryView>, pat: Seq<char>, f: SizeFilter)
    ensures
        forall|i: int| 0 <= i < regex_hits(entries, pat, f).len() ==> {
            &&& entries.contains(#[trigger] regex_hits(entries, pat, f)[i])
            &&& regex_is_match(pat, regex_hits(entries, pat, f)[i].name)
            &&& admits(f, regex_hits(entries, pat, f)[i].size)
        },
    decreases entries.len(),
{
    if entries.len() > 0 {
        let p = entries.drop_last();
        lemma_regex_hits(p, pat, f);
        let h = regex_hits(entries, pat, f);
        let hp = regex_hits(p, pat, f);
        assert forall|i: int| 0 <= i < h.len() implies entries.contains(#[trigger] h[i]) && regex_is_match(pat, h[i].name) && admits(f, h[i].size) by {
            if i < hp.len() {
                assert(h[i] == hp[i]);
                assert(p.contains(hp[i]));
                let k = choose|k: int| 0 <= k < p.len() && p[k] == hp[i];
                assert(entries[k] == p[k]);
            } else {
                assert(h[i] == entries.last());
                assert(entries[entries.len() - 1] == entries.last());
            }
        }
    }
}

proof fn lemma_page<T>(s: Seq<T>, offset: int, limit: int)
    requires
        offset >= 0,
        limit >= 0,
    ensures
        page(s, offset, limit).len() <= limit,
        forall|k: int| 0 <= k < page(s, offset, limit).len() ==>
            #[trigger] page(s, offset, limit)[k] == s[offset + k] && offset + k < s.len(),
{
}

/// The property each scored pair has: its position is an entry of the index whose key
/// the pattern fuzzily matches, and its score is that match's score.
pub open spec fn fuzzy_pair_ok(entries: Seq<FileEntryView>, pattern: Seq<char>, cs: bool, f: SizeFilter, p: (i64, usize)) -> bool {
    &&& p.1 < entries.len()
    &&& admits(f, entries[p.1 as int].size)
    &&& skim_match(cs, search_key(entries[p.1 as int], cs), pattern) == Some(p.0)
}

proof fn lemma_scored_ok(entries: Seq<FileEntryView>, n: nat, pattern: Seq<char>, cs: bool, cap: Option<nat>, f: SizeFilter)
    requires
        n <= entries.len(),
        entries.len() <= usize::MAX,
    ensures
        forall|i: int| 0 <= i < scored(entries, n, pattern, cs, cap, f).len() ==>
            fuzzy_pair_ok(entries, pattern, cs, f, #[trigger] scored(entries, n, pattern, cs, cap, f)[i]),
    decreases n,
{
    if n > 0 {
        lemma_scored_ok(entries, (n - 1) as nat, pattern, cs, cap, f);
        let prev = scored(entries, (n - 1) as nat, pattern, cs, cap, f);
        let cur = scored(entries, n, pattern, cs, cap, f);
        assert forall|i: int| 0 <= i < cur.len() implies fuzzy_pair_ok(entries, pattern, cs, f, #[trigger] cur[i]) by {
            if i < prev.len() {
                assert(cur[i] == prev[i]);
            } else {
                assert(cur[i].1 == (n - 1) as usize);
                assert(search_key(entries[n - 1], cs) == (if cs { entries[n - 1].name } else { entries[n - 1].name_lower }));
            }
        }
    }
}

/// A fuzzy search returns entries of the index whose name (its lowercase form unless
/// case-sensitive) holds the pattern (lowercased unless case-sensitive) as a
/// subsequence and whose size the query's size filter admits, at most `limit` of them.
pub proof fn law_fuzzy_results_match(q: SearchQuery, entries: Seq<FileEntryView>)
    requires
        entries.len() <= usize::MAX,
    ensures
        fuzzy_search_spec(q, entries).len() <= q.limit,
        forall|i: int| 0 <= i < fuzzy_search_spec(q, entries).len() ==> {
            &&& entries.contains(#[trigger] fuzzy_search_spec(q, entries)[i])
            &&& is_subsequence(
                if q.case_sensitive { q.pattern@ } else { lowercase(q.pattern@) },
                search_key(fuzzy_search_spec(q, entries)[i], q.case_sensitive),
                q.case_sensitive,
            )
            &&& admits(q.size_filter, fuzzy_search_spec(q, entries)[i].size)
        },
{
    broadcast use vstd::seq_lib::group_to_multiset_ensures;
    let pat = if q.case_sensitive { q.pattern@ } else { lowercase(q.pattern@) };
    let cs = q.case_sensitive;
    let lim = q.limit + q.offset;
    let all = scored(entries, entries.len(), pat, cs, fuzzy_cap(entries.len(), lim as nat), q.size_filter);
    lemma_scored_ok(entries, entries.len(), pat, cs, fuzzy_cap(entries.len(), lim as nat), q.size_filter);
    let sorted = sort_desc(all);
    lemma_sort_desc(all);
    let kept = sorted.take(fuzzy_keep(sorted.len() as int, lim));
    lemma_page(kept, q.offset as int, q.limit as int);
    let pg = page(kept, q.offset as int, q.limit as int);
    let r = fuzzy_search_spec(q, entries);
    assert(r == pg.map_values(|p: (i64, usize)| entries[p.1 as int]));
    assert forall|i: int| 0 <= i < r.len() implies entries.contains(#[trigger] r[i]) && is_subsequence(pat, search_key(r[i], cs), cs) && admits(q.size_filter, r[i].size) by {
        let p = pg[i];
        assert(p == kept[q.offset + i]);
        assert(p == sorted[q.offset + i]);
        assert(sorted.to_multiset().count(p) > 0);
        assert(all.to_multiset().count(p) > 0);
        assert(all.contains(p));
        let k = choose|k: int| 0 <= k < all.len() && all[k] == p;
        assert(fuzzy_pair_ok(entries, pat, cs, q.size_filter, all[k]));
        assert(r[i] == entries[p.1 as int]);
    }
}

/// A glob search returns at most `limit` entries, each an entry of the index whose
/// name (its lowercase form unless case-sensitive) the pattern matches and whose size
/// the query's size filter admits.
pub proof fn law_glob_results_match(q: SearchQuery, entries: Seq<FileEntryView>)
    ensures
        glob_search_spec(q, entries).len() <= q.limit,
        forall|i: int| 0 <= i < glob_search_spec(q, entries).len() ==> {
            &&& entries.contains(#[trigger] glob_search_spec(q, entries)[i])
            &&& glob_matches(
                if q.case_sensitive { q.pattern@ } else { lowercase(q.pattern@) },
                search_key(glob_search_spec(q, entries)[i], q.case_sensitive),
            )
            &&& admits(q.size_filter, glob_search_spec(q, entries)[i].size)
        },
{
    let pat = if q.case_sensitive { q.pattern@ } else { lowercase(q.pattern@) };
    if glob_compiles(pat) {
        let h = glob_hits(entries, pat, q.case_sensitive, q.size_filter);
        lemma_glob_hits(entries, pat, q.case_sensitive, q.size_filter);
        lemma_page(h, q.offset as int, q.limit as int);
        let r = page(h, q.offset as int, q.limit as int);
        assert forall|i: int| 0 <= i < r.len() implies entries.contains(#[trigger] r[i]) && glob_matches(pat, search_key(r[i], q.case_sensitive)) && admits(q.size_filter, r[i].size) by {
            assert(r[i] == h[q.offset + i]);
        }
    }
}

/// A regex search returns entries of the index whose name the regex matches (with
/// `(?i)` put before it unless case-sensitive) and whose size the size filter admits.
pub proof fn law_regex_results_match(q: SearchQuery, entries: Seq<FileEntryView>)
    ensures
        forall|i: int| 0 <= i < regex_search_spec(q, entries).len() ==> {
            &&& entries.contains(#[trigger] regex_search_spec(q, entries)[i])
            &&& regex_is_match(regex_source(q), regex_search_spec(q, entries)[i].name)
            &&& admits(q.size_filter, regex_search_spec(q, entries)[i].size)
        },
{
    lemma_regex_hits(entries, regex_source(q), q.size_filter);
}

/// Every entry a search returns has a size the query's size filter admits.
pub proof fn law_search_respects_size_filter(q: SearchQuery, entries: Seq<FileEntryView>)
    requires
        entries.len() <= usize::MAX,
    ensures
        forall|i: int| 0 <= i < search_spec(q, entries).len() ==>
            admits(q.size_filter, #[trigger] search_spec(q, entries)[i].size),
{
    if q.pattern@.len() > 0 {
        if q.glob {
            law_glob_results_match(q, entries);
        } else if q.regex {
            law_regex_results_match(q, entries);
        } else {
            law_fuzzy_results_match(q, entries);
        }
    }
}

proof fn lemma_regex_hits_filter(entries: Seq<FileEntryView>, src: Seq<char>, f: SizeFilter)
    ensures
        regex_hits(entries, src, f) == entries.filter(|e: FileEntryView| admits(f, e.size) && regex_is_match(src, e.name)),
    decreases entries.len(),
{
    reveal(Seq::filter);
    if entries.len() > 0 {
        lemma_regex_hits_filter(entries.drop_last(), src, f);
    }
}

/// A regex search (a non-empty pattern, regex chosen, glob not) answers, in index
/// order, exactly the entries whose size the query's filter admits and whose name the
/// regex matches. The regex is the pattern itself for a case-sensitive query, and the
/// pattern after `(?i)` otherwise, so that matching ignores case. When that regex does
/// not compile, the answer is empty.
pub proof fn law_regex_search_answers(q: SearchQuery, entries: Seq<FileEntryView>)
    requires
        q.regex,
        !q.glob,
        q.pattern@.len() > 0,
    ensures
        ({
            let src = if q.case_sensitive { q.pattern@ } else { seq!['(', '?', 'i', ')'] + q.pattern@ };
            search_spec(q, entries) == if regex_compiles(src) {
                entries.filter(|e: FileEntryView| admits(q.size_filter, e.size) && regex_is_match(src, e.name))
            } else {
                Seq::empty()
            }
        }),
{
    let src = if q.case_sensitive { q.pattern@ } else { seq!['(', '?', 'i', ')'] + q.pattern@ };
    assert(regex_source(q) == src);
    lemma_regex_hits_filter(entries, src, q.size_filter);
}

/// Glob and fuzzy searches return at most `limit` entries (a regex search has no limit).
pub proof fn law_search_respects_limit(q: SearchQuery, entries: Seq<FileEntryView>)
    requires
        q.glob || !q.regex,
    ensures
        search_spec(q, entries).len() <= q.limit,
{
    if q.pattern@.len() > 0 {
        if q.glob {
            law_glob_results_match(q, entries);
        } else {
            let pat = if q.case_sensitive { q.pattern@ } else { lowercase(q.pattern@) };
            let lim = q.limit + q.offset;
            let all = scored(entries, entries.len(), pat, q.case_sensitive, fuzzy_cap(entries.len(), lim as nat), q.size_filter);
            let sorted = sort_desc(all);
            let kept = sorted.take(fuzzy_keep(sorted.len() as int, lim));
            lemma_page(kept, q.offset as int, q.limit as int);
        }
    }
}

/// A content search request.
pub struct ContentSearchQuery {
    pub pattern: String,
    pub case_sensitive: bool,
    pub regex: bool,
    pub max_context: usize,
    pub size_filter: SizeFilter,
}

impl ContentSearchQuery {
    /// A plain-text, case-insensitive query for `pattern` with no context lines.
    pub fn new(pattern: String) -> (r: ContentSearchQuery)
        ensures
            r.pattern@ == pattern@,
            !r.case_sensitive,
            !r.regex,
            r.max_context == 0,
            r.size_filter.min_size == 0,
            r.size_filter.max_size == 0,
    {
        ContentSearchQuery { pattern, case_sensitive: false, regex: false, max_context: 0, size_filter: SizeFilter::default() }
    }

    /// The query with case sensitivity set.
    pub fn with_case_sensitive(self, case_sensitive: bool) -> (r: ContentSearchQuery)
        ensures
            r == (ContentSearchQuery { case_sensitive, ..self }),
    {
        ContentSearchQuery { case_sensitive, ..self }
    }

    /// The query with regex matching set.
    pub fn with_regex(self, regex: bool) -> (r: ContentSearchQuery)
        ensures
            r == (ContentSearchQuery { regex, ..self }),
    {
        ContentSearchQuery { regex, ..self }
    }

    /// The query with the number of context lines set.
    pub fn with_max_context(self, max_context: usize) -> (r: ContentSearchQuery)
        ensures
            r == (ContentSearchQuery { max_context, ..self }),
    {
        ContentSearchQuery { max_context, ..self }
    }

    /// The query with the given size filter.
    pub fn with_size_filter(self, size_filter: SizeFilter) -> (r: ContentSearchQuery)
        ensures
            r == (ContentSearchQuery { size_filter, ..self }),
    {
        ContentSearchQuery { size_filter, ..self }
    }
}

/// One matching line.
#[derive(Debug)]
pub struct ContentMatch {
    pub file_path: String,
    /// 1-based line number.
    pub line_number: usize,
    pub line_content: String,
    pub matched_text: String,
}

/// The value of a `ContentMatch`.
pub struct ContentMatchView {
    pub file_path: Seq<char>,
    pub line_number: usize,
    pub line_content: Seq<char>,
    pub matched_text: Seq<char>,
}

impl View for ContentMatch {
    type V = ContentMatchView;

    open spec fn view(&self) -> ContentMatchView {
        ContentMatchView {
            file_path: self.file_path@,
            line_number: self.line_number,
            line_content: self.line_content@,
            matched_text: self.matched_text@,
        }
    }
}

/// The views of a sequence of matches.
pub open spec fn match_views(v: Seq<ContentMatch>) -> Seq<ContentMatchView> {
    v.map_values(|m: ContentMatch| m@)
}

/// A file handed to the content search: its path, and its bytes when it was read
/// (`None` for a file that was skipped or could not be read).
pub struct FileContents {
    pub path: String,
    pub bytes: Option<Vec<u8>>,
}

/// Position of the first newline byte of `b`, or its length.
pub open spec fn first_newline(b: Seq<u8>) -> nat
    decreases b.len(),
{
    if b.len() == 0 {
        0
    } else if b[0] == 10u8 {
        0
    } else {
        1 + first_newline(b.drop_first())
    }
}

/// A line with the `\r` before its newline removed.
pub open spec fn strip_cr(line: Seq<u8>) -> Seq<u8> {
    if line.len() > 0 && line.last() == 13u8 {
        line.drop_last()
    } else {
        line
    }
}

/// The lines `BufRead::lines` yields for these bytes: split at `\n`, a `\r` before
/// a `\n` dropped, and no empty line after a final `\n`.
pub open spec fn split_lines(b: Seq<u8>) -> Seq<Seq<u8>>
    decreases b.len(),
{
    if b.len() == 0 {
        Seq::empty()
    } else {
        let i = first_newline(b) as int;
        if i < b.len() {
            seq![strip_cr(b.take(i))] + split_lines(b.skip(i + 1))
        } else {
            seq![b]
        }
    }
}

/// Whether the first read of a file (up to 8192 bytes) holds a zero byte.
pub open spec fn looks_binary(b: Seq<u8>) -> bool {
    exists|i: int| 0 <= i < b.len() && i < 8192 && b[i] == 0u8
}

/// Whether a file is over the 10 MiB that a content search reads.
pub open spec fn too_large(b: Seq<u8>) -> bool {
    b.len() > 10485760
}

/// The regex source of a content query: the pattern, prefixed with `(?i)` unless case-sensitive.
pub open spec fn content_regex_source(q: ContentSearchQuery) -> Seq<char> {
    if q.case_sensitive {
        q.pattern@
    } else {
        seq!['(', '?', 'i', ')'] + q.pattern@
    }
}

/// What a line contributes as matched text, if it matches:
/// regex mode gives the leftmost-first match; case-sensitive text mode gives the
/// pattern when it occurs; case-insensitive text mode finds the lowercased pattern in
/// the lowercased line and gives the line's text at the same byte positions.
pub open spec fn line_match(q: ContentSearchQuery, line: Seq<char>) -> Option<Seq<char>> {
    if q.regex {
        if regex_compiles(content_regex_source(q)) {
            regex_find(content_regex_source(q), line)
        } else {
            None
        }
    } else if q.case_sensitive {
        if find_bytes(encode_utf8(line), encode_utf8(q.pattern@)) is Some {
            Some(q.pattern@)
        } else {
            None
        }
    } else {
        let needle = encode_utf8(lowercase(q.pattern@));
        match find_bytes(encode_utf8(lowercase(line)), needle) {
            Some(b) => Some(decode_utf8(encode_utf8(line).subrange(b, b + needle.len()))),
            None => None,
        }
    }
}

/// The byte positions a case-insensitive match takes from the lowercased line are
/// character boundaries of the line itself (otherwise slicing the line fails).
pub open spec fn line_match_defined(q: ContentSearchQuery, line: Seq<char>) -> bool {
    !q.regex && !q.case_sensitive ==> {
        let needle = encode_utf8(lowercase(q.pattern@));
        match find_bytes(encode_utf8(lowercase(line)), needle) {
            Some(b) => is_char_boundary(encode_utf8(line), b) && is_char_boundary(encode_utf8(line), b + needle.len()),
            None => true,
        }
    }
}

/// The matches among the first `n` lines, at most 100 (lines that are not valid

/// In regex mode a content query matches a line by the regex's leftmost match: the
/// regex is the pattern for a case-sensitive query, and the pattern after `(?i)`
/// otherwise, so that matching ignores case; a regex that does not compile matches no
/// line.
pub proof fn law_content_regex_match(q: ContentSearchQuery, line: Seq<char>)
    requires
        q.regex,
    ensures
        ({
            let src = if q.case_sensitive { q.pattern@ } else { seq!['(', '?', 'i', ')'] + q.pattern@ };
            line_match(q, line) == if regex_compiles(src) { regex_find(src, line) } else { None }
        }),
{
    let src = if q.case_sensitive { q.pattern@ } else { seq!['(', '?', 'i', ')'] + q.pattern@ };
    assert(content_regex_source(q) == src);
}

/// UTF-8 are skipped but counted).
pub open spec fn scan_lines(q: ContentSearchQuery, path: Seq<char>, lines: Seq<Seq<u8>>, n: nat) -> Seq<ContentMatchView>
    decreases n,
{
    if n == 0 {
        Seq::empty()
    } else {
        let prev = scan_lines(q, path, lines, (n - 1) as nat);
        let bytes = lines[n - 1];
        if prev.len() >= 100 || !valid_utf8(bytes) {
            prev
        } else {
            match line_match(q, decode_utf8(bytes)) {
                Some(m) => prev.push(ContentMatchView {
                    file_path: path,
                    line_number: n as usize,
                    line_content: decode_utf8(bytes),
                    matched_text: m,
                }),
                None => prev,
            }
        }
    }
}

/// Every line the scan of the first `n` lines looks at has a defined match.
pub open spec fn scan_defined(q: ContentSearchQuery, lines: Seq<Seq<u8>>, n: nat) -> bool
    decreases n,
{
    if n == 0 {
        true
    } else {
        &&& scan_defined(q, lines, (n - 1) as nat)
        &&& (scan_lines(q, Seq::empty(), lines, (n - 1) as nat).len() < 100 && valid_utf8(lines[n - 1]))
            ==> line_match_defined(q, decode_utf8(lines[n - 1]))
    }
}

/// The matches of one file's bytes: none for a file over 10 MiB or a binary file, else
/// the line scan.
pub open spec fn file_matches(q: ContentSearchQuery, path: Seq<char>, bytes: Seq<u8>) -> Seq<ContentMatchView> {
    if too_large(bytes) || looks_binary(bytes) {
        Seq::empty()
    } else {
        scan_lines(q, path, split_lines(bytes), split_lines(bytes).len())
    }
}

/// Searching the file's bytes needs no slicing that would fail.
pub open spec fn file_defined(q: ContentSearchQuery, bytes: Seq<u8>) -> bool {
    too_large(bytes) || looks_binary(bytes) || scan_defined(q, split_lines(bytes), split_lines(bytes).len())
}

/// The matches of a file as handed over (none when it was not read).
pub open spec fn contents_matches(q: ContentSearchQuery, f: FileContents) -> Seq<ContentMatchView> {
    match f.bytes {
        Some(b) => file_matches(q, f.path@, b@),
        None => Seq::empty(),
    }
}

/// The matches of all files, file after file; none for an empty pattern.
pub open spec fn files_matches(q: ContentSearchQuery, files: Seq<FileContents>) -> Seq<ContentMatchView>
    decreases files.len(),
{
    if q.pattern@.len() == 0 || files.len() == 0 {
        Seq::empty()
    } else {
        files_matches(q, files.drop_last()) + contents_matches(q, files.last())
    }
}

/// Every file handed over can be searched without a failing slice.
pub open spec fn files_defined(q: ContentSearchQuery, files: Seq<FileContents>) -> bool {
    forall|i: int| 0 <= i < files.len() ==> ((#[trigger] files[i]).bytes matches Some(b) ==> file_defined(q, b@))
}

proof fn lemma_scan_path(q: ContentSearchQuery, path: Seq<char>, lines: Seq<Seq<u8>>, n: nat)
    ensures
        scan_lines(q, path, lines, n).len() == scan_lines(q, Seq::empty(), lines, n).len(),
    decreases n,
{
    if n > 0 {
        lemma_scan_path(q, path, lines, (n - 1) as nat);
    }
}

proof fn lemma_first_newline(b: Seq<u8>, j: int)
    requires
        0 <= j <= b.len(),
        j < b.len() ==> b[j] == 10u8,
        forall|k: int| 0 <= k < j ==> b[k] != 10u8,
    ensures
        first_newline(b) == j,
    decreases j,
{
    if j > 0 {
        assert(b[0] != 10u8);
        lemma_first_newline(b.drop_first(), j - 1);
    }
}

proof fn lemma_first_newline_bound(b: Seq<u8>)
    ensures
        first_newline(b) <= b.len(),
    decreases b.len(),
{
    if b.len() > 0 && b[0] != 10u8 {
        lemma_first_newline_bound(b.drop_first());
    }
}

proof fn lemma_split_lines_len(b: Seq<u8>)
    ensures
        split_lines(b).len() <= b.len(),
    decreases b.len(),
{
    if b.len() > 0 {
        lemma_first_newline_bound(b);
        let i = first_newline(b) as int;
        if i < b.len() {
            lemma_split_lines_len(b.skip(i + 1));
        }
    }
}

proof fn lemma_scan_lines(q: ContentSearchQuery, path: Seq<char>, lines: Seq<Seq<u8>>, n: nat)
    requires
        n <= lines.len(),
        n <= usize::MAX,
    ensures
        scan_lines(q, path, lines, n).len() <= 100,
        forall|i: int| 0 <= i < scan_lines(q, path, lines, n).len() ==> {
            let m = #[trigger] scan_lines(q, path, lines, n)[i];
            &&& 1 <= m.line_number <= n
            &&& m.file_path == path
            &&& valid_utf8(lines[m.line_number - 1])
            &&& m.line_content == decode_utf8(lines[m.line_number - 1])
            &&& line_match(q, m.line_content) == Some(m.matched_text)
        },
        forall|i: int, j: int| 0 <= i < j < scan_lines(q, path, lines, n).len() ==>
            (#[trigger] scan_lines(q, path, lines, n)[i]).line_number < (#[trigger] scan_lines(q, path, lines, n)[j]).line_number,
    decreases n,
{
    if n > 0 {
        lemma_scan_lines(q, path, lines, (n - 1) as nat);
        let prev = scan_lines(q, path, lines, (n - 1) as nat);
        let cur = scan_lines(q, path, lines, n);
        assert forall|i: int| 0 <= i < prev.len() implies #[trigger] cur[i] == prev[i] by {
        }
    }
}

proof fn lemma_scan_lines_complete(q: ContentSearchQuery, path: Seq<char>, lines: Seq<Seq<u8>>, n: nat)
    requires
        n <= lines.len(),
        n <= usize::MAX,
    ensures
        scan_lines(q, path, lines, n).len() < 100 ==> forall|k: int| 0 <= k < n && valid_utf8(#[trigger] lines[k])
            && line_match(q, decode_utf8(lines[k])) is Some ==> exists|i: int|
                0 <= i < scan_lines(q, path, lines, n).len() && scan_lines(q, path, lines, n)[i].line_number == k + 1,
    decreases n,
{
    if n > 0 {
        lemma_scan_lines_complete(q, path, lines, (n - 1) as nat);
        let prev = scan_lines(q, path, lines, (n - 1) as nat);
        let cur = scan_lines(q, path, lines, n);
        assert(prev.len() <= cur.len());
        assert forall|i: int| 0 <= i < prev.len() implies #[trigger] cur[i] == prev[i] by {
        }
        if cur.len() < 100 {
            assert forall|k: int| 0 <= k < n && valid_utf8(#[trigger] lines[k])
                && line_match(q, decode_utf8(lines[k])) is Some implies exists|i: int|
                    0 <= i < cur.len() && cur[i].line_number == k + 1 by {
                if k == n - 1 {
                    assert(cur[cur.len() - 1].line_number == k + 1);
                } else {
                    let i = choose|i: int| 0 <= i < prev.len() && prev[i].line_number == k + 1;
                    assert(cur[i] == prev[i]);
                }
            }
        }
    }
}

/// A content search misses no matching line: while a file gives fewer than 100
/// matches, every line of it that decodes as UTF-8 and that the query matches (see
/// `line_match`) has a match with its line number. A file over 10 MiB or one that looks
/// binary gives none.
pub proof fn law_file_matches_complete(q: ContentSearchQuery, path: Seq<char>, bytes: Seq<u8>)
    requires
        bytes.len() <= usize::MAX,
    ensures
        too_large(bytes) || looks_binary(bytes) ==> file_matches(q, path, bytes).len() == 0,
        !too_large(bytes) && !looks_binary(bytes) && file_matches(q, path, bytes).len() < 100 ==>
            forall|k: int| 0 <= k < split_lines(bytes).len() && valid_utf8(#[trigger] split_lines(bytes)[k])
                && line_match(q, decode_utf8(split_lines(bytes)[k])) is Some ==> exists|i: int|
                    0 <= i < file_matches(q, path, bytes).len() && file_matches(q, path, bytes)[i].line_number == k + 1,
{
    if !too_large(bytes) && !looks_binary(bytes) {
        lemma_split_lines_len(bytes);
        let lines = split_lines(bytes);
        lemma_scan_lines_complete(q, path, lines, lines.len());
    }
}

/// Each match of a content search names the file, a 1-based line number within it and
/// that line's text, and carries the text the query matched in that line. A file gives
/// at most 100 matches, in increasing line order.
pub proof fn law_file_matches_well_formed(q: ContentSearchQuery, path: Seq<char>, bytes: Seq<u8>)
    requires
        bytes.len() <= usize::MAX,
    ensures
        file_matches(q, path, bytes).len() <= 100,
        forall|i: int| 0 <= i < file_matches(q, path, bytes).len() ==> {
            let m = #[trigger] file_matches(q, path, bytes)[i];
            &&& 1 <= m.line_number <= split_lines(bytes).len()
            &&& m.file_path == path
            &&& m.line_content == decode_utf8(split_lines(bytes)[m.line_number - 1])
            &&& line_match(q, m.line_content) == Some(m.matched_text)
        },
        forall|i: int, j: int| 0 <= i < j < file_matches(q, path, bytes).len() ==>
            (#[trigger] file_matches(q, path, bytes)[i]).line_number < (#[trigger] file_matches(q, path, bytes)[j]).line_number,
{
    if !too_large(bytes) && !looks_binary(bytes) {
        lemma_split_lines_len(bytes);
        let lines = split_lines(bytes);
        lemma_scan_lines(q, path, lines, lines.len());
    }
}

/// A copy of `b[lo..hi]`.
fn copy_bytes(b: &[u8], lo: usize, hi: usize) -> (r: Vec<u8>)
    requires
        lo <= hi <= b@.len(),
    ensures
        r@ == b@.subrange(lo as int, hi as int),
{
    let mut r: Vec<u8> = Vec::new();
    let mut i = lo;
    while i < hi
        invariant
            lo <= i <= hi <= b@.len(),
            r@ == b@.subrange(lo as int, i as int),
        decreases hi - i,
    {
        r.push(b[i]);
        assert(b@.subrange(lo as int, i + 1) =~= b@.subrange(lo as int, i as int).push(b@[i as int]));
        i = i + 1;
    }
    r
}

/// The lines of `b`, as `split_lines`.
fn split_into_lines(b: &[u8]) -> (r: Vec<Vec<u8>>)
    ensures
        r@.map_values(|l: Vec<u8>| l@) == split_lines(b@),
{
    let n = b.len();
    let mut r: Vec<Vec<u8>> = Vec::new();
    let mut start: usize = 0;
    let mut i: usize = 0;
    assert(b@.skip(0) =~= b@);
    assert(r@.map_values(|l: Vec<u8>| l@) + split_lines(b@) =~= split_lines(b@));
    while i < n
        invariant
            n == b@.len(),
            start <= i <= n,
            forall|k: int| start <= k < i ==> b@[k] != 10u8,
            r@.map_values(|l: Vec<u8>| l@) + split_lines(b@.skip(start as int)) == split_lines(b@),
        decreases n - i,
    {
        if b[i] == 10u8 {
            let ghost rest = b@.skip(start as int);
            proof {
                lemma_first_newline(rest, i - start);
                assert(rest.take(i - start) =~= b@.subrange(start as int, i as int));
                assert(rest.skip(i - start + 1) =~= b@.skip(i + 1));
            }
            let mut end = i;
            if end > start && b[end - 1] == 13u8 {
                end = end - 1;
            }
            let line = copy_bytes(b, start, end);
            assert(line@ == strip_cr(rest.take(i - start)));
            let ghost before = r@.map_values(|l: Vec<u8>| l@);
            r.push(line);
            assert(r@.map_values(|l: Vec<u8>| l@) =~= before.push(line@));
            assert(before.push(line@) + split_lines(b@.skip(i + 1)) =~= before + (seq![line@] + split_lines(b@.skip(i + 1))));
            start = i + 1;
        }
        i = i + 1;
    }
    if start < n {
        let ghost rest = b@.skip(start as int);
        proof {
            lemma_first_newline(rest, n - start);
        }
        let line = copy_bytes(b, start, n);
        assert(line@ =~= rest);
        let ghost before = r@.map_values(|l: Vec<u8>| l@);
        r.push(line);
        assert(r@.map_values(|l: Vec<u8>| l@) =~= before.push(line@));
        assert(before.push(line@) =~= before + split_lines(rest));
    } else {
        assert(b@.skip(start as int) =~= Seq::<u8>::empty());
        assert(r@.map_values(|l: Vec<u8>| l@) + Seq::<Seq<u8>>::empty() =~= r@.map_values(|l: Vec<u8>| l@));
    }
    r
}

/// Line-by-line content search.
pub struct ContentSearcher;

impl ContentSearcher {
    /// The match of one line: `None` when the case-insensitive byte positions are not
    /// character boundaries of the line, else `Some` of what `line_match` gives.
    fn match_line(q: &ContentSearchQuery, re: &Option<CompiledRegex>, pattern: &String, line: &str) -> (r: Option<Option<String>>)
        requires
            q.regex ==> (re.is_some() == regex_compiles(content_regex_source(*q))),
            q.regex ==> (re matches Some(x) ==> x@ == content_regex_source(*q)),
            pattern@ == (if q.case_sensitive { q.pattern@ } else { lowercase(q.pattern@) }),
        ensures
            r is None <==> !line_match_defined(*q, line@),
            r matches Some(m) ==> (m matches Some(t) ==> line_match(*q, line@) == Some(t@)),
            r matches Some(m) ==> (m is None ==> line_match(*q, line@) is None),
    {
        if q.regex {
            match re {
                Some(re) => Some(re.find(line)),
                None => Some(None),
            }
        } else if q.case_sensitive {
            match find_in_bytes(bytes_of(line), bytes_of(pattern.as_str())) {
                Some(_) => Some(Some(pattern.clone())),
                None => Some(None),
            }
        } else {
            let lower_line = to_lowercase(line);
            let needle = bytes_of(pattern.as_str());
            let hay = bytes_of(lower_line.as_str());
            match find_in_bytes(hay, needle) {
                Some(b) => {
                    proof { lemma_find_bytes_found(hay@, needle@, 0); }
                    let hl = hay.len();
                    assert(b + needle@.len() <= hl);
                    let e = b + needle.len();
                    if line.is_char_boundary(b) && line.is_char_boundary(e) {
                        Some(Some(byte_slice_str(line, b, e)))
                    } else {
                        None
                    }
                },
                None => Some(None),
            }
        }
    }

    /// The matches of one file's bytes, or `None` when a case-insensitive match would
    /// take byte positions that are not character boundaries of its line.
    fn scan_checked(q: &ContentSearchQuery, path: &str, bytes: &[u8]) -> (r: Option<Vec<ContentMatch>>)
        ensures
            r is None <==> !file_defined(*q, bytes@),
            r matches Some(v) ==> match_views(v@) == file_matches(*q, path@, bytes@),
    {
        if bytes.len() > 10485760 {
            let r: Vec<ContentMatch> = Vec::new();
            assert(match_views(r@) =~= Seq::<ContentMatchView>::empty());
            return Some(r);
        }
        let head = if bytes.len() < 8192 { bytes.len() } else { 8192 };
        let mut k: usize = 0;
        while k < head
            invariant
                head <= bytes@.len() <= 10485760,
                head <= 8192,
                head == bytes@.len() || head == 8192,
                k <= head,
                forall|j: int| 0 <= j < k ==> bytes@[j] != 0u8,
            decreases head - k,
        {
            if bytes[k] == 0u8 {
                assert(looks_binary(bytes@));
                let r: Vec<ContentMatch> = Vec::new();
                assert(match_views(r@) =~= Seq::<ContentMatchView>::empty());
                return Some(r);
            }
            k = k + 1;
        }
        assert(!looks_binary(bytes@));
        let source = if q.case_sensitive {
            q.pattern.clone()
        } else {
            let mut s = String::new();
            crate::text::push_char(&mut s, '(');
            crate::text::push_char(&mut s, '?');
            crate::text::push_char(&mut s, 'i');
            crate::text::push_char(&mut s, ')');
            s.concat(q.pattern.as_str())
        };
        assert(source@ =~= content_regex_source(*q));
        let re = if q.regex { CompiledRegex::new(source.as_str()) } else { None };
        let pattern = if q.case_sensitive { q.pattern.clone() } else { to_lowercase(q.pattern.as_str()) };
        let lines = split_into_lines(bytes);
        let ghost ls = split_lines(bytes@);
        let mut r: Vec<ContentMatch> = Vec::new();
        let mut i: usize = 0;
        while i < lines.len()
            invariant
                i <= lines@.len(),
                lines@.map_values(|l: Vec<u8>| l@) == ls,
                ls == split_lines(bytes@),
                !looks_binary(bytes@),
                !too_large(bytes@),
                q.regex ==> (re.is_some() == regex_compiles(content_regex_source(*q))),
                q.regex ==> (re matches Some(x) ==> x@ == content_regex_source(*q)),
                pattern@ == (if q.case_sensitive { q.pattern@ } else { lowercase(q.pattern@) }),
                scan_defined(*q, ls, i as nat),
                match_views(r@) == scan_lines(*q, path@, ls, i as nat),
            decreases lines@.len() - i,
        {
            proof { lemma_scan_path(*q, path@, ls, i as nat); }
            assert(ls[i as int] == lines@[i as int]@);
            if r.len() >= 100 {
                i = i + 1;
                continue;
            }
            match decode_utf8_bytes(lines[i].clone()) {
                None => {},
                Some(line) => {
                    match Self::match_line(q, &re, &pattern, line.as_str()) {
                        None => {
                            assert(!scan_defined(*q, ls, (i + 1) as nat));
                            proof { lemma_scan_defined_mono(*q, ls, (i + 1) as nat, ls.len()); }
                            return None;
                        },
                        Some(None) => {},
                        Some(Some(m)) => {
                            let ghost before = match_views(r@);
                            r.push(ContentMatch {
                                file_path: path.to_string(),
                                line_number: i + 1,
                                line_content: line,
                                matched_text: m,
                            });
                            assert(match_views(r@) =~= before.push(r@.last()@));
                        },
                    }
                },
            }
            i = i + 1;
        }
        Some(r)
    }

    /// The matches of one file's bytes (see `file_matches`).
    pub fn search_file(query: &ContentSearchQuery, path: &str, bytes: &[u8]) -> (r: Vec<ContentMatch>)
        requires
            file_defined(*query, bytes@),
        ensures
            match_views(r@) == file_matches(*query, path@, bytes@),
    {
        match Self::scan_checked(query, path, bytes) {
            Some(v) => v,
            None => {
                let r: Vec<ContentMatch> = Vec::new();
                r
            },
        }
    }

    /// `search_file`, checked first: `None` when the file holds a line on which a
    /// case-insensitive match would take byte positions that are not character
    /// boundaries of the line (where `search_file` has no answer); `Some` of its
    /// matches otherwise.
    pub fn search_file_checked(query: &ContentSearchQuery, path: &str, bytes: &[u8]) -> (r: Option<Vec<ContentMatch>>)
        ensures
            r is None <==> !file_defined(*query, bytes@),
            r matches Some(v) ==> match_views(v@) == file_matches(*query, path@, bytes@),
    {
        Self::scan_checked(query, path, bytes)
    }

    /// The matches of all files handed over, file after file; none for an empty pattern.
    pub fn search_files(query: &ContentSearchQuery, files: &Vec<FileContents>) -> (r: Vec<ContentMatch>)
        requires
            files_defined(*query, files@),
        ensures
            match_views(r@) == files_matches(*query, files@),
    {
        match Self::search_files_checked(query, files) {
            Some(v) => v,
            None => {
                let r: Vec<ContentMatch> = Vec::new();
                r
            },
        }
    }

    /// `search_files`, checked first: `None` when some file holds a line on which a
    /// case-insensitive match would take byte positions that are not character
    /// boundaries of the line; `Some` of the matches otherwise.
    pub fn search_files_checked(query: &ContentSearchQuery, files: &Vec<FileContents>) -> (r: Option<Vec<ContentMatch>>)
        ensures
            r is None <==> (query.pattern@.len() > 0 && !files_defined(*query, files@)),
            r matches Some(v) ==> match_views(v@) == files_matches(*query, files@),
    {
        let mut r: Vec<ContentMatch> = Vec::new();
        if query.pattern.as_str().is_empty() {
            proof { lemma_files_matches_empty_pattern(*query, files@); }
            assert(match_views(r@) =~= Seq::<ContentMatchView>::empty());
            return Some(r);
        }
        let mut i: usize = 0;
        while i < files.len()
            invariant
                i <= files@.len(),
                query.pattern@.len() > 0,
                files_defined(*query, files@.take(i as int)),
                match_views(r@) == files_matches(*query, files@.take(i as int)),
            decreases files@.len() - i,
        {
            assert(files@.take(i + 1).drop_last() =~= files@.take(i as int));
            assert(files@.take(i + 1).last() == files@[i as int]);
            let f = &files[i];
            match &f.bytes {
                None => {
                    assert(match_views(r@) =~= files_matches(*query, files@.take(i as int)) + Seq::<ContentMatchView>::empty());
                },
                Some(b) => {
                    match Self::scan_checked(query, f.path.as_str(), b.as_slice()) {
                        None => {
                            assert(!files_defined(*query, files@)) by {
                                assert(files@[i as int].bytes matches Some(bb) && !file_defined(*query, bb@));
                            }
                            return None;
                        },
                        Some(mut v) => {
                            let ghost before = match_views(r@);
                            let ghost added = match_views(v@);
                            r.append(&mut v);
                            assert(match_views(r@) =~= before + added);
                        },
                    }
                },
            }
            assert(files_defined(*query, files@.take(i + 1))) by {
                assert forall|j: int| 0 <= j < files@.take(i + 1).len() implies
                    ((#[trigger] files@.take(i + 1)[j]).bytes matches Some(bb) ==> file_defined(*query, bb@)) by {
                    if j < i {
                        assert(files@.take(i + 1)[j] == files@.take(i as int)[j]);
                    }
                }
            }
            i = i + 1;
        }
        assert(files@.take(files@.len() as int) =~= files@);
        Some(r)
    }
}

proof fn lemma_files_matches_empty_pattern(q: ContentSearchQuery, files: Seq<FileContents>)
    requires
        q.pattern@.len() == 0,
    ensures
        files_matches(q, files) == Seq::<ContentMatchView>::empty(),
{
}

proof fn lemma_scan_defined_mono(q: ContentSearchQuery, lines: Seq<Seq<u8>>, n: nat, m: nat)
    requires
        n <= m,
        !scan_defined(q, lines, n),
    ensures
        !scan_defined(q, lines, m),
    decreases m - n,
{
    if n < m {
        lemma_scan_defined_mono(q, lines, n, (m - 1) as nat);
    }
}
} // verus!
