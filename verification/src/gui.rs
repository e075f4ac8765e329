//! State of the desktop front end that is independent of any widget toolkit:
//! themes, favorites, pagination, file categories and size-filter text, and the
//! decisions the result view makes when it starts a search and shows its results.

pub mod state;
pub mod ui_components;

use vstd::prelude::*;
use vstd::utf8::{encode_utf8, decode_utf8, is_char_boundary};
use crate::gui::state::{AppTheme, SearchMode};
use crate::index::{file_name_of, path_file_name, FileEntry, FileIndex, entry_views};
use crate::search::{SearchQuery, SizeFilter, Searcher, search_spec, search_fits, size_text_fits, size_filter_of, unbounded};
use crate::text::{
    str_eq, to_lowercase, lowercase, bytes_of, find_in_bytes, find_bytes, push_str, byte_slice_str,
    format_decimal, decimal, hexadecimal,
};
use crate::utils::{extension_or_empty, lowercase_extension, path_to_safe_filename, default_str_hash};

verus! {

/// The theme a stored setting names: `Dark`, `Blue`, `Green` or `Purple`, and `Light`
/// for anything else.
pub open spec fn theme_named(name: Seq<char>) -> AppTheme {
    if name == "Dark"@ {
        AppTheme::Dark
    } else if name == "Blue"@ {
        AppTheme::Blue
    } else if name == "Green"@ {
        AppTheme::Green
    } else if name == "Purple"@ {
        AppTheme::Purple
    } else {
        AppTheme::Light
    }
}

/// The theme a stored setting names (see `theme_named`).
pub fn theme_from_setting(name: &str) -> (r: AppTheme)
    ensures
        r == theme_named(name@),
{
    if str_eq(name, "Dark") {
        AppTheme::Dark
    } else if str_eq(name, "Blue") {
        AppTheme::Blue
    } else if str_eq(name, "Green") {
        AppTheme::Green
    } else if str_eq(name, "Purple") {
        AppTheme::Purple
    } else {
        AppTheme::Light
    }
}

/// Whether a search is started: there is a query and a folder, and it is not the query
/// whose results are already shown.
pub fn search_needed(query: &str, folder: &str, last_query: &str, has_results: bool) -> (r: bool)
    ensures
        r == (query@.len() > 0 && folder@.len() > 0 && !(last_query@ == query@ && has_results)),
{
    if query.is_empty() || folder.is_empty() {
        return false;
    }
    !(str_eq(last_query, query) && has_results)
}

/// How many results a search of the given mode may show.
pub fn result_cap(mode: SearchMode, max_filename_results: usize, max_content_results: usize) -> (r: usize)
    ensures
        r == (if mode == SearchMode::Filename { max_filename_results } else { max_content_results }),
{
    match mode {
        SearchMode::Filename => max_filename_results,
        SearchMode::Content => max_content_results,
    }
}

/// The file-name query the search bar asks for: regex matching when chosen, else glob
/// matching when chosen; the result cap as limit; the size filter when its text reads,
/// else no bound on the size.
pub open spec fn bar_query(
    pattern: Seq<char>,
    use_regex: bool,
    use_glob: bool,
    case_sensitive: bool,
    size_filter: Seq<char>,
    max_results: usize,
) -> (Seq<char>, bool, bool, bool, usize, SizeFilter) {
    let filter = if size_filter.len() > 0 {
        match size_filter_of(size_filter) {
            Some(f) => f,
            None => unbounded(),
        }
    } else {
        unbounded()
    };
    (pattern, use_regex, !use_regex && use_glob, case_sensitive, max_results, filter)
}

/// The parts of a query that `bar_query` fixes.
pub open spec fn query_parts(q: SearchQuery) -> (Seq<char>, bool, bool, bool, usize, SizeFilter) {
    (q.pattern@, q.regex, q.glob, q.case_sensitive, q.limit, q.size_filter)
}

/// Builds the file-name query of the search bar (see `bar_query`); its offset is 0.
pub fn filename_query(
    pattern: String,
    use_regex: bool,
    use_glob: bool,
    case_sensitive: bool,
    size_filter: &str,
    max_results: usize,
) -> (r: SearchQuery)
    requires
        size_text_fits(size_filter@),
    ensures
        query_parts(r) == bar_query(pattern@, use_regex, use_glob, case_sensitive, size_filter@, max_results),
        r.offset == 0,
{
    let mut q = SearchQuery::new(pattern);
    if use_regex {
        q.regex = true;
    } else if use_glob {
        q.glob = true;
    }
    q.limit = max_results;
    if case_sensitive {
        q.case_sensitive = true;
    }
    if !size_filter.is_empty() {
        if let Some(f) = SizeFilter::from_string(size_filter) {
            q.size_filter = f;
        }
    }
    q
}

/// `filename_query`, checked first: `None` when the size filter's text denotes a size
/// that overflows 64 bits (where `filename_query` has no answer), `Some` of its query
/// otherwise.
pub fn filename_query_checked(
    pattern: String,
    use_regex: bool,
    use_glob: bool,
    case_sensitive: bool,
    size_filter: &str,
    max_results: usize,
) -> (r: Option<SearchQuery>)
    ensures
        r is None <==> !size_text_fits(size_filter@),
        r matches Some(q) ==> query_parts(q) == bar_query(pattern@, use_regex, use_glob, case_sensitive, size_filter@, max_results)
            && q.offset == 0,
{
    if SizeFilter::text_fits(size_filter) {
        Some(filename_query(pattern, use_regex, use_glob, case_sensitive, size_filter, max_results))
    } else {
        None
    }
}

/// The first `n` of `s`, or all of `s` when it is shorter.
pub open spec fn at_most<T>(s: Seq<T>, n: int) -> Seq<T> {
    if s.len() > n {
        s.take(n)
    } else {
        s
    }
}

/// Runs a file-name search for the result view: the search's results, at most
/// `max_results` of them.
pub fn filename_results(query: &SearchQuery, index: &FileIndex, max_results: usize) -> (r: Vec<FileEntry>)
    requires
        search_fits(*query),
    ensures
        entry_views(r@) == at_most(search_spec(*query, index@.entries), max_results as int),
{
    let mut results = Searcher::search(query, index);
    if results.len() > max_results {
        let ghost all = entry_views(results@);
        results.truncate(max_results);
        assert(entry_views(results@) =~= all.take(max_results as int));
    }
    results
}

/// Whether a file's text holds the query, both lowercased.
pub fn content_contains(content: &str, query: &str) -> (r: bool)
    ensures
        r == (find_bytes(encode_utf8(lowercase(content@)), encode_utf8(lowercase(query@))) is Some),
{
    let c = to_lowercase(content);
    let q = to_lowercase(query);
    find_in_bytes(bytes_of(c.as_str()), bytes_of(q.as_str())).is_some()
}

/// The label of a result row: its file name (empty when the path has none), a bar, and
/// its path.
pub open spec fn result_label_text(path: Seq<char>) -> Seq<char> {
    let name = match file_name_of(path) {
        Some(n) => n,
        None => Seq::empty(),
    };
    name + " | "@ + path
}

/// The label of a result row (see `result_label_text`).
pub fn result_label(path: &str) -> (r: String)
    ensures
        r@ == result_label_text(path@),
{
    let mut r = match path_file_name(path) {
        Some(n) => n,
        None => String::new(),
    };
    push_str(&mut r, " | ");
    push_str(&mut r, path);
    r
}

/// The status line after a search.
pub fn search_status(total: usize, millis: u64) -> (r: String)
    ensures
        r@ == "Found "@ + decimal(total as nat) + " results ("@ + decimal(millis as nat) + " ms)"@,
{
    let mut r = "Found ".to_string();
    push_str(&mut r, format_decimal(total as u128).as_str());
    push_str(&mut r, " results (");
    push_str(&mut r, format_decimal(millis as u128).as_str());
    push_str(&mut r, " ms)");
    r
}

/// Extensions whose files are not previewed as text (lowercase).
pub open spec fn unpreviewable_extension(e: Seq<char>) -> bool {
    ||| e == "exe"@ ||| e == "dll"@ ||| e == "zip"@ ||| e == "rar"@ ||| e == "7z"@
    ||| e == "tar"@ ||| e == "gz"@ ||| e == "jpg"@ ||| e == "jpeg"@ ||| e == "png"@
    ||| e == "gif"@ ||| e == "bmp"@ ||| e == "ico"@ ||| e == "webp"@ ||| e == "mp3"@
    ||| e == "mp4"@ ||| e == "avi"@ ||| e == "mkv"@ ||| e == "mov"@ ||| e == "wmv"@
    ||| e == "flv"@ ||| e == "webm"@ ||| e == "pdf"@ ||| e == "doc"@ ||| e == "docx"@
    ||| e == "xls"@ ||| e == "xlsx"@ ||| e == "ppt"@ ||| e == "pptx"@
}

fn is_unpreviewable_extension(e: &str) -> (r: bool)
    ensures
        r == unpreviewable_extension(e@),
{
    str_eq(e, "exe") || str_eq(e, "dll") || str_eq(e, "zip") || str_eq(e, "rar") || str_eq(e, "7z")
        || str_eq(e, "tar") || str_eq(e, "gz") || str_eq(e, "jpg") || str_eq(e, "jpeg")
        || str_eq(e, "png") || str_eq(e, "gif") || str_eq(e, "bmp") || str_eq(e, "ico")
        || str_eq(e, "webp") || str_eq(e, "mp3") || str_eq(e, "mp4") || str_eq(e, "avi")
        || str_eq(e, "mkv") || str_eq(e, "mov") || str_eq(e, "wmv") || str_eq(e, "flv")
        || str_eq(e, "webm") || str_eq(e, "pdf") || str_eq(e, "doc") || str_eq(e, "docx")
        || str_eq(e, "xls") || str_eq(e, "xlsx") || str_eq(e, "ppt") || str_eq(e, "pptx")
}

/// The notice shown in place of a preview for a file of an unpreviewable kind, if it is one.
pub fn preview_notice(path: &str) -> (r: Option<String>)
    ensures
        match r {
            Some(t) => {
                &&& unpreviewable_extension(lowercase(extension_or_empty(path@)))
                &&& t@ == "[Preview not available for "@ + lowercase(extension_or_empty(path@)) + " files]"@
            },
            None => !unpreviewable_extension(lowercase(extension_or_empty(path@))),
        },
{
    let e = lowercase_extension(path);
    if is_unpreviewable_extension(e.as_str()) {
        let mut r = "[Preview not available for ".to_string();
        push_str(&mut r, e.as_str());
        push_str(&mut r, " files]");
        Some(r)
    } else {
        None
    }
}

/// A preview of a file's text: the text itself, or its first 100000 bytes followed by a
/// truncation mark when it is longer.
pub open spec fn preview_text(content: Seq<char>) -> Seq<char> {
    let b = encode_utf8(content);
    if b.len() > 100000 {
        decode_utf8(b.subrange(0, 100000)) + "\n\n[... truncated ...]"@
    } else {
        content
    }
}

/// The preview of a file's text (see `preview_text`); a text longer than 100000 bytes
/// must have a character boundary there.
pub fn preview_of(content: &str) -> (r: String)
    requires
        encode_utf8(content@).len() > 100000 ==> is_char_boundary(encode_utf8(content@), 100000),
    ensures
        r@ == preview_text(content@),
{
    if bytes_of(content).len() > 100000 {
        proof {
            vstd::utf8::encode_utf8_valid_utf8(content@);
            vstd::utf8::is_char_boundary_start_end_of_seq(encode_utf8(content@));
        }
        let mut r = byte_slice_str(content, 0, 100000);
        push_str(&mut r, "\n\n[... truncated ...]");
        r
    } else {
        content.to_string()
    }
}

/// The file name under which the index of a folder is kept: `index_`, the folder's safe
/// name, and `.gz`.
pub fn saved_index_name(folder: &str) -> (r: String)
    ensures
        r@ == "index_"@ + hexadecimal(default_str_hash(folder@) as nat) + ".gz"@,
{
    let mut r = "index_".to_string();
    push_str(&mut r, path_to_safe_filename(folder).as_str());
    push_str(&mut r, ".gz");
    r
}

/// The status line once an index of `count` files is loaded.
pub fn loaded_status(count: usize) -> (r: String)
    ensures
        r@ == "Loaded "@ + decimal(count as nat) + " files - click Search"@,
{
    let mut r = "Loaded ".to_string();
    push_str(&mut r, format_decimal(count as u128).as_str());
    push_str(&mut r, " files - click Search");
    r
}

} // verus!
