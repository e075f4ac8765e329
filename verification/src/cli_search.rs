//! Decisions of the `search` and `index` subcommands that need no file system.

use vstd::prelude::*;
use crate::text::{chars_of, push_char, push_str};

verus! {

/// A path character that cannot stand in a file name made from the path.
pub open spec fn separator_char(c: char) -> bool {
    c == '\\' || c == '/' || c == ':'
}

/// `s` with each separator character replaced by `_`.
pub open spec fn flattened(s: Seq<char>) -> Seq<char> {
    s.map_values(|c: char| if separator_char(c) { '_' } else { c })
}

/// The file an index of `path` is saved to: `index_`, the path with `\`, `/` and `:`
/// replaced by `_`, and `.json`.
pub fn index_file_name(path: &str) -> (r: String)
    ensures
        r@ == "index_"@ + flattened(path@) + ".json"@,
{
    let v = chars_of(path);
    let mut r = "index_".to_string();
    let ghost head = r@;
    let mut i: usize = 0;
    while i < v.len()
        invariant
            i <= v@.len(),
            v@ == path@,
            r@ == head + flattened(path@.take(i as int)),
        decreases v@.len() - i,
    {
        let c = v[i];
        let d = if c == '\\' || c == '/' || c == ':' { '_' } else { c };
        push_char(&mut r, d);
        assert(flattened(path@.take(i + 1)) =~= flattened(path@.take(i as int)).push(d));
        i = i + 1;
    }
    assert(path@.take(v@.len() as int) =~= path@);
    push_str(&mut r, ".json");
    r
}

/// Files larger than this many bytes are not searched for content.
pub const MAX_CONTENT_FILE_BYTES: u64 = 10485760;

/// Whether a file of this size is searched for content (at most 10 MiB).
pub fn content_size_allowed(size: u64) -> (r: bool)
    ensures
        r == (size <= 10485760),
{
    size <= MAX_CONTENT_FILE_BYTES
}

/// What a `search` run looks for: the file-name pattern when one is given, else the
/// content pattern (empty when neither is), and whether it is a content search (a
/// content pattern was given).
pub fn search_target(pattern: Option<String>, content: Option<String>) -> (r: (String, bool))
    ensures
        r.1 == content is Some,
        r.0@ == match pattern {
            Some(p) => p@,
            None => match content {
                Some(c) => c@,
                None => Seq::<char>::empty(),
            },
        },
{
    let is_content_search = content.is_some();
    let target = match pattern {
        Some(p) => p,
        None => match content {
            Some(c) => c,
            None => String::new(),
        },
    };
    (target, is_content_search)
}

} // verus!
