//! Text helpers used by the result rows of the front end.

use vstd::prelude::*;
use crate::utils::{size_text, truncation_defined, truncated_path};

verus! {

/// Formats a size in bytes for a result row (`512 B`, `1.50 KB`, `1.00 GB`).
pub fn format_size(bytes: u64) -> (r: String)
    ensures
        r@ == size_text(bytes),
{
    crate::utils::format_size(bytes)
}

/// Shortens a path for a result row to at most `max_len` bytes, keeping its end.
pub fn truncate_path(path: &str, max_len: usize) -> (r: String)
    requires
        truncation_defined(path@, max_len as nat),
    ensures
        r@ == truncated_path(path@, max_len as nat),
{
    crate::utils::truncate_path(path, max_len)
}

} // verus!
