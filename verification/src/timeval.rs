//! Wall-clock timestamps carried through the index and the history.

use vstd::prelude::*;

verus! {

/// A wall-clock time, carried opaquely.
#[verifier::external_type_specification]
#[verifier::external_body]
pub struct ExSystemTime(std::time::SystemTime);

/// `SystemTime::now`: the current wall-clock time; nothing is known of its value.
#[verifier::external_body]
pub(crate) fn now() -> std::time::SystemTime {
    std::time::SystemTime::now()
}

} // verus!
