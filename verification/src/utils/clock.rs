//! The wall clock.

use vstd::prelude::*;

verus! {

/// `chrono::Local::now` followed by `DateTime::timestamp`: the current time
/// in whole seconds since the Unix epoch. Nothing is claimed of the value.
#[verifier::external_body]
pub(crate) fn current_timestamp() -> i64 {
    chrono::Local::now().timestamp()
}

} // verus!
