//! The one place where the library asks the machine it runs on for its
//! identity; everything derived from the answer is computed by verified code.
use vstd::prelude::*;

verus! {

/// Relies on `current_platform::CURRENT_PLATFORM`: the target triple of the
/// platform this library was built for (for example
/// `x86_64-unknown-linux-gnu`). The value depends on the build, so nothing
/// is promised about it.
#[verifier::external_body]
pub fn current_target_triple() -> (r: String) {
    current_platform::CURRENT_PLATFORM.to_string()
}

} // verus!
