//! Entry points that run a script.

use vstd::prelude::*;

verus! {

/// Runs the interactive mode, which does nothing yet.
pub fn run_iterupter() {
}

} // verus!
