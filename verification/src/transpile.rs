//! The boundary of the transpiler service.

use vstd::prelude::*;

use crate::features::Options;
use crate::toolchain::Toolchain;

verus! {

/// Runs the transpiler service with the compiler settings drawn from the
/// flag set.
pub fn transpile<S: Toolchain>(text: String, options: &Options, host: &mut S) -> Option<String> {
    let copts = options.compile_options();
    host.transpile(text, &copts)
}

} // verus!
