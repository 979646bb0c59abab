//! Frame-profiling hooks. This build carries no profiler, so every hook is a
//! no-op; a profiling build forwards them to its profiler instead.

use vstd::prelude::*;

verus! {

/// Start profiling (call once at startup).
pub fn init() {
}

/// Mark the end of a rendered frame.
pub fn finish_frame() {
}

} // verus!
