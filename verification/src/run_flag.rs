//! A flag shared between threads that tells them whether to keep running.

use std::sync::atomic::{AtomicBool, Ordering};
use std::sync::Arc;
use vstd::prelude::*;

verus! {

/// A reference-counted atomic boolean. Clones share one flag, so stopping
/// any of them stops every thread holding one.
///
/// What the flag holds is not stated: it lives in an atomic that any clone,
/// on any thread, may change at any moment, and std's atomics come with no
/// statement of their values.
#[derive(Debug, Clone)]
pub struct RunFlag(Arc<AtomicBool>);

impl RunFlag {
    /// Create a flag set to run.
    pub fn new() -> (r: Self) {
        RunFlag(Arc::new(AtomicBool::new(true)))
    }

    /// Return true if the program should continue.
    pub fn should_run(&self) -> (r: bool) {
        self.0.load(Ordering::Relaxed)
    }

    /// Command every holder of this flag to stop.
    pub fn stop(&mut self) {
        self.0.store(false, Ordering::Relaxed);
    }
}

} // verus!
