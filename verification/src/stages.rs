//! The staged-execution scaffold: an ordered list of stages, run strictly
//! in registration order.
//!
//! A stage's `run` performs whatever the stage is for; the runner adds no
//! policy of its own.  The second stage of the build — environment
//! verification followed by partition selection — drives the engine and
//! the selector of this crate over the probes' outcomes; the loop that
//! gathers those outcomes stands outside the crate and implements `Stage`
//! there.

use vstd::prelude::*;

verus! {

/// An independently runnable phase of the setup pipeline.
pub trait Stage {
    /// Runs the phase to completion.
    fn run(&mut self);
}

/// Holds stages in registration order and runs them in that order.
pub struct StageRunner<S: Stage> {
    pub stages: Vec<S>,
}

impl<S: Stage> StageRunner<S> {
    /// A runner with no stages yet.
    pub fn new() -> (r: Self)
        ensures
            r.stages@.len() == 0,
    {
        Self { stages: Vec::new() }
    }

    /// Appends a stage; duplicates are permitted and nothing is validated.
    pub fn add(&mut self, s: S)
        ensures
            final(self).stages@ == old(self).stages@.push(s),
    {
        self.stages.push(s);
    }

    /// Runs every held stage once, in insertion order; the set of held
    /// stages is kept.
    pub fn run_all(&mut self)
        ensures
            final(self).stages@.len() == old(self).stages@.len(),
    {
        let n = self.stages.len();
        let mut done: Vec<S> = Vec::new();
        let mut i: usize = 0;
        while i < n
            invariant
                0 <= i <= n,
                self.stages@.len() == n - i,
                done@.len() == i,
            decreases n - i,
        {
            let mut s = self.stages.remove(0);
            s.run();
            done.push(s);
            i = i + 1;
        }
        self.stages = done;
    }
}

/// The second stage of the build: verify the environment, then walk the
/// operator through partition selection.
pub struct Stage2 {}

impl Stage2 {
    pub fn new() -> (r: Self) {
        Self {  }
    }
}

} // verus!
