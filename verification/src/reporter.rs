use vstd::prelude::*;

use crate::outcome::FileOutcome;
use crate::outcome::is_fail;
use crate::outcome::is_invalid;
use crate::outcome::is_pass;
use crate::outcome::is_run;

verus! {

/// Counters summarizing one run.
///
/// One `Diagnostics` value is created per run and every file's outcome is
/// recorded into it exactly once. The tallying policy: `passed` and `failed`
/// files are the ones that actually ran (`run`); `invalid` collects everything
/// that never came to a verdict — files skipped before execution (no or
/// malformed metadata, an unreadable snippet) and files the backend could not
/// run. A timeout is tallied as a failure. So at all times
/// `passed + failed == run` and `run + invalid == total_files`.
#[derive(Debug, Clone, Copy, PartialEq, Eq, Structural)]
pub struct Diagnostics {
    pub total_files: u32,
    pub run: u32,
    pub passed: u32,
    pub failed: u32,
    pub invalid: u32,
}

/// How one outcome moves the counters: exactly one of `passed`, `failed`,
/// `invalid` grows by one, `run` follows `passed + failed`, and `total_files`
/// always grows by one.
pub open spec fn tallied(pre: Diagnostics, post: Diagnostics, o: FileOutcome) -> bool {
    &&& post.total_files == pre.total_files + 1
    &&& post.run == pre.run + (if is_run(o) {
        1int
    } else {
        0
    })
    &&& post.passed == pre.passed + (if is_pass(o) {
        1int
    } else {
        0
    })
    &&& post.failed == pre.failed + (if is_fail(o) {
        1int
    } else {
        0
    })
    &&& post.invalid == pre.invalid + (if is_invalid(o) {
        1int
    } else {
        0
    })
}

impl Diagnostics {
    /// The bookkeeping invariant of a run: every file tallied under `run`
    /// passed or failed, and every file offered was either run or invalid.
    pub open spec fn wf(self) -> bool {
        &&& self.passed + self.failed == self.run
        &&& self.run + self.invalid == self.total_files
    }

    /// Fresh counters, all zero.
    pub fn new() -> (r: Diagnostics)
        ensures
            r == (Diagnostics { total_files: 0, run: 0, passed: 0, failed: 0, invalid: 0 }),
            r.wf(),
    {
        Diagnostics { total_files: 0, run: 0, passed: 0, failed: 0, invalid: 0 }
    }

    /// Tally one file's outcome. Exactly one of `passed`, `failed`, `invalid`
    /// grows, `run` grows when the file actually ran, and `total_files` always
    /// grows by one, so `wf` is preserved.
    pub fn record(&mut self, outcome: &FileOutcome)
        requires
            old(self).wf(),
            old(self).total_files < u32::MAX,
        ensures
            final(self).wf(),
            tallied(*old(self), *final(self), *outcome),
    {
        self.total_files = self.total_files + 1;
        match outcome {
            FileOutcome::Executed(crate::outcome::ExecOutcome::Passed) => {
                self.run = self.run + 1;
                self.passed = self.passed + 1;
            },
            FileOutcome::Executed(crate::outcome::ExecOutcome::Failed(_)) => {
                self.run = self.run + 1;
                self.failed = self.failed + 1;
            },
            FileOutcome::Executed(crate::outcome::ExecOutcome::Timeout) => {
                self.run = self.run + 1;
                self.failed = self.failed + 1;
            },
            FileOutcome::Executed(crate::outcome::ExecOutcome::ExecutionError(_)) => {
                self.invalid = self.invalid + 1;
            },
            FileOutcome::Skipped(_) => {
                self.invalid = self.invalid + 1;
            },
        }
    }

    /// A consistent copy of all counters, read once after the workers are
    /// done, for final reporting.
    pub fn snapshot(&self) -> (r: Diagnostics)
        ensures
            r == *self,
    {
        *self
    }
}

impl Default for Diagnostics {
    /// Same counters as `new`: all zero.
    fn default() -> (r: Diagnostics)
        ensures
            r == (Diagnostics { total_files: 0, run: 0, passed: 0, failed: 0, invalid: 0 }),
            r.wf(),
    {
        Diagnostics { total_files: 0, run: 0, passed: 0, failed: 0, invalid: 0 }
    }
}

} // verus!
