//! Progress over a run: how many targets have reached a terminal outcome.
//!
//! The tracker is a pure counter; drawing it on the terminal happens outside
//! the library, so rendering can never delay or alter the dispatcher's
//! results.

use vstd::prelude::*;

use crate::numeral::dec_rep;
use crate::numeral::push_decimal;
use crate::text::chars_to_string;
use crate::text::push_literal;

verus! {

/// The indicator line for `completed` of `total` targets done.
pub open spec fn progress_text(completed: nat, total: nat) -> Seq<char> {
    dec_rep(completed) + " of "@ + dec_rep(total) + " targets done"@
}

/// Counts completion events against the number of targets of the run.
pub struct ProgressTracker {
    pub completed: usize,
    pub total: usize,
}

impl ProgressTracker {
    /// The tracker never counts more completions than there are targets.
    pub open spec fn wf(&self) -> bool {
        self.completed <= self.total
    }

    /// A fresh tracker for a run over `total` targets.
    pub fn new(total: usize) -> (t: Self)
        ensures
            t.completed == 0,
            t.total == total,
            t.wf(),
    {
        ProgressTracker { completed: 0, total }
    }

    /// Observes one completion event; exactly one arrives per target.
    pub fn record_completion(&mut self)
        requires
            old(self).wf(),
            old(self).completed < old(self).total,
        ensures
            final(self).completed == old(self).completed + 1,
            final(self).total == old(self).total,
            final(self).wf(),
    {
        self.completed = self.completed + 1;
    }

    /// Whether every target of the run has reached a terminal outcome.
    pub fn is_finished(&self) -> (b: bool)
        ensures
            b == (self.completed == self.total),
    {
        self.completed == self.total
    }

    /// The live indicator line for the current state.
    pub fn progress_line(&self) -> (line: String)
        ensures
            line@ == progress_text(self.completed as nat, self.total as nat),
    {
        let mut out: Vec<char> = Vec::new();
        push_decimal(&mut out, self.completed as u64);
        push_literal(&mut out, " of ");
        push_decimal(&mut out, self.total as u64);
        push_literal(&mut out, " targets done");
        proof {
            assert(out@ =~= progress_text(self.completed as nat, self.total as nat));
        }
        chars_to_string(&out)
    }
}

} // verus!
