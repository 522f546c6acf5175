use vstd::prelude::*;

use crate::text::owned;

verus! {

/// The default budget of a run: 100 ms, in nanoseconds.
pub const DEFAULT_LIMIT_NANOS: u64 = 100_000_000;

/// The wall-clock budget of script runs and the call depth it is measured over.
/// Times are nanoseconds on a monotonic clock that the caller reads.
pub struct ExecLimit {
    pub limit: Option<u64>,
    pub start: Option<u64>,
    pub call_depth: usize,
    pub privileged: bool,
}

/// Why the interrupt stopped a run.
#[derive(Debug, Clone, Copy, PartialEq, Eq, Structural)]
pub enum LimitError {
    /// The run went past its budget without suspending.
    LimitReached,
}

impl LimitError {
    pub fn message(&self) -> (r: String)
        ensures
            r@ == "execution limit reached - call sleep or coroutine.yield before this point"@,
    {
        owned("execution limit reached - call sleep or coroutine.yield before this point")
    }
}

/// Time that passed from `start` to `now`, or zero where the clock reads earlier.
pub open spec fn elapsed(start: u64, now: u64) -> int {
    if now >= start { now - start } else { 0 }
}

/// Whether the interrupt lets a run go on at time `now`.
pub open spec fn may_continue(l: ExecLimit, now: u64) -> bool {
    l.privileged || match (l.limit, l.start) {
        (Some(limit), Some(start)) => elapsed(start, now) <= limit,
        _ => true,
    }
}

impl ExecLimit {
    /// The start time is recorded exactly while a run is in progress.
    pub open spec fn wf(&self) -> bool {
        (self.call_depth == 0) == (self.start is None)
    }

    /// A limiter with the default budget, idle and not privileged.
    pub fn new() -> (r: ExecLimit)
        ensures
            r.wf(),
            r.limit == Some(DEFAULT_LIMIT_NANOS),
            r.start is None,
            r.call_depth == 0,
            !r.privileged,
    {
        ExecLimit { limit: Some(DEFAULT_LIMIT_NANOS), start: None, call_depth: 0, privileged: false }
    }

    /// Sets the budget in milliseconds.
    pub fn set_execution_limit_millis(&mut self, new_limit: u32)
        ensures
            final(self).limit == Some((new_limit as int * 1_000_000) as u64),
            final(self).start == old(self).start,
            final(self).call_depth == old(self).call_depth,
            final(self).privileged == old(self).privileged,
    {
        self.limit = Some(new_limit as u64 * 1_000_000);
    }

    /// Sets the budget in nanoseconds.
    pub fn set_execution_limit_nanos(&mut self, new_limit: u64)
        ensures
            final(self).limit == Some(new_limit),
            final(self).start == old(self).start,
            final(self).call_depth == old(self).call_depth,
            final(self).privileged == old(self).privileged,
    {
        self.limit = Some(new_limit);
    }

    /// Removes the budget: runs are no longer stopped.
    pub fn clear_execution_limit(&mut self)
        ensures
            final(self).limit is None,
            final(self).start == old(self).start,
            final(self).call_depth == old(self).call_depth,
            final(self).privileged == old(self).privileged,
    {
        self.limit = None;
    }

    /// The budget in nanoseconds, if one is set.
    pub fn get_execution_limit(&self) -> (r: Option<u64>)
        ensures
            r == self.limit,
    {
        self.limit
    }

    /// Enters a run at time `now`; the outermost entry starts the clock.
    pub fn increment_call_depth(&mut self, now: u64)
        requires
            old(self).wf(),
            old(self).call_depth < usize::MAX,
        ensures
            final(self).wf(),
            final(self).call_depth == old(self).call_depth + 1,
            final(self).start == if old(self).call_depth == 0 {
                Some(now)
            } else {
                old(self).start
            },
            final(self).limit == old(self).limit,
            final(self).privileged == old(self).privileged,
    {
        if self.call_depth == 0 {
            self.start = Some(now);
        }
        self.call_depth = self.call_depth + 1;
    }

    /// Leaves a run; leaving the outermost one stops the clock.
    pub fn decrement_call_depth(&mut self)
        requires
            old(self).wf(),
            old(self).call_depth > 0,
        ensures
            final(self).wf(),
            final(self).call_depth == old(self).call_depth - 1,
            final(self).start == if old(self).call_depth == 1 {
                None
            } else {
                old(self).start
            },
            final(self).limit == old(self).limit,
            final(self).privileged == old(self).privileged,
    {
        self.call_depth = self.call_depth - 1;
        if self.call_depth == 0 {
            self.start = None;
        }
    }

    /// Milliseconds since the outermost run started, if one is in progress.
    pub fn get_execution_time(&self, now: u64) -> (r: Option<u64>)
        ensures
            match self.start {
                Some(start) => r == Some((elapsed(start, now) / 1_000_000) as u64),
                None => r is None,
            },
    {
        match self.start {
            Some(start) => {
                let e: u64 = if now >= start { now - start } else { 0 };
                Some(e / 1_000_000)
            },
            None => None,
        }
    }

    /// Turns the override on or off under which internal calls never trip the budget.
    pub fn set_privileged_execution(&mut self, privileged: bool)
        ensures
            final(self).privileged == privileged,
            final(self).limit == old(self).limit,
            final(self).start == old(self).start,
            final(self).call_depth == old(self).call_depth,
    {
        self.privileged = privileged;
    }

    /// The interrupt: lets the run go on unless a budget is set, a run is in
    /// progress, more than the budget has passed and the override is off.
    pub fn limiting_interrupt(&self, now: u64) -> (r: Result<(), LimitError>)
        ensures
            r is Ok <==> may_continue(*self, now),
            r is Err ==> r == Err::<(), LimitError>(LimitError::LimitReached),
    {
        if self.privileged {
            return Ok(());
        }
        match (self.limit, self.start) {
            (Some(limit), Some(start)) => {
                let e: u64 = if now >= start { now - start } else { 0 };
                if e <= limit {
                    Ok(())
                } else {
                    Err(LimitError::LimitReached)
                }
            },
            _ => Ok(()),
        }
    }
}

/// A run that has gone past its budget without suspending is stopped, and one
/// still within it goes on, unless the privileged override is on.
pub proof fn lemma_budget_enforced(l: ExecLimit, budget: u64, start: u64, now: u64)
    requires
        l.limit == Some(budget),
        l.start == Some(start),
        !l.privileged,
        now >= start,
    ensures
        may_continue(l, now) <==> now - start <= budget,
{
}

/// While the override is on, the interrupt never stops a run.
pub proof fn lemma_privileged_never_stops(l: ExecLimit, now: u64)
    requires
        l.privileged,
    ensures
        may_continue(l, now),
{
}

} // verus!
