//! Setup and teardown commands are run until they exit with code 0, with a
//! pause between failed attempts and a fixed ceiling on the attempts.

use vstd::prelude::*;

verus! {

/// How many failed attempts are allowed before giving up.
pub const MAX_ATTEMPTS: u8 = 100;

/// Seconds to wait after a failed attempt before the next one.
pub const RETRY_DELAY_SECS: u64 = 1;

/// Progress of a setup or teardown command: how many attempts have failed so far.
#[derive(Debug, Clone, Copy, PartialEq, Eq, Structural)]
pub struct RetryState {
    pub failures: u8,
}

/// What follows an attempt.
#[derive(Debug, Clone, Copy, PartialEq, Eq, Structural)]
pub enum RetryStep {
    /// The command exited with code 0.
    Done,
    /// The command failed: wait `RETRY_DELAY_SECS`, then run it again.
    Retry(RetryState),
    /// The command failed `MAX_ATTEMPTS` times: the invocation is aborted.
    Exhausted,
    /// The command was terminated by a signal: the invocation is aborted.
    Signaled,
}

impl RetryState {
    pub open spec fn wf(self) -> bool {
        self.failures < MAX_ATTEMPTS
    }

    /// The step that follows an attempt that ended with `code` (`None`: by a signal).
    pub open spec fn next(self, code: Option<i32>) -> RetryStep {
        match code {
            None => RetryStep::Signaled,
            Some(c) => if c == 0 {
                RetryStep::Done
            } else if self.failures + 1 >= MAX_ATTEMPTS {
                RetryStep::Exhausted
            } else {
                RetryStep::Retry(RetryState { failures: (self.failures + 1) as u8 })
            },
        }
    }

    /// The state before the first attempt.
    pub fn new() -> (r: RetryState)
        ensures
            r.failures == 0,
            r.wf(),
    {
        RetryState { failures: 0 }
    }

    /// Decides what follows an attempt that ended with `code`.
    pub fn step(self, code: Option<i32>) -> (r: RetryStep)
        requires
            self.wf(),
        ensures
            r == self.next(code),
            r matches RetryStep::Retry(s) ==> s.wf() && s.failures == self.failures + 1,
    {
        match code {
            None => RetryStep::Signaled,
            Some(c) => {
                if c == 0 {
                    RetryStep::Done
                } else if self.failures + 1 >= MAX_ATTEMPTS {
                    RetryStep::Exhausted
                } else {
                    RetryStep::Retry(RetryState { failures: self.failures + 1 })
                }
            },
        }
    }
}

/// Runs the machine from `s` over the exits `codes`, one per attempt, until it
/// stops or the exits run out. Gives the last step and how many attempts ran.
pub open spec fn run_attempts(s: RetryState, codes: Seq<Option<i32>>) -> (RetryStep, nat)
    decreases codes.len(),
{
    if codes.len() == 0 {
        (RetryStep::Retry(s), 0)
    } else {
        match s.next(codes[0]) {
            RetryStep::Retry(t) => {
                let (last, n) = run_attempts(t, codes.drop_first());
                (last, n + 1)
            },
            other => (other, 1),
        }
    }
}

/// An exit with a code other than 0.
pub open spec fn is_failure(code: Option<i32>) -> bool {
    match code {
        Some(c) => c != 0,
        None => false,
    }
}

pub open spec fn all_fail(codes: Seq<Option<i32>>) -> bool {
    forall|i: int| 0 <= i < codes.len() ==> is_failure(#[trigger] codes[i])
}

proof fn lemma_failures_from(s: RetryState, codes: Seq<Option<i32>>)
    requires
        s.wf(),
        all_fail(codes),
        codes.len() >= MAX_ATTEMPTS - s.failures,
    ensures
        run_attempts(s, codes) == (RetryStep::Exhausted, (MAX_ATTEMPTS - s.failures) as nat),
    decreases codes.len(),
{
    assert(is_failure(codes[0]));
    if s.failures + 1 < MAX_ATTEMPTS {
        let t = RetryState { failures: (s.failures + 1) as u8 };
        let rest = codes.drop_first();
        assert forall|i: int| 0 <= i < rest.len() implies is_failure(#[trigger] rest[i]) by {
            assert(rest[i] == codes[i + 1]);
        }
        lemma_failures_from(t, rest);
    }
}

proof fn lemma_attempts_bounded_from(s: RetryState, codes: Seq<Option<i32>>)
    requires
        s.wf(),
    ensures
        run_attempts(s, codes).1 <= MAX_ATTEMPTS - s.failures,
        run_attempts(s, codes).0 matches RetryStep::Retry(t) ==> t.wf(),
    decreases codes.len(),
{
    if codes.len() > 0 {
        if let RetryStep::Retry(t) = s.next(codes[0]) {
            lemma_attempts_bounded_from(t, codes.drop_first());
        }
    }
}

/// A command that keeps failing is run exactly `MAX_ATTEMPTS` times, after
/// which the invocation is aborted; and no sequence of exits makes it run
/// more often than that.
pub proof fn lemma_retry_gives_up(codes: Seq<Option<i32>>)
    ensures
        run_attempts(RetryState { failures: 0 }, codes).1 <= MAX_ATTEMPTS,
        all_fail(codes) && codes.len() >= MAX_ATTEMPTS ==> run_attempts(
            RetryState { failures: 0 },
            codes,
        ) == (RetryStep::Exhausted, MAX_ATTEMPTS as nat),
{
    lemma_attempts_bounded_from(RetryState { failures: 0 }, codes);
    if all_fail(codes) && codes.len() >= MAX_ATTEMPTS {
        lemma_failures_from(RetryState { failures: 0 }, codes);
    }
}

/// An attempt that exits with code 0 ends the retries at once, whatever failed before.
pub proof fn lemma_success_ends_retries(s: RetryState, rest: Seq<Option<i32>>)
    requires
        s.wf(),
    ensures
        run_attempts(s, seq![Some(0i32)] + rest) == (RetryStep::Done, 1nat),
{
    assert((seq![Some(0i32)] + rest)[0] == Some(0i32));
}

} // verus!
