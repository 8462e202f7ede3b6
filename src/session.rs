//! The decisions of one benchmark invocation: setup with retries, the
//! measured iterations, teardown with retries after each, and the report.
//! The caller performs each action and hands back what came of it.

use vstd::prelude::*;
use crate::exit::{classify_exit, exit_class_of, ExitClass};
use crate::retry::{all_fail, is_failure, RetryState, RetryStep, MAX_ATTEMPTS, RETRY_DELAY_SECS};
use crate::statsd::Metric;

verus! {

/// Why an invocation stops before its report.
#[derive(Debug, Clone, Copy, PartialEq, Eq, Structural)]
pub enum Abort {
    SetupExhausted,
    SetupSignaled,
    TeardownExhausted,
    TeardownSignaled,
    /// The measured command exited with this code.
    CommandFailed(i32),
}

/// Where an invocation stands.
#[derive(Debug, Clone, Copy, PartialEq, Eq, Structural)]
pub enum Phase {
    /// Running the setup command of the next iteration.
    Setup(RetryState),
    /// Running the next iteration's measured command.
    Measure,
    /// Running the teardown command of the last iteration.
    Teardown(RetryState),
    /// All iterations are measured: the report is due.
    Done,
    Aborted(Abort),
}

/// What the caller does next.
#[derive(Debug, Clone, Copy, PartialEq, Eq, Structural)]
pub enum Action {
    /// Wait `delay_secs`, then run the setup command once.
    RunSetup { delay_secs: u64 },
    /// Run one measured iteration, then drain the metric channel.
    RunIteration,
    /// Wait `delay_secs`, then run the teardown command once.
    RunTeardown { delay_secs: u64 },
    /// Emit the report of all iterations.
    Report,
    /// Stop the invocation with the exit code `abort_exit_code` gives.
    Abort(Abort),
}

/// The exit code of an aborted invocation: the measured command's own code,
/// else 1.
pub open spec fn abort_code(a: Abort) -> i32 {
    match a {
        Abort::CommandFailed(c) => c,
        _ => 1,
    }
}

pub fn abort_exit_code(a: Abort) -> (r: i32)
    ensures
        r == abort_code(a),
{
    match a {
        Abort::CommandFailed(c) => c,
        _ => 1,
    }
}

/// One invocation: `iterations` measured runs, each with its metrics.
pub struct Session {
    pub iterations: u64,
    pub has_setup: bool,
    pub has_teardown: bool,
    pub phase: Phase,
    /// The metrics of each measured iteration so far, in order.
    pub results: Vec<Vec<Metric>>,
}

/// The phase in which an iteration starts.
pub open spec fn start_phase(has_setup: bool) -> Phase {
    if has_setup {
        Phase::Setup(RetryState { failures: 0 })
    } else {
        Phase::Measure
    }
}

/// The phase after an iteration completes with `done` iterations measured
/// out of `n`.
pub open spec fn after_count(done: nat, n: nat, has_setup: bool) -> Phase {
    if done >= n {
        Phase::Done
    } else {
        start_phase(has_setup)
    }
}

/// The phase and count of measured iterations after the command of phase
/// `p` exits with code 0.
pub open spec fn success_step(p: Phase, done: nat, n: nat, has_setup: bool, has_teardown: bool) -> (Phase, nat) {
    match p {
        Phase::Setup(_) => (Phase::Measure, done),
        Phase::Measure => (
            if has_teardown {
                Phase::Teardown(RetryState { failures: 0 })
            } else {
                after_count(done + 1, n, has_setup)
            },
            done + 1,
        ),
        Phase::Teardown(_) => (after_count(done, n, has_setup), done),
        _ => (p, done),
    }
}

/// The phase and count after `steps` commands in a row exit with code 0.
pub open spec fn success_run(p: Phase, done: nat, n: nat, has_setup: bool, has_teardown: bool, steps: nat) -> (Phase, nat)
    decreases steps,
{
    if steps == 0 {
        (p, done)
    } else {
        let (q, d) = success_step(p, done, n, has_setup, has_teardown);
        success_run(q, d, n, has_setup, has_teardown, (steps - 1) as nat)
    }
}

/// How many commands one iteration runs when all succeed.
pub open spec fn steps_per_iteration(has_setup: bool, has_teardown: bool) -> nat {
    1 + (if has_setup { 1nat } else { 0 }) + (if has_teardown { 1nat } else { 0 })
}

impl Session {
    pub open spec fn done_count(&self) -> nat {
        self.results@.len()
    }

    /// The phase that follows a completed iteration.
    pub open spec fn after_iteration(&self) -> Phase {
        if self.done_count() >= self.iterations {
            Phase::Done
        } else {
            start_phase(self.has_setup)
        }
    }

    pub open spec fn wf(&self) -> bool {
        &&& self.iterations >= 1
        &&& self.done_count() <= self.iterations
        &&& match self.phase {
            Phase::Setup(r) => r.wf() && self.has_setup && self.done_count() < self.iterations,
            Phase::Measure => self.done_count() < self.iterations,
            Phase::Teardown(r) => r.wf() && self.has_teardown && self.done_count() >= 1,
            Phase::Done => self.done_count() == self.iterations,
            Phase::Aborted(_) => true,
        }
    }

    /// A session of `iterations` runs; setup and teardown are run where
    /// there are such commands.
    pub fn new(iterations: u64, has_setup: bool, has_teardown: bool) -> (r: Session)
        requires
            iterations >= 1,
        ensures
            r.wf(),
            r.iterations == iterations,
            r.has_setup == has_setup,
            r.has_teardown == has_teardown,
            r.phase == start_phase(has_setup),
            r.results@.len() == 0,
    {
        let phase = if has_setup {
            Phase::Setup(RetryState::new())
        } else {
            Phase::Measure
        };
        Session { iterations, has_setup, has_teardown, phase, results: Vec::new() }
    }

    fn start(&self) -> (r: Phase)
        ensures
            r == start_phase(self.has_setup),
    {
        if self.has_setup {
            Phase::Setup(RetryState::new())
        } else {
            Phase::Measure
        }
    }

    /// What the caller does next.
    pub fn next_action(&self) -> (r: Action)
        ensures
            match self.phase {
                Phase::Setup(s) => r == Action::RunSetup {
                    delay_secs: if s.failures == 0 { 0 } else { RETRY_DELAY_SECS },
                },
                Phase::Measure => r == Action::RunIteration,
                Phase::Teardown(s) => r == Action::RunTeardown {
                    delay_secs: if s.failures == 0 { 0 } else { RETRY_DELAY_SECS },
                },
                Phase::Done => r == Action::Report,
                Phase::Aborted(a) => r == Action::Abort(a),
            },
    {
        match self.phase {
            Phase::Setup(s) => Action::RunSetup {
                delay_secs: if s.failures == 0 { 0 } else { RETRY_DELAY_SECS },
            },
            Phase::Measure => Action::RunIteration,
            Phase::Teardown(s) => Action::RunTeardown {
                delay_secs: if s.failures == 0 { 0 } else { RETRY_DELAY_SECS },
            },
            Phase::Done => Action::Report,
            Phase::Aborted(a) => Action::Abort(a),
        }
    }

    /// Takes the exit of the setup command (`None`: ended by a signal).
    pub fn on_setup_exit(&mut self, code: Option<i32>)
        requires
            old(self).wf(),
            old(self).phase is Setup,
        ensures
            final(self).wf(),
            final(self).results@ == old(self).results@,
            final(self).iterations == old(self).iterations,
            final(self).has_setup == old(self).has_setup,
            final(self).has_teardown == old(self).has_teardown,
            final(self).phase == setup_next(old(self).phase, code),
            code == Some(0i32) ==> (final(self).phase, final(self).done_count()) == success_step(
                old(self).phase,
                old(self).done_count(),
                old(self).iterations as nat,
                old(self).has_setup,
                old(self).has_teardown,
            ),
    {
        let s = match self.phase {
            Phase::Setup(s) => s,
            _ => {
                return;
            },
        };
        self.phase = match s.step(code) {
            RetryStep::Done => Phase::Measure,
            RetryStep::Retry(t) => Phase::Setup(t),
            RetryStep::Exhausted => Phase::Aborted(Abort::SetupExhausted),
            RetryStep::Signaled => Phase::Aborted(Abort::SetupSignaled),
        };
    }

    /// Takes the end of a measured iteration: its command's exit and the
    /// metrics drained from the channel after it.
    pub fn on_iteration_end(&mut self, code: Option<i32>, metrics: Vec<Metric>)
        requires
            old(self).wf(),
            old(self).phase is Measure,
        ensures
            final(self).wf(),
            code == Some(0i32) ==> (final(self).phase, final(self).done_count()) == success_step(
                old(self).phase,
                old(self).done_count(),
                old(self).iterations as nat,
                old(self).has_setup,
                old(self).has_teardown,
            ),
            final(self).iterations == old(self).iterations,
            final(self).has_setup == old(self).has_setup,
            final(self).has_teardown == old(self).has_teardown,
            match exit_class_of(code) {
                ExitClass::Abort(c) => final(self).phase == Phase::Aborted(Abort::CommandFailed(c))
                    && final(self).results@ == old(self).results@,
                _ => final(self).results@ == old(self).results@.push(metrics) && final(self).phase
                    == if old(self).has_teardown {
                    Phase::Teardown(RetryState { failures: 0 })
                } else {
                    final(self).after_iteration()
                },
            },
    {
        match classify_exit(code) {
            ExitClass::Abort(c) => {
                self.phase = Phase::Aborted(Abort::CommandFailed(c));
            },
            _ => {
                self.results.push(metrics);
                self.phase = if self.has_teardown {
                    Phase::Teardown(RetryState::new())
                } else if self.results.len() as u64 >= self.iterations {
                    Phase::Done
                } else {
                    self.start()
                };
            },
        }
    }

    /// Takes the exit of the teardown command (`None`: ended by a signal).
    pub fn on_teardown_exit(&mut self, code: Option<i32>)
        requires
            old(self).wf(),
            old(self).phase is Teardown,
        ensures
            final(self).wf(),
            code == Some(0i32) ==> (final(self).phase, final(self).done_count()) == success_step(
                old(self).phase,
                old(self).done_count(),
                old(self).iterations as nat,
                old(self).has_setup,
                old(self).has_teardown,
            ),
            final(self).results@ == old(self).results@,
            final(self).iterations == old(self).iterations,
            final(self).has_setup == old(self).has_setup,
            final(self).has_teardown == old(self).has_teardown,
            final(self).phase == match old(self).phase->Teardown_0.next(code) {
                RetryStep::Done => old(self).after_iteration(),
                RetryStep::Retry(t) => Phase::Teardown(t),
                RetryStep::Exhausted => Phase::Aborted(Abort::TeardownExhausted),
                RetryStep::Signaled => Phase::Aborted(Abort::TeardownSignaled),
            },
    {
        let s = match self.phase {
            Phase::Teardown(s) => s,
            _ => {
                return;
            },
        };
        self.phase = match s.step(code) {
            RetryStep::Done => if self.results.len() as u64 >= self.iterations {
                Phase::Done
            } else {
                self.start()
            },
            RetryStep::Retry(t) => Phase::Teardown(t),
            RetryStep::Exhausted => Phase::Aborted(Abort::TeardownExhausted),
            RetryStep::Signaled => Phase::Aborted(Abort::TeardownSignaled),
        };
    }

    /// The metrics of the measured iterations, in order.
    pub fn results(&self) -> (r: &Vec<Vec<Metric>>)
        ensures
            r@ == self.results@,
    {
        &self.results
    }
}

/// When the report is due, it holds exactly as many iterations as the
/// session was asked for, whatever happened on the way.
pub proof fn lemma_report_has_all_iterations(s: Session)
    requires
        s.wf(),
        s.phase == Phase::Done,
    ensures
        s.results@.len() == s.iterations,
{
}

proof fn lemma_success_run_split(
    p: Phase,
    done: nat,
    n: nat,
    hs: bool,
    ht: bool,
    a: nat,
    b: nat,
)
    ensures
        success_run(p, done, n, hs, ht, a + b) == {
            let (q, d) = success_run(p, done, n, hs, ht, a);
            success_run(q, d, n, hs, ht, b)
        },
    decreases a,
{
    if a > 0 {
        let (q, d) = success_step(p, done, n, hs, ht);
        lemma_success_run_split(q, d, n, hs, ht, (a - 1) as nat, b);
        assert((a + b - 1) as nat == (a - 1) as nat + b);
    }
}

proof fn lemma_one_iteration(done: nat, n: nat, hs: bool, ht: bool)
    requires
        done < n,
    ensures
        success_run(start_phase(hs), done, n, hs, ht, steps_per_iteration(hs, ht)) == (
            after_count(done + 1, n, hs),
            done + 1,
        ),
{
    let t0 = Phase::Teardown(RetryState { failures: 0 });
    let after = (after_count(done + 1, n, hs), done + 1);
    assert(success_run(after.0, after.1, n, hs, ht, 0) == after);
    if ht {
        assert(success_run(t0, done + 1, n, hs, ht, 1) == after);
        assert(success_run(Phase::Measure, done, n, hs, ht, 2) == after);
        if hs {
            assert(success_run(start_phase(hs), done, n, hs, ht, 3) == after);
        }
    } else {
        assert(success_run(Phase::Measure, done, n, hs, ht, 1) == after);
        if hs {
            assert(success_run(start_phase(hs), done, n, hs, ht, 2) == after);
        }
    }
}

proof fn lemma_iterations_run(n: nat, hs: bool, ht: bool, k: nat)
    requires
        1 <= k <= n,
    ensures
        success_run(start_phase(hs), 0, n, hs, ht, k * steps_per_iteration(hs, ht)) == (
            after_count(k, n, hs),
            k,
        ),
    decreases k,
{
    let spi = steps_per_iteration(hs, ht);
    if k == 1 {
        lemma_one_iteration(0, n, hs, ht);
        assert(1 * spi == spi);
    } else {
        lemma_iterations_run(n, hs, ht, (k - 1) as nat);
        assert(k * spi == (k - 1) as nat * spi + spi) by (nonlinear_arith)
            requires
                k >= 1,
        ;
        lemma_success_run_split(start_phase(hs), 0, n, hs, ht, (k - 1) as nat * spi, spi);
        assert(after_count((k - 1) as nat, n, hs) == start_phase(hs));
        lemma_one_iteration((k - 1) as nat, n, hs, ht);
    }
}

/// A session of `n` iterations whose commands all exit with code 0 reaches
/// its report after `n` iterations' worth of commands, with exactly `n`
/// measured iterations: the methods of `Session` move as `success_step`
/// says on such exits.
pub proof fn lemma_successful_runs_report_all(n: nat, has_setup: bool, has_teardown: bool)
    requires
        n >= 1,
    ensures
        success_run(
            start_phase(has_setup),
            0,
            n,
            has_setup,
            has_teardown,
            n * steps_per_iteration(has_setup, has_teardown),
        ) == (Phase::Done, n),
{
    lemma_iterations_run(n, has_setup, has_teardown, n);
}

/// The phase after the setup command of phase `p` exits with `code`.
pub open spec fn setup_next(p: Phase, code: Option<i32>) -> Phase {
    match p {
        Phase::Setup(s) => match s.next(code) {
            RetryStep::Done => Phase::Measure,
            RetryStep::Retry(t) => Phase::Setup(t),
            RetryStep::Exhausted => Phase::Aborted(Abort::SetupExhausted),
            RetryStep::Signaled => Phase::Aborted(Abort::SetupSignaled),
        },
        other => other,
    }
}

/// The phase after the setup command exits with each of `codes` in turn.
pub open spec fn setup_run(p: Phase, codes: Seq<Option<i32>>) -> Phase
    decreases codes.len(),
{
    if codes.len() == 0 {
        p
    } else {
        setup_run(setup_next(p, codes[0]), codes.drop_first())
    }
}

proof fn lemma_setup_run_aborted(a: Abort, codes: Seq<Option<i32>>)
    ensures
        setup_run(Phase::Aborted(a), codes) == Phase::Aborted(a),
    decreases codes.len(),
{
    if codes.len() > 0 {
        lemma_setup_run_aborted(a, codes.drop_first());
    }
}

proof fn lemma_setup_run_failing(s: RetryState, codes: Seq<Option<i32>>)
    requires
        s.wf(),
        all_fail(codes),
        codes.len() >= MAX_ATTEMPTS - s.failures,
    ensures
        setup_run(Phase::Setup(s), codes) == Phase::Aborted(Abort::SetupExhausted),
    decreases codes.len(),
{
    assert(is_failure(codes[0]));
    let rest = codes.drop_first();
    assert forall|i: int| 0 <= i < rest.len() implies is_failure(#[trigger] rest[i]) by {
        assert(rest[i] == codes[i + 1]);
    }
    if s.failures + 1 < MAX_ATTEMPTS {
        lemma_setup_run_failing(RetryState { failures: (s.failures + 1) as u8 }, rest);
    } else {
        lemma_setup_run_aborted(Abort::SetupExhausted, rest);
    }
}

/// A setup command that keeps failing aborts the invocation after
/// `MAX_ATTEMPTS` runs, before any iteration is measured: the session never
/// reaches its measuring phase, and stays aborted whatever follows.
pub proof fn lemma_failing_setup_aborts(codes: Seq<Option<i32>>)
    requires
        all_fail(codes),
        codes.len() >= MAX_ATTEMPTS,
    ensures
        setup_run(Phase::Setup(RetryState { failures: 0 }), codes) == Phase::Aborted(
            Abort::SetupExhausted,
        ),
        forall|k: int|
            0 <= k < MAX_ATTEMPTS ==> setup_run(
                Phase::Setup(RetryState { failures: 0 }),
                #[trigger] codes.subrange(0, k),
            ) == Phase::Setup(RetryState { failures: k as u8 }),
{
    lemma_setup_run_failing(RetryState { failures: 0 }, codes);
    assert forall|k: int| 0 <= k < MAX_ATTEMPTS implies setup_run(
        Phase::Setup(RetryState { failures: 0 }),
        #[trigger] codes.subrange(0, k),
    ) == Phase::Setup(RetryState { failures: k as u8 }) by {
        lemma_setup_prefix(codes, k);
    }
}

proof fn lemma_setup_prefix(codes: Seq<Option<i32>>, k: int)
    requires
        all_fail(codes),
        0 <= k < MAX_ATTEMPTS,
        k <= codes.len(),
    ensures
        setup_run(Phase::Setup(RetryState { failures: 0 }), codes.subrange(0, k)) == Phase::Setup(
            RetryState { failures: k as u8 },
        ),
    decreases k,
{
    if k > 0 {
        lemma_setup_prefix(codes, k - 1);
        lemma_setup_run_snoc(
            Phase::Setup(RetryState { failures: 0 }),
            codes.subrange(0, k - 1),
            codes[k - 1],
        );
        assert(codes.subrange(0, k - 1).push(codes[k - 1]) =~= codes.subrange(0, k));
        assert(is_failure(codes[k - 1]));
    }
}

proof fn lemma_setup_run_snoc(p: Phase, codes: Seq<Option<i32>>, c: Option<i32>)
    ensures
        setup_run(p, codes.push(c)) == setup_next(setup_run(p, codes), c),
    decreases codes.len(),
{
    if codes.len() == 0 {
        assert(codes.push(c).drop_first() =~= Seq::<Option<i32>>::empty());
        assert(codes.push(c)[0] == c);
        assert(setup_run(setup_next(p, c), Seq::<Option<i32>>::empty()) == setup_next(p, c));
        assert(setup_run(p, codes) == p);
        assert(setup_run(p, codes.push(c)) == setup_run(setup_next(p, c), codes.push(c).drop_first()));
    } else {
        assert(codes.push(c)[0] == codes[0]);
        assert(codes.push(c).drop_first() =~= codes.drop_first().push(c));
        lemma_setup_run_snoc(setup_next(p, codes[0]), codes.drop_first(), c);
    }
}

} // verus!
