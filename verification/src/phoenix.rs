//! A supervisor that restarts failed subsystems with exponential back-off.
//! The asynchronous running of subsystems lives with the application; the
//! decisions of the supervisor are made here.

use vstd::prelude::*;
use vstd::arithmetic::power2::pow2;
use std::sync::Arc;
use std::sync::atomic::AtomicBool;
use crate::config::Config;

verus! {

/// A long-running part of the application that the supervisor restarts.
/// Running and resetting it are asynchronous and belong to the implementor.
pub trait Subsystem {
    /// The subsystem's name, for the log.
    fn name(&self) -> &'static str;

    /// How many restarts the subsystem allows; `None` defers to the configuration.
    fn max_restarts(&self) -> (m: Option<u32>)
        default_ensures
            m is None,
    {
        None
    }

    /// The subsystem's first back-off delay, in milliseconds; `None` defers to the configuration.
    fn backoff_base_ms(&self) -> (b: Option<u64>)
        default_ensures
            b is None,
    {
        None
    }
}

/// Simple supervisor that restarts subsystems with exponential backoff.
pub struct Phoenix<S> {
    subsystems: Vec<S>,
    config: Config,
    shutdown: Arc<AtomicBool>,
}

impl<S> Phoenix<S> {
    /// The registered subsystems, in order of registration.
    pub closed spec fn spec_subsystems(&self) -> Seq<S> {
        self.subsystems@
    }

    /// The configuration the supervisor was made with.
    pub closed spec fn spec_config(&self) -> Config {
        self.config
    }

    /// The shutdown flag the supervisor was made with.
    pub closed spec fn spec_shutdown(&self) -> Arc<AtomicBool> {
        self.shutdown
    }

    /// A supervisor with no subsystems.
    pub fn new(config: Config, shutdown: Arc<AtomicBool>) -> (p: Self)
        ensures
            p.spec_subsystems() == Seq::<S>::empty(),
            p.spec_config() == config,
            p.spec_shutdown() == shutdown,
    {
        Phoenix { subsystems: Vec::new(), config, shutdown }
    }

    /// Adds a subsystem after those already registered.
    pub fn register(&mut self, subsystem: S)
        ensures
            final(self).spec_subsystems() == old(self).spec_subsystems().push(subsystem),
            final(self).spec_config() == old(self).spec_config(),
            final(self).spec_shutdown() == old(self).spec_shutdown(),
    {
        self.subsystems.push(subsystem);
    }

    /// The registered subsystems.
    pub fn subsystems(&self) -> (s: &Vec<S>)
        ensures
            s@ == self.spec_subsystems(),
    {
        &self.subsystems
    }

    /// The configuration.
    pub fn config(&self) -> (c: &Config)
        ensures
            *c == self.spec_config(),
    {
        &self.config
    }

    /// The shutdown flag.
    pub fn shutdown(&self) -> (f: &Arc<AtomicBool>)
        ensures
            *f == self.spec_shutdown(),
    {
        &self.shutdown
    }
}

/// What the supervisor of one subsystem does next.
#[derive(Debug, Clone, Copy, PartialEq, Eq, Structural)]
pub enum Step {
    /// The subsystem finished: stop supervising it.
    Finish,
    /// The subsystem failed too often, or could not be reset: stop supervising it.
    Halt,
    /// Reset the subsystem before restarting it.
    Reset,
    /// Sleep this many milliseconds, then run the subsystem again.
    Sleep(u64),
}

/// The state of the supervision of one subsystem, in mathematical integers.
pub struct SupervisorView {
    pub max_restarts: nat,
    pub attempts: nat,
    pub delay_ms: nat,
}

/// The supervision state of one subsystem.
pub struct Supervisor {
    max_restarts: u32,
    attempts: u32,
    delay_ms: u64,
}

impl View for Supervisor {
    type V = SupervisorView;

    closed spec fn view(&self) -> SupervisorView {
        SupervisorView {
            max_restarts: self.max_restarts as nat,
            attempts: self.attempts as nat,
            delay_ms: self.delay_ms as nat,
        }
    }
}

/// The step after a run of the subsystem, and the state after it: a
/// failure counts an attempt, and halts once the attempts exceed the limit.
pub open spec fn spec_after_run(s: SupervisorView, succeeded: bool) -> (SupervisorView, Step) {
    if succeeded {
        (s, Step::Finish)
    } else {
        let t = SupervisorView { attempts: s.attempts + 1, ..s };
        (t, if t.attempts > s.max_restarts { Step::Halt } else { Step::Reset })
    }
}

/// The step after a reset of the subsystem, and the state after it: a
/// successful reset sleeps the current delay, which then doubles.
pub open spec fn spec_after_reset(s: SupervisorView, succeeded: bool) -> (SupervisorView, Step) {
    if succeeded {
        (SupervisorView { delay_ms: s.delay_ms * 2, ..s }, Step::Sleep(s.delay_ms as u64))
    } else {
        (s, Step::Halt)
    }
}

impl Supervisor {
    /// The supervision of a subsystem that has not run yet: its own limit and
    /// base delay where it has them, else the configuration's.
    pub fn new(subsystem_max: Option<u32>, subsystem_base_ms: Option<u64>, config: &Config) -> (s: Supervisor)
        ensures
            s@.max_restarts == match subsystem_max { Some(m) => m, None => config.max_restarts },
            s@.delay_ms == match subsystem_base_ms { Some(b) => b, None => config.backoff_base_ms },
            s@.attempts == 0,
    {
        let max_restarts = match subsystem_max {
            Some(m) => m,
            None => config.max_restarts,
        };
        let delay_ms = match subsystem_base_ms {
            Some(b) => b,
            None => config.backoff_base_ms,
        };
        Supervisor { max_restarts, attempts: 0, delay_ms }
    }

    /// The failed attempts so far.
    pub fn attempts(&self) -> (a: u32)
        ensures
            a == self@.attempts,
    {
        self.attempts
    }

    /// The restart limit.
    pub fn max_restarts(&self) -> (m: u32)
        ensures
            m == self@.max_restarts,
    {
        self.max_restarts
    }

    /// The delay before the next restart, in milliseconds.
    pub fn delay_ms(&self) -> (d: u64)
        ensures
            d == self@.delay_ms,
    {
        self.delay_ms
    }

    /// Decides what follows a run of the subsystem.
    pub fn after_run(&mut self, succeeded: bool) -> (step: Step)
        requires
            succeeded || old(self)@.attempts < u32::MAX,
        ensures
            (final(self)@, step) == spec_after_run(old(self)@, succeeded),
    {
        if succeeded {
            Step::Finish
        } else {
            self.attempts = self.attempts + 1;
            if self.attempts > self.max_restarts {
                Step::Halt
            } else {
                Step::Reset
            }
        }
    }

    /// Decides what follows a reset of the subsystem.
    pub fn after_reset(&mut self, succeeded: bool) -> (step: Step)
        requires
            !succeeded || old(self)@.delay_ms * 2 <= u64::MAX,
        ensures
            (final(self)@, step) == spec_after_reset(old(self)@, succeeded),
    {
        if succeeded {
            let delay = self.delay_ms;
            self.delay_ms = delay * 2;
            Step::Sleep(delay)
        } else {
            Step::Halt
        }
    }
}

/// The sleeps and the final step of a supervision in which every run fails
/// and every reset succeeds, from state `s`, for at most `runs` runs.
pub open spec fn failing_runs(s: SupervisorView, runs: nat) -> (Seq<nat>, Step)
    decreases runs,
{
    if runs == 0 {
        (Seq::empty(), Step::Finish)
    } else {
        let (t, step) = spec_after_run(s, false);
        if step == Step::Halt {
            (Seq::empty(), Step::Halt)
        } else {
            let (u, _) = spec_after_reset(t, true);
            let (rest, last) = failing_runs(u, (runs - 1) as nat);
            (seq![t.delay_ms].add(rest), last)
        }
    }
}

/// Exponential back-off with a restart limit: when every run of a fresh
/// subsystem fails and every reset succeeds, the supervisor restarts it at
/// most `max_restarts` times, sleeping `base * 2^i` milliseconds before the
/// `i`-th restart (from 0), and halts on the failure after the last allowed one.
pub proof fn lemma_exponential_backoff(max_restarts: nat, base: nat, runs: nat)
    ensures
        ({
            let (sleeps, last) = failing_runs(SupervisorView { max_restarts, attempts: 0, delay_ms: base }, runs);
            &&& sleeps.len() == if runs <= max_restarts { runs } else { max_restarts }
            &&& forall|i: int| 0 <= i < sleeps.len() ==> #[trigger] sleeps[i] == base * pow2(i as nat)
            &&& last == (if runs > max_restarts { Step::Halt } else { Step::Finish })
        }),
{
    vstd::arithmetic::power::lemma_pow0(2);
    assert(pow2(0) == 1);
    assert(base * pow2(0) == base);
    lemma_backoff_from(max_restarts, 0, base, runs);
    let (sleeps, last) = failing_runs(SupervisorView { max_restarts, attempts: 0, delay_ms: base }, runs);
    assert forall|i: int| 0 <= i < sleeps.len() implies #[trigger] sleeps[i] == base * pow2(i as nat) by {
        assert((0 + i) as nat == i as nat);
    }
}

proof fn lemma_backoff_from(max_restarts: nat, attempts: nat, base: nat, runs: nat)
    requires
        attempts <= max_restarts,
    ensures
        ({
            let (sleeps, last) = failing_runs(
                SupervisorView { max_restarts, attempts, delay_ms: base * pow2(attempts) },
                runs,
            );
            let left = (max_restarts - attempts) as nat;
            &&& sleeps.len() == if runs <= left { runs } else { left }
            &&& forall|i: int| 0 <= i < sleeps.len() ==> #[trigger] sleeps[i] == base * pow2((attempts + i) as nat)
            &&& last == (if runs > left { Step::Halt } else { Step::Finish })
        }),
    decreases runs,
{
    let s = SupervisorView { max_restarts, attempts, delay_ms: base * pow2(attempts) };
    if runs > 0 && attempts + 1 <= max_restarts {
        let t = SupervisorView { attempts: attempts + 1, ..s };
        let u = SupervisorView { delay_ms: t.delay_ms * 2, ..t };
        assert(pow2(attempts + 1) == 2 * pow2(attempts)) by {
            vstd::arithmetic::power2::lemma_pow2_unfold((attempts + 1) as nat);
        }
        assert(u.delay_ms == base * pow2(attempts + 1)) by (nonlinear_arith)
            requires
                u.delay_ms == base * pow2(attempts) * 2,
                pow2(attempts + 1) == 2 * pow2(attempts),
        ;
        lemma_backoff_from(max_restarts, attempts + 1, base, (runs - 1) as nat);
        let (rest, last) = failing_runs(u, (runs - 1) as nat);
        let (sleeps, last2) = failing_runs(s, runs);
        assert(sleeps == seq![t.delay_ms].add(rest));
        assert forall|i: int| 0 <= i < sleeps.len() implies #[trigger] sleeps[i] == base * pow2((attempts + i) as nat) by {
            if i > 0 {
                assert(sleeps[i] == rest[i - 1]);
                assert((attempts + 1 + (i - 1)) as nat == (attempts + i) as nat);
            }
        }
    }
}

} // verus!
