//! The scan: which starting value comes next, and what has to be written down and sent out
//! once it has been classified.
//!
//! The engine decides and keeps count; it does not write or send anything itself. Whoever
//! drives it asks for the next candidate, classifies it, reports the outcome with `record`,
//! and carries out the actions that come back, in their order. Every `WriteCheckpoint` and
//! `SendDraw` of a step is about the candidate of that step.

use crate::biguint::{difference, from_u64, one, shifted_left, sum, value};
use crate::cycle::Outcome;
use crate::options::ScanOptions;
use crate::records::DEFAULT_START_BITS;
use crate::rng::Rng;
use crate::sampler::drawn;
use num_bigint::BigUint;
use vstd::arithmetic::power2::{lemma_pow2_pos, pow2};
use vstd::prelude::*;

verus! {

/// The exponent of the power of two below which random candidates stay.
pub const RANDOM_HIGH_BITS: u16 = 2000;

/// After how many milliseconds statistics are due again.
pub const STATS_PERIOD_MILLIS: u64 = 500;

/// Where a scan stands.
#[derive(Debug, Clone, Copy, PartialEq, Eq, Structural)]
pub enum Phase {
    /// Candidates are still being classified.
    Scanning,
    /// The scan has ended with a finding.
    Found,
    /// The scan has ended because it had classified as many candidates as it was to.
    LimitReached,
}

/// What the driver of a scan has to do after a step.
#[derive(Debug, Clone, Copy, PartialEq, Eq, Structural)]
pub enum Action {
    /// Write the checkpoint record of the step's candidate, durably.
    WriteCheckpoint,
    /// Write the solution record for the outcome and the step's candidate, durably.
    WriteSolution(Outcome),
    /// Offer the step's candidate to the display.
    SendDraw,
    /// Offer the display how many candidates are done and how many since the last time.
    SendStats { processed: u64, delta: u64 },
}

/// The state of a scan, as contracts speak of it.
pub struct ScanView {
    pub start: nat,
    pub random: bool,
    pub limit: Option<u64>,
    pub progress_interval: u64,
    pub visualize: bool,
    pub sample_interval: u64,
    pub processed: u64,
    pub reported: u64,
    pub phase: Phase,
}

/// The scan.
pub struct ScanEngine {
    start: BigUint,
    random_low: BigUint,
    random_high: BigUint,
    random: bool,
    limit: Option<u64>,
    progress_interval: u64,
    visualize: bool,
    sample_interval: u64,
    processed: u64,
    reported: u64,
    phase: Phase,
}

impl View for ScanEngine {
    type V = ScanView;

    closed spec fn view(&self) -> ScanView {
        ScanView {
            start: value(self.start),
            random: self.random,
            limit: self.limit,
            progress_interval: self.progress_interval,
            visualize: self.visualize,
            sample_interval: self.sample_interval,
            processed: self.processed,
            reported: self.reported,
            phase: self.phase,
        }
    }
}

/// An interval as the scan uses it: an interval of 0 counts as 1.
pub open spec fn at_least_one(interval: u64) -> u64 {
    if interval == 0 {
        1
    } else {
        interval
    }
}

/// The state a scan begins in.
pub open spec fn opening(start: nat, options: ScanOptions) -> ScanView {
    ScanView {
        start,
        random: options.random_mode,
        limit: options.count,
        progress_interval: at_least_one(options.progress_interval),
        visualize: options.visualization_enabled,
        sample_interval: at_least_one(options.visualization_sample_interval),
        processed: 0,
        reported: 0,
        phase: Phase::Scanning,
    }
}

impl ScanView {
    /// Whether the intervals are usable.
    pub open spec fn wf(self) -> bool {
        self.progress_interval >= 1 && self.sample_interval >= 1
    }

    /// The candidate of the next step of a scan that goes through the numbers in order.
    pub open spec fn position(self) -> nat {
        self.start + self.processed as nat
    }

    /// How many candidates are done after the next step.
    pub open spec fn counted(self) -> u64 {
        if self.processed == u64::MAX {
            u64::MAX
        } else {
            (self.processed + 1) as u64
        }
    }

    /// Whether the next step is the last one because the limit is reached with it.
    pub open spec fn hits_limit(self) -> bool {
        self.limit matches Some(n) && self.counted() >= n
    }

    /// The state after a step with the given outcome. `stats_due` says whether enough time
    /// has passed for statistics to be sent again.
    pub open spec fn after(self, outcome: Outcome, stats_due: bool) -> ScanView {
        if self.phase != Phase::Scanning {
            self
        } else if outcome != Outcome::ReachesOne {
            ScanView { phase: Phase::Found, ..self }
        } else {
            ScanView {
                processed: self.counted(),
                reported: if self.visualize && stats_due {
                    self.counted()
                } else {
                    self.reported
                },
                phase: if self.hits_limit() {
                    Phase::LimitReached
                } else {
                    Phase::Scanning
                },
                ..self
            }
        }
    }

    /// What is written at the cadence: the checkpoint and the sample for the display.
    pub open spec fn periodic(self) -> Seq<Action> {
        (if !self.random && self.processed % self.progress_interval == 0 {
            seq![Action::WriteCheckpoint]
        } else {
            seq![]
        }) + (if self.visualize && self.processed % self.sample_interval == 0 {
            seq![Action::SendDraw]
        } else {
            seq![]
        })
    }

    /// What is written when the step ends the scan: the solution, if there is a finding, and
    /// the checkpoint, whatever the cadence says.
    pub open spec fn closing(self, outcome: Outcome) -> Seq<Action> {
        (if outcome != Outcome::ReachesOne {
            seq![Action::WriteSolution(outcome)]
        } else if self.visualize {
            seq![Action::SendDraw]
        } else {
            seq![]
        }) + (if !self.random {
            seq![Action::WriteCheckpoint]
        } else {
            seq![]
        })
    }

    /// The statistics that go out with a step, if they are due.
    pub open spec fn statistics(self, stats_due: bool) -> Seq<Action> {
        if self.visualize && stats_due {
            seq![
                Action::SendStats {
                    processed: self.counted(),
                    delta: if self.counted() >= self.reported {
                        (self.counted() - self.reported) as u64
                    } else {
                        0
                    },
                },
            ]
        } else {
            seq![]
        }
    }

    /// The actions of a step with the given outcome, in their order.
    pub open spec fn actions(self, outcome: Outcome, stats_due: bool) -> Seq<Action> {
        if self.phase != Phase::Scanning {
            seq![]
        } else if outcome != Outcome::ReachesOne {
            self.periodic() + self.closing(outcome)
        } else if self.hits_limit() {
            self.periodic() + self.statistics(stats_due) + self.closing(outcome)
        } else {
            self.periodic() + self.statistics(stats_due)
        }
    }
}

/// What a draw of a random candidate gives from generator state `s`: a number between two to
/// the power of `DEFAULT_START_BITS` and one below two to the power of `RANDOM_HIGH_BITS`, if
/// the generator came up with one, and the state the generator is left in.
pub open spec fn random_draw(s: (u64, u64)) -> (Option<nat>, (u64, u64)) {
    drawn(
        s,
        pow2(DEFAULT_START_BITS as nat),
        (pow2(RANDOM_HIGH_BITS as nat) - 1) as nat,
        u64::MAX as nat,
    )
}

/// Whether statistics are due again after `elapsed_millis` milliseconds.
pub fn stats_due(elapsed_millis: u64) -> (due: bool)
    ensures
        due == (elapsed_millis >= STATS_PERIOD_MILLIS),
{
    elapsed_millis >= STATS_PERIOD_MILLIS
}

impl ScanEngine {
    #[verifier::type_invariant]
    spec fn inv(self) -> bool {
        &&& self.progress_interval >= 1
        &&& self.sample_interval >= 1
        &&& value(self.random_low) == pow2(DEFAULT_START_BITS as nat)
        &&& value(self.random_high) == pow2(RANDOM_HIGH_BITS as nat) - 1
    }

    /// A scan that begins at `start`.
    pub fn new(start: BigUint, options: &ScanOptions) -> (engine: ScanEngine)
        ensures
            engine@ == opening(value(start), *options),
            engine@.wf(),
    {
        let unit = one();
        let random_low = shifted_left(&unit, DEFAULT_START_BITS);
        let above = shifted_left(&unit, RANDOM_HIGH_BITS);
        proof {
            lemma_pow2_pos(RANDOM_HIGH_BITS as nat);
            assert(1 * pow2(DEFAULT_START_BITS as nat) == pow2(DEFAULT_START_BITS as nat));
            assert(1 * pow2(RANDOM_HIGH_BITS as nat) == pow2(RANDOM_HIGH_BITS as nat));
        }
        let random_high = difference(&above, &unit);
        ScanEngine {
            start,
            random_low,
            random_high,
            random: options.random_mode,
            limit: options.count,
            progress_interval: if options.progress_interval == 0 {
                1
            } else {
                options.progress_interval
            },
            visualize: options.visualization_enabled,
            sample_interval: if options.visualization_sample_interval == 0 {
                1
            } else {
                options.visualization_sample_interval
            },
            processed: 0,
            reported: 0,
            phase: Phase::Scanning,
        }
    }

    /// Where the scan stands.
    pub fn phase(&self) -> (phase: Phase)
        ensures
            phase == self@.phase,
    {
        self.phase
    }

    /// How many candidates are done.
    pub fn processed(&self) -> (n: u64)
        ensures
            n == self@.processed,
    {
        self.processed
    }

    /// Whether the scan writes its first position down before the first step: a scan that
    /// goes through the numbers in order does, one that draws them at random does not.
    pub fn opens_with_checkpoint(&self) -> (yes: bool)
        ensures
            yes == !self@.random,
    {
        !self.random
    }

    /// The candidate of the next step. A scan that goes through the numbers in order takes
    /// the one at its position and leaves the generator alone. A scan in random mode draws
    /// from the range between two to the power of `DEFAULT_START_BITS` and one below two to
    /// the power of `RANDOM_HIGH_BITS`; the result is `None` when the generator did not come
    /// up with a number of that range, and the next call tries again.
    pub fn candidate(&self, rng: &mut Rng) -> (r: Option<BigUint>)
        ensures
            self@.wf(),
            final(rng)@ == (if self@.random {
                random_draw(old(rng)@).1
            } else {
                old(rng)@
            }),
            match r {
                Some(c) => if self@.random {
                    random_draw(old(rng)@).0 == Some(value(c))
                } else {
                    value(c) == self@.position()
                },
                None => self@.random && random_draw(old(rng)@).0 is None,
            },
    {
        proof {
            use_type_invariant(self);
        }
        if self.random {
            rng.gen_range_biguint(&self.random_low, &self.random_high)
        } else {
            Some(sum(&self.start, &from_u64(self.processed)))
        }
    }

    /// Takes note of the outcome for the candidate of this step and says what has to be done
    /// about it. `stats_due` says whether enough time has passed for statistics to be sent
    /// again. A scan that has ended stays as it is and asks for nothing.
    pub fn record(&mut self, outcome: Outcome, stats_due: bool) -> (actions: Vec<Action>)
        ensures
            old(self)@.wf(),
            final(self)@ == old(self)@.after(outcome, stats_due),
            actions@ == old(self)@.actions(outcome, stats_due),
    {
        proof {
            use_type_invariant(&*self);
        }
        let mut actions: Vec<Action> = Vec::new();
        match self.phase {
            Phase::Scanning => {},
            _ => {
                return actions;
            },
        }
        if !self.random && self.processed % self.progress_interval == 0 {
            actions.push(Action::WriteCheckpoint);
        }
        if self.visualize && self.processed % self.sample_interval == 0 {
            actions.push(Action::SendDraw);
        }
        assert(actions@ =~= old(self)@.periodic());
        match outcome {
            Outcome::ReachesOne => {},
            _ => {
                actions.push(Action::WriteSolution(outcome));
                if !self.random {
                    actions.push(Action::WriteCheckpoint);
                }
                self.phase = Phase::Found;
                assert(actions@ =~= old(self)@.periodic() + old(self)@.closing(outcome));
                return actions;
            },
        }
        let counted = self.processed.saturating_add(1);
        self.processed = counted;
        if self.visualize && stats_due {
            let delta = counted.saturating_sub(self.reported);
            actions.push(Action::SendStats { processed: counted, delta });
            self.reported = counted;
        }
        assert(actions@ =~= old(self)@.periodic() + old(self)@.statistics(stats_due));
        let done = match self.limit {
            Some(n) => counted >= n,
            None => false,
        };
        if done {
            if self.visualize {
                actions.push(Action::SendDraw);
            }
            if !self.random {
                actions.push(Action::WriteCheckpoint);
            }
            self.phase = Phase::LimitReached;
            assert(actions@ =~= old(self)@.periodic() + old(self)@.statistics(stats_due) + old(
                self,
            )@.closing(outcome));
        }
        actions
    }
}

/// The state of a scan after a run of steps, each given by its outcome and by whether
/// statistics were due.
pub open spec fn run(s: ScanView, steps: Seq<(Outcome, bool)>) -> ScanView
    decreases steps.len(),
{
    if steps.len() == 0 {
        s
    } else {
        run(s, steps.drop_last()).after(steps.last().0, steps.last().1)
    }
}

/// How many times a sequence of actions asks for the checkpoint to be written.
pub open spec fn checkpoint_writes(actions: Seq<Action>) -> nat
    decreases actions.len(),
{
    if actions.len() == 0 {
        0
    } else {
        checkpoint_writes(actions.drop_last()) + if actions.last() == Action::WriteCheckpoint {
            1nat
        } else {
            0nat
        }
    }
}

/// The positions that a step writes to the checkpoint, one after the other: each time the
/// position of the step's candidate.
pub open spec fn written(s: ScanView, outcome: Outcome, stats_due: bool) -> Seq<nat> {
    Seq::new(checkpoint_writes(s.actions(outcome, stats_due)), |i: int| s.position())
}

/// The positions that a run of steps writes to the checkpoint, one after the other.
pub open spec fn checkpoints(s: ScanView, steps: Seq<(Outcome, bool)>) -> Seq<nat>
    decreases steps.len(),
{
    if steps.len() == 0 {
        seq![]
    } else {
        checkpoints(s, steps.drop_last()) + written(
            run(s, steps.drop_last()),
            steps.last().0,
            steps.last().1,
        )
    }
}

/// Law: a step never takes the scan back: the position after it is the position before it or
/// the one behind that, and the scan keeps its start and its settings.
pub proof fn lemma_step_moves_forward(s: ScanView, outcome: Outcome, stats_due: bool)
    ensures
        s.position() <= s.after(outcome, stats_due).position() <= s.position() + 1,
        s.after(outcome, stats_due).start == s.start,
        s.after(outcome, stats_due).random == s.random,
        s.wf() ==> s.after(outcome, stats_due).wf(),
{
}

/// Law: whatever a run writes to the checkpoint lies between the position it began at and
/// the position it has come to.
pub proof fn lemma_checkpoints_within_run(s: ScanView, steps: Seq<(Outcome, bool)>, k: int)
    requires
        0 <= k < checkpoints(s, steps).len(),
    ensures
        s.position() <= run(s, steps).position(),
        s.position() <= checkpoints(s, steps)[k] <= run(s, steps).position(),
    decreases steps.len(),
{
    let before = run(s, steps.drop_last());
    lemma_run_moves_forward(s, steps.drop_last());
    lemma_step_moves_forward(before, steps.last().0, steps.last().1);
    if k < checkpoints(s, steps.drop_last()).len() {
        lemma_checkpoints_within_run(s, steps.drop_last(), k);
    }
}

/// Law: a run never takes the scan back.
pub proof fn lemma_run_moves_forward(s: ScanView, steps: Seq<(Outcome, bool)>)
    ensures
        s.position() <= run(s, steps).position(),
    decreases steps.len(),
{
    if steps.len() > 0 {
        lemma_run_moves_forward(s, steps.drop_last());
        lemma_step_moves_forward(run(s, steps.drop_last()), steps.last().0, steps.last().1);
    }
}

/// Law: the checkpoint never regresses: of two positions that a run writes to it, the later
/// one is not the smaller one.
pub proof fn lemma_checkpoints_never_regress(
    s: ScanView,
    steps: Seq<(Outcome, bool)>,
    i: int,
    j: int,
)
    requires
        0 <= i <= j < checkpoints(s, steps).len(),
    ensures
        checkpoints(s, steps)[i] <= checkpoints(s, steps)[j],
    decreases steps.len(),
{
    let earlier = checkpoints(s, steps.drop_last());
    if j < earlier.len() {
        lemma_checkpoints_never_regress(s, steps.drop_last(), i, j);
    } else if i < earlier.len() {
        lemma_checkpoints_within_run(s, steps.drop_last(), i);
    }
}

/// Law: a scan that goes through the numbers in order and ends with a step has, as the last
/// thing of that step, written the position of the step's candidate to the checkpoint.
pub proof fn lemma_last_step_writes_checkpoint(s: ScanView, outcome: Outcome, stats_due: bool)
    requires
        s.phase == Phase::Scanning,
        !s.random,
        s.after(outcome, stats_due).phase != Phase::Scanning,
    ensures
        s.actions(outcome, stats_due).len() > 0,
        s.actions(outcome, stats_due).last() == Action::WriteCheckpoint,
        written(s, outcome, stats_due).len() > 0,
        written(s, outcome, stats_due).last() == s.position(),
{
}

/// Law: a finding ends the scan with its solution record, and nothing else does: a step
/// asks for the solution to be written exactly when its outcome is a finding, and then for
/// that outcome.
pub proof fn lemma_solution_only_for_finding(s: ScanView, outcome: Outcome, stats_due: bool)
    requires
        s.phase == Phase::Scanning,
    ensures
        outcome != Outcome::ReachesOne ==> s.after(outcome, stats_due).phase == Phase::Found
            && s.actions(outcome, stats_due).contains(Action::WriteSolution(outcome)),
        outcome == Outcome::ReachesOne ==> s.after(outcome, stats_due).phase != Phase::Found
            && forall|k: int|
            0 <= k < s.actions(outcome, stats_due).len() ==> !(#[trigger] s.actions(
                outcome,
                stats_due,
            )[k] is WriteSolution),
{
    let a = s.actions(outcome, stats_due);
    if outcome != Outcome::ReachesOne {
        let at = s.periodic().len() as int;
        assert(a[at] == Action::WriteSolution(outcome));
    }
}

} // verus!
