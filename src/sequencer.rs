use vstd::prelude::*;
use std::time::{Duration, Instant};

verus! {

#[verifier::external_type_specification]
#[verifier::external_body]
pub struct ExInstant(std::time::Instant);

/// Where one stage of a sequencer stands.
#[derive(Debug, Clone, Copy, PartialEq, Eq, Structural)]
pub enum StageState {
    /// Not run yet.
    Pending,
    /// About to run, or running.
    Running,
    /// Ran and returned normally, taking this many whole milliseconds.
    Completed(u32),
    /// Ran and reported an error.
    Failed,
}

/// What a screen does on one scheduling tick.
#[derive(Debug, Clone, Copy, PartialEq, Eq, Structural)]
pub enum TickAction {
    /// Leave the screen: the cancel signal was seen.
    Exit,
    /// Run the next stage, then draw the frame.
    AdvanceAndDraw,
    /// Every stage has run: only draw the frame.
    Draw,
}

/// What a sequencer holds: the index of the next stage to run, and the
/// state of every stage.
pub type Stages = (int, Seq<StageState>);

/// The state a stage is left in by the outcome of its operation.
pub open spec fn outcome_state<E>(out: Result<u32, E>) -> StageState {
    match out {
        Ok(ms) => StageState::Completed(ms),
        Err(_) => StageState::Failed,
    }
}

/// A stage that has run holds its outcome.
pub open spec fn is_outcome(s: StageState) -> bool {
    s is Completed || s is Failed
}

/// Stages before the index have run, the others are pending, and the index
/// never passes the stage count.
pub open spec fn well_formed(v: Stages) -> bool {
    &&& 0 <= v.0 <= v.1.len()
    &&& forall|k: int| 0 <= k < v.0 ==> is_outcome(#[trigger] v.1[k])
    &&& forall|k: int| v.0 <= k < v.1.len() ==> #[trigger] v.1[k] == StageState::Pending
}

/// A sequencer over `n` stages that has run none of them.
pub open spec fn initial(n: nat) -> Stages {
    (0, Seq::new(n, |i: int| StageState::Pending))
}

/// One advance with the given outcome: the current stage takes it and the
/// index moves on; once every stage has run, nothing changes.
pub open spec fn stepped(v: Stages, s: StageState) -> Stages {
    if v.0 >= v.1.len() {
        v
    } else {
        (v.0 + 1, v.1.update(v.0, s))
    }
}

/// Advances with each outcome of `outs` in turn.
pub open spec fn stepped_all(v: Stages, outs: Seq<StageState>) -> Stages
    decreases outs.len(),
{
    if outs.len() == 0 {
        v
    } else {
        stepped(stepped_all(v, outs.drop_last()), outs.last())
    }
}

/// Runs a fixed list of operations one per call, in order, and keeps the
/// outcome of each.
///
/// A screen shows the stage at the index as running before the call that
/// runs it (see `display_state`).
#[derive(Debug)]
pub struct Sequencer {
    states: Vec<StageState>,
    current: usize,
}

impl View for Sequencer {
    type V = Stages;

    closed spec fn view(&self) -> Stages {
        (self.current as int, self.states@)
    }
}

impl Sequencer {
    #[verifier::type_invariant]
    spec fn inv(&self) -> bool {
        well_formed(self@)
    }

    /// A sequencer over `stage_count` stages, all pending.
    pub fn new(stage_count: usize) -> (r: Sequencer)
        ensures
            r@ == initial(stage_count as nat),
            well_formed(r@),
    {
        let mut states: Vec<StageState> = Vec::new();
        let mut i: usize = 0;
        while i < stage_count
            invariant
                i <= stage_count,
                states@ == Seq::new(i as nat, |k: int| StageState::Pending),
            decreases stage_count - i,
        {
            states.push(StageState::Pending);
            proof {
                assert(states@ =~= Seq::new((i + 1) as nat, |k: int| StageState::Pending));
            }
            i = i + 1;
        }
        Sequencer { states, current: 0 }
    }

    /// The number of stages.
    pub fn total(&self) -> (r: usize)
        ensures
            r == self@.1.len(),
            well_formed(self@),
    {
        proof {
            use_type_invariant(self);
        }
        self.states.len()
    }

    /// Every stage has run; advancing does nothing any more.
    pub fn is_done(&self) -> (r: bool)
        ensures
            r == (self@.0 >= self@.1.len()),
            well_formed(self@),
    {
        proof {
            use_type_invariant(self);
        }
        self.current >= self.states.len()
    }

    /// `(stages run, stages in all)`.
    pub fn progress(&self) -> (r: (usize, usize))
        ensures
            r.0 == self@.0,
            r.1 == self@.1.len(),
            r.0 <= r.1,
            well_formed(self@),
    {
        proof {
            use_type_invariant(self);
        }
        (self.current, self.states.len())
    }

    /// The recorded state of stage `i`: its outcome once it has run,
    /// `Pending` before.
    pub fn stage_state(&self, i: usize) -> (r: StageState)
        requires
            i < self@.1.len(),
        ensures
            r == self@.1[i as int],
            i < self@.0 ==> is_outcome(r),
            i >= self@.0 ==> r == StageState::Pending,
    {
        proof {
            use_type_invariant(self);
        }
        self.states[i]
    }

    /// The state to show for stage `i`: the stage at the index shows as
    /// `Running` before the call that runs it; the others as recorded.
    pub fn display_state(&self, i: usize) -> (r: StageState)
        requires
            i < self@.1.len(),
        ensures
            r == if i == self@.0 {
                StageState::Running
            } else {
                self@.1[i as int]
            },
    {
        if i == self.current {
            StageState::Running
        } else {
            self.states[i]
        }
    }

    /// The action for one tick of a screen driven by this sequencer: leave
    /// once cancelled, otherwise run the next stage while one is left, and
    /// draw.
    pub fn next_action(&self, cancel_requested: bool) -> (r: TickAction)
        ensures
            r == if cancel_requested {
                TickAction::Exit
            } else if self@.0 < self@.1.len() {
                TickAction::AdvanceAndDraw
            } else {
                TickAction::Draw
            },
    {
        if cancel_requested {
            TickAction::Exit
        } else if self.current < self.states.len() {
            TickAction::AdvanceAndDraw
        } else {
            TickAction::Draw
        }
    }

    /// Runs the operation of the current stage, records its outcome
    /// (`Completed` with the milliseconds it returns, `Failed` on an error)
    /// and moves to the next stage. Does nothing, and does not call `run`,
    /// once every stage has run.
    pub fn advance<E, F: FnOnce(usize) -> Result<u32, E>>(&mut self, run: F)
        requires
            old(self)@.0 < old(self)@.1.len() ==> run.requires((old(self)@.0 as usize,)),
        ensures
            well_formed(final(self)@),
            old(self)@.0 >= old(self)@.1.len() ==> final(self)@ == old(self)@,
            old(self)@.0 < old(self)@.1.len() ==> exists|out: Result<u32, E>|
                #![trigger run.ensures((old(self)@.0 as usize,), out)]
                run.ensures((old(self)@.0 as usize,), out) && final(self)@ == stepped(
                    old(self)@,
                    outcome_state(out),
                ),
    {
        proof {
            use_type_invariant(&*self);
        }
        if self.current >= self.states.len() {
            return;
        }
        let i = self.current;
        let out = run(i);
        let state = match out {
            Ok(ms) => StageState::Completed(ms),
            Err(_) => StageState::Failed,
        };
        proof {
            assert(state == outcome_state(out));
        }
        let mut states = copy_states(&self.states);
        states.set(i, state);
        proof {
            assert(states@ =~= stepped(old(self)@, outcome_state(out)).1);
        }
        *self = Sequencer { states, current: i + 1 };
        proof {
            use_type_invariant(&*self);
        }
    }
}

/// An element-by-element copy of `v`.
fn copy_states(v: &Vec<StageState>) -> (r: Vec<StageState>)
    ensures
        r@ == v@,
{
    let mut r: Vec<StageState> = Vec::new();
    let mut i: usize = 0;
    while i < v.len()
        invariant
            i <= v@.len(),
            r@ == v@.take(i as int),
        decreases v@.len() - i,
    {
        proof {
            assert(v@.take(i + 1) =~= v@.take(i as int).push(v@[i as int]));
        }
        r.push(v[i]);
        i = i + 1;
    }
    proof {
        assert(v@.take(i as int) =~= v@);
    }
    r
}

/// After `k` advances from the start, the first `k` stages hold the
/// outcomes given and the others are pending.
proof fn lemma_stepped_prefix(n: nat, outs: Seq<StageState>, k: int)
    requires
        0 <= k <= outs.len() <= n,
    ensures
        stepped_all(initial(n), outs.take(k)) == (
            k,
            outs.take(k) + Seq::new((n - k) as nat, |i: int| StageState::Pending),
        ),
    decreases k,
{
    if k > 0 {
        lemma_stepped_prefix(n, outs, k - 1);
        assert(outs.take(k).drop_last() =~= outs.take(k - 1));
        let prev = outs.take(k - 1) + Seq::new((n - (k - 1)) as nat, |i: int| StageState::Pending);
        assert(prev.update(k - 1, outs[k - 1]) =~= outs.take(k) + Seq::new(
            (n - k) as nat,
            |i: int| StageState::Pending,
        ));
    }
}

/// A sequencer of `n` stages is done after exactly `n` advances: the index
/// (and so `progress`) is `(n, n)`, every stage holds its outcome in order,
/// and a further advance changes nothing.
pub proof fn law_sequencer_runs_out(n: nat, outs: Seq<StageState>, extra: StageState)
    requires
        outs.len() == n,
    ensures
        stepped_all(initial(n), outs) == (n as int, outs),
        stepped_all(initial(n), outs).0 == stepped_all(initial(n), outs).1.len(),
        stepped(stepped_all(initial(n), outs), extra) == stepped_all(initial(n), outs),
{
    lemma_stepped_prefix(n, outs, n as int);
    assert(outs.take(n as int) =~= outs);
    assert(outs + Seq::new(0, |i: int| StageState::Pending) =~= outs);
}

/// A stage that fails touches no other stage: the next stage stays pending
/// until it runs, and the index moves on by one.
pub proof fn law_failure_is_isolated(v: Stages)
    requires
        well_formed(v),
        v.0 + 1 < v.1.len(),
    ensures
        stepped(v, StageState::Failed).0 == v.0 + 1,
        stepped(v, StageState::Failed).1[v.0 + 1] == StageState::Pending,
        forall|k: int|
            0 <= k < v.1.len() && k != v.0 ==> #[trigger] stepped(v, StageState::Failed).1[k]
                == v.1[k],
        well_formed(stepped(v, StageState::Failed)),
{
    assert(v.1[v.0 + 1] == StageState::Pending);
}

/// Runs `op` once and measures it on the monotonic clock: `Ok` with the
/// elapsed whole milliseconds, cut by `millis_u32`, when `op` returns
/// normally, its error otherwise. The clock decides the value.
pub fn timed<E, F: FnOnce() -> Result<(), E>>(op: F) -> (r: Result<u32, E>)
    requires
        op.requires(()),
    ensures
        exists|out: Result<(), E>|
            #![trigger op.ensures((), out)]
            op.ensures((), out) && match out {
                Ok(_) => r is Ok,
                Err(e) => r == Err::<u32, E>(e),
            },
{
    let start = clock_now();
    let out = op();
    let ms = whole_millis(&elapsed_since(&start));
    match out {
        Ok(_) => Ok(millis_u32(ms)),
        Err(e) => Err(e),
    }
}

/// A count of whole milliseconds cut to its low 32 bits, as a stage
/// records it.
pub fn millis_u32(ms: u128) -> (r: u32)
    ensures
        r == ms % 0x1_0000_0000,
{
    (ms % 0x1_0000_0000) as u32
}

/// Relies on `std::time::Instant::now`: the current reading of the
/// monotonic clock.
#[verifier::external_body]
fn clock_now() -> Instant {
    Instant::now()
}

/// Relies on `std::time::Instant::elapsed`: the time passed since `start`.
#[verifier::external_body]
fn elapsed_since(start: &Instant) -> Duration {
    start.elapsed()
}

/// Relies on `std::time::Duration::as_millis`: the whole milliseconds of `d`.
#[verifier::external_body]
fn whole_millis(d: &Duration) -> u128 {
    d.as_millis()
}

} // verus!
