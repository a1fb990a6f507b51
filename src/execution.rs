use vstd::prelude::*;

verus! {

/// How the training cycle advances between publish points.
#[derive(PartialEq, Eq, Structural, Copy, Clone, Debug)]
pub enum RunMode {
    Pause,
    Stepping,
    Running,
}

/// Control events sent by the observer to the training controller.
#[derive(PartialEq, Eq, Structural, Copy, Clone, Debug)]
pub enum Events {
    PauseRequested,
    SteppingRequested,
    PlayRequested,
}

/// What a bounded blocking wait for an event came back with.
#[derive(PartialEq, Eq, Structural, Copy, Clone, Debug)]
pub enum Wake {
    Event(Events),
    Elapsed,
}

/// How the controller waits at a publish point.
#[derive(PartialEq, Eq, Structural, Copy, Clone, Debug)]
pub enum Wait {
    /// Block for an event, with a bounded wait interval.
    Block,
    /// Look once for a pending event without blocking.
    Poll,
}

/// What the controller does after a blocking wait.
#[derive(PartialEq, Eq, Structural, Copy, Clone, Debug)]
pub enum Resume {
    /// Block again.
    KeepWaiting,
    /// Look once for a pending event, then advance.
    Poll,
    /// Go on with the next half-cycle.
    Advance,
}

/// One of the two halves of a training cycle.
#[derive(PartialEq, Eq, Structural, Copy, Clone, Debug)]
pub enum Phase {
    Forward,
    Backward,
}

/// The controller's own state, of which a copy goes out with every snapshot.
#[derive(PartialEq, Eq, Structural, Copy, Clone, Debug)]
pub struct ExecutionObjects {
    pub iteration: usize,
    pub run_mode: RunMode,
}

/// The three button flags of a snapshot: pause, step and play.
#[derive(PartialEq, Eq, Structural, Copy, Clone, Debug)]
pub struct ActiveButtons {
    pub pause: bool,
    pub stepping: bool,
    pub play: bool,
}

pub open spec fn wait_of(mode: RunMode) -> Wait {
    if mode == RunMode::Running {
        Wait::Poll
    } else {
        Wait::Block
    }
}

/// The mode, the immediate-publish flag and the next move after a blocking wait.
pub open spec fn after_block(mode: RunMode, wake: Wake) -> (RunMode, bool, Resume) {
    match wake {
        Wake::Event(Events::PauseRequested) => (RunMode::Pause, true, Resume::KeepWaiting),
        Wake::Event(Events::SteppingRequested) => (RunMode::Stepping, false, Resume::Advance),
        Wake::Event(Events::PlayRequested) => (RunMode::Running, false, Resume::Poll),
        Wake::Elapsed => match mode {
            RunMode::Pause => (RunMode::Pause, false, Resume::KeepWaiting),
            RunMode::Stepping => (RunMode::Stepping, false, Resume::Advance),
            RunMode::Running => (RunMode::Running, false, Resume::Poll),
        },
    }
}

/// The mode and the immediate-publish flag after a non-blocking poll.
pub open spec fn after_poll(mode: RunMode, pending: Option<Events>) -> (RunMode, bool) {
    match pending {
        Some(Events::PauseRequested) => (RunMode::Pause, true),
        Some(Events::SteppingRequested) => (RunMode::Stepping, false),
        Some(Events::PlayRequested) => (RunMode::Running, false),
        None => (mode, false),
    }
}

/// Runs a sequence of blocking waits from `mode`, stopping at the first that lets
/// the controller move on: the mode at the end, and whether it moved on.
pub open spec fn blocking_run(mode: RunMode, wakes: Seq<Wake>) -> (RunMode, bool)
    decreases wakes.len(),
{
    if wakes.len() == 0 {
        (mode, false)
    } else {
        let (m, _, resume) = after_block(mode, wakes[0]);
        if resume == Resume::KeepWaiting {
            blocking_run(m, wakes.drop_first())
        } else {
            (m, true)
        }
    }
}

impl ExecutionObjects {
    /// A fresh controller state: no iteration done, paused.
    pub fn new() -> (r: Self)
        ensures
            r.iteration == 0,
            r.run_mode == RunMode::Pause,
    {
        ExecutionObjects { iteration: 0, run_mode: RunMode::Pause }
    }

    /// How to wait at the next publish point: block unless running.
    pub fn wait_kind(&self) -> (r: Wait)
        ensures
            r == wait_of(self.run_mode),
    {
        match self.run_mode {
            RunMode::Running => Wait::Poll,
            _ => Wait::Block,
        }
    }

    /// Applies what a blocking wait came back with. Returns whether a snapshot
    /// is to be published at once, and what to do next.
    pub fn on_block(&mut self, wake: Wake) -> (r: (bool, Resume))
        ensures
            (final(self).run_mode, r.0, r.1) == after_block(old(self).run_mode, wake),
            final(self).iteration == old(self).iteration,
    {
        match wake {
            Wake::Event(Events::PauseRequested) => {
                self.run_mode = RunMode::Pause;
                (true, Resume::KeepWaiting)
            },
            Wake::Event(Events::SteppingRequested) => {
                self.run_mode = RunMode::Stepping;
                (false, Resume::Advance)
            },
            Wake::Event(Events::PlayRequested) => {
                self.run_mode = RunMode::Running;
                (false, Resume::Poll)
            },
            Wake::Elapsed => match self.run_mode {
                RunMode::Pause => (false, Resume::KeepWaiting),
                RunMode::Stepping => (false, Resume::Advance),
                RunMode::Running => (false, Resume::Poll),
            },
        }
    }

    /// Applies what a non-blocking poll found. Returns whether a snapshot is to
    /// be published at once; the half-cycle then goes on.
    pub fn on_poll(&mut self, pending: Option<Events>) -> (r: bool)
        ensures
            (final(self).run_mode, r) == after_poll(old(self).run_mode, pending),
            final(self).iteration == old(self).iteration,
    {
        match pending {
            Some(Events::PauseRequested) => {
                self.run_mode = RunMode::Pause;
                true
            },
            Some(Events::SteppingRequested) => {
                self.run_mode = RunMode::Stepping;
                false
            },
            Some(Events::PlayRequested) => {
                self.run_mode = RunMode::Running;
                false
            },
            None => false,
        }
    }

    /// Records that a half-cycle is done; a full cycle ends with the backward phase.
    /// Returns the phase that comes next.
    pub fn complete_phase(&mut self, phase: Phase) -> (r: Phase)
        requires
            phase == Phase::Backward ==> old(self).iteration < usize::MAX,
        ensures
            final(self).run_mode == old(self).run_mode,
            final(self).iteration == (if phase == Phase::Backward {
                old(self).iteration + 1
            } else {
                old(self).iteration as int
            }),
            r == (if phase == Phase::Forward {
                Phase::Backward
            } else {
                Phase::Forward
            }),
    {
        match phase {
            Phase::Forward => Phase::Backward,
            Phase::Backward => {
                self.iteration = self.iteration + 1;
                Phase::Forward
            },
        }
    }

    /// Which run-mode button is shown active: exactly the one of the current mode.
    pub fn buttons(&self) -> (r: ActiveButtons)
        ensures
            r.pause == (self.run_mode == RunMode::Pause),
            r.stepping == (self.run_mode == RunMode::Stepping),
            r.play == (self.run_mode == RunMode::Running),
    {
        ActiveButtons {
            pause: self.run_mode == RunMode::Pause,
            stepping: self.run_mode == RunMode::Stepping,
            play: self.run_mode == RunMode::Running,
        }
    }
}

/// A paused controller stays paused and does not move on, whatever run of
/// elapsed waits and pause requests it meets: only a step or play request
/// lets it go on.
pub proof fn pause_holds_until_go(wakes: Seq<Wake>)
    requires
        forall|i: int|
            0 <= i < wakes.len() ==> (wakes[i] == Wake::Elapsed || wakes[i] == Wake::Event(
                Events::PauseRequested,
            )),
    ensures
        blocking_run(RunMode::Pause, wakes) == (RunMode::Pause, false),
    decreases wakes.len(),
{
    if wakes.len() > 0 {
        assert forall|i: int| 0 <= i < wakes.drop_first().len() implies (wakes.drop_first()[i]
            == Wake::Elapsed || wakes.drop_first()[i] == Wake::Event(Events::PauseRequested)) by {
            assert(wakes.drop_first()[i] == wakes[i + 1]);
        }
        pause_holds_until_go(wakes.drop_first());
    }
}

/// A step request at a blocking wait lets exactly one half-cycle go on: the
/// controller advances in stepping mode, and the next publish point blocks again.
pub proof fn step_advances_one_phase(mode: RunMode)
    ensures
        after_block(mode, Wake::Event(Events::SteppingRequested)) == (
            RunMode::Stepping,
            false,
            Resume::Advance,
        ),
        wait_of(RunMode::Stepping) == Wait::Block,
{
}

/// A pause request found while running takes effect at the next publish point,
/// which blocks, and asks for an immediate snapshot.
pub proof fn pause_while_running_halts()
    ensures
        after_poll(RunMode::Running, Some(Events::PauseRequested)) == (RunMode::Pause, true),
        wait_of(RunMode::Pause) == Wait::Block,
{
}

} // verus!
