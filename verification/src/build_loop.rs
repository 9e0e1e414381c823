//! The write–run–check loop of model building as a state machine. The caller performs each
//! action (asking the model, running the engine) and hands back what happened; this decides
//! what comes next: run the version, send its problems back for another one, deliver the best
//! version so far, or stop.
use vstd::prelude::*;

use crate::cad_agent::{best_candidate, is_best, round_step, round_step_spec, RoundStep};

verus! {

#[derive(Debug, Clone, Copy, PartialEq, Eq, Structural)]
pub enum Phase {
    /// Waiting for the model's answer.
    Writing,
    /// Waiting for the engine's run and the checks.
    Running,
    Finished,
}

/// What came back from the last action.
#[derive(Debug, Clone, Copy, PartialEq, Eq, Structural)]
pub enum BuildEvent {
    /// The model could not be reached for the version asked for.
    ModelFailed,
    /// The model answered; `unchanged`: with the very script it was asked to edit.
    Answered { unchanged: bool },
    /// The engine itself failed (missing, does not start): nothing the model can fix.
    EngineFailed,
    /// The version ran and was checked: `ran` whether a model came out, `problems` how many.
    Checked { ran: bool, problems: usize },
}

/// What to do next.
#[derive(Debug, Clone, Copy, PartialEq, Eq, Structural)]
pub enum BuildAction {
    /// Ask the model for version `attempt`; with `feedback` the last version's problems go along.
    Ask { attempt: u32, feedback: bool },
    /// Run and check version `attempt`.
    Run { attempt: u32 },
    /// Deliver this version (an index into the versions that ran), or nothing when none ran.
    Deliver(Option<usize>),
    /// Stop with the error just reported.
    Fail,
}

pub struct BuildLoop {
    attempt: u32,
    max_repairs: u32,
    /// Attempt number and problem count of each version that ran, in order.
    ran: Vec<(u32, usize)>,
    phase: Phase,
}

/// The loop as values: attempt (from 1), the repairs allowed, the versions that ran, the phase.
pub struct LoopV {
    pub attempt: u32,
    pub max_repairs: u32,
    pub ran: Seq<(u32, usize)>,
    pub phase: Phase,
}

/// Attempts grow one by one and never pass `max_repairs + 1`; the versions that ran are earlier
/// or current attempts, in increasing order.
pub open spec fn loop_wf(v: LoopV) -> bool {
    &&& 1 <= v.attempt <= v.max_repairs as int + 1
    &&& v.max_repairs < u32::MAX
    &&& forall|i: int, j: int| 0 <= i < j < v.ran.len() ==> v.ran[i].0 < v.ran[j].0
    &&& forall|i: int| 0 <= i < v.ran.len() ==> (#[trigger] v.ran[i]).0 <= v.attempt
    &&& v.phase == Phase::Running ==> forall|i: int| 0 <= i < v.ran.len() ==> (#[trigger] v.ran[i]).0 < v.attempt
    &&& v.phase == Phase::Writing ==> forall|i: int| 0 <= i < v.ran.len() ==> (#[trigger] v.ran[i]).0 < v.attempt
}

/// The version to deliver from `ran`: the best one (see `is_best`), none when none ran.
pub open spec fn delivers(ran: Seq<(u32, usize)>, pick: Option<usize>) -> bool {
    match pick {
        None => ran.len() == 0,
        Some(i) => is_best(ran, i as int),
    }
}

/// After a version was checked: it passed, or the repairs ran out → deliver (see
/// `round_step_spec`); else ask again.
pub open spec fn after_check(v: LoopV, ran: bool, problems: nat, out: LoopV, a: BuildAction) -> bool {
    let r2 = if ran { v.ran.push((v.attempt, problems as usize)) } else { v.ran };
    &&& out.ran == r2
    &&& out.max_repairs == v.max_repairs
    &&& if round_step_spec(v.attempt as nat, v.max_repairs as nat, problems) == RoundStep::Deliver {
        &&& out.phase == Phase::Finished
        &&& out.attempt == v.attempt
        &&& a matches BuildAction::Deliver(pick) && delivers(r2, pick)
    } else {
        &&& out.phase == Phase::Writing
        &&& out.attempt == v.attempt + 1
        &&& a == BuildAction::Ask { attempt: (v.attempt + 1) as u32, feedback: true }
    }
}

/// One step of the loop (see each event).
pub open spec fn step_ok(v: LoopV, e: BuildEvent, out: LoopV, a: BuildAction) -> bool {
    match (v.phase, e) {
        (Phase::Writing, BuildEvent::ModelFailed) => {
            // a version that already runs is delivered rather than thrown away
            &&& out == LoopV { phase: Phase::Finished, ..v }
            &&& if v.ran.len() > 0 {
                a matches BuildAction::Deliver(pick) && delivers(v.ran, pick)
            } else {
                a == BuildAction::Fail
            }
        },
        (Phase::Writing, BuildEvent::Answered { unchanged: true }) => after_check(v, false, 1, out, a),
        (Phase::Writing, BuildEvent::Answered { unchanged: false }) => {
            &&& out == LoopV { phase: Phase::Running, ..v }
            &&& a == BuildAction::Run { attempt: v.attempt }
        },
        (Phase::Running, BuildEvent::EngineFailed) => {
            &&& out == LoopV { phase: Phase::Finished, ..v }
            &&& a == BuildAction::Fail
        },
        (Phase::Running, BuildEvent::Checked { ran, problems }) => after_check(v, ran, problems as nat, out, a),
        _ => {
            &&& out == LoopV { phase: Phase::Finished, ..v }
            &&& a == BuildAction::Fail
        },
    }
}

impl BuildLoop {
    pub closed spec fn view(&self) -> LoopV {
        LoopV { attempt: self.attempt, max_repairs: self.max_repairs, ran: self.ran@, phase: self.phase }
    }

    /// A new loop and its first action: ask for version 1 (the caller skips the question when it
    /// already holds the first answer).
    pub fn new(max_repairs: u32) -> (r: (BuildLoop, BuildAction))
        requires
            max_repairs < u32::MAX,
        ensures
            r.0.view() == (LoopV { attempt: 1, max_repairs, ran: Seq::empty(), phase: Phase::Writing }),
            loop_wf(r.0.view()),
            r.1 == (BuildAction::Ask { attempt: 1, feedback: false }),
    {
        let l = BuildLoop { attempt: 1, max_repairs, ran: Vec::new(), phase: Phase::Writing };
        assert(l.ran@ == Seq::<(u32, usize)>::empty());
        (l, BuildAction::Ask { attempt: 1, feedback: false })
    }

    pub fn phase(&self) -> (r: Phase)
        ensures
            r == self.view().phase,
    {
        self.phase
    }

    fn deliver(&mut self) -> (a: BuildAction)
        requires
            forall|i: int, j: int| 0 <= i < j < old(self).ran@.len() ==> old(self).ran@[i].0 < old(self).ran@[j].0,
        ensures
            final(self).view() == (LoopV { phase: Phase::Finished, ..old(self).view() }),
            a matches BuildAction::Deliver(pick) && delivers(old(self).ran@, pick),
    {
        self.phase = Phase::Finished;
        BuildAction::Deliver(best_candidate(self.ran.as_slice()))
    }

    fn checked(&mut self, ran: bool, problems: usize) -> (a: BuildAction)
        requires
            loop_wf(old(self).view()),
            forall|i: int| 0 <= i < old(self).ran@.len() ==> (#[trigger] old(self).ran@[i]).0 < old(self).attempt,
        ensures
            after_check(old(self).view(), ran, problems as nat, final(self).view(), a),
            loop_wf(final(self).view()),
    {
        let ghost v = self.view();
        if ran {
            self.ran.push((self.attempt, problems));
        }
        proof {
            let r2 = if ran { v.ran.push((v.attempt, problems)) } else { v.ran };
            assert(self.ran@ == r2);
            assert forall|i: int, j: int| 0 <= i < j < self.ran@.len() implies self.ran@[i].0 < self.ran@[j].0 by {
                if ran && j == self.ran@.len() - 1 {
                    assert(self.ran@[i] == v.ran[i]);
                } else {
                    assert(self.ran@[i] == v.ran[i] && self.ran@[j] == v.ran[j]);
                }
            }
        }
        if round_step(self.attempt, self.max_repairs, problems) == RoundStep::Deliver {
            self.deliver()
        } else {
            self.attempt = self.attempt + 1;
            self.phase = Phase::Writing;
            BuildAction::Ask { attempt: self.attempt, feedback: true }
        }
    }

    /// Takes what happened and returns the next action (see `step_ok`).
    pub fn step(&mut self, e: BuildEvent) -> (a: BuildAction)
        requires
            loop_wf(old(self).view()),
        ensures
            step_ok(old(self).view(), e, final(self).view(), a),
            loop_wf(final(self).view()),
    {
        match (self.phase, e) {
            (Phase::Writing, BuildEvent::ModelFailed) => {
                if self.ran.len() > 0 {
                    self.deliver()
                } else {
                    self.phase = Phase::Finished;
                    BuildAction::Fail
                }
            },
            (Phase::Writing, BuildEvent::Answered { unchanged: true }) => {
                proof {
                    let v = self.view();
                    assert(v.phase == Phase::Writing);
                    assert forall|i: int| 0 <= i < self.ran@.len() implies (#[trigger] self.ran@[i]).0 < self.attempt by {
                        assert(v.ran[i] == self.ran@[i]);
                    }
                }
                self.checked(false, 1)
            },
            (Phase::Writing, BuildEvent::Answered { unchanged: false }) => {
                self.phase = Phase::Running;
                BuildAction::Run { attempt: self.attempt }
            },
            (Phase::Running, BuildEvent::EngineFailed) => {
                self.phase = Phase::Finished;
                BuildAction::Fail
            },
            (Phase::Running, BuildEvent::Checked { ran, problems }) => {
                proof {
                    let v = self.view();
                    assert(v.phase == Phase::Running);
                    assert forall|i: int| 0 <= i < self.ran@.len() implies (#[trigger] self.ran@[i]).0 < self.attempt by {
                        assert(v.ran[i] == self.ran@[i]);
                    }
                }
                self.checked(ran, problems)
            },
            _ => {
                self.phase = Phase::Finished;
                BuildAction::Fail
            },
        }
    }
}

} // verus!

verus! {

/// The model is asked at most `max_repairs + 1` times, a version that passes its checks ends the
/// loop and is the one delivered, and a failure after some version ran still delivers the best
/// of them.
pub proof fn the_loop_is_bounded_and_keeps_what_passed(v: LoopV, e: BuildEvent, out: LoopV, a: BuildAction)
    requires
        loop_wf(v),
        step_ok(v, e, out, a),
    ensures
        a matches BuildAction::Ask { attempt, feedback } ==> attempt <= v.max_repairs + 1 && feedback,
        (v.phase == Phase::Running && e == (BuildEvent::Checked { ran: true, problems: 0 })) ==> (a matches BuildAction::Deliver(Some(i))
            && out.ran[i as int].1 == 0),
        (v.phase == Phase::Writing && e == BuildEvent::ModelFailed && v.ran.len() > 0) ==> (a matches BuildAction::Deliver(Some(_))),
        a == BuildAction::Fail ==> out.phase == Phase::Finished,
        out.max_repairs == v.max_repairs,
{
    if v.phase == Phase::Running && e == (BuildEvent::Checked { ran: true, problems: 0 }) {
        let r2 = v.ran.push((v.attempt, 0usize));
        if let BuildAction::Deliver(Some(i)) = a {
            let last = r2.len() - 1;
            assert(r2[last].1 == 0);
            if i as int != last {
                assert(!crate::cad_agent::better(r2[last], r2[i as int]));
            }
        }
    }
}

} // verus!
