//! The order of a research run as a state machine: plan the searches (only when a search
//! provider is there), run them one by one, score, and have a critic review the conclusions when
//! one is set and there is evidence to hold them against. The caller performs each action (asks
//! the model, runs the search) and hands back what happened; this decides what comes next and
//! what the finished report says of the run.
use vstd::prelude::*;

use crate::research_run::{should_review, SearchStep};

verus! {

#[derive(Debug, Clone, Copy, PartialEq, Eq, Structural)]
pub enum RunPhase {
    /// Nothing asked yet.
    Ready,
    /// Waiting for the search plan.
    Planning,
    /// Waiting for search `done` of `total`.
    Searching { done: u32, total: u32 },
    /// Waiting for the scored opportunities.
    Scoring,
    /// Waiting for the critic.
    Reviewing,
    Finished,
}

/// Where a run is: its phase, whether a search provider and a critic model are there, and
/// whether some search added a card.
#[derive(Debug, Clone, Copy, PartialEq, Eq, Structural)]
pub struct RunState {
    pub phase: RunPhase,
    pub can_search: bool,
    pub has_critic: bool,
    pub got_hits: bool,
}

/// What came back from the last action.
#[derive(Debug, Clone, Copy, PartialEq, Eq, Structural)]
pub enum RunEvent {
    /// The run begins.
    Start,
    /// The plan came back with this many queries (already trimmed, deduplicated and capped).
    Planned { queries: u32 },
    /// A search answered; `added`: at least one of its hits became a new card.
    Searched { added: bool },
    /// A search failed, with the decision `search_step` took on its error.
    SearchFailed { step: SearchStep },
    /// The scored opportunities came back; `evidence`: how many cards the run holds.
    Scored { evidence: usize },
    /// The critic answered; `usable`: with a summary that passed its check. When it did not,
    /// or the call failed, the unreviewed conclusions stand.
    ReviewAnswered { usable: bool },
}

/// What to do next.
#[derive(Debug, Clone, Copy, PartialEq, Eq, Structural)]
pub enum RunAction {
    /// Ask the model for the search plan.
    Plan,
    /// Run planned query `index` (of `total`).
    Search { index: u32, total: u32 },
    /// Ask the model to score the opportunities against the cards.
    Score,
    /// Ask the critic to review the conclusions.
    Review,
    /// Hand the report over. `degraded`: no search added a card; `reviewed`: the critic's summary
    /// replaces the scored one.
    Finish { degraded: bool, reviewed: bool },
    /// Stop with the error just reported.
    Stop,
}

/// Planning and searching happen only with a search provider, and a search index always lies
/// below the planned total.
pub open spec fn run_wf(s: RunState) -> bool {
    match s.phase {
        RunPhase::Planning => s.can_search,
        RunPhase::Searching { done, total } => s.can_search && done < total,
        _ => true,
    }
}

/// After search `done` of `total` is over (answered or skipped): the next one, or scoring.
pub open spec fn next_search(s: RunState, done: u32, total: u32, got: bool) -> (RunState, RunAction) {
    if done + 1 < total {
        (
            RunState { phase: RunPhase::Searching { done: (done + 1) as u32, total }, got_hits: got, ..s },
            RunAction::Search { index: (done + 1) as u32, total },
        )
    } else {
        (RunState { phase: RunPhase::Scoring, got_hits: got, ..s }, RunAction::Score)
    }
}

/// The report is finished: degraded exactly when no search added a card.
pub open spec fn finish(s: RunState, reviewed: bool) -> (RunState, RunAction) {
    (RunState { phase: RunPhase::Finished, ..s }, RunAction::Finish { degraded: !s.got_hits, reviewed })
}

/// One step of a run.
/// - Start: plan when a search provider is there, else score straight away (no plan is asked).
/// - A plan with queries starts the first search; an empty one goes to scoring.
/// - A search that answered, or failed with `SkipQuery`, is over; one that failed with
///   `StopSearching` ends the searching; one that failed with `Abort` stops the run.
/// - After scoring, the critic reviews only when `should_review` says so; otherwise the report
///   is finished unreviewed.
/// - The critic's answer finishes the report, reviewed only when the answer was usable.
/// - Any other event in any other phase stops the run.
pub open spec fn run_step_spec(s: RunState, e: RunEvent) -> (RunState, RunAction) {
    match (s.phase, e) {
        (RunPhase::Ready, RunEvent::Start) => if s.can_search {
            (RunState { phase: RunPhase::Planning, ..s }, RunAction::Plan)
        } else {
            (RunState { phase: RunPhase::Scoring, ..s }, RunAction::Score)
        },
        (RunPhase::Planning, RunEvent::Planned { queries }) => if queries > 0 {
            (
                RunState { phase: RunPhase::Searching { done: 0, total: queries }, ..s },
                RunAction::Search { index: 0, total: queries },
            )
        } else {
            (RunState { phase: RunPhase::Scoring, ..s }, RunAction::Score)
        },
        (RunPhase::Searching { done, total }, RunEvent::Searched { added }) => next_search(
            s,
            done,
            total,
            s.got_hits || added,
        ),
        (RunPhase::Searching { done, total }, RunEvent::SearchFailed { step }) => match step {
            SearchStep::SkipQuery => next_search(s, done, total, s.got_hits),
            SearchStep::StopSearching => (RunState { phase: RunPhase::Scoring, ..s }, RunAction::Score),
            SearchStep::Abort => (RunState { phase: RunPhase::Finished, ..s }, RunAction::Stop),
        },
        (RunPhase::Scoring, RunEvent::Scored { evidence }) => if s.has_critic && evidence > 0 {
            (RunState { phase: RunPhase::Reviewing, ..s }, RunAction::Review)
        } else {
            finish(s, false)
        },
        (RunPhase::Reviewing, RunEvent::ReviewAnswered { usable }) => finish(s, usable),
        _ => (RunState { phase: RunPhase::Finished, ..s }, RunAction::Stop),
    }
}

impl RunState {
    /// A run that has not begun; `can_search`: a search provider is there, `has_critic`: a
    /// critic model is set.
    pub fn new(can_search: bool, has_critic: bool) -> (r: RunState)
        ensures
            r == (RunState { phase: RunPhase::Ready, can_search, has_critic, got_hits: false }),
            run_wf(r),
    {
        RunState { phase: RunPhase::Ready, can_search, has_critic, got_hits: false }
    }

    fn after_search(self, done: u32, total: u32, got: bool) -> (r: (RunState, RunAction))
        requires
            done < total,
            self.can_search,
        ensures
            r == next_search(self, done, total, got),
            run_wf(r.0),
    {
        if done + 1 < total {
            (
                RunState { phase: RunPhase::Searching { done: done + 1, total }, got_hits: got, ..self },
                RunAction::Search { index: done + 1, total },
            )
        } else {
            (RunState { phase: RunPhase::Scoring, got_hits: got, ..self }, RunAction::Score)
        }
    }

    /// Takes what happened and returns the next state and action (see `run_step_spec`).
    pub fn step(self, e: RunEvent) -> (r: (RunState, RunAction))
        requires
            run_wf(self),
        ensures
            r == run_step_spec(self, e),
            run_wf(r.0),
    {
        match (self.phase, e) {
            (RunPhase::Ready, RunEvent::Start) => if self.can_search {
                (RunState { phase: RunPhase::Planning, ..self }, RunAction::Plan)
            } else {
                (RunState { phase: RunPhase::Scoring, ..self }, RunAction::Score)
            },
            (RunPhase::Planning, RunEvent::Planned { queries }) => if queries > 0 {
                (
                    RunState { phase: RunPhase::Searching { done: 0, total: queries }, ..self },
                    RunAction::Search { index: 0, total: queries },
                )
            } else {
                (RunState { phase: RunPhase::Scoring, ..self }, RunAction::Score)
            },
            (RunPhase::Searching { done, total }, RunEvent::Searched { added }) => {
                self.after_search(done, total, self.got_hits || added)
            },
            (RunPhase::Searching { done, total }, RunEvent::SearchFailed { step }) => match step {
                SearchStep::SkipQuery => self.after_search(done, total, self.got_hits),
                SearchStep::StopSearching => (RunState { phase: RunPhase::Scoring, ..self }, RunAction::Score),
                SearchStep::Abort => (RunState { phase: RunPhase::Finished, ..self }, RunAction::Stop),
            },
            (RunPhase::Scoring, RunEvent::Scored { evidence }) => if should_review(self.has_critic, evidence) {
                (RunState { phase: RunPhase::Reviewing, ..self }, RunAction::Review)
            } else {
                (RunState { phase: RunPhase::Finished, ..self }, RunAction::Finish { degraded: !self.got_hits, reviewed: false })
            },
            (RunPhase::Reviewing, RunEvent::ReviewAnswered { usable }) => {
                (RunState { phase: RunPhase::Finished, ..self }, RunAction::Finish { degraded: !self.got_hits, reviewed: usable })
            },
            _ => (RunState { phase: RunPhase::Finished, ..self }, RunAction::Stop),
        }
    }
}

} // verus!

verus! {

/// Across every step of a run: a search is only ever asked below the planned total and only
/// when a search provider is there; a card once found keeps the run from being degraded; the
/// critic is only asked when one is set; and a finished report is degraded exactly when no
/// search added a card, and reviewed only after the critic answered usably.
pub proof fn runs_report_what_happened(s: RunState, e: RunEvent)
    requires
        run_wf(s),
    ensures
        ({
            let (out, a) = run_step_spec(s, e);
            &&& run_wf(out)
            &&& out.can_search == s.can_search && out.has_critic == s.has_critic
            &&& s.got_hits ==> out.got_hits
            &&& (a matches RunAction::Search { index, total } ==> index < total && s.can_search)
            &&& (a is Review ==> s.has_critic)
            &&& (a matches RunAction::Finish { degraded, reviewed } ==> degraded == !out.got_hits && (reviewed
                ==> e == RunEvent::ReviewAnswered { usable: true }))
            &&& (a is Finish || a is Stop) <==> out.phase is Finished
        }),
{
}

} // verus!
