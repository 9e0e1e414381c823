//! A project is one product's whole life: from an idea to a review.
use vstd::prelude::*;

use crate::stage::{ProjectStatus, Stage};

verus! {

pub const DAY_MS: i64 = 86_400_000;

#[derive(Debug, Clone, PartialEq)]
pub struct Project {
    pub id: String,
    /// Human-readable number such as PP-0012.
    pub code: String,
    pub title: String,
    pub stage: Stage,
    pub status: ProjectStatus,
    pub category: String,
    /// The assumption this product is meant to test (who buys, why, for how much).
    pub hypothesis: String,
    pub kill_reason: Option<String>,
    pub cover_asset_id: Option<String>,
    /// When the current stage was entered (ms); "N days in this stage" is counted from here.
    pub stage_entered_at: i64,
    pub created_at: i64,
    pub updated_at: i64,
}

/// Whole days from `entered` to `now`; a clock that went backwards counts as zero.
pub open spec fn whole_days(entered: i64, now: i64) -> u32 {
    let ms = now - entered;
    let ms = if ms < 0 { 0 } else { ms };
    (ms / (DAY_MS as int)) as u32
}

impl Project {
    /// Whole days spent in the current stage.
    pub fn days_in_stage(&self, now_ms: i64) -> (r: u32)
        requires
            i64::MIN <= now_ms - self.stage_entered_at <= i64::MAX,
        ensures
            r == whole_days(self.stage_entered_at, now_ms),
    {
        let d = now_ms - self.stage_entered_at;
        let ms = if d < 0 { 0 } else { d };
        (ms / DAY_MS) as u32
    }

    pub open spec fn stale_at(&self, now_ms: i64) -> bool {
        &&& self.status == ProjectStatus::Active
        &&& self.stage.stale_limit() matches Some(limit)
        &&& whole_days(self.stage_entered_at, now_ms) >= limit
    }

    /// Whether the board should flag the project as stuck. Only active projects are flagged.
    pub fn is_stale(&self, now_ms: i64) -> (r: bool)
        requires
            i64::MIN <= now_ms - self.stage_entered_at <= i64::MAX,
        ensures
            r == self.stale_at(now_ms),
    {
        if self.status != ProjectStatus::Active {
            return false;
        }
        match self.stage.stale_after_days() {
            Some(limit) => self.days_in_stage(now_ms) >= limit,
            None => false,
        }
    }
}

/// Only an active project can be stuck, and never in a stage without a time limit.
pub proof fn stale_needs_active_and_a_limit(p: Project, now_ms: i64)
    ensures
        p.stale_at(now_ms) ==> p.status == ProjectStatus::Active,
        p.stale_at(now_ms) ==> p.stage.stale_limit() is Some,
        p.stage == Stage::Operating || p.stage == Stage::Review ==> !p.stale_at(now_ms),
{
}

/// Time spent in a stage never goes down as the clock moves forward.
pub proof fn days_in_stage_monotonic(entered: i64, a: i64, b: i64)
    requires
        a <= b,
        0 <= b - entered <= u32::MAX * DAY_MS,
    ensures
        whole_days(entered, a) <= whole_days(entered, b),
{
    let ma = if a - entered < 0 { 0 } else { a - entered };
    let mb = b - entered;
    assert(ma <= mb);
    assert(ma / (DAY_MS as int) <= mb / (DAY_MS as int)) by (nonlinear_arith)
        requires
            0 <= ma <= mb,
    ;
    assert(mb / (DAY_MS as int) <= u32::MAX) by (nonlinear_arith)
        requires
            0 <= mb <= u32::MAX * 86_400_000,
    ;
}

#[derive(Debug, Clone, Default)]
pub struct NewProject {
    pub title: String,
    pub category: String,
    pub hypothesis: String,
}

/// One move between stages: how long each stage took, and the idea-to-listing cycle.
#[derive(Debug, Clone, PartialEq)]
pub struct StageEvent {
    pub id: String,
    pub project_id: String,
    pub from_stage: Option<Stage>,
    pub to_stage: Stage,
    /// "user" | "agent"
    pub actor: String,
    /// Moved on although the stage's checklist was not complete.
    pub forced: bool,
    pub note: String,
    pub created_at: i64,
}

/// What the "about / settings" page shows of the running installation.
#[derive(Debug, Clone, Default, PartialEq)]
pub struct AppInfo {
    pub version: String,
    pub library_dir: String,
    pub db_path: String,
    pub schema_version: u32,
    pub project_count: u32,
    /// Demo mode: every provider answers with built-in samples.
    pub demo_mode: bool,
    /// False when the settings file could not be read at start: nothing is saved this run.
    pub config_writable: bool,
}

/// An active project that has spent a week or more in any stage before Operating (Listing
/// included) is flagged as stuck; and once flagged it stays flagged as the clock moves on.
pub proof fn a_week_in_a_stage_before_operating_is_stuck(p: Project, now_ms: i64, later_ms: i64)
    requires
        p.status == ProjectStatus::Active,
        p.stage.rank() < Stage::Operating.rank(),
    ensures
        whole_days(p.stage_entered_at, now_ms) >= 7 ==> p.stale_at(now_ms),
        p.stale_at(now_ms) && now_ms <= later_ms && 0 <= later_ms - p.stage_entered_at <= u32::MAX * DAY_MS ==> p.stale_at(
            later_ms,
        ),
{
    crate::stage::stages_before_operating_have_a_time_limit(p.stage);
    if p.stale_at(now_ms) && now_ms <= later_ms && 0 <= later_ms - p.stage_entered_at <= u32::MAX * DAY_MS {
        days_in_stage_monotonic(p.stage_entered_at, now_ms, later_ms);
    }
}

} // verus!
