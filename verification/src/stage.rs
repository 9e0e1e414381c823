//! Project stages: the eight steps a product goes through, from an idea to a review.
use vstd::prelude::*;

use crate::text::str_eq;

verus! {

#[derive(Debug, Clone, Copy, PartialEq, Eq, Hash, Structural)]
pub enum Stage {
    Idea,
    Research,
    Concept,
    Model,
    Prototype,
    Listing,
    Operating,
    Review,
}

impl Stage {
    /// In pipeline order; the board's columns come in this order.
    pub const ALL: [Stage; 8] = [
        Stage::Idea,
        Stage::Research,
        Stage::Concept,
        Stage::Model,
        Stage::Prototype,
        Stage::Listing,
        Stage::Operating,
        Stage::Review,
    ];

    /// Position in the pipeline.
    pub open spec fn rank(self) -> nat {
        match self {
            Stage::Idea => 0,
            Stage::Research => 1,
            Stage::Concept => 2,
            Stage::Model => 3,
            Stage::Prototype => 4,
            Stage::Listing => 5,
            Stage::Operating => 6,
            Stage::Review => 7,
        }
    }

    /// The stage at position `i` of the pipeline.
    pub open spec fn at_rank(i: int) -> Option<Stage> {
        if i == 0 {
            Some(Stage::Idea)
        } else if i == 1 {
            Some(Stage::Research)
        } else if i == 2 {
            Some(Stage::Concept)
        } else if i == 3 {
            Some(Stage::Model)
        } else if i == 4 {
            Some(Stage::Prototype)
        } else if i == 5 {
            Some(Stage::Listing)
        } else if i == 6 {
            Some(Stage::Operating)
        } else if i == 7 {
            Some(Stage::Review)
        } else {
            None
        }
    }

    /// The wire and database name.
    pub open spec fn name(self) -> Seq<char> {
        match self {
            Stage::Idea => "idea"@,
            Stage::Research => "research"@,
            Stage::Concept => "concept"@,
            Stage::Model => "model"@,
            Stage::Prototype => "prototype"@,
            Stage::Listing => "listing"@,
            Stage::Operating => "operating"@,
            Stage::Review => "review"@,
        }
    }

    /// The stage whose name is `s`, if any.
    pub open spec fn from_name(s: Seq<char>) -> Option<Stage> {
        if s == "idea"@ {
            Some(Stage::Idea)
        } else if s == "research"@ {
            Some(Stage::Research)
        } else if s == "concept"@ {
            Some(Stage::Concept)
        } else if s == "model"@ {
            Some(Stage::Model)
        } else if s == "prototype"@ {
            Some(Stage::Prototype)
        } else if s == "listing"@ {
            Some(Stage::Listing)
        } else if s == "operating"@ {
            Some(Stage::Operating)
        } else if s == "review"@ {
            Some(Stage::Review)
        } else {
            None
        }
    }

    /// How many days in this stage count as stuck; long-running stages have no limit.
    pub open spec fn stale_limit(self) -> Option<u32> {
        match self {
            Stage::Idea => Some(7),
            Stage::Research => Some(2),
            Stage::Concept => Some(4),
            Stage::Model => Some(3),
            Stage::Prototype => Some(3),
            Stage::Listing => Some(2),
            Stage::Operating | Stage::Review => None,
        }
    }

    pub fn as_str(self) -> (r: &'static str)
        ensures
            r@ == self.name(),
    {
        match self {
            Stage::Idea => "idea",
            Stage::Research => "research",
            Stage::Concept => "concept",
            Stage::Model => "model",
            Stage::Prototype => "prototype",
            Stage::Listing => "listing",
            Stage::Operating => "operating",
            Stage::Review => "review",
        }
    }

    pub fn parse(s: &str) -> (r: Option<Stage>)
        ensures
            r == Stage::from_name(s@),
    {
        if str_eq(s, "idea") {
            Some(Stage::Idea)
        } else if str_eq(s, "research") {
            Some(Stage::Research)
        } else if str_eq(s, "concept") {
            Some(Stage::Concept)
        } else if str_eq(s, "model") {
            Some(Stage::Model)
        } else if str_eq(s, "prototype") {
            Some(Stage::Prototype)
        } else if str_eq(s, "listing") {
            Some(Stage::Listing)
        } else if str_eq(s, "operating") {
            Some(Stage::Operating)
        } else if str_eq(s, "review") {
            Some(Stage::Review)
        } else {
            None
        }
    }

    pub fn index(self) -> (r: usize)
        ensures
            r == self.rank(),
    {
        match self {
            Stage::Idea => 0,
            Stage::Research => 1,
            Stage::Concept => 2,
            Stage::Model => 3,
            Stage::Prototype => 4,
            Stage::Listing => 5,
            Stage::Operating => 6,
            Stage::Review => 7,
        }
    }

    /// The following stage; `None` after the last one.
    pub fn next(self) -> (r: Option<Stage>)
        ensures
            r == Stage::at_rank(self.rank() + 1int),
    {
        match self {
            Stage::Idea => Some(Stage::Research),
            Stage::Research => Some(Stage::Concept),
            Stage::Concept => Some(Stage::Model),
            Stage::Model => Some(Stage::Prototype),
            Stage::Prototype => Some(Stage::Listing),
            Stage::Listing => Some(Stage::Operating),
            Stage::Operating => Some(Stage::Review),
            Stage::Review => None,
        }
    }

    pub fn stale_after_days(self) -> (r: Option<u32>)
        ensures
            r == self.stale_limit(),
    {
        match self {
            Stage::Idea => Some(7),
            Stage::Research => Some(2),
            Stage::Concept => Some(4),
            Stage::Model => Some(3),
            Stage::Prototype => Some(3),
            Stage::Listing => Some(2),
            Stage::Operating | Stage::Review => None,
        }
    }
}

/// Reading back the name of a stage gives that stage.
pub proof fn stage_name_roundtrip(s: Stage)
    ensures
        Stage::from_name(s.name()) == Some(s),
{
    reveal_strlit("idea");
    reveal_strlit("research");
    reveal_strlit("concept");
    reveal_strlit("model");
    reveal_strlit("prototype");
    reveal_strlit("listing");
    reveal_strlit("operating");
    reveal_strlit("review");
    let n = s.name();
    assert(n.len() > 0);
    if s != Stage::Idea { assert(n != "idea"@ ) by { assert(n.len() != 4 || n[0] != 'i'); } }
    if s != Stage::Research { assert(n != "research"@) by { assert(n.len() != 8 || n[0] != 'r'); } }
    if s != Stage::Concept { assert(n != "concept"@) by { assert(n.len() != 7 || n[0] != 'c'); } }
    if s != Stage::Model { assert(n != "model"@) by { assert(n.len() != 5 || n[0] != 'm'); } }
    if s != Stage::Prototype { assert(n != "prototype"@) by { assert(n.len() != 9 || n[0] != 'p'); } }
    if s != Stage::Listing { assert(n != "listing"@) by { assert(n.len() != 7 || n[0] != 'l'); } }
    if s != Stage::Operating { assert(n != "operating"@) by { assert(n.len() != 9 || n[0] != 'o'); } }
}

/// Ranks and positions agree: every stage sits at its own rank, and the pipeline has eight places.
pub proof fn stage_rank_positions(s: Stage, i: int)
    ensures
        Stage::at_rank(s.rank() as int) == Some(s),
        Stage::at_rank(i) is Some <==> 0 <= i < 8,
        Stage::at_rank(i) matches Some(t) ==> t.rank() == i,
{
}

#[derive(Debug, Clone, Copy, PartialEq, Eq, Hash, Structural)]
pub enum ProjectStatus {
    Active,
    Paused,
    Killed,
    Done,
}

impl ProjectStatus {
    pub open spec fn name(self) -> Seq<char> {
        match self {
            ProjectStatus::Active => "active"@,
            ProjectStatus::Paused => "paused"@,
            ProjectStatus::Killed => "killed"@,
            ProjectStatus::Done => "done"@,
        }
    }

    pub open spec fn from_name(s: Seq<char>) -> Option<ProjectStatus> {
        if s == "active"@ {
            Some(ProjectStatus::Active)
        } else if s == "paused"@ {
            Some(ProjectStatus::Paused)
        } else if s == "killed"@ {
            Some(ProjectStatus::Killed)
        } else if s == "done"@ {
            Some(ProjectStatus::Done)
        } else {
            None
        }
    }

    pub fn as_str(self) -> (r: &'static str)
        ensures
            r@ == self.name(),
    {
        match self {
            ProjectStatus::Active => "active",
            ProjectStatus::Paused => "paused",
            ProjectStatus::Killed => "killed",
            ProjectStatus::Done => "done",
        }
    }

    pub fn parse(s: &str) -> (r: Option<ProjectStatus>)
        ensures
            r == ProjectStatus::from_name(s@),
    {
        if str_eq(s, "active") {
            Some(ProjectStatus::Active)
        } else if str_eq(s, "paused") {
            Some(ProjectStatus::Paused)
        } else if str_eq(s, "killed") {
            Some(ProjectStatus::Killed)
        } else if str_eq(s, "done") {
            Some(ProjectStatus::Done)
        } else {
            None
        }
    }
}

/// Reading back the name of a status gives that status.
pub proof fn status_name_roundtrip(s: ProjectStatus)
    ensures
        ProjectStatus::from_name(s.name()) == Some(s),
{
    reveal_strlit("active");
    reveal_strlit("paused");
    reveal_strlit("killed");
    reveal_strlit("done");
    let n = s.name();
    if s != ProjectStatus::Active { assert(n != "active"@) by { assert(n.len() != 6 || n[0] != 'a'); } }
    if s != ProjectStatus::Paused { assert(n != "paused"@) by { assert(n.len() != 6 || n[0] != 'p'); } }
    if s != ProjectStatus::Killed { assert(n != "killed"@) by { assert(n.len() != 6 || n[0] != 'k'); } }
}

/// Every stage before Operating has a time limit, of two days to a week; Operating and Review
/// have none.
pub proof fn stages_before_operating_have_a_time_limit(s: Stage)
    ensures
        s.stale_limit() is Some <==> s.rank() < Stage::Operating.rank(),
        s.stale_limit() matches Some(d) ==> 2 <= d <= 7,
{
}

} // verus!
