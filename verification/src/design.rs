//! The modelling studio's timeline vocabulary: who said something, what kind of entry it is,
//! and which model tier a turn uses.
use vstd::prelude::*;

use crate::text::str_eq;

verus! {

/// Who said it.
#[derive(Debug, Clone, Copy, PartialEq, Eq, Structural)]
pub enum MsgRole {
    User,
    Assistant,
    /// Not a conversation line but an event on the timeline (a parameter changed, code run by hand).
    Event,
}

/// What the entry is.
#[derive(Debug, Clone, Copy, PartialEq, Eq, Structural)]
pub enum MsgKind {
    /// Plain text (the user's words; an answer or a question back).
    Text,
    /// A design spec card waiting to be confirmed or changed.
    Spec,
    /// The model changed: carries a new version.
    Build,
    /// Changed, but no version ran: carries the last code and each round's errors.
    Failed,
    /// The result of comparing renders with the reference pictures.
    Review,
    /// Event: a parameter changed.
    Param,
    /// Event: code edited by hand and run.
    Manual,
}

impl MsgRole {
    pub open spec fn name(self) -> Seq<char> {
        match self {
            MsgRole::User => "user"@,
            MsgRole::Assistant => "assistant"@,
            MsgRole::Event => "event"@,
        }
    }

    /// Unknown names read as `Event`.
    pub open spec fn from_name(s: Seq<char>) -> MsgRole {
        if s == "user"@ {
            MsgRole::User
        } else if s == "assistant"@ {
            MsgRole::Assistant
        } else {
            MsgRole::Event
        }
    }

    pub fn as_str(self) -> (r: &'static str)
        ensures
            r@ == self.name(),
    {
        match self {
            MsgRole::User => "user",
            MsgRole::Assistant => "assistant",
            MsgRole::Event => "event",
        }
    }

    pub fn parse(s: &str) -> (r: MsgRole)
        ensures
            r == MsgRole::from_name(s@),
    {
        if str_eq(s, "user") {
            MsgRole::User
        } else if str_eq(s, "assistant") {
            MsgRole::Assistant
        } else {
            MsgRole::Event
        }
    }
}

impl MsgKind {
    pub open spec fn name(self) -> Seq<char> {
        match self {
            MsgKind::Text => "text"@,
            MsgKind::Spec => "spec"@,
            MsgKind::Build => "build"@,
            MsgKind::Failed => "failed"@,
            MsgKind::Review => "review"@,
            MsgKind::Param => "param"@,
            MsgKind::Manual => "manual"@,
        }
    }

    /// Unknown names read as `Text`.
    pub open spec fn from_name(s: Seq<char>) -> MsgKind {
        if s == "spec"@ {
            MsgKind::Spec
        } else if s == "build"@ {
            MsgKind::Build
        } else if s == "failed"@ {
            MsgKind::Failed
        } else if s == "review"@ {
            MsgKind::Review
        } else if s == "param"@ {
            MsgKind::Param
        } else if s == "manual"@ {
            MsgKind::Manual
        } else {
            MsgKind::Text
        }
    }

    pub fn as_str(self) -> (r: &'static str)
        ensures
            r@ == self.name(),
    {
        match self {
            MsgKind::Text => "text",
            MsgKind::Spec => "spec",
            MsgKind::Build => "build",
            MsgKind::Failed => "failed",
            MsgKind::Review => "review",
            MsgKind::Param => "param",
            MsgKind::Manual => "manual",
        }
    }

    pub fn parse(s: &str) -> (r: MsgKind)
        ensures
            r == MsgKind::from_name(s@),
    {
        if str_eq(s, "spec") {
            MsgKind::Spec
        } else if str_eq(s, "build") {
            MsgKind::Build
        } else if str_eq(s, "failed") {
            MsgKind::Failed
        } else if str_eq(s, "review") {
            MsgKind::Review
        } else if str_eq(s, "param") {
            MsgKind::Param
        } else if str_eq(s, "manual") {
            MsgKind::Manual
        } else {
            MsgKind::Text
        }
    }
}

/// Which model tier a sentence uses. Creating uses the precise tier; for tweaks the user chooses.
#[derive(Debug, Clone, Copy, PartialEq, Eq, Structural)]
pub enum CadTier {
    /// Cheap model, no thinking: enough for a size change or a chamfer.
    Fast,
    /// Strongest model, no thinking.
    Balanced,
    /// Strongest model with thinking: slow, steadier on complex changes.
    Precise,
}

impl Default for CadTier {
    fn default() -> (r: Self)
        ensures
            r == CadTier::Balanced,
    {
        CadTier::Balanced
    }
}

impl CadTier {
    pub open spec fn name(self) -> Seq<char> {
        match self {
            CadTier::Fast => "fast"@,
            CadTier::Balanced => "balanced"@,
            CadTier::Precise => "precise"@,
        }
    }

    /// Unknown names read as the default tier.
    pub open spec fn from_name(s: Seq<char>) -> CadTier {
        if s == "fast"@ {
            CadTier::Fast
        } else if s == "precise"@ {
            CadTier::Precise
        } else {
            CadTier::Balanced
        }
    }

    pub fn as_str(self) -> (r: &'static str)
        ensures
            r@ == self.name(),
    {
        match self {
            CadTier::Fast => "fast",
            CadTier::Balanced => "balanced",
            CadTier::Precise => "precise",
        }
    }

    pub fn parse(s: &str) -> (r: CadTier)
        ensures
            r == CadTier::from_name(s@),
    {
        if str_eq(s, "fast") {
            CadTier::Fast
        } else if str_eq(s, "precise") {
            CadTier::Precise
        } else {
            CadTier::Balanced
        }
    }
}

/// Reading back a role's, kind's or tier's name gives it back.
pub proof fn design_names_roundtrip(r: MsgRole, k: MsgKind, t: CadTier)
    ensures
        MsgRole::from_name(r.name()) == r,
        MsgKind::from_name(k.name()) == k,
        CadTier::from_name(t.name()) == t,
{
    reveal_strlit("user");
    reveal_strlit("assistant");
    reveal_strlit("event");
    reveal_strlit("text");
    reveal_strlit("spec");
    reveal_strlit("build");
    reveal_strlit("failed");
    reveal_strlit("review");
    reveal_strlit("param");
    reveal_strlit("manual");
    reveal_strlit("fast");
    reveal_strlit("balanced");
    reveal_strlit("precise");
    let n = r.name();
    if r != MsgRole::User { assert(n != "user"@) by { assert(n.len() != 4 || n[0] != 'u'); } }
    if r != MsgRole::Assistant { assert(n != "assistant"@) by { assert(n.len() != 9 || n[0] != 'a'); } }
    let m = k.name();
    if k != MsgKind::Spec { assert(m != "spec"@) by { assert(m.len() != 4 || m[0] != 's'); } }
    if k != MsgKind::Build { assert(m != "build"@) by { assert(m.len() != 5 || m[0] != 'b'); } }
    if k != MsgKind::Failed { assert(m != "failed"@) by { assert(m.len() != 6 || m[0] != 'f'); } }
    if k != MsgKind::Review { assert(m != "review"@) by { assert(m.len() != 6 || m[0] != 'r'); } }
    if k != MsgKind::Param { assert(m != "param"@) by { assert(m.len() != 5 || m[0] != 'p'); } }
    if k != MsgKind::Manual { assert(m != "manual"@) by { assert(m.len() != 6 || m[0] != 'm'); } }
    let q = t.name();
    if t != CadTier::Fast { assert(q != "fast"@) by { assert(q.len() != 4 || q[0] != 'f'); } }
    if t != CadTier::Precise { assert(q != "precise"@) by { assert(q.len() != 7 || q[0] != 'p'); } }
}

} // verus!
