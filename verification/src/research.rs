//! Market research: evidence cards, risk and route labels, and the run history.
use vstd::prelude::*;

verus! {

/// A = first-hand (platform data or the seller's own notes); B = media, blogs, posts;
/// C = inferred by the model.
#[derive(Debug, Clone, Copy, PartialEq, Eq, Structural)]
pub enum EvidenceGrade {
    A,
    B,
    C,
}

/// An evidence card: every numeric claim of a report must point back to one.
#[derive(Debug, Clone, PartialEq)]
pub struct Evidence {
    pub id: u32,
    pub title: String,
    /// Evidence from the user has no link.
    pub url: String,
    pub site: String,
    pub published: Option<String>,
    pub excerpt: String,
    pub grade: EvidenceGrade,
}

#[derive(Debug, Clone, Copy, PartialEq, Eq, Structural)]
pub enum IpRisk {
    Low,
    Medium,
    /// A veto: not weighted, and the card cannot be adopted directly.
    High,
}

/// Which way to model it: AI image-to-3D is poor at parts whose sizes must be exact.
#[derive(Debug, Clone, Copy, PartialEq, Eq, Structural)]
pub enum ModelRoute {
    /// Organic / decorative shapes: AI generation.
    AiGenerated,
    /// Functional parts with exact sizes, personalisation: parametric templates.
    Parametric,
    /// Modelled by hand in CAD and imported.
    Import,
}

/// The materials a brief assumes when none are given.
pub fn default_materials() -> (r: String)
    ensures
        r@ == "PLA"@,
{
    String::from_str("PLA")
}

/// The channel a brief assumes when none is given.
pub fn default_channel() -> (r: String)
    ensures
        r@ == "小红书"@,
{
    String::from_str("小红书")
}

/// One row of the research history.
#[derive(Debug, Clone, PartialEq)]
pub struct ResearchRunSummary {
    pub id: String,
    pub topic: String,
    pub created_at: i64,
    /// Cost in fen, rounded up.
    pub cost_fen: i64,
    pub opportunities: u32,
}

} // verus!
