//! Stage gates: what each stage should have produced before the project leaves it,
//! computed from the project's outputs rather than ticked by hand. A stage whose checklist
//! is empty has no tools yet and can only be judged by a person.
use vstd::prelude::*;

use crate::stage::Stage;

verus! {

/// What the workbenches have produced for one project (counts).
#[derive(Debug, Clone, Copy, PartialEq, Eq)]
pub struct ProjectFacts {
    /// The hypothesis to test is written down.
    pub has_hypothesis: bool,
    pub research_runs: u32,
    pub boards: u32,
    pub images: u32,
    pub adopted_images: u32,
    pub designs: u32,
    /// Designs that have a built model (a current version).
    pub models: u32,
    /// Successful test prints.
    pub print_successes: u32,
    /// A price is chosen in the cost model.
    pub has_price: bool,
    /// Publishing packs made.
    pub publish_packs: u32,
    /// Notes / listings whose published link was filled in.
    pub published: u32,
}

impl Default for ProjectFacts {
    fn default() -> (r: Self)
        ensures
            r == ProjectFacts::empty(),
    {
        ProjectFacts {
            has_hypothesis: false,
            research_runs: 0,
            boards: 0,
            images: 0,
            adopted_images: 0,
            designs: 0,
            models: 0,
            print_successes: 0,
            has_price: false,
            publish_packs: 0,
            published: 0,
        }
    }
}

impl ProjectFacts {
    pub open spec fn empty() -> ProjectFacts {
        ProjectFacts {
            has_hypothesis: false,
            research_runs: 0,
            boards: 0,
            images: 0,
            adopted_images: 0,
            designs: 0,
            models: 0,
            print_successes: 0,
            has_price: false,
            publish_packs: 0,
            published: 0,
        }
    }
}

#[derive(Debug, Clone, Copy, PartialEq, Eq, Hash, Structural)]
pub enum GateKey {
    /// The hypothesis (who buys, why, for how much) is written down.
    Hypothesis,
    /// At least one research report.
    Research,
    /// At least one adopted preview picture.
    AdoptedImage,
    /// At least one built model.
    Model,
    /// At least one successful test print.
    PrintRun,
    /// A price is chosen in the cost model.
    Price,
    /// A publishing pack was made.
    PublishPack,
    /// It went out: a note / listing link was filled in.
    Published,
}

#[derive(Debug, Clone, Copy, PartialEq, Eq, Structural)]
pub struct GateItem {
    pub key: GateKey,
    pub done: bool,
}

/// The checklist for leaving `stage`.
pub open spec fn gate_spec(stage: Stage, f: ProjectFacts) -> Seq<GateItem> {
    match stage {
        Stage::Idea => seq![GateItem { key: GateKey::Hypothesis, done: f.has_hypothesis }],
        Stage::Research => seq![GateItem { key: GateKey::Research, done: f.research_runs > 0 }],
        Stage::Concept => seq![GateItem { key: GateKey::AdoptedImage, done: f.adopted_images > 0 }],
        Stage::Model => seq![GateItem { key: GateKey::Model, done: f.models > 0 }],
        Stage::Prototype => seq![
            GateItem { key: GateKey::PrintRun, done: f.print_successes > 0 },
            GateItem { key: GateKey::Price, done: f.has_price },
        ],
        Stage::Listing => seq![
            GateItem { key: GateKey::PublishPack, done: f.publish_packs > 0 },
            GateItem { key: GateKey::Published, done: f.published > 0 },
        ],
        Stage::Operating | Stage::Review => seq![],
    }
}

/// The checklist is complete. An empty checklist is "cannot tell", never "complete".
pub open spec fn passed_spec(stage: Stage, f: ProjectFacts) -> bool {
    gate_spec(stage, f).len() > 0 && forall|i: int| 0 <= i < gate_spec(stage, f).len() ==> (#[trigger] gate_spec(stage, f)[i]).done
}

/// Unfinished items of `items`, each tagged with `stage`, in order.
pub open spec fn unmet_items(stage: Stage, items: Seq<GateItem>) -> Seq<(Stage, GateKey)>
    decreases items.len(),
{
    if items.len() == 0 {
        seq![]
    } else {
        let rest = unmet_items(stage, items.drop_last());
        if items.last().done {
            rest
        } else {
            rest.push((stage, items.last().key))
        }
    }
}

/// Unfinished items of the stages at ranks `lo..hi`, stage by stage.
pub open spec fn unmet_between(lo: int, hi: int, f: ProjectFacts) -> Seq<(Stage, GateKey)>
    decreases hi - lo,
{
    if hi <= lo {
        seq![]
    } else {
        let before = unmet_between(lo, hi - 1, f);
        match Stage::at_rank(hi - 1) {
            Some(s) => before + unmet_items(s, gate_spec(s, f)),
            None => before,
        }
    }
}

/// Items still open on the stages passed when moving from `from` forward to `to`.
pub open spec fn unmet_spec(from: Stage, to: Stage, f: ProjectFacts) -> Seq<(Stage, GateKey)> {
    unmet_between(from.rank() as int, to.rank() as int, f)
}

/// The stage at rank `i` exists and has no checklist.
pub open spec fn manual_at(i: int, f: ProjectFacts) -> bool {
    match Stage::at_rank(i) {
        Some(s) => gate_spec(s, f).len() == 0,
        None => false,
    }
}

/// A move needs a written reason when it goes forward and either leaves something unfinished
/// on the way, or jumps over a whole stage that has no checklist.
pub open spec fn needs_reason_spec(from: Stage, to: Stage, f: ProjectFacts) -> bool {
    &&& to.rank() > from.rank()
    &&& {
        ||| unmet_spec(from, to, f).len() > 0
        ||| exists|i: int| from.rank() < i < to.rank() && #[trigger] manual_at(i, f)
    }
}

/// The stage at pipeline position `i`.
pub fn stage_at(i: usize) -> (s: Stage)
    requires
        i < 8,
    ensures
        Stage::at_rank(i as int) == Some(s),
        s.rank() == i,
{
    if i == 0 {
        Stage::Idea
    } else if i == 1 {
        Stage::Research
    } else if i == 2 {
        Stage::Concept
    } else if i == 3 {
        Stage::Model
    } else if i == 4 {
        Stage::Prototype
    } else if i == 5 {
        Stage::Listing
    } else if i == 6 {
        Stage::Operating
    } else {
        Stage::Review
    }
}

/// What has to be done before leaving `stage`. Empty = no tools for this stage yet.
pub fn stage_gate(stage: Stage, facts: &ProjectFacts) -> (r: Vec<GateItem>)
    ensures
        r@ == gate_spec(stage, *facts),
{
    match stage {
        Stage::Idea => vec![GateItem { key: GateKey::Hypothesis, done: facts.has_hypothesis }],
        Stage::Research => vec![GateItem { key: GateKey::Research, done: facts.research_runs > 0 }],
        Stage::Concept => vec![GateItem { key: GateKey::AdoptedImage, done: facts.adopted_images > 0 }],
        Stage::Model => vec![GateItem { key: GateKey::Model, done: facts.models > 0 }],
        Stage::Prototype => vec![
            GateItem { key: GateKey::PrintRun, done: facts.print_successes > 0 },
            GateItem { key: GateKey::Price, done: facts.has_price },
        ],
        Stage::Listing => vec![
            GateItem { key: GateKey::PublishPack, done: facts.publish_packs > 0 },
            GateItem { key: GateKey::Published, done: facts.published > 0 },
        ],
        Stage::Operating | Stage::Review => Vec::new(),
    }
}

/// Every item of the current stage's checklist is done (an empty checklist does not pass).
pub fn gate_passed(stage: Stage, facts: &ProjectFacts) -> (r: bool)
    ensures
        r == passed_spec(stage, *facts),
{
    let items = stage_gate(stage, facts);
    if items.len() == 0 {
        return false;
    }
    let mut i: usize = 0;
    while i < items.len()
        invariant
            i <= items@.len(),
            items@ == gate_spec(stage, *facts),
            forall|k: int| 0 <= k < i ==> (#[trigger] items@[k]).done,
        decreases items.len() - i,
    {
        if !items[i].done {
            return false;
        }
        i += 1;
    }
    true
}

/// Appends the unfinished items of `stage` to `out`.
fn push_unmet(stage: Stage, facts: &ProjectFacts, out: &mut Vec<(Stage, GateKey)>)
    ensures
        final(out)@ == old(out)@ + unmet_items(stage, gate_spec(stage, *facts)),
{
    let items = stage_gate(stage, facts);
    let ghost start = out@;
    let mut i: usize = 0;
    while i < items.len()
        invariant
            i <= items@.len(),
            items@ == gate_spec(stage, *facts),
            out@ == start + unmet_items(stage, items@.take(i as int)),
        decreases items.len() - i,
    {
        assert(items@.take(i + 1).drop_last() == items@.take(i as int));
        if !items[i].done {
            out.push((stage, items[i].key));
        }
        i += 1;
    }
    assert(items@.take(items@.len() as int) == items@);
}

/// Items still open on the stages passed when moving from `from` to `to`.
/// Moving backwards (rework) passes no stage, so it is always empty.
pub fn unmet_on_the_way(from: Stage, to: Stage, facts: &ProjectFacts) -> (r: Vec<(Stage, GateKey)>)
    ensures
        r@ == unmet_spec(from, to, *facts),
{
    let mut out: Vec<(Stage, GateKey)> = Vec::new();
    let lo = from.index();
    let hi = to.index();
    if hi <= lo {
        return out;
    }
    let mut i = lo;
    while i < hi
        invariant
            lo <= i <= hi <= 7,
            lo == from.rank(),
            hi == to.rank(),
            out@ == unmet_between(lo as int, i as int, *facts),
        decreases hi - i,
    {
        let s = stage_at(i);
        push_unmet(s, facts, &mut out);
        i += 1;
    }
    out
}

/// Whether this move needs a written reason:
/// - moving back (rework) or staying put: no;
/// - something on the stages passed is unfinished: yes;
/// - a whole stage without a checklist is jumped over: yes (walking out of such a stage is fine).
pub fn needs_reason(from: Stage, to: Stage, facts: &ProjectFacts) -> (r: bool)
    ensures
        r == needs_reason_spec(from, to, *facts),
{
    if to.index() <= from.index() {
        return false;
    }
    if unmet_on_the_way(from, to, facts).len() > 0 {
        return true;
    }
    let lo = from.index();
    let hi = to.index();
    let mut i = lo + 1;
    while i < hi
        invariant
            lo + 1 <= i <= hi || (i == lo + 1 && hi <= lo + 1),
            lo == from.rank(),
            hi == to.rank(),
            hi <= 7,
            unmet_spec(from, to, *facts).len() == 0,
            forall|k: int| lo < k < i ==> !#[trigger] manual_at(k, *facts),
        decreases hi - i,
    {
        let s = stage_at(i);
        if stage_gate(s, facts).len() == 0 {
            assert(manual_at(i as int, *facts));
            return true;
        }
        i += 1;
    }
    proof {
        assert forall|k: int| from.rank() < k < to.rank() implies !#[trigger] manual_at(k, *facts) by {
            assert(lo < k < i);
        }
    }
    false
}

/// Moving back or staying in place never asks for a reason.
pub proof fn rework_needs_no_reason(from: Stage, to: Stage, f: ProjectFacts)
    requires
        to.rank() <= from.rank(),
    ensures
        !needs_reason_spec(from, to, f),
        unmet_spec(from, to, f).len() == 0,
{
}

proof fn lemma_unmet_items_empty_iff_done(stage: Stage, items: Seq<GateItem>)
    ensures
        unmet_items(stage, items).len() == 0 <==> forall|i: int| 0 <= i < items.len() ==> (#[trigger] items[i]).done,
    decreases items.len(),
{
    if items.len() > 0 {
        lemma_unmet_items_empty_iff_done(stage, items.drop_last());
        assert forall|i: int| 0 <= i < items.len() - 1 implies items.drop_last()[i] == #[trigger] items[i] by {}
        if unmet_items(stage, items).len() == 0 {
            assert forall|i: int| 0 <= i < items.len() implies (#[trigger] items[i]).done by {
                if i < items.len() - 1 {
                    assert(items.drop_last()[i] == items[i]);
                }
            }
        }
    }
}

/// A complete checklist means nothing is left open in that stage, and the other way round
/// for a stage that has a checklist.
pub proof fn passed_means_nothing_open(stage: Stage, f: ProjectFacts)
    ensures
        passed_spec(stage, f) <==> (gate_spec(stage, f).len() > 0 && unmet_items(stage, gate_spec(stage, f)).len() == 0),
{
    lemma_unmet_items_empty_iff_done(stage, gate_spec(stage, f));
}

/// Walking one step forward out of a stage whose checklist is complete, or out of a stage
/// that has no checklist, never asks for a reason.
pub proof fn one_step_out_of_a_finished_stage_is_free(s: Stage, t: Stage, f: ProjectFacts)
    requires
        t.rank() == s.rank() + 1,
        passed_spec(s, f) || gate_spec(s, f).len() == 0,
    ensures
        !needs_reason_spec(s, t, f),
{
    lemma_unmet_items_empty_iff_done(s, gate_spec(s, f));
    crate::stage::stage_rank_positions(s, s.rank() as int);
    assert(unmet_between(s.rank() as int, s.rank() as int, f).len() == 0);
    assert(unmet_spec(s, t, f) == unmet_between(s.rank() as int, s.rank() as int, f) + unmet_items(s, gate_spec(s, f)));
}

/// Leaving a stage forward while its (non-empty) checklist is incomplete always asks for a reason.
pub proof fn leaving_an_unfinished_stage_needs_a_reason(s: Stage, t: Stage, f: ProjectFacts)
    requires
        t.rank() > s.rank(),
        gate_spec(s, f).len() > 0,
        !passed_spec(s, f),
    ensures
        needs_reason_spec(s, t, f),
{
    lemma_unmet_items_empty_iff_done(s, gate_spec(s, f));
    crate::stage::stage_rank_positions(s, s.rank() as int);
    lemma_unmet_between_grows(s.rank() as int, s.rank() + 1int, t.rank() as int, f);
    assert(unmet_between(s.rank() as int, s.rank() + 1int, f) == unmet_between(s.rank() as int, s.rank() as int, f) + unmet_items(s, gate_spec(s, f)));
}

proof fn lemma_unmet_between_grows(lo: int, mid: int, hi: int, f: ProjectFacts)
    requires
        lo <= mid <= hi,
    ensures
        unmet_between(lo, mid, f).len() <= unmet_between(lo, hi, f).len(),
    decreases hi - mid,
{
    if mid < hi {
        lemma_unmet_between_grows(lo, mid, hi - 1, f);
    }
}

/// A picture of a project (for the project hub).
#[derive(Debug, Clone, PartialEq)]
pub struct ProjectImage {
    pub version_id: String,
    pub board_id: String,
    pub asset_id: String,
    pub adopted: bool,
}

/// Which count a stored row carries.
#[derive(Debug, Clone, Copy, PartialEq, Eq, Structural)]
pub enum FactSource {
    /// Research runs of the project.
    ResearchRuns,
    /// Picture boards.
    Boards,
    /// Pictures, and how many of them were adopted.
    Images,
    /// Designs, and how many have a current model.
    Designs,
    /// Successful test prints.
    PrintSuccesses,
    /// Whether a price was chosen (a positive first count).
    Price,
}

/// A stored count as a fact: negative counts read as zero.
pub fn stored_count(n: i64) -> (r: u32)
    ensures
        r == (if n < 0 {
            0
        } else {
            n
        }) as u32,
{
    let m = if n < 0 { 0 } else { n };
    m as u32
}

/// The facts with one stored row applied (`a`, `b` as the row gives them).
pub open spec fn apply_spec(f: ProjectFacts, source: FactSource, a: u32, b: u32) -> ProjectFacts {
    match source {
        FactSource::ResearchRuns => ProjectFacts { research_runs: a, ..f },
        FactSource::Boards => ProjectFacts { boards: a, ..f },
        FactSource::Images => ProjectFacts { images: a, adopted_images: b, ..f },
        FactSource::Designs => ProjectFacts { designs: a, models: b, ..f },
        FactSource::PrintSuccesses => ProjectFacts { print_successes: a, ..f },
        FactSource::Price => ProjectFacts { has_price: a > 0, ..f },
    }
}

/// Applies one stored row to a project's facts (see `apply_spec`).
pub fn apply_counts(f: ProjectFacts, source: FactSource, a: i64, b: i64) -> (r: ProjectFacts)
    ensures
        r == apply_spec(f, source, (if a < 0 { 0 } else { a }) as u32, (if b < 0 { 0 } else { b }) as u32),
{
    let a = stored_count(a);
    let b = stored_count(b);
    match source {
        FactSource::ResearchRuns => ProjectFacts { research_runs: a, ..f },
        FactSource::Boards => ProjectFacts { boards: a, ..f },
        FactSource::Images => ProjectFacts { images: a, adopted_images: b, ..f },
        FactSource::Designs => ProjectFacts { designs: a, models: b, ..f },
        FactSource::PrintSuccesses => ProjectFacts { print_successes: a, ..f },
        FactSource::Price => ProjectFacts { has_price: a > 0, ..f },
    }
}

} // verus!

verus! {

/// Operating and Review have no checklist yet: they can never pass on their own, whatever the
/// project has produced ("empty" means "cannot tell", not "done").
pub proof fn stages_without_tools_never_pass(f: ProjectFacts)
    ensures
        gate_spec(Stage::Operating, f).len() == 0,
        gate_spec(Stage::Review, f).len() == 0,
        !passed_spec(Stage::Operating, f),
        !passed_spec(Stage::Review, f),
{
}

/// What each checklist key asks the project to have produced, read from its facts alone.
pub open spec fn key_met(key: GateKey, f: ProjectFacts) -> bool {
    match key {
        GateKey::Hypothesis => f.has_hypothesis,
        GateKey::Research => f.research_runs > 0,
        GateKey::AdoptedImage => f.adopted_images > 0,
        GateKey::Model => f.models > 0,
        GateKey::PrintRun => f.print_successes > 0,
        GateKey::Price => f.has_price,
        GateKey::PublishPack => f.publish_packs > 0,
        GateKey::Published => f.published > 0,
    }
}

/// In every stage's checklist, an item is done exactly when the project has produced what its
/// key names, and no key appears twice: so "published" is ticked by a filled-in link and by
/// nothing else (a publishing pack alone does not tick it).
pub proof fn each_item_is_ticked_by_its_own_fact(stage: Stage, f: ProjectFacts)
    ensures
        forall|i: int| 0 <= i < gate_spec(stage, f).len() ==> (#[trigger] gate_spec(stage, f)[i]).done == key_met(
            gate_spec(stage, f)[i].key,
            f,
        ),
        forall|i: int, j: int|
            0 <= i < j < gate_spec(stage, f).len() ==> #[trigger] gate_spec(stage, f)[i].key != #[trigger] gate_spec(
                stage,
                f,
            )[j].key,
{
}

/// Leaving Listing: its checklist is complete exactly when a publishing pack was made and
/// something actually went out (a note or listing link was filled in). Until something went
/// out, moving on to Operating needs a written reason, however many packs were made; once
/// both are there it does not.
pub proof fn listing_is_done_only_once_something_went_out(f: ProjectFacts)
    ensures
        passed_spec(Stage::Listing, f) <==> (f.publish_packs > 0 && f.published > 0),
        needs_reason_spec(Stage::Listing, Stage::Operating, f) <==> !(f.publish_packs > 0 && f.published > 0),
        exists|i: int|
            0 <= i < gate_spec(Stage::Listing, f).len() && (#[trigger] gate_spec(Stage::Listing, f)[i]).key == GateKey::Published
                && gate_spec(Stage::Listing, f)[i].done == (f.published > 0),
{
    let g = gate_spec(Stage::Listing, f);
    assert(g[1].key == GateKey::Published);
    assert(passed_spec(Stage::Listing, f) <==> (g[0].done && g[1].done));
    lemma_unmet_items_empty_iff_done(Stage::Listing, g);
    assert(unmet_between(5, 5, f).len() == 0);
    assert(Stage::at_rank(5) == Some(Stage::Listing));
    assert(unmet_spec(Stage::Listing, Stage::Operating, f) == unmet_between(5, 5, f) + unmet_items(Stage::Listing, g));
    assert forall|i: int| !(5 < i < 6 && #[trigger] manual_at(i, f)) by {}
}

} // verus!
