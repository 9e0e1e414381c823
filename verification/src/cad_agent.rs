//! The decisions of the model-building loop: write a script, run it on the real engine, check
//! it, feed the problems back, and when the repairs run out deliver the least bad version. The
//! model and engine calls are made outside; what to do with their results is decided here.
use vstd::prelude::*;

use crate::cad::CadReview;
use crate::contract::{section_views, sections, sections_spec, SectionV};
use crate::text::{
    append_str, back_ws, chars_of, decimal, decimal_string, join, join_strings, line_strings, lines, str_eq, string_of, trim,
    trim_end, trimmed, views,
};

verus! {

// ---------------------------------------------------------------- same script?

/// The lines of a script with trailing whitespace removed and blank lines dropped.
pub open spec fn norm_lines(ls: Seq<Seq<char>>) -> Seq<Seq<char>>
    decreases ls.len(),
{
    if ls.len() == 0 {
        seq![]
    } else if trim_end(ls.last()).len() == 0 {
        norm_lines(ls.drop_last())
    } else {
        norm_lines(ls.drop_last()).push(trim_end(ls.last()))
    }
}

/// Two scripts are the same when they differ only in trailing whitespace and blank lines.
pub open spec fn same_code_spec(a: Seq<char>, b: Seq<char>) -> bool {
    join(norm_lines(lines(a)), "\n"@) == join(norm_lines(lines(b)), "\n"@)
}

fn normalized(s: &str) -> (r: String)
    ensures
        r@ == join(norm_lines(lines(s@)), "\n"@),
{
    let ls = line_strings(s);
    let ghost lv = lines(s@);
    let mut kept: Vec<String> = Vec::new();
    let mut i: usize = 0;
    while i < ls.len()
        invariant
            i <= ls@.len(),
            views(ls@) == lv,
            views(kept@) == norm_lines(lv.take(i as int)),
        decreases ls.len() - i,
    {
        let ghost before = views(kept@);
        proof {
            assert(lv.take(i + 1).drop_last() == lv.take(i as int));
            assert(lv.take(i + 1).last() == ls@[i as int]@);
        }
        let v = chars_of(ls[i].as_str());
        let e = back_ws(&v, 0, v.len());
        assert(v@.subrange(0, v@.len() as int) == v@);
        if e > 0 {
            kept.push(string_of(&v, 0, e));
            assert(views(kept@) == before.push(trim_end(ls@[i as int]@)));
        }
        i += 1;
    }
    assert(lv.take(ls@.len() as int) == lv);
    join_strings(kept.as_slice(), "\n")
}

/// Whether an edit came back unchanged (see `same_code_spec`).
pub fn same_code(a: &str, b: &str) -> (r: bool)
    ensures
        r == same_code_spec(a@, b@),
{
    let x = normalized(a);
    let y = normalized(b);
    str_eq(x.as_str(), y.as_str())
}

// ---------------------------------------------------------------- visual review

pub const REVIEW_NEEDS_DIFFERENCES: &'static str = "matches 为 false 时 differences 不能为空";

pub const REVIEW_TOO_MANY: &'static str = "differences 最多 5 条,只列最重要的";

pub open spec fn all_blank(v: Seq<Seq<char>>) -> bool {
    forall|k: int| 0 <= k < v.len() ==> trim(#[trigger] v[k]).len() == 0
}

/// A review that says "does not match" must say why, and lists at most 8 differences.
pub fn validate_review(r: &CadReview) -> (res: Result<(), String>)
    ensures
        (!r.matches && all_blank(views(r.differences@))) ==> (res matches Err(w) && w@ == REVIEW_NEEDS_DIFFERENCES@),
        !(!r.matches && all_blank(views(r.differences@))) && r.differences@.len() > 8 ==> (res matches Err(w) && w@
            == REVIEW_TOO_MANY@),
        !(!r.matches && all_blank(views(r.differences@))) && r.differences@.len() <= 8 ==> res is Ok,
{
    let mut blank = true;
    let mut i: usize = 0;
    while i < r.differences.len()
        invariant
            i <= r.differences@.len(),
            blank == forall|k: int| 0 <= k < i ==> trim(#[trigger] views(r.differences@)[k]).len() == 0,
        decreases r.differences.len() - i,
    {
        assert(views(r.differences@)[i as int] == r.differences@[i as int]@);
        if trimmed(r.differences[i].as_str()).as_str().unicode_len() > 0 {
            blank = false;
        }
        i += 1;
    }
    if !r.matches && blank {
        return Err(String::from_str(REVIEW_NEEDS_DIFFERENCES));
    }
    if r.differences.len() > 8 {
        return Err(String::from_str(REVIEW_TOO_MANY));
    }
    Ok(())
}

/// The non-blank differences, at most five.
pub open spec fn tidy_spec(d: Seq<Seq<char>>) -> Seq<Seq<char>> {
    let kept = non_blank(d);
    if kept.len() > 5 {
        kept.subrange(0, 5)
    } else {
        kept
    }
}

pub open spec fn non_blank(d: Seq<Seq<char>>) -> Seq<Seq<char>>
    decreases d.len(),
{
    if d.len() == 0 {
        seq![]
    } else if trim(d.last()).len() == 0 {
        non_blank(d.drop_last())
    } else {
        non_blank(d.drop_last()).push(d.last())
    }
}

/// A review as it is handed on: blank differences dropped, the first five kept.
pub fn tidy_review(review: CadReview) -> (r: CadReview)
    ensures
        r.matches == review.matches,
        views(r.differences@) == tidy_spec(views(review.differences@)),
{
    let ghost d = views(review.differences@);
    let mut kept: Vec<String> = Vec::new();
    let mut i: usize = 0;
    while i < review.differences.len()
        invariant
            i <= review.differences@.len(),
            d == views(review.differences@),
            views(kept@) == non_blank(d.take(i as int)),
        decreases review.differences.len() - i,
    {
        let ghost before = views(kept@);
        proof {
            assert(d.take(i + 1).drop_last() == d.take(i as int));
            assert(d.take(i + 1).last() == review.differences@[i as int]@);
        }
        if trimmed(review.differences[i].as_str()).as_str().unicode_len() > 0 {
            kept.push(string_of(&chars_of(review.differences[i].as_str()), 0, review.differences[i].as_str().unicode_len()));
            proof {
                let v = review.differences@[i as int]@;
                assert(v.subrange(0, v.len() as int) == v);
            }
            assert(views(kept@) == before.push(review.differences@[i as int]@));
        }
        i += 1;
    }
    assert(d.take(review.differences@.len() as int) == d);
    if kept.len() > 5 {
        kept.truncate(5);
        assert(views(kept@) =~= non_blank(d).subrange(0, 5));
    }
    CadReview { matches: review.matches, differences: kept }
}

// ---------------------------------------------------------------- repair rounds

pub const FEEDBACK_HEAD: &'static str = "The script did not pass. Problems:\n";

pub const FEEDBACK_TAIL: &'static str = "\nFix these problems and output the COMPLETE corrected script in a single ```python fence. Keep everything that already works unchanged.";

pub open spec fn numbered(items: Seq<Seq<char>>) -> Seq<char>
    decreases items.len(),
{
    if items.len() == 0 {
        seq![]
    } else {
        numbered(items.drop_last()) + decimal(items.len()) + ". "@ + items.last() + "\n"@
    }
}

/// The message that sends a failed version back: each problem (as told to the model) on its own
/// numbered line, then the instruction to return the whole corrected script.
pub open spec fn feedback_spec(problems: Seq<Seq<char>>) -> Seq<char> {
    FEEDBACK_HEAD@ + numbered(problems) + FEEDBACK_TAIL@
}

/// The repair request for a version's problems (see `feedback_spec`).
pub fn feedback(problems: &[String]) -> (r: String)
    ensures
        r@ == feedback_spec(views(problems@)),
{
    let ghost ps = views(problems@);
    let mut out = String::from_str(FEEDBACK_HEAD);
    let mut i: usize = 0;
    while i < problems.len()
        invariant
            i <= problems@.len(),
            ps == views(problems@),
            out@ == FEEDBACK_HEAD@ + numbered(ps.take(i as int)),
        decreases problems.len() - i,
    {
        let ghost before = out@;
        let n = decimal_string((i + 1) as u64);
        append_str(&mut out, n.as_str());
        append_str(&mut out, ". ");
        append_str(&mut out, problems[i].as_str());
        append_str(&mut out, "\n");
        proof {
            let t = ps.take(i + 1);
            assert(t.drop_last() == ps.take(i as int));
            assert(t.last() == problems@[i as int]@);
            assert(t.len() == i + 1);
            assert(out@ =~= before + (decimal((i + 1) as nat) + ". "@ + problems@[i as int]@ + "\n"@));
        }
        i += 1;
    }
    append_str(&mut out, FEEDBACK_TAIL);
    assert(ps.take(problems@.len() as int) == ps);
    out
}

/// The line added when the only problem is a part floating above the plate: it moves the part
/// down by its own lowest point, so it stays right after a parameter change.
pub const PLATE_SNAP_LINE: &'static str = "result = Pos(0, 0, -result.bounding_box().min.Z) * result  # 贴到打印床 (z = 0)";

/// The script with the plate line appended.
pub open spec fn snapped_spec(code: Seq<char>) -> Seq<char> {
    trim_end(code) + "\n"@ + PLATE_SNAP_LINE@ + "\n"@
}

pub fn snapped_code(code: &str) -> (r: String)
    ensures
        r@ == snapped_spec(code@),
{
    let v = chars_of(code);
    let e = back_ws(&v, 0, v.len());
    assert(v@.subrange(0, v@.len() as int) == v@);
    let mut out = string_of(&v, 0, e);
    append_str(&mut out, "\n");
    append_str(&mut out, PLATE_SNAP_LINE);
    append_str(&mut out, "\n");
    out
}

/// What a check found, by kind only (the measurements stay with the caller).
#[derive(Debug, Clone, Copy, PartialEq, Eq, Structural)]
pub enum ProblemKind {
    Contract,
    Script,
    Timeout,
    Solids,
    Invalid,
    OffPlate,
    NoFlatBase,
    Size,
    TooBig,
    NoParams,
    ParamRange,
    Unchanged,
}

/// Worth fixing without asking the model: the part is fine except that it floats.
pub fn only_off_plate(kinds: &[ProblemKind]) -> (r: bool)
    ensures
        r == (kinds@.len() == 1 && kinds@[0] == ProblemKind::OffPlate),
{
    kinds.len() == 1 && kinds[0] == ProblemKind::OffPlate
}

/// How a run of the engine failed.
#[derive(Debug, Clone, Copy, PartialEq, Eq, Structural)]
pub enum RunFailure {
    /// The script raised, was refused, or produced no solid: the model can fix it.
    Script,
    /// The script ran too long: the model can fix that too (one boolean instead of many).
    Timeout,
    /// The engine itself is missing or broken: nothing the model can do.
    Engine,
}

/// Whether a failed run goes back to the model (`true`) or ends the build with an engine error.
pub fn model_can_fix(f: RunFailure) -> (r: bool)
    ensures
        r == (f != RunFailure::Engine),
{
    match f {
        RunFailure::Engine => false,
        _ => true,
    }
}

/// After a version was checked.
#[derive(Debug, Clone, Copy, PartialEq, Eq, Structural)]
pub enum RoundStep {
    /// It passed, or the repairs are used up: deliver the best version so far.
    Deliver,
    /// Send the problems back and ask for another version.
    Repair,
}

/// A version with no problems is delivered; otherwise it is sent back while repairs remain
/// (`attempt` counts from 1; there are `max_repairs + 1` attempts in all).
pub open spec fn round_step_spec(attempt: nat, max_repairs: nat, problems: nat) -> RoundStep {
    if problems == 0 || attempt > max_repairs {
        RoundStep::Deliver
    } else {
        RoundStep::Repair
    }
}

pub fn round_step(attempt: u32, max_repairs: u32, problems: usize) -> (r: RoundStep)
    ensures
        r == round_step_spec(attempt as nat, max_repairs as nat, problems as nat),
{
    if problems == 0 || attempt > max_repairs {
        RoundStep::Deliver
    } else {
        RoundStep::Repair
    }
}

/// A version that ran: its attempt number and how many problems it still has.
pub open spec fn better(a: (u32, usize), b: (u32, usize)) -> bool {
    a.1 < b.1 || (a.1 == b.1 && a.0 > b.0)
}

/// The index of the best version: fewest problems; among equals the latest attempt (it has seen
/// the most feedback).
pub open spec fn is_best(c: Seq<(u32, usize)>, i: int) -> bool {
    &&& 0 <= i < c.len()
    &&& forall|k: int| 0 <= k < c.len() && k != i ==> !better(#[trigger] c[k], c[i])
}

/// Picks the version to deliver (see `is_best`); `None` when no version ran.
pub fn best_candidate(c: &[(u32, usize)]) -> (r: Option<usize>)
    requires
        forall|i: int, j: int| 0 <= i < j < c@.len() ==> c@[i].0 < c@[j].0,
    ensures
        r is None <==> c@.len() == 0,
        r matches Some(i) ==> is_best(c@, i as int),
{
    if c.len() == 0 {
        return None;
    }
    let mut best: usize = 0;
    let mut i: usize = 1;
    while i < c.len()
        invariant
            1 <= i <= c@.len(),
            best < i,
            forall|a: int, b: int| 0 <= a < b < c@.len() ==> c@[a].0 < c@[b].0,
            forall|k: int| 0 <= k < i && k != best ==> !better(#[trigger] c@[k], c@[best as int]),
        decreases c.len() - i,
    {
        if c[i].1 <= c[best].1 {
            best = i;
        }
        i += 1;
    }
    Some(best)
}

// ---------------------------------------------------------------- edit requests

/// The names of a script's sections, in order.
pub open spec fn section_names(code: Seq<char>) -> Seq<Seq<char>> {
    sections_spec(code).map_values(|x: SectionV| x.name)
}

/// What the model is sent for an edit: the script, its sections, and the change asked for. The
/// picked point, when there is one, is appended by the caller.
pub open spec fn edit_request_spec(code: Seq<char>, instruction: Seq<char>) -> Seq<char> {
    "## Current script\n```python\n"@ + trim_end(code) + "\n```\n\n## Sections\n"@ + join(section_names(code), ", "@)
        + "\n\n## Requested change\n"@ + trim(instruction) + "\n"@
}

/// The edit request (see `edit_request_spec`); `None` when the instruction or the script is
/// blank, before anything is spent.
pub fn edit_request(code: &str, instruction: &str) -> (r: Option<String>)
    requires
        lines(code@).len() <= u32::MAX,
    ensures
        r is None <==> (trim(instruction@).len() == 0 || trim(code@).len() == 0),
        r matches Some(t) ==> t@ == edit_request_spec(code@, instruction@),
{
    let ins = trimmed(instruction);
    if ins.as_str().unicode_len() == 0 || trimmed(code).as_str().unicode_len() == 0 {
        return None;
    }
    let secs = sections(code);
    let mut names: Vec<String> = Vec::new();
    let mut i: usize = 0;
    while i < secs.len()
        invariant
            i <= secs@.len(),
            section_views(secs@) == sections_spec(code@),
            views(names@) == section_names(code@).take(i as int),
        decreases secs.len() - i,
    {
        assert(section_views(secs@)[i as int] == secs@[i as int]@);
        names.push(string_of(&chars_of(secs[i].name.as_str()), 0, secs[i].name.as_str().unicode_len()));
        proof {
            let n = secs@[i as int].name@;
            assert(n.subrange(0, n.len() as int) == n);
            assert(section_names(code@).take(i + 1) == section_names(code@).take(i as int).push(n));
        }
        i += 1;
    }
    assert(section_names(code@).take(secs@.len() as int) == section_names(code@));
    let v = chars_of(code);
    let e = back_ws(&v, 0, v.len());
    assert(v@.subrange(0, v@.len() as int) == v@);
    let mut out = String::from_str("## Current script\n```python\n");
    let body = string_of(&v, 0, e);
    append_str(&mut out, body.as_str());
    append_str(&mut out, "\n```\n\n## Sections\n");
    let joined = join_strings(names.as_slice(), ", ");
    append_str(&mut out, joined.as_str());
    append_str(&mut out, "\n\n## Requested change\n");
    append_str(&mut out, ins.as_str());
    append_str(&mut out, "\n");
    Some(out)
}

/// The names of a script's sections (see `section_names`).
pub fn section_name_list(code: &str) -> (r: Vec<String>)
    requires
        lines(code@).len() <= u32::MAX,
    ensures
        views(r@) == section_names(code@),
{
    let secs = sections(code);
    let mut names: Vec<String> = Vec::new();
    let mut i: usize = 0;
    while i < secs.len()
        invariant
            i <= secs@.len(),
            section_views(secs@) == sections_spec(code@),
            views(names@) == section_names(code@).take(i as int),
        decreases secs.len() - i,
    {
        assert(section_views(secs@)[i as int] == secs@[i as int]@);
        names.push(string_of(&chars_of(secs[i].name.as_str()), 0, secs[i].name.as_str().unicode_len()));
        proof {
            let n = secs@[i as int].name@;
            assert(n.subrange(0, n.len() as int) == n);
            assert(section_names(code@).take(i + 1) == section_names(code@).take(i as int).push(n));
        }
        i += 1;
    }
    assert(section_names(code@).take(secs@.len() as int) == section_names(code@));
    names
}

/// What the model is sent for one turn of the modelling chat: the current script and its
/// sections (the script is always the truth: the user may just have edited a parameter), what
/// the part is and where the user pointed (written by the caller, they hold measurements), the
/// notes on attached pictures when there are any, and the message.
pub open spec fn turn_message_spec(
    code: Seq<char>,
    part: Option<Seq<char>>,
    picked: Option<Seq<char>>,
    image_notes: Option<Seq<char>>,
    message: Seq<char>,
) -> Seq<char> {
    let head = "## Current script\n```python\n"@ + trim_end(code) + "\n```\n\n## Sections\n"@ + join(section_names(code), ", "@) + "\n"@;
    let with_part = match part {
        Some(p) => head + "\n## What this part is\n"@ + p + "\n"@,
        None => head,
    };
    let with_pick = match picked {
        Some(p) => with_part + "\n## Picked location\n"@ + p + "\n"@,
        None => with_part,
    };
    let with_notes = match image_notes {
        Some(n) => if trim(n).len() > 0 {
            with_pick + "\n## Notes about the attached images\n"@ + trim(n) + "\n"@
        } else {
            with_pick
        },
        None => with_pick,
    };
    with_notes + "\n## Message\n"@ + trim(message) + "\n"@
}

pub open spec fn opt_str(o: Option<&str>) -> Option<Seq<char>> {
    match o {
        Some(s) => Some(s@),
        None => None,
    }
}

pub fn turn_message(code: &str, part: Option<&str>, picked: Option<&str>, image_notes: Option<&str>, message: &str) -> (r: String)
    requires
        lines(code@).len() <= u32::MAX,
    ensures
        r@ == turn_message_spec(code@, opt_str(part), opt_str(picked), opt_str(image_notes), message@),
{
    let names = section_name_list(code);
    let v = chars_of(code);
    let e = back_ws(&v, 0, v.len());
    assert(v@.subrange(0, v@.len() as int) == v@);
    let mut out = String::from_str("## Current script\n```python\n");
    append_str(&mut out, string_of(&v, 0, e).as_str());
    append_str(&mut out, "\n```\n\n## Sections\n");
    append_str(&mut out, join_strings(names.as_slice(), ", ").as_str());
    append_str(&mut out, "\n");
    match part {
        Some(p) => {
            append_str(&mut out, "\n## What this part is\n");
            append_str(&mut out, p);
            append_str(&mut out, "\n");
        },
        None => {},
    }
    match picked {
        Some(p) => {
            append_str(&mut out, "\n## Picked location\n");
            append_str(&mut out, p);
            append_str(&mut out, "\n");
        },
        None => {},
    }
    match image_notes {
        Some(n) => {
            let t = trimmed(n);
            if t.as_str().unicode_len() > 0 {
                append_str(&mut out, "\n## Notes about the attached images\n");
                append_str(&mut out, t.as_str());
                append_str(&mut out, "\n");
            }
        },
        None => {},
    }
    append_str(&mut out, "\n## Message\n");
    append_str(&mut out, trimmed(message).as_str());
    append_str(&mut out, "\n");
    out
}

// ---------------------------------------------------------------- design specs

pub const SPEC_NAME_EMPTY: &'static str = "name 不能为空";

pub const SPEC_NEEDS_REASON: &'static str = "suitable 为 false 时必须在 unsuitable_reason 里说明原因";

pub const FEATURE_NEEDS_TEXT: &'static str = "每个特征都要有 name 和 description";

/// What a spec's text says once its name and size have passed.
#[derive(Debug, Clone, PartialEq)]
pub enum SpecVerdict {
    /// Sent back with this reason.
    Problem(String),
    /// Marked unsuitable, with a reason: nothing more to check, the user is told.
    Unsuitable,
    /// The features read well; their dimensions are checked next.
    CheckDimensions,
}

/// A feature without a name or a description.
pub open spec fn blank_feature(features: Seq<(Seq<char>, Seq<char>)>) -> bool {
    exists|k: int| 0 <= k < features.len() && (trim((#[trigger] features[k]).0).len() == 0 || trim(features[k].1).len() == 0)
}

/// The verdict as a kind (0: sent back with the reason, 1: unsuitable, 2: check the dimensions)
/// and the reason.
pub open spec fn spec_verdict(suitable: bool, reason: Seq<char>, features: Seq<(Seq<char>, Seq<char>)>) -> (int, Seq<char>) {
    if !suitable {
        if trim(reason).len() == 0 {
            (0, SPEC_NEEDS_REASON@)
        } else {
            (1, seq![])
        }
    } else if features.len() == 0 || features.len() > 12 {
        (0, "features 应为 1~12 个,现在是 "@ + decimal(features.len()) + " 个"@)
    } else if blank_feature(features) {
        (0, FEATURE_NEEDS_TEXT@)
    } else {
        (2, seq![])
    }
}

pub open spec fn feature_views(f: Seq<(String, String)>) -> Seq<(Seq<char>, Seq<char>)> {
    f.map_values(|x: (String, String)| (x.0@, x.1@))
}

pub open spec fn verdict_view(v: SpecVerdict) -> (int, Seq<char>) {
    match v {
        SpecVerdict::Problem(w) => (0, w@),
        SpecVerdict::Unsuitable => (1, seq![]),
        SpecVerdict::CheckDimensions => (2, seq![]),
    }
}

/// The checks of a spec's text (see `spec_verdict`): `features` are the name and description of
/// each feature.
pub fn spec_text_check(suitable: bool, reason: &str, features: &[(String, String)]) -> (r: SpecVerdict)
    ensures
        verdict_view(r) == spec_verdict(suitable, reason@, feature_views(features@)),
{
    let ghost fv = feature_views(features@);
    if !suitable {
        if trimmed(reason).as_str().unicode_len() == 0 {
            return SpecVerdict::Problem(String::from_str(SPEC_NEEDS_REASON));
        }
        return SpecVerdict::Unsuitable;
    }
    if features.len() == 0 || features.len() > 12 {
        let mut w = String::from_str("features 应为 1~12 个,现在是 ");
        append_str(&mut w, decimal_string(features.len() as u64).as_str());
        append_str(&mut w, " 个");
        return SpecVerdict::Problem(w);
    }
    let mut i: usize = 0;
    while i < features.len()
        invariant
            i <= features@.len(),
            0 < features@.len() <= 12,
            suitable,
            fv == feature_views(features@),
            forall|k: int| 0 <= k < i ==> !(trim((#[trigger] fv[k]).0).len() == 0 || trim(fv[k].1).len() == 0),
        decreases features.len() - i,
    {
        assert(fv[i as int] == (features@[i as int].0@, features@[i as int].1@));
        if trimmed(features[i].0.as_str()).as_str().unicode_len() == 0 || trimmed(features[i].1.as_str()).as_str().unicode_len() == 0 {
            proof {
                assert(trim(fv[i as int].0).len() == 0 || trim(fv[i as int].1).len() == 0);
                assert(blank_feature(fv));
            }
            return SpecVerdict::Problem(String::from_str(FEATURE_NEEDS_TEXT));
        }
        i += 1;
    }
    SpecVerdict::CheckDimensions
}

/// The text sent with the reference pictures when a spec is asked for.
pub open spec fn spec_request_spec(brief: Seq<char>) -> Seq<char> {
    if trim(brief).len() == 0 {
        "请根据参考图给出设计规格。"@
    } else {
        "用户的要求:\n"@ + trim(brief)
    }
}

pub fn spec_request(brief: &str) -> (r: String)
    ensures
        r@ == spec_request_spec(brief@),
{
    let b = trimmed(brief);
    if b.as_str().unicode_len() == 0 {
        String::from_str("请根据参考图给出设计规格。")
    } else {
        let mut out = String::from_str("用户的要求:\n");
        append_str(&mut out, b.as_str());
        out
    }
}

/// Where a modelling turn is, as shown to the user while it runs.
#[derive(Debug, Clone, PartialEq)]
pub enum CadProgress {
    ReadingImage,
    /// Writing version `attempt` (from 1).
    WritingCode { attempt: u32 },
    Running { attempt: u32 },
    /// Version `attempt` has `problems` problems and goes back for repair.
    Repairing { attempt: u32, problems: u32 },
    Reviewing,
    Done,
}

} // verus!
