//! Getting usable structured data out of a language model's answer.
use vstd::prelude::*;

use crate::text::{chars_of, find, find_vec, lemma_find_from_in_bounds, lemma_rfind_to_in_bounds, occurs_at, rfind, rfind_vec, string_of};

verus! {

/// The JSON object in an answer: from the first `{` to the last `}`, when the last `}` comes
/// after the first `{`. Code fences and chatter around it are left out.
pub open spec fn extract_json_spec(text: Seq<char>) -> Option<Seq<char>> {
    match (find(text, seq!['{']), rfind(text, seq!['}'])) {
        (Some(start), Some(end)) => if end > start {
            Some(text.subrange(start, end + 1))
        } else {
            None
        },
        _ => None,
    }
}

/// Picks the JSON object out of an answer (see `extract_json_spec`).
pub fn extract_json(text: &str) -> (r: Option<String>)
    ensures
        r matches Some(j) ==> extract_json_spec(text@) == Some(j@),
        r is None ==> extract_json_spec(text@) is None,
{
    let v = chars_of(text);
    let open = vec!['{'];
    let close = vec!['}'];
    assert(open@ == seq!['{']);
    assert(close@ == seq!['}']);
    let start = match find_vec(&v, &open, 0) {
        Some(s) => s,
        None => return None,
    };
    let end = match rfind_vec(&v, &close) {
        Some(e) => e,
        None => return None,
    };
    proof {
        lemma_find_from_in_bounds(v@, open@, 0);
        lemma_rfind_to_in_bounds(v@, close@, v@.len() - 1);
        assert(occurs_at(v@, close@, end as int));
        assert(end < v.len());
    }
    if end > start {
        Some(string_of(&v, start, end + 1))
    } else {
        None
    }
}

/// What comes of one answer to a request for JSON.
#[derive(Debug, Clone, PartialEq)]
pub enum JsonOutcome {
    /// It parsed and passed the caller's check.
    Usable,
    /// No object, a wrong shape, or a failed check: the reason, to be fed back.
    Rejected(String),
    /// The provider answered with nothing usable (an empty body): worth asking again.
    Empty(String),
    /// The provider refused (bad key, no balance, ...): asking again will not help.
    Failed,
}

/// What to do after an answer.
#[derive(Debug, Clone, PartialEq)]
pub enum JsonStep {
    Accept,
    /// Ask once more, telling the model why the last answer was not usable.
    Retry(String),
    /// Ask the same question once more (the provider's answer was empty).
    AskAgain,
    /// Give up with this reason.
    GiveUp(String),
    /// Pass the provider's error on.
    Fail,
}

/// At most two answers are asked for: a bad first answer is retried with its reason, a bad
/// second one ends the request with the last reason. An empty first answer is asked again as it
/// was; an empty second one, like any provider failure, ends the request with the provider's
/// error.
pub open spec fn json_step_spec(attempt: nat, outcome: JsonOutcome) -> JsonStep {
    match outcome {
        JsonOutcome::Usable => JsonStep::Accept,
        JsonOutcome::Failed => JsonStep::Fail,
        JsonOutcome::Rejected(why) => if attempt == 0 {
            JsonStep::Retry(why)
        } else {
            JsonStep::GiveUp(why)
        },
        JsonOutcome::Empty(_) => if attempt == 0 {
            JsonStep::AskAgain
        } else {
            JsonStep::Fail
        },
    }
}

/// The decision after answer number `attempt` (from 0).
pub fn json_step(attempt: u32, outcome: JsonOutcome) -> (r: JsonStep)
    ensures
        r == json_step_spec(attempt as nat, outcome),
{
    match outcome {
        JsonOutcome::Usable => JsonStep::Accept,
        JsonOutcome::Failed => JsonStep::Fail,
        JsonOutcome::Rejected(why) => if attempt == 0 {
            JsonStep::Retry(why)
        } else {
            JsonStep::GiveUp(why)
        },
        JsonOutcome::Empty(_) => if attempt == 0 {
            JsonStep::AskAgain
        } else {
            JsonStep::Fail
        },
    }
}

/// The reason given when an answer holds no JSON object.
pub const NO_JSON_OBJECT: &'static str = "输出里没有 JSON 对象";

/// What the model is told after an answer that could not be used.
pub open spec fn retry_message_spec(problem: Seq<char>) -> Seq<char> {
    "上一次输出不合格:"@ + problem + "。请只输出修正后的 json 对象,不要解释。"@
}

pub fn retry_message(problem: &str) -> (r: String)
    ensures
        r@ == retry_message_spec(problem@),
{
    let mut out = String::from_str("上一次输出不合格:");
    crate::text::append_str(&mut out, problem);
    crate::text::append_str(&mut out, "。请只输出修正后的 json 对象,不要解释。");
    out
}

} // verus!

verus! {

/// A request for JSON asks at most twice: after the second answer it never asks again.
pub proof fn at_most_two_answers(attempt: nat, outcome: JsonOutcome)
    ensures
        attempt >= 1 ==> !(json_step_spec(attempt, outcome) is Retry) && !(json_step_spec(attempt, outcome) is AskAgain),
        outcome == JsonOutcome::Usable ==> json_step_spec(attempt, outcome) == JsonStep::Accept,
{
}

} // verus!
