//! Conversational modelling: the user says one sentence about the current model, and the
//! answer either edits the model (a fenced script) or only talks (an answer or a question back).
use vstd::prelude::*;

use crate::contract::{extract_code, extract_code_spec};
use crate::text::{
    append_chars, append_str, chars_of, contains, contains_vec, find, find_vec, lemma_find_from_in_bounds, line_ranges,
    lines, occurs_at, push_char, slice_of, string_from, string_of, trim, trim_bounds, trimmed,
};

verus! {

/// How many earlier lines go with a message, how long each may be, and how much in all.
pub const HISTORY_LINES: usize = 12;

pub const HISTORY_LINE_CHARS: usize = 400;

pub const HISTORY_TOTAL_CHARS: usize = 4000;

/// The text around the fence and the script inside it. The fenced part counts as an edit only
/// when it looks like a script: it mentions `result` or `build123d`, or has six lines or more;
/// otherwise the whole answer is prose.
pub open spec fn split_answer_spec(answer: Seq<char>) -> (Seq<char>, Option<Seq<char>>) {
    match find(answer, "```"@) {
        None => (trim(answer), None),
        Some(start) => {
            let after = answer.subrange(start + 3, answer.len() as int);
            let code = extract_code_spec(answer);
            let before = trim(answer.subrange(0, start));
            let text = match find(after, "```"@) {
                Some(end) => {
                    let tail = trim(after.subrange(end + 3, after.len() as int));
                    if tail.len() == 0 {
                        before
                    } else if before.len() == 0 {
                        tail
                    } else {
                        before + seq!['\n'] + tail
                    }
                },
                None => before,
            };
            if contains(code, "result"@) || contains(code, "build123d"@) || lines(code).len() >= 6 {
                (text, Some(code))
            } else {
                (trim(answer), None)
            }
        },
    }
}

/// Splits an answer into the words outside the fence and the script inside it.
pub fn split_answer(answer: &str) -> (r: (String, Option<String>))
    ensures
        (r.0@, match r.1 {
            Some(c) => Some(c@),
            None => None::<Seq<char>>,
        }) == split_answer_spec(answer@),
{
    let v = chars_of(answer);
    let fence = chars_of("```");
    proof {
        reveal_strlit("```");
    }
    let start = match find_vec(&v, &fence, 0) {
        Some(s) => s,
        None => return (trimmed(answer), None),
    };
    proof {
        lemma_find_from_in_bounds(v@, fence@, 0);
        assert(occurs_at(v@, fence@, start as int));
    }
    assert(start + 3 <= v.len());
    let after = slice_of(&v, start + 3, v.len());
    let code = extract_code(answer);
    let (a, b) = trim_bounds(&v, 0, start);
    let mut text = string_of(&v, a, b);
    let ghost before = text@;
    match find_vec(&after, &fence, 0) {
        Some(end) => {
            proof {
                lemma_find_from_in_bounds(after@, fence@, 0);
                assert(occurs_at(after@, fence@, end as int));
            }
            assert(end + 3 <= after.len());
            let (c, d) = trim_bounds(&after, end + 3, after.len());
            if c < d {
                if text.as_str().unicode_len() > 0 {
                    push_char(&mut text, '\n');
                }
                append_chars(&mut text, &after, c, d);
            }
        },
        None => {},
    }
    let cv = chars_of(code.as_str());
    let looks = contains_vec(&cv, &chars_of("result")) || contains_vec(&cv, &chars_of("build123d")) || line_ranges(&cv).len() >= 6;
    if looks {
        (text, Some(code))
    } else {
        (trimmed(answer), None)
    }
}

/// The first `max` characters, with `…` when something was cut.
pub open spec fn clip_spec(text: Seq<char>, max: nat) -> Seq<char> {
    if text.len() > max {
        text.subrange(0, max as int).push('…')
    } else {
        text
    }
}

/// Cuts `text` to `max` characters, marking the cut with `…`.
pub fn clip(text: &str, max: usize) -> (r: String)
    ensures
        r@ == clip_spec(text@, max as nat),
{
    let v = chars_of(text);
    if v.len() > max {
        let mut out = string_of(&v, 0, max);
        push_char(&mut out, '…');
        out
    } else {
        assert(v@.subrange(0, v@.len() as int) == v@);
        string_of(&v, 0, v.len())
    }
}

/// One earlier line of the conversation (text only).
#[derive(Debug, Clone, PartialEq)]
pub struct ChatLine {
    pub from_user: bool,
    pub text: String,
}

/// One message of the history sent with a request: the user's or the assistant's.
#[derive(Debug, Clone, PartialEq)]
pub struct HistoryMessage {
    pub from_user: bool,
    pub content: String,
}

pub open spec fn line_views(h: Seq<ChatLine>) -> Seq<(bool, Seq<char>)> {
    h.map_values(|l: ChatLine| (l.from_user, l.text@))
}

pub open spec fn message_views(m: Seq<HistoryMessage>) -> Seq<(bool, Seq<char>)> {
    m.map_values(|x: HistoryMessage| (x.from_user, x.content@))
}

pub open spec fn min_nat(a: nat, b: nat) -> nat {
    if a < b {
        a
    } else {
        b
    }
}

/// How many lines, counted from the end, fit: at most `HISTORY_LINES`, each costing its length
/// (at most `HISTORY_LINE_CHARS`), stopping at the first that no longer fits the budget.
pub open spec fn recent_count(h: Seq<(bool, Seq<char>)>, k: nat, budget: nat) -> nat
    decreases h.len() - k,
{
    if k >= HISTORY_LINES || k >= h.len() {
        k
    } else {
        let cost = min_nat(h[h.len() - 1 - k].1.len(), HISTORY_LINE_CHARS as nat);
        if cost > budget {
            k
        } else {
            recent_count(h, k + 1, (budget - cost) as nat)
        }
    }
}

/// Index of the first line from the user (`p.len()` when there is none).
pub open spec fn first_user(p: Seq<(bool, Seq<char>)>) -> nat
    decreases p.len(),
{
    if p.len() == 0 || p[0].0 {
        0
    } else {
        1 + first_user(p.drop_first())
    }
}

/// Lines turned into messages: each trimmed and clipped, empty ones dropped, and a line by the
/// same side as the message before it appended to that message after a line break.
pub open spec fn merged(p: Seq<(bool, Seq<char>)>) -> Seq<(bool, Seq<char>)>
    decreases p.len(),
{
    if p.len() == 0 {
        seq![]
    } else {
        let m = merged(p.drop_last());
        let t = clip_spec(trim(p.last().1), HISTORY_LINE_CHARS as nat);
        if t.len() == 0 {
            m
        } else if m.len() > 0 && m.last().0 == p.last().0 {
            m.update(m.len() - 1, (m.last().0, m.last().1 + seq!['\n'] + t))
        } else {
            m.push((p.last().0, t))
        }
    }
}

/// The recent history as alternating messages, starting with the user.
pub open spec fn history_spec(h: Seq<(bool, Seq<char>)>) -> Seq<(bool, Seq<char>)> {
    let n = recent_count(h, 0, HISTORY_TOTAL_CHARS as nat);
    let picked = h.subrange(h.len() - n, h.len() as int);
    merged(picked.subrange(first_user(picked) as int, picked.len() as int))
}

proof fn lemma_recent_count_bound(h: Seq<(bool, Seq<char>)>, k: nat, budget: nat)
    requires
        k <= h.len(),
    ensures
        k <= recent_count(h, k, budget) <= h.len(),
    decreases h.len() - k,
{
    if k < HISTORY_LINES && k < h.len() {
        let cost = min_nat(h[h.len() - 1 - k].1.len(), HISTORY_LINE_CHARS as nat);
        if cost <= budget {
            lemma_recent_count_bound(h, k + 1, (budget - cost) as nat);
        }
    }
}

pub proof fn lemma_first_user(p: Seq<(bool, Seq<char>)>)
    ensures
        first_user(p) <= p.len(),
        forall|k: int| 0 <= k < first_user(p) ==> !(#[trigger] p[k]).0,
        first_user(p) < p.len() ==> p[first_user(p) as int].0,
    decreases p.len(),
{
    if p.len() > 0 && !p[0].0 {
        lemma_first_user(p.drop_first());
        assert forall|k: int| 0 <= k < first_user(p) implies !(#[trigger] p[k]).0 by {
            if k > 0 {
                assert(p[k] == p.drop_first()[k - 1]);
            }
        }
    }
}

/// The recent conversation, ready to go with a request (see `history_spec`): the newest lines
/// that fit the limits, starting from a line of the user's, with neighbouring lines of one side
/// merged (some interfaces refuse two messages of the same side in a row).
pub fn history_messages(history: &[ChatLine]) -> (r: Vec<HistoryMessage>)
    ensures
        message_views(r@) == history_spec(line_views(history@)),
{
    let ghost h = line_views(history@);
    let n = history.len();
    // how many lines from the end fit
    let mut k: usize = 0;
    let mut budget: usize = HISTORY_TOTAL_CHARS;
    proof {
        lemma_recent_count_bound(h, 0, HISTORY_TOTAL_CHARS as nat);
    }
    let mut stop = false;
    while !stop && k < HISTORY_LINES && k < n
        invariant
            n == history@.len() == h.len(),
            h == line_views(history@),
            k <= n,
            recent_count(h, k as nat, budget as nat) == recent_count(h, 0, HISTORY_TOTAL_CHARS as nat),
            stop ==> recent_count(h, k as nat, budget as nat) == k,
        decreases n - k + (if stop { 0int } else { 1int }),
    {
        let len = history[n - 1 - k].text.as_str().unicode_len();
        assert(h[n - 1 - k] == (history@[n - 1 - k].from_user, history@[n - 1 - k].text@));
        let cost = if len < HISTORY_LINE_CHARS { len } else { HISTORY_LINE_CHARS };
        assert(cost == min_nat(h[n - 1 - k].1.len(), HISTORY_LINE_CHARS as nat));
        if cost > budget {
            stop = true;
        } else {
            budget = budget - cost;
            k += 1;
        }
    }
    let ghost count = recent_count(h, 0, HISTORY_TOTAL_CHARS as nat);
    assert(count == k);
    let ghost picked = h.subrange(n - k, n as int);
    // skip to the first line of the user's
    let mut f: usize = n - k;
    proof {
        lemma_first_user(picked);
    }
    while f < n && !history[f].from_user
        invariant
            n - k <= f <= n,
            n == history@.len() == h.len(),
            h == line_views(history@),
            k <= n,
            picked == h.subrange(n - k, n as int),
            f - (n - k) <= first_user(picked),
            forall|q: int| 0 <= q < f - (n - k) ==> !(#[trigger] picked[q]).0,
        decreases n - f,
    {
        assert(picked[f - (n - k)] == h[f as int]);
        assert(h[f as int].0 == history@[f as int].from_user);
        proof {
            lemma_first_user(picked);
        }
        f += 1;
    }
    proof {
        if f < n {
            assert(picked[f - (n - k)] == h[f as int]);
            assert(h[f as int].0 == history@[f as int].from_user);
        }
    }
    assert(f - (n - k) == first_user(picked));
    let ghost rest = picked.subrange(first_user(picked) as int, picked.len() as int);
    assert(rest == h.subrange(f as int, n as int));
    let mut out: Vec<HistoryMessage> = Vec::new();
    let mut i = f;
    while i < n
        invariant
            f <= i <= n,
            n == history@.len() == h.len(),
            h == line_views(history@),
            message_views(out@) == merged(h.subrange(f as int, i as int)),
        decreases n - i,
    {
        let ghost before = message_views(out@);
        let ghost seg = h.subrange(f as int, i + 1);
        proof {
            assert(seg.drop_last() == h.subrange(f as int, i as int));
            assert(seg.last() == h[i as int]);
            assert(h[i as int] == (history@[i as int].from_user, history@[i as int].text@));
        }
        let t = clip(trimmed(history[i].text.as_str()).as_str(), HISTORY_LINE_CHARS);
        let from_user = history[i].from_user;
        if t.as_str().unicode_len() > 0 {
            let len = out.len();
            if len > 0 && out[len - 1].from_user == from_user {
                let mut last = out.pop().unwrap();
                let ghost prev = last.content@;
                push_char(&mut last.content, '\n');
                append_str(&mut last.content, t.as_str());
                assert(last.content@ =~= prev + seq!['\n'] + t@);
                out.push(last);
                assert(message_views(out@) =~= before.update(
                    before.len() - 1,
                    (before.last().0, before.last().1 + seq!['\n'] + t@),
                ));
            } else {
                out.push(HistoryMessage { from_user, content: t });
                assert(message_views(out@) =~= before.push((from_user, t@)));
            }
        }
        i += 1;
    }
    out
}

} // verus!

verus! {

proof fn lemma_merged(p: Seq<(bool, Seq<char>)>)
    ensures
        merged(p).len() <= p.len(),
        forall|k: int| 0 <= k < merged(p).len() - 1 ==> (#[trigger] merged(p)[k]).0 != merged(p)[k + 1].0,
        p.len() > 0 && clip_spec(trim(p[0].1), HISTORY_LINE_CHARS as nat).len() > 0 ==> merged(p).len() > 0 && merged(p)[0].0
            == p[0].0,
    decreases p.len(),
{
    if p.len() > 0 {
        let q = p.drop_last();
        lemma_merged(q);
        let m = merged(q);
        let t = clip_spec(trim(p.last().1), HISTORY_LINE_CHARS as nat);
        if t.len() == 0 {
        } else if m.len() > 0 && m.last().0 == p.last().0 {
            let r = m.update(m.len() - 1, (m.last().0, m.last().1 + seq!['\n'] + t));
            assert forall|k: int| 0 <= k < r.len() - 1 implies (#[trigger] r[k]).0 != r[k + 1].0 by {
                assert(r[k].0 == m[k].0);
                assert(r[k + 1].0 == m[k + 1].0);
            }
            if q.len() > 0 {
                assert(q[0] == p[0]);
            }
        } else {
            let r = m.push((p.last().0, t));
            assert forall|k: int| 0 <= k < r.len() - 1 implies (#[trigger] r[k]).0 != r[k + 1].0 by {
                if k + 1 < m.len() {
                    assert(r[k] == m[k] && r[k + 1] == m[k + 1]);
                } else {
                    assert(r[k] == m[k]);
                }
            }
            if q.len() > 0 {
                assert(q[0] == p[0]);
            } else {
                assert(p.last() == p[0]);
            }
        }
    }
}

proof fn lemma_recent_count_at_most(h: Seq<(bool, Seq<char>)>, k: nat, budget: nat)
    requires
        k <= HISTORY_LINES,
    ensures
        recent_count(h, k, budget) <= HISTORY_LINES,
    decreases h.len() - k,
{
    if k < HISTORY_LINES && k < h.len() {
        let cost = min_nat(h[h.len() - 1 - k].1.len(), HISTORY_LINE_CHARS as nat);
        if cost <= budget {
            lemma_recent_count_at_most(h, k + 1, (budget - cost) as nat);
        }
    }
}

/// The history sent with a message alternates between the user and the assistant, holds at
/// most `HISTORY_LINES` messages, and opens with the user's words (unless the user's first line
/// in the window is blank and is therefore dropped).
pub proof fn history_alternates_and_starts_with_the_user(h: Seq<(bool, Seq<char>)>)
    ensures
        history_spec(h).len() <= HISTORY_LINES,
        forall|k: int| 0 <= k < history_spec(h).len() - 1 ==> (#[trigger] history_spec(h)[k]).0 != history_spec(h)[k + 1].0,
        ({
            let n = recent_count(h, 0, HISTORY_TOTAL_CHARS as nat);
            let picked = h.subrange(h.len() - n, h.len() as int);
            let rest = picked.subrange(first_user(picked) as int, picked.len() as int);
            rest.len() > 0 && clip_spec(trim(rest[0].1), HISTORY_LINE_CHARS as nat).len() > 0 ==> history_spec(h)[0].0
        }),
{
    let n = recent_count(h, 0, HISTORY_TOTAL_CHARS as nat);
    lemma_recent_count_bound(h, 0, HISTORY_TOTAL_CHARS as nat);
    lemma_recent_count_at_most(h, 0, HISTORY_TOTAL_CHARS as nat);
    let picked = h.subrange(h.len() - n, h.len() as int);
    lemma_first_user(picked);
    let rest = picked.subrange(first_user(picked) as int, picked.len() as int);
    lemma_merged(rest);
    if rest.len() > 0 {
        assert(rest[0] == picked[first_user(picked) as int]);
    }
}

} // verus!
