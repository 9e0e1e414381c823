//! The resident engine process: how its output lines are read, and when the one-slot pool
//! keeps a process or replaces it. Starting an interpreter and importing build123d takes
//! seconds, so a warm process is kept for the next job until it has served its share.
//!
//! Protocol: one JSON job per line on stdin; when a job is done the process writes a line
//! holding `SENTINEL` + `DONE <seq>`, and at start `SENTINEL` + `READY <python> <build123d>`.
//! The marker is looked for anywhere in a line, since the CAD kernel sometimes writes to stdout
//! itself and its text can share the line.
use vstd::prelude::*;

use crate::cad::CadError;
use crate::research_run::word_end;
use crate::text::{chars_of, decimal, decimal_string, find, find_from, find_vec, occurs_at, is_ws, is_ws_char, lemma_find_from_in_bounds, str_eq, string_of, trim, trim_bounds};

verus! {

pub const SENTINEL: &'static str = "\u{1e}PP-";

/// What follows the first `marker` in `line`, trimmed (`None` when the line has no marker).
pub open spec fn payload_spec(line: Seq<char>, marker: Seq<char>) -> Option<Seq<char>> {
    match find(line, marker) {
        Some(at) => Some(trim(line.subrange(at + marker.len(), line.len() as int))),
        None => None,
    }
}

/// The payload of a protocol line tagged `tag` (see `payload_spec`, with the marker
/// `SENTINEL` followed by `tag`).
pub fn marked_payload(line: &str, tag: &str) -> (r: Option<String>)
    ensures
        r matches Some(x) ==> payload_spec(line@, SENTINEL@ + tag@) == Some(x@),
        r is None ==> payload_spec(line@, SENTINEL@ + tag@) is None,
{
    let mut marker = chars_of(SENTINEL);
    let t = chars_of(tag);
    let mut k: usize = 0;
    while k < t.len()
        invariant
            k <= t@.len(),
            marker@ == SENTINEL@ + t@.take(k as int),
        decreases t.len() - k,
    {
        marker.push(t[k]);
        assert(marker@ =~= SENTINEL@ + t@.take(k + 1));
        k += 1;
    }
    assert(t@.take(t@.len() as int) == t@);
    let v = chars_of(line);
    proof {
        lemma_find_from_in_bounds(v@, marker@, 0);
    }
    match find_vec(&v, &marker, 0) {
        None => None,
        Some(at) => {
            assert(find_from(v@, marker@, 0) == Some(at as int));
            assert(occurs_at(v@, marker@, at as int));
            let from = at + marker.len();
            let (a, b) = trim_bounds(&v, from, v.len());
            Some(string_of(&v, a, b))
        },
    }
}

/// The start of the word at or after `i` (past any whitespace).
pub open spec fn word_start(s: Seq<char>, i: int) -> int
    decreases s.len() - i,
{
    if i < 0 || i >= s.len() || !is_ws(s[i]) {
        i
    } else {
        word_start(s, i + 1)
    }
}

/// The first two whitespace-separated words of `s`, empty where there are fewer.
pub open spec fn two_words(s: Seq<char>) -> (Seq<char>, Seq<char>) {
    let a = word_start(s, 0);
    let b = word_end(s, a);
    let c = word_start(s, b);
    let d = word_end(s, c);
    (s.subrange(a, b), s.subrange(c, d))
}

proof fn lemma_word_bounds(s: Seq<char>, i: int)
    requires
        0 <= i <= s.len(),
    ensures
        i <= word_start(s, i) <= s.len(),
        word_start(s, i) <= word_end(s, word_start(s, i)) <= s.len(),
    decreases s.len() - i,
{
    if i < s.len() && is_ws(s[i]) {
        lemma_word_bounds(s, i + 1);
    } else {
        lemma_word_end_bounds(s, i);
    }
}

proof fn lemma_word_end_bounds(s: Seq<char>, i: int)
    requires
        0 <= i <= s.len(),
    ensures
        i <= word_end(s, i) <= s.len(),
    decreases s.len() - i,
{
    if i < s.len() && !is_ws(s[i]) {
        lemma_word_end_bounds(s, i + 1);
    }
}

/// The next word of `v` at or after `from`: its start and end.
fn next_word(v: &Vec<char>, from: usize) -> (r: (usize, usize))
    requires
        from <= v@.len(),
    ensures
        r.0 == word_start(v@, from as int),
        r.1 == word_end(v@, r.0 as int),
        from <= r.0 <= r.1 <= v@.len(),
{
    let mut a = from;
    while a < v.len() && is_ws_char(v[a])
        invariant
            from <= a <= v@.len(),
            word_start(v@, from as int) == word_start(v@, a as int),
        decreases v.len() - a,
    {
        a += 1;
    }
    let mut b = a;
    while b < v.len() && !is_ws_char(v[b])
        invariant
            a <= b <= v@.len(),
            word_end(v@, a as int) == word_end(v@, b as int),
        decreases v.len() - b,
    {
        b += 1;
    }
    (a, b)
}

/// The interpreter's and build123d's versions from the payload of the ready line.
pub fn ready_versions(payload: &str) -> (r: (String, String))
    ensures
        (r.0@, r.1@) == two_words(payload@),
{
    let v = chars_of(payload);
    proof {
        lemma_word_bounds(v@, 0);
    }
    let (a, b) = next_word(&v, 0);
    let (c, d) = next_word(&v, b);
    (string_of(&v, a, b), string_of(&v, c, d))
}

/// The process finished the job it was sent, not another one.
pub fn answers_job(done: &str, seq: u64) -> (r: bool)
    ensures
        r == (done@ == decimal(seq as nat)),
{
    let expected = decimal_string(seq);
    str_eq(done, expected.as_str())
}

/// How many jobs one process serves before it is replaced (the CAD kernel's memory grows over
/// long runs): as configured, and at least one.
pub fn job_limit(max_jobs: u32) -> (r: u32)
    ensures
        r == (if max_jobs < 1 {
            1
        } else {
            max_jobs
        }),
{
    if max_jobs < 1 {
        1
    } else {
        max_jobs
    }
}

/// A process that has served its share is dropped before the next job.
pub fn retires(served: u32, limit: u32) -> (r: bool)
    ensures
        r == (served >= limit),
{
    served >= limit
}

/// How a job ended, as far as the process is concerned.
#[derive(Debug, Clone, Copy, PartialEq, Eq, Structural)]
pub enum JobOutcome {
    /// The model was built.
    Built,
    /// The script failed inside the process; the process is fine.
    ScriptFailed,
    /// Timeout, cancel or a broken protocol: the process was killed.
    ProcessLost,
}

/// The outcome of a job from its error (`None` when it succeeded).
pub fn job_outcome(failure: Option<&CadError>) -> (r: JobOutcome)
    ensures
        r == (match failure {
            None => JobOutcome::Built,
            Some(CadError::Script(_)) => JobOutcome::ScriptFailed,
            Some(_) => JobOutcome::ProcessLost,
        }),
{
    match failure {
        None => JobOutcome::Built,
        Some(CadError::Script(_)) => JobOutcome::ScriptFailed,
        Some(_) => JobOutcome::ProcessLost,
    }
}

/// After a job the process goes back into the slot when it is still alive and has not served
/// its share; otherwise a fresh one is started in the background.
pub fn keeps_worker(outcome: JobOutcome, served: u32, limit: u32) -> (r: bool)
    ensures
        r == (outcome != JobOutcome::ProcessLost && served < limit),
{
    outcome != JobOutcome::ProcessLost && served < limit
}

/// Resident process status (for the engine panel).
#[derive(Debug, Clone, PartialEq, Eq)]
pub struct WorkerStatus {
    pub python_version: String,
    pub build123d_version: String,
    /// Jobs this process has served.
    pub served: u32,
}

} // verus!

verus! {

/// The slot never hands a job to a process past its share: a process kept after a job is not
/// one that would be retired before the next, and a lost process is never kept.
pub proof fn kept_workers_are_never_due(outcome: JobOutcome, served: u32, max_jobs: u32)
    ensures
        ({
            let limit = if max_jobs < 1 { 1u32 } else { max_jobs };
            (outcome != JobOutcome::ProcessLost && served < limit) ==> !(served >= limit)
        }),
        outcome == JobOutcome::ProcessLost ==> !(outcome != JobOutcome::ProcessLost && served < max_jobs),
{
}

} // verus!
