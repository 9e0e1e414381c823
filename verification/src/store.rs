//! What the store accepts before it writes: the rules of the project board, the asset library,
//! the publishing log and the print-run log. Each is checked on the values a command brings,
//! before any SQL runs.
use vstd::prelude::*;

use crate::research::IpRisk;
use crate::stage::{ProjectStatus, Stage};
use crate::text::{chars_of, decimal, decimal_string, ends_with, find, push_char, starts_with, str_contains, str_eq, str_starts_with, trim, trimmed, append_str};

verus! {

/// A title or a name as stored: trimmed, and not blank.
pub fn required_name(s: &str) -> (r: Option<String>)
    ensures
        r matches Some(x) ==> x@ == trim(s@) && x@.len() > 0,
        r is None ==> trim(s@).len() == 0,
{
    let t = trimmed(s);
    if t.as_str().unicode_len() == 0 {
        None
    } else {
        Some(t)
    }
}

/// `n` as `{:04}` formats it: zero-padded to four places, the sign counting as one.
pub open spec fn padded4(n: int) -> Seq<char> {
    if n < 0 {
        let d = decimal((-n) as nat);
        if d.len() < 3 {
            seq!['-'] + Seq::new((3 - d.len()) as nat, |i: int| '0') + d
        } else {
            seq!['-'] + d
        }
    } else {
        let d = decimal(n as nat);
        if d.len() < 4 {
            Seq::new((4 - d.len()) as nat, |i: int| '0') + d
        } else {
            d
        }
    }
}

/// A project's human-readable number: `PP-` and the sequence number to four places.
pub open spec fn project_code_spec(n: int) -> Seq<char> {
    "PP-"@ + padded4(n)
}

pub fn project_code(n: i64) -> (r: String)
    ensures
        r@ == project_code_spec(n as int),
{
    proof {
        reveal_strlit("PP-");
    }
    let neg = n < 0;
    let m: u64 = if neg { (0i128 - (n as i128)) as u64 } else { n as u64 };
    let d = decimal_string(m);
    let width: usize = if neg { 3 } else { 4 };
    let len = d.as_str().unicode_len();
    let mut out = String::from_str("PP-");
    if neg {
        push_char(&mut out, '-');
    }
    let ghost head = out@;
    let mut k: usize = len;
    while k < width
        invariant
            len <= k,
            k <= width || k == len,
            width <= 4,
            out@ == head + Seq::new((k - len) as nat, |i: int| '0'),
        decreases width - k,
    {
        push_char(&mut out, '0');
        assert(out@ =~= head + Seq::new((k + 1 - len) as nat, |i: int| '0'));
        k += 1;
    }
    let ghost pad = out@;
    append_str(&mut out, d.as_str());
    proof {
        if neg {
            assert((-(n as int)) as nat == m as nat);
        }
        if len < width {
            assert(out@ =~= "PP-"@ + padded4(n as int));
        } else {
            assert(Seq::new((k - len) as nat, |i: int| '0') =~= Seq::<char>::empty());
            assert(out@ =~= "PP-"@ + padded4(n as int));
        }
    }
    out
}

/// Moving a project across the board.
#[derive(Debug, Clone, Copy, PartialEq, Eq, Structural)]
pub enum StageMove {
    /// Dropped back on its own column: nothing is recorded.
    Unchanged,
    /// Pushed past an unmet gate without saying why.
    NeedsReason,
    Move,
}

pub open spec fn stage_move_spec(cur: Stage, to: Stage, forced: bool, note: Seq<char>) -> StageMove {
    if cur == to {
        StageMove::Unchanged
    } else if forced && trim(note).len() == 0 {
        StageMove::NeedsReason
    } else {
        StageMove::Move
    }
}

/// A forced move (past an unmet gate) must say why; the reason is kept for the review.
pub fn stage_move(cur: Stage, to: Stage, forced: bool, note: &str) -> (r: StageMove)
    ensures
        r == stage_move_spec(cur, to, forced, note@),
{
    if cur == to {
        StageMove::Unchanged
    } else if forced && trimmed(note).as_str().unicode_len() == 0 {
        StageMove::NeedsReason
    } else {
        StageMove::Move
    }
}

/// Setting a project's status: killing it needs a reason, and only a killed project keeps one.
pub open spec fn kill_reason_spec(status: ProjectStatus, reason: Option<Seq<char>>) -> Option<Option<Seq<char>>> {
    let given = match reason {
        Some(r) => if trim(r).len() > 0 { Some(trim(r)) } else { None },
        None => None,
    };
    if status == ProjectStatus::Killed {
        match given {
            Some(r) => Some(Some(r)),
            None => None,
        }
    } else {
        Some(None)
    }
}

/// The kill reason to store (`Some(None)`: none), or `None` when a kill comes without a reason.
pub fn kill_reason(status: ProjectStatus, reason: Option<&str>) -> (r: Option<Option<String>>)
    ensures
        r is None <==> kill_reason_spec(status, match reason { Some(x) => Some(x@), None => None }) is None,
        r matches Some(Some(x)) ==> kill_reason_spec(status, match reason { Some(x) => Some(x@), None => None })
            == Some(Some(x@)),
        r matches Some(None) ==> kill_reason_spec(status, match reason { Some(x) => Some(x@), None => None })
            == Some(None::<Seq<char>>),
{
    let given: Option<String> = match reason {
        Some(x) => {
            let t = trimmed(x);
            if t.as_str().unicode_len() > 0 {
                Some(t)
            } else {
                None
            }
        },
        None => None,
    };
    if status == ProjectStatus::Killed {
        match given {
            Some(t) => Some(Some(t)),
            None => None,
        }
    } else {
        Some(None)
    }
}

/// An asset path stays inside the library: relative, forward slashes only, no drive colon,
/// and no empty, `.` or `..` segment. Stated by where the separators are: an empty segment is
/// a leading or trailing `/` or a `//`; a `.` or `..` segment is the whole path or sits at an
/// end or between two separators.
pub open spec fn dot_segment(s: Seq<char>, d: Seq<char>) -> bool {
    ||| s == d
    ||| starts_with(s, d + "/"@)
    ||| ends_with(s, "/"@ + d)
    ||| find(s, "/"@ + d + "/"@) is Some
}

pub open spec fn asset_path_ok_spec(s: Seq<char>) -> bool {
    &&& s.len() > 0
    &&& !starts_with(s, "/"@)
    &&& !ends_with(s, "/"@)
    &&& find(s, "//"@) is None
    &&& find(s, "\\"@) is None
    &&& find(s, ":"@) is None
    &&& !dot_segment(s, "."@)
    &&& !dot_segment(s, ".."@)
}

fn str_ends_with(s: &str, p: &str) -> (r: bool)
    ensures
        r == ends_with(s@, p@),
{
    let v = chars_of(s);
    let q = chars_of(p);
    if q.len() > v.len() {
        return false;
    }
    crate::text::matches_at(&v, &q, v.len() - q.len())
}

fn has_dot_segment(p: &str, d: &str, d_slash: &str, slash_d: &str, slash_d_slash: &str) -> (r: bool)
    requires
        d_slash@ == d@ + "/"@,
        slash_d@ == "/"@ + d@,
        slash_d_slash@ == "/"@ + d@ + "/"@,
    ensures
        r == dot_segment(p@, d@),
{
    str_eq(p, d) || str_starts_with(p, d_slash) || str_ends_with(p, slash_d) || str_contains(p, slash_d_slash)
}

pub fn asset_path_ok(p: &str) -> (r: bool)
    ensures
        r == asset_path_ok_spec(p@),
{
    proof {
        reveal_strlit("/");
        reveal_strlit(".");
        reveal_strlit("..");
        reveal_strlit("./");
        reveal_strlit("/.");
        reveal_strlit("/./");
        reveal_strlit("../");
        reveal_strlit("/..");
        reveal_strlit("/../");
    }
    assert("./"@ == "."@ + "/"@);
    assert("/."@ == "/"@ + "."@);
    assert("/./"@ == "/"@ + "."@ + "/"@);
    assert("../"@ == ".."@ + "/"@);
    assert("/.."@ == "/"@ + ".."@);
    assert("/../"@ == "/"@ + ".."@ + "/"@);
    p.unicode_len() > 0 && !str_starts_with(p, "/") && !str_ends_with(p, "/") && !str_contains(p, "//") && !str_contains(p, "\\")
        && !str_contains(p, ":") && !has_dot_segment(p, ".", "./", "/.", "/./") && !has_dot_segment(p, "..", "../", "/..", "/../")
}

/// A design thumbnail is a small picture held as a data URL.
pub const MAX_THUMB_BYTES: usize = 60000;

pub fn thumb_ok(thumb: &str) -> (r: bool)
    ensures
        r == (starts_with(thumb@, "data:image/"@) && thumb.len() <= MAX_THUMB_BYTES),
{
    str_starts_with(thumb, "data:image/") && thumb.len() <= MAX_THUMB_BYTES
}

/// Note drafts one project may hold.
pub const MAX_NOTES_PER_PROJECT: i64 = 60;

pub fn note_room(count: i64) -> (r: bool)
    ensures
        r == (count < MAX_NOTES_PER_PROJECT),
{
    count < MAX_NOTES_PER_PROJECT
}

/// The longest published link kept, in bytes.
pub const MAX_LINK_BYTES: usize = 2000;

/// The published link as stored: trimmed, a web address, not too long.
pub fn published_link(url: &str) -> (r: Option<String>)
    ensures
        r matches Some(x) ==> x@ == trim(url@),
        r is Some <==> ((starts_with(trim(url@), "https://"@) || starts_with(trim(url@), "http://"@))
            && (vstd::utf8::encode_utf8(trim(url@)).len() as usize) <= MAX_LINK_BYTES),
{
    let t = trimmed(url);
    let ok = (str_starts_with(t.as_str(), "https://") || str_starts_with(t.as_str(), "http://")) && t.as_str().len() <= MAX_LINK_BYTES;
    if ok {
        Some(t)
    } else {
        None
    }
}

/// A failed test print must say why (the reason is what the next design change starts from).
pub fn print_run_ok(success: bool, fail_reason: &str) -> (r: bool)
    ensures
        r == (success || trim(fail_reason@).len() > 0),
{
    success || trimmed(fail_reason).as_str().unicode_len() > 0
}

/// The hypothesis of a project adopted from an opportunity card: who, the pitch, and the
/// expected price band.
pub open spec fn adopted_hypothesis_spec(persona: Seq<char>, pitch: Seq<char>, low: nat, high: nat) -> Seq<char> {
    persona + "。"@ + pitch + "。预期价格带 ¥"@ + decimal(low) + "~"@ + decimal(high) + "。"@
}

pub fn adopted_hypothesis(persona: &str, pitch: &str, low: u32, high: u32) -> (r: String)
    ensures
        r@ == adopted_hypothesis_spec(persona@, pitch@, low as nat, high as nat),
{
    let mut out = String::new();
    append_str(&mut out, persona);
    append_str(&mut out, "。");
    append_str(&mut out, pitch);
    append_str(&mut out, "。预期价格带 ¥");
    append_str(&mut out, decimal_string(low as u64).as_str());
    append_str(&mut out, "~");
    append_str(&mut out, decimal_string(high as u64).as_str());
    append_str(&mut out, "。");
    out
}

/// The note on the stage event of an adopted project: which research it came from.
pub open spec fn adoption_note_spec(topic: Seq<char>) -> Seq<char> {
    "采用自调研「"@ + trim(topic) + "」"@
}

pub fn adoption_note(topic: &str) -> (r: String)
    ensures
        r@ == adoption_note_spec(topic@),
{
    let mut out = String::new();
    append_str(&mut out, "采用自调研「");
    append_str(&mut out, trimmed(topic).as_str());
    append_str(&mut out, "」");
    out
}

/// A card with a high IP risk can be read but not adopted.
pub fn adoptable(risk: IpRisk) -> (r: bool)
    ensures
        r == (risk != IpRisk::High),
{
    risk != IpRisk::High
}

} // verus!

verus! {

/// Skipping a gate asks for a reason that is kept: a forced move is only recorded with a
/// non-blank reason, and dropping a card on its own column records nothing.
pub proof fn forced_moves_carry_a_reason(cur: Stage, to: Stage, forced: bool, note: Seq<char>)
    ensures
        stage_move_spec(cur, to, true, note) == StageMove::Move ==> trim(note).len() > 0,
        stage_move_spec(cur, cur, forced, note) == StageMove::Unchanged,
        !forced && cur != to ==> stage_move_spec(cur, to, forced, note) == StageMove::Move,
{
}

/// A killed project always keeps a non-blank reason; a project in any other status keeps none.
pub proof fn only_killed_projects_keep_a_reason(status: ProjectStatus, reason: Option<Seq<char>>)
    ensures
        kill_reason_spec(ProjectStatus::Killed, reason) != Some(None::<Seq<char>>),
        kill_reason_spec(ProjectStatus::Killed, reason) matches Some(Some(r)) ==> r.len() > 0,
        status != ProjectStatus::Killed ==> kill_reason_spec(status, reason) == Some(None::<Seq<char>>),
{
}

} // verus!
