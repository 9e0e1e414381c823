//! Planning one turn of the picture workbench: from what the user said, decide whether to
//! generate afresh, edit the selected picture or only answer, and write the picture model's
//! prompt. The picture model itself is called elsewhere.
use vstd::prelude::*;

use crate::chat::{first_user, line_views, ChatLine};
use crate::imagery::{ImageAspect, ImagePurpose};
use crate::text::{append_str, chars_of, decimal, decimal_string, str_eq, string_of, trim, trimmed};

verus! {

/// How much of a prompt is kept, and how many earlier lines go with a turn.
pub const MAX_PROMPT_CHARS: usize = 900;

pub const PLAN_HISTORY_LINES: usize = 10;

/// What a turn does.
#[derive(Debug, Clone, Copy, PartialEq, Eq, Structural)]
pub enum ImageAction {
    Generate,
    Edit,
    Reply,
}

pub open spec fn purpose_text(p: ImagePurpose) -> Seq<char> {
    match p {
        ImagePurpose::ModelRef => "建模参考图"@,
        ImagePurpose::Scene => "场景图"@,
        ImagePurpose::Cover => "封面"@,
        ImagePurpose::Free => "自由"@,
    }
}

/// A purpose as the planning model is told it.
pub fn purpose_name(p: ImagePurpose) -> (r: &'static str)
    ensures
        r@ == purpose_text(p),
{
    match p {
        ImagePurpose::ModelRef => "建模参考图",
        ImagePurpose::Scene => "场景图",
        ImagePurpose::Cover => "封面",
        ImagePurpose::Free => "自由",
    }
}

/// Everything a turn is planned from, besides the history.
pub struct ImageTurn<'a> {
    pub message: &'a str,
    pub purpose: ImagePurpose,
    pub aspect: ImageAspect,
    /// The picture model can edit a picture by instruction.
    pub can_edit: bool,
    pub max_count: u32,
    /// The count chosen in the input area.
    pub default_count: u32,
    /// The prompt the selected picture was made from (none for an imported picture).
    pub current_prompt: Option<&'a str>,
    /// How many pictures go to the vision model: the selected one first, then the pasted ones.
    pub images: usize,
    pub has_current: bool,
}

pub open spec fn clamp(v: nat, lo: nat, hi: nat) -> nat {
    if v < lo {
        lo
    } else if v > hi {
        hi
    } else {
        v
    }
}

pub const NO_CURRENT: &'static str = "- 当前选中的图:还没有(这是第一次出图,或者用户没有选中任何一张)。\n";

pub const IMPORTED_CURRENT: &'static str = "- 当前选中的图:第 1 张图片。它是用户自己导入的,不是模型生成的,所以没有提示词——要重新生成的话,提示词得照着画面从头写。\n";

/// The situation of the turn as the planning model reads it: purpose, aspect, whether editing is
/// possible, the counts, the selected picture (with its prompt, or marked as the user's own),
/// how many pictures were pasted, and the user's words.
pub open spec fn context_spec(t: ImageTurn) -> Seq<char> {
    let attached: nat = if t.has_current {
        if t.images >= 1 {
            (t.images - 1) as nat
        } else {
            0
        }
    } else {
        t.images as nat
    };
    "## 这一轮的情况\n- 用途:"@ + purpose_text(t.purpose) + "\n- 画幅:"@ + t.aspect.ratio_text() + "\n- 图片模型能按指令编辑已有的图:"@
        + (if t.can_edit {
        "能"@
    } else {
        "不能(只能从文字重新生成)"@
    }) + "\n- 默认张数:"@ + decimal(clamp(t.default_count as nat, 1, t.max_count as nat)) + ";上限:"@ + decimal(
        t.max_count as nat,
    ) + "\n"@ + (match (t.has_current, t.current_prompt) {
        (true, Some(p)) => "- 当前选中的图:第 1 张图片。它当初的提示词:"@ + trim(p@) + "\n"@,
        (true, None) => IMPORTED_CURRENT@,
        (false, _) => NO_CURRENT@,
    }) + (if attached > 0 {
        "- 用户这句话里新贴了 "@ + decimal(attached) + " 张图(排在"@ + (if t.has_current {
            "当前图之后"@
        } else {
            "最前面"@
        }) + "):是参考,或者是要改的图。\n"@
    } else {
        seq![]
    }) + "\n## 用户这句话\n"@ + trim(t.message@) + "\n"@
}

/// The situation of the turn (see `context_spec`).
pub fn context_block(turn: &ImageTurn) -> (r: String)
    requires
        turn.max_count >= 1,
    ensures
        r@ == context_spec(*turn),
{
    let attached: usize = if turn.has_current {
        if turn.images >= 1 { turn.images - 1 } else { 0 }
    } else {
        turn.images
    };
    let mut out = String::from_str("## 这一轮的情况\n- 用途:");
    append_str(&mut out, purpose_name(turn.purpose));
    append_str(&mut out, "\n- 画幅:");
    append_str(&mut out, turn.aspect.ratio());
    append_str(&mut out, "\n- 图片模型能按指令编辑已有的图:");
    append_str(&mut out, if turn.can_edit { "能" } else { "不能(只能从文字重新生成)" });
    append_str(&mut out, "\n- 默认张数:");
    let count = if turn.default_count < 1 {
        1
    } else if turn.default_count > turn.max_count {
        turn.max_count
    } else {
        turn.default_count
    };
    append_str(&mut out, decimal_string(count as u64).as_str());
    append_str(&mut out, ";上限:");
    append_str(&mut out, decimal_string(turn.max_count as u64).as_str());
    append_str(&mut out, "\n");
    let ghost head = out@;
    match (turn.has_current, turn.current_prompt) {
        (true, Some(p)) => {
            append_str(&mut out, "- 当前选中的图:第 1 张图片。它当初的提示词:");
            append_str(&mut out, trimmed(p).as_str());
            append_str(&mut out, "\n");
        },
        (true, None) => append_str(&mut out, IMPORTED_CURRENT),
        (false, _) => append_str(&mut out, NO_CURRENT),
    }
    let ghost with_current = out@;
    if attached > 0 {
        append_str(&mut out, "- 用户这句话里新贴了 ");
        append_str(&mut out, decimal_string(attached as u64).as_str());
        append_str(&mut out, " 张图(排在");
        append_str(&mut out, if turn.has_current { "当前图之后" } else { "最前面" });
        append_str(&mut out, "):是参考,或者是要改的图。\n");
    }
    let ghost with_attached = out@;
    append_str(&mut out, "\n## 用户这句话\n");
    append_str(&mut out, trimmed(turn.message).as_str());
    append_str(&mut out, "\n");
    proof {
        let t = *turn;
        let cur = match (t.has_current, t.current_prompt) {
            (true, Some(p)) => "- 当前选中的图:第 1 张图片。它当初的提示词:"@ + trim(p@) + "\n"@,
            (true, None) => IMPORTED_CURRENT@,
            (false, _) => NO_CURRENT@,
        };
        let att = if attached > 0 {
            "- 用户这句话里新贴了 "@ + decimal(attached as nat) + " 张图(排在"@ + (if t.has_current {
                "当前图之后"@
            } else {
                "最前面"@
            }) + "):是参考,或者是要改的图。\n"@
        } else {
            seq![]
        };
        assert(with_current =~= head + cur);
        assert(with_attached =~= with_current + att);
    }
    out
}

pub const REPLY_NEEDS_TEXT: &'static str = "action 为 reply 时 reply 不能为空";

pub const PICTURE_NEEDS_PROMPT: &'static str = "出图时 prompt 不能为空";

pub const CANNOT_EDIT: &'static str = "这个图片模型不能编辑已有的图:请改用 generate,把修改要求写进一份完整的新提示词,并在 reply 里说明主体会有变化";

pub const NOTHING_TO_EDIT: &'static str = "没有可以编辑的图(没有选中的图,用户也没有贴图):请改用 generate";

/// Why a plan is sent back, if it is: a reply needs text; a picture needs a prompt; an edit needs a
/// model that can edit and a picture to edit; any other action is refused by name.
pub open spec fn plan_problem(action: Seq<char>, prompt: Seq<char>, reply: Seq<char>, can_edit: bool, images: nat) -> Option<
    Seq<char>,
> {
    if action == "reply"@ {
        if trim(reply).len() == 0 {
            Some(REPLY_NEEDS_TEXT@)
        } else {
            None
        }
    } else if action == "generate"@ || action == "edit"@ {
        if trim(prompt).len() == 0 {
            Some(PICTURE_NEEDS_PROMPT@)
        } else if action == "edit"@ && !can_edit {
            Some(CANNOT_EDIT@)
        } else if action == "edit"@ && images == 0 {
            Some(NOTHING_TO_EDIT@)
        } else {
            None
        }
    } else {
        Some("action 只能是 generate / edit / reply,现在是 "@ + action)
    }
}

/// The check of a planning answer (see `plan_problem`).
pub fn validate(action: &str, prompt: &str, reply: &str, turn: &ImageTurn) -> (r: Result<(), String>)
    ensures
        r is Ok <==> plan_problem(action@, prompt@, reply@, turn.can_edit, turn.images as nat) is None,
        r matches Err(w) ==> plan_problem(action@, prompt@, reply@, turn.can_edit, turn.images as nat) == Some(w@),
{
    if str_eq(action, "reply") {
        if trimmed(reply).as_str().unicode_len() == 0 {
            return Err(String::from_str(REPLY_NEEDS_TEXT));
        }
        Ok(())
    } else if str_eq(action, "generate") || str_eq(action, "edit") {
        if trimmed(prompt).as_str().unicode_len() == 0 {
            return Err(String::from_str(PICTURE_NEEDS_PROMPT));
        }
        let edit = str_eq(action, "edit");
        if edit && !turn.can_edit {
            return Err(String::from_str(CANNOT_EDIT));
        }
        if edit && turn.images == 0 {
            return Err(String::from_str(NOTHING_TO_EDIT));
        }
        Ok(())
    } else {
        let mut w = String::from_str("action 只能是 generate / edit / reply,现在是 ");
        append_str(&mut w, action);
        Err(w)
    }
}

/// A checked plan, tidied: the action by name (anything but generate / edit is a reply), the
/// prompt trimmed and cut to `MAX_PROMPT_CHARS`, the count as asked or else the default (at most
/// 2 for an edit) kept between 1 and the maximum, the reply trimmed.
pub struct PlanV {
    pub action: ImageAction,
    pub prompt: Seq<char>,
    pub count: nat,
    pub reply: Seq<char>,
}

pub open spec fn finish_spec(action: Seq<char>, prompt: Seq<char>, count: Option<u32>, reply: Seq<char>, default_count: nat, max_count: nat) -> PlanV {
    let a = if action == "generate"@ {
        ImageAction::Generate
    } else if action == "edit"@ {
        ImageAction::Edit
    } else {
        ImageAction::Reply
    };
    let d = if a == ImageAction::Edit && default_count > 2 {
        2
    } else {
        default_count
    };
    let c = match count {
        Some(n) => n as nat,
        None => d,
    };
    let p = trim(prompt);
    PlanV {
        action: a,
        prompt: if p.len() > MAX_PROMPT_CHARS {
            p.subrange(0, MAX_PROMPT_CHARS as int)
        } else {
            p
        },
        count: clamp(c, 1, if max_count > 1 { max_count } else { 1 }),
        reply: trim(reply),
    }
}

pub fn finish_plan(action: &str, prompt: &str, count: Option<u32>, reply: &str, default_count: u32, max_count: u32) -> (r: (
    ImageAction,
    String,
    u32,
    String,
))
    ensures
        ({
            let want = finish_spec(action@, prompt@, count, reply@, default_count as nat, max_count as nat);
            &&& r.0 == want.action
            &&& r.1@ == want.prompt
            &&& r.2 as nat == want.count
            &&& r.3@ == want.reply
        }),
{
    let a = if str_eq(action, "generate") {
        ImageAction::Generate
    } else if str_eq(action, "edit") {
        ImageAction::Edit
    } else {
        ImageAction::Reply
    };
    let d = if a == ImageAction::Edit && default_count > 2 { 2 } else { default_count };
    let c = match count {
        Some(n) => n,
        None => d,
    };
    let hi = if max_count > 1 { max_count } else { 1 };
    let n = if c < 1 { 1 } else if c > hi { hi } else { c };
    let p = chars_of(trimmed(prompt).as_str());
    let cut = if p.len() > MAX_PROMPT_CHARS { MAX_PROMPT_CHARS } else { p.len() };
    let kept = string_of(&p, 0, cut);
    assert(p@.subrange(0, p@.len() as int) == p@);
    (a, kept, n, trimmed(reply))
}

/// The earlier lines that go with a turn: the last `PLAN_HISTORY_LINES`, from the first of the
/// user's among them, each cut to its first 400 characters (text only, no pictures).
pub open spec fn recent_spec(h: Seq<(bool, Seq<char>)>) -> Seq<(bool, Seq<char>)> {
    let n = if h.len() > PLAN_HISTORY_LINES {
        PLAN_HISTORY_LINES as int
    } else {
        h.len() as int
    };
    let recent = h.subrange(h.len() - n, h.len() as int);
    let from = recent.subrange(first_user(recent) as int, recent.len() as int);
    from.map_values(
        |l: (bool, Seq<char>)|
            (l.0, if l.1.len() > 400 {
                l.1.subrange(0, 400)
            } else {
                l.1
            }),
    )
}

/// The history lines for a turn (see `recent_spec`).
pub fn recent_lines(history: &[ChatLine]) -> (r: Vec<ChatLine>)
    ensures
        line_views(r@) == recent_spec(line_views(history@)),
{
    let ghost h = line_views(history@);
    let len = history.len();
    let n = if len > PLAN_HISTORY_LINES { PLAN_HISTORY_LINES } else { len };
    let ghost recent = h.subrange(len - n, len as int);
    let mut f = len - n;
    proof {
        crate::chat::lemma_first_user(recent);
    }
    while f < len && !history[f].from_user
        invariant
            len - n <= f <= len,
            len == history@.len() == h.len(),
            n <= len,
            h == line_views(history@),
            recent == h.subrange(len - n, len as int),
            f - (len - n) <= first_user(recent),
        decreases len - f,
    {
        assert(recent[f - (len - n)] == h[f as int]);
        proof {
            crate::chat::lemma_first_user(recent);
        }
        f += 1;
    }
    proof {
        crate::chat::lemma_first_user(recent);
        if f < len {
            assert(recent[f - (len - n)] == h[f as int]);
        }
    }
    assert(f - (len - n) == first_user(recent));
    let ghost want = recent_spec(h);
    let mut out: Vec<ChatLine> = Vec::new();
    let mut i = f;
    while i < len
        invariant
            f <= i <= len,
            len == history@.len() == h.len(),
            h == line_views(history@),
            want == recent_spec(h),
            want.len() == len - f,
            forall|k: int| 0 <= k < want.len() ==> #[trigger] want[k] == (h[f + k].0, if h[f + k].1.len() > 400 {
                h[f + k].1.subrange(0, 400)
            } else {
                h[f + k].1
            }),
            line_views(out@) == want.take(i - f),
        decreases len - i,
    {
        let v = chars_of(history[i].text.as_str());
        let cut = if v.len() > 400 { 400 } else { v.len() };
        let text = string_of(&v, 0, cut);
        assert(v@.subrange(0, v@.len() as int) == v@);
        let ghost before = line_views(out@);
        out.push(ChatLine { from_user: history[i].from_user, text });
        proof {
            assert(h[i as int] == (history@[i as int].from_user, history@[i as int].text@));
            assert(want.take(i + 1 - f) == want.take(i - f).push(want[i - f]));
            assert(line_views(out@) == before.push((history@[i as int].from_user, text@)));
        }
        i += 1;
    }
    assert(want.take(len - f) == want);
    out
}

} // verus!

verus! {

/// The number of pictures to make is always at least 1 and at most the maximum (1 when the
/// maximum is 0); an edit made on the default count makes at most 2.
pub proof fn picture_count_stays_in_bounds(
    action: Seq<char>,
    prompt: Seq<char>,
    count: Option<u32>,
    reply: Seq<char>,
    default_count: nat,
    max_count: nat,
)
    ensures
        1 <= finish_spec(action, prompt, count, reply, default_count, max_count).count,
        finish_spec(action, prompt, count, reply, default_count, max_count).count <= (if max_count > 1 {
            max_count
        } else {
            1
        }),
        action == "edit"@ && count is None ==> finish_spec(action, prompt, count, reply, default_count, max_count).count <= 2,
        finish_spec(action, prompt, count, reply, default_count, max_count).prompt.len() <= MAX_PROMPT_CHARS,
{
    reveal_strlit("edit");
    reveal_strlit("generate");
    assert("edit"@ != "generate"@) by {
        assert("edit"@.len() != "generate"@.len());
    }
}

} // verus!
