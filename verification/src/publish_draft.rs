//! Drafting listing copy with a language model: the facts it is given, and what of its answer
//! is sent back once (the channel's hard limits and forbidden words in the text).
use vstd::prelude::*;

use crate::publish::{
    strip_hashes, blocks_first, char_count, char_len, issue_views, lint_listing_parts, lint_note, listing_findings, note_findings, pool_views,
    Channel, DraftStatus, IssueV, LintCode, LintField, LintIssue, ModelLicense, NoteAngle, NoteDraft, PriceCheck, PublishImage,
    Severity,
};
use crate::text::{trim_bounds, append_str, chars_of, decimal, decimal_string, join, join_strings, string_from, string_of, trim, trimmed, views};

verus! {

/// What the copy may say: facts already known from research, the spec and the cost model.
#[derive(Debug, Clone, Default, PartialEq)]
pub struct PublishBrief {
    pub product: String,
    pub category: String,
    /// Who buys and why (the project's hypothesis).
    pub hypothesis: String,
    /// One fact each: size, material, features, price, customisation…
    pub facts: Vec<String>,
    pub brand_voice: String,
}

pub open spec fn fact_lines(facts: Seq<Seq<char>>) -> Seq<char>
    decreases facts.len(),
{
    if facts.len() == 0 {
        seq![]
    } else if trim(facts.last()).len() == 0 {
        fact_lines(facts.drop_last())
    } else {
        fact_lines(facts.drop_last()) + "- "@ + trim(facts.last()) + "\n"@
    }
}

/// The product section of a drafting prompt: name, category and buyer when given, every fact
/// that says something, and the brand voice (or a note that there is none).
pub open spec fn brief_spec(b: PublishBrief) -> Seq<char> {
    "## 产品信息\n- 名称:"@ + trim(b.product@) + "\n"@ + (if trim(b.category@).len() == 0 {
        seq![]
    } else {
        "- 品类:"@ + trim(b.category@) + "\n"@
    }) + (if trim(b.hypothesis@).len() == 0 {
        seq![]
    } else {
        "- 谁会买、为什么买:"@ + trim(b.hypothesis@) + "\n"@
    }) + fact_lines(views(b.facts@)) + "\n## 品牌语气\n"@ + (if trim(b.brand_voice@).len() == 0 {
        "(没有给出)"@
    } else {
        trim(b.brand_voice@)
    }) + "\n"@
}

/// The product section of a drafting prompt (see `brief_spec`).
pub fn brief_block(brief: &PublishBrief) -> (r: String)
    ensures
        r@ == brief_spec(*brief),
{
    let mut out = String::from_str("## 产品信息\n- 名称:");
    append_str(&mut out, trimmed(brief.product.as_str()).as_str());
    append_str(&mut out, "\n");
    let ghost a = out@;
    let category = trimmed(brief.category.as_str());
    if category.as_str().unicode_len() > 0 {
        append_str(&mut out, "- 品类:");
        append_str(&mut out, category.as_str());
        append_str(&mut out, "\n");
    }
    let ghost b = out@;
    let hypothesis = trimmed(brief.hypothesis.as_str());
    if hypothesis.as_str().unicode_len() > 0 {
        append_str(&mut out, "- 谁会买、为什么买:");
        append_str(&mut out, hypothesis.as_str());
        append_str(&mut out, "\n");
    }
    let ghost c = out@;
    let ghost fs = views(brief.facts@);
    let mut i: usize = 0;
    while i < brief.facts.len()
        invariant
            i <= brief.facts@.len(),
            fs == views(brief.facts@),
            out@ == c + fact_lines(fs.take(i as int)),
        decreases brief.facts.len() - i,
    {
        let ghost before = out@;
        proof {
            assert(fs.take(i + 1).drop_last() == fs.take(i as int));
            assert(fs.take(i + 1).last() == brief.facts@[i as int]@);
        }
        let f = trimmed(brief.facts[i].as_str());
        if f.as_str().unicode_len() > 0 {
            append_str(&mut out, "- ");
            append_str(&mut out, f.as_str());
            append_str(&mut out, "\n");
            assert(out@ =~= before + ("- "@ + f@ + "\n"@));
        }
        i += 1;
    }
    assert(fs.take(brief.facts@.len() as int) == fs);
    let ghost d = out@;
    append_str(&mut out, "\n## 品牌语气\n");
    let voice = trimmed(brief.brand_voice.as_str());
    if voice.as_str().unicode_len() == 0 {
        append_str(&mut out, "(没有给出)");
    } else {
        append_str(&mut out, voice.as_str());
    }
    append_str(&mut out, "\n");
    proof {
        let cat = if trim(brief.category@).len() == 0 {
            seq![]
        } else {
            "- 品类:"@ + trim(brief.category@) + "\n"@
        };
        let hyp = if trim(brief.hypothesis@).len() == 0 {
            seq![]
        } else {
            "- 谁会买、为什么买:"@ + trim(brief.hypothesis@) + "\n"@
        };
        assert(b =~= a + cat);
        assert(c =~= b + hyp);
        assert(d == c + fact_lines(fs));
    }
    out
}

pub open spec fn field_text(f: LintField) -> Seq<char> {
    match f {
        LintField::Title => "标题"@,
        LintField::Body => "正文"@,
        LintField::Tags => "话题"@,
        LintField::Images => "图片"@,
        LintField::Price => "价格"@,
        LintField::License => "授权"@,
    }
}

/// A field as the drafting model is told it.
pub fn field_name(f: LintField) -> (r: &'static str)
    ensures
        r@ == field_text(f),
{
    match f {
        LintField::Title => "标题",
        LintField::Body => "正文",
        LintField::Tags => "话题",
        LintField::Images => "图片",
        LintField::Price => "价格",
        LintField::License => "授权",
    }
}

pub open spec fn code_text(c: LintCode) -> Seq<char> {
    match c {
        LintCode::TitleEmpty => "TitleEmpty"@,
        LintCode::TitleTooLong => "TitleTooLong"@,
        LintCode::BodyEmpty => "BodyEmpty"@,
        LintCode::BodyTooLong => "BodyTooLong"@,
        LintCode::TooManyTags => "TooManyTags"@,
        LintCode::TooFewImages => "TooFewImages"@,
        LintCode::TooManyImages => "TooManyImages"@,
        LintCode::FirstImageNotPhoto => "FirstImageNotPhoto"@,
        LintCode::AiImages => "AiImages"@,
        LintCode::Extreme => "Extreme"@,
        LintCode::Medical => "Medical"@,
        LintCode::IpName => "IpName"@,
        LintCode::Diversion => "Diversion"@,
        LintCode::FakeReview => "FakeReview"@,
        LintCode::CategoryKids => "CategoryKids"@,
        LintCode::CategoryElectric => "CategoryElectric"@,
        LintCode::CategoryFood => "CategoryFood"@,
        LintCode::CategoryWeapon => "CategoryWeapon"@,
        LintCode::PriceMissing => "PriceMissing"@,
        LintCode::PriceBelowCost => "PriceBelowCost"@,
        LintCode::LicenseMissing => "LicenseMissing"@,
        LintCode::LicenseNonCommercial => "LicenseNonCommercial"@,
    }
}

/// A finding's code by name, as the drafting model is shown it.
pub fn code_name(c: LintCode) -> (r: &'static str)
    ensures
        r@ == code_text(c),
{
    match c {
        LintCode::TitleEmpty => "TitleEmpty",
        LintCode::TitleTooLong => "TitleTooLong",
        LintCode::BodyEmpty => "BodyEmpty",
        LintCode::BodyTooLong => "BodyTooLong",
        LintCode::TooManyTags => "TooManyTags",
        LintCode::TooFewImages => "TooFewImages",
        LintCode::TooManyImages => "TooManyImages",
        LintCode::FirstImageNotPhoto => "FirstImageNotPhoto",
        LintCode::AiImages => "AiImages",
        LintCode::Extreme => "Extreme",
        LintCode::Medical => "Medical",
        LintCode::IpName => "IpName",
        LintCode::Diversion => "Diversion",
        LintCode::FakeReview => "FakeReview",
        LintCode::CategoryKids => "CategoryKids",
        LintCode::CategoryElectric => "CategoryElectric",
        LintCode::CategoryFood => "CategoryFood",
        LintCode::CategoryWeapon => "CategoryWeapon",
        LintCode::PriceMissing => "PriceMissing",
        LintCode::PriceBelowCost => "PriceBelowCost",
        LintCode::LicenseMissing => "LicenseMissing",
        LintCode::LicenseNonCommercial => "LicenseNonCommercial",
    }
}

/// A blocking finding in the text itself (title, body or topics).
pub open spec fn text_blocker(i: IssueV) -> bool {
    i.severity == Severity::Block && (i.field == LintField::Title || i.field == LintField::Body || i.field == LintField::Tags)
}

pub open spec fn problem_text(i: IssueV) -> Seq<char> {
    field_text(i.field) + "「"@ + i.hit + "」("@ + code_text(i.code) + ")"@
}

/// The blocking text findings as sentences for the model, in order.
pub open spec fn text_problems_spec(issues: Seq<IssueV>) -> Seq<Seq<char>>
    decreases issues.len(),
{
    if issues.len() == 0 {
        seq![]
    } else if text_blocker(issues.last()) {
        text_problems_spec(issues.drop_last()).push(problem_text(issues.last()))
    } else {
        text_problems_spec(issues.drop_last())
    }
}

/// The text's blocking findings, written for the model (pictures, price and license are the
/// person's business and are left out).
pub fn text_problems(issues: &[LintIssue]) -> (r: Vec<String>)
    ensures
        views(r@) == text_problems_spec(issue_views(issues@)),
{
    let ghost iv = issue_views(issues@);
    let mut out: Vec<String> = Vec::new();
    let mut i: usize = 0;
    while i < issues.len()
        invariant
            i <= issues@.len(),
            iv == issue_views(issues@),
            views(out@) == text_problems_spec(iv.take(i as int)),
        decreases issues.len() - i,
    {
        let ghost before = views(out@);
        proof {
            assert(iv.take(i + 1).drop_last() == iv.take(i as int));
            assert(iv.take(i + 1).last() == issues@[i as int]@);
        }
        let x = &issues[i];
        let field_ok = x.field == LintField::Title || x.field == LintField::Body || x.field == LintField::Tags;
        if x.severity == Severity::Block && field_ok {
            let mut s = String::from_str(field_name(x.field));
            append_str(&mut s, "「");
            append_str(&mut s, x.hit.as_str());
            append_str(&mut s, "」(");
            append_str(&mut s, code_name(x.code));
            append_str(&mut s, ")");
            out.push(s);
            assert(views(out@) =~= before.push(problem_text(issues@[i as int]@)));
        }
        i += 1;
    }
    assert(iv.take(issues@.len() as int) == iv);
    out
}

/// The text problems of a drafted note: the note checked as it would be published, without
/// pictures.
pub open spec fn note_problems_spec(title: Seq<char>, body: Seq<char>, tags: Seq<Seq<char>>) -> Seq<Seq<char>> {
    text_problems_spec(blocks_first(note_findings(title, body, tags, seq![], seq![])))
}

/// What a drafted note gets sent back for (see `note_problems_spec`).
pub fn note_problems(title: &str, body: &str, tags: &Vec<String>) -> (r: Vec<String>)
    ensures
        views(r@) == note_problems_spec(title@, body@, views(tags@)),
{
    let mut copied: Vec<String> = Vec::new();
    let mut i: usize = 0;
    while i < tags.len()
        invariant
            i <= tags@.len(),
            views(copied@) == views(tags@).take(i as int),
        decreases tags.len() - i,
    {
        let ghost before = views(copied@);
        copied.push(string_from(&chars_of(tags[i].as_str())));
        assert(views(copied@) == before.push(tags@[i as int]@));
        assert(views(tags@).take(i + 1) == views(tags@).take(i as int).push(tags@[i as int]@));
        i += 1;
    }
    assert(views(tags@).take(tags@.len() as int) == views(tags@));
    let draft = NoteDraft {
        id: String::new(),
        project_id: String::new(),
        channel: Channel::Xhs,
        angle: NoteAngle::Pain,
        title: string_from(&chars_of(title)),
        body: string_from(&chars_of(body)),
        tags: copied,
        images: Vec::new(),
        status: DraftStatus::Draft,
        external_url: None,
        ai_drafted: false,
        created_at: 0,
        updated_at: 0,
    };
    let pool: Vec<PublishImage> = Vec::new();
    let issues = lint_note(&draft, pool.as_slice());
    assert(views(draft.images@) =~= Seq::<Seq<char>>::empty());
    assert(pool_views(pool@) =~= Seq::<(Seq<char>, bool)>::empty());
    text_problems(issues.as_slice())
}

pub const LISTING_EMPTY: &'static str = "标题和详情不能是空的";

/// The text problems of a drafted listing: checked as it would be published with a price and an
/// original model (those are filled in by the person), plus the first selling point longer than
/// 30 characters.
pub open spec fn listing_problems_spec(title: Seq<char>, points: Seq<Seq<char>>, body: Seq<char>) -> Seq<Seq<char>> {
    let found = text_problems_spec(
        blocks_first(listing_findings(title, points, body, seq![], seq![], PriceCheck::Fine, Some(ModelLicense::Original))),
    );
    match long_point(points) {
        Some(p) => found.push("卖点太长:「"@ + p + "」"@),
        None => found,
    }
}

/// The first selling point longer than 30 characters.
pub open spec fn long_point(points: Seq<Seq<char>>) -> Option<Seq<char>>
    decreases points.len(),
{
    if points.len() == 0 {
        None
    } else if char_count(points[0]) > 30 {
        Some(points[0])
    } else {
        long_point(points.drop_first())
    }
}

/// What a drafted listing gets sent back for (see `listing_problems_spec`).
pub fn listing_problems(title: &str, points: &[String], body: &str) -> (r: Vec<String>)
    ensures
        views(r@) == listing_problems_spec(title@, views(points@), body@),
{
    let images: Vec<String> = Vec::new();
    let pool: Vec<PublishImage> = Vec::new();
    let issues = lint_listing_parts(
        Channel::Xhs,
        title,
        points,
        body,
        images.as_slice(),
        Some(ModelLicense::Original),
        pool.as_slice(),
        &PriceCheck::Fine,
    );
    assert(views(images@) =~= Seq::<Seq<char>>::empty());
    assert(pool_views(pool@) =~= Seq::<(Seq<char>, bool)>::empty());
    let mut out = text_problems(issues.as_slice());
    let ghost found = text_problems_spec(
        blocks_first(
            listing_findings(title@, views(points@), body@, seq![], seq![], PriceCheck::Fine, Some(ModelLicense::Original)),
        ),
    );
    assert(views(out@) == found);
    let ghost pv = views(points@);
    let mut i: usize = 0;
    assert(pv.skip(0) == pv);
    while i < points.len()
        invariant
            i <= points@.len(),
            pv == views(points@),
            views(out@) == found,
            found == text_problems_spec(
                blocks_first(
                    listing_findings(title@, pv, body@, seq![], seq![], PriceCheck::Fine, Some(ModelLicense::Original)),
                ),
            ),
            long_point(pv) == long_point(pv.skip(i as int)),
        decreases points.len() - i,
    {
        assert(pv.skip(i as int)[0] == points@[i as int]@);
        if char_len(points[i].as_str()) > 30 {
            let mut s = String::from_str("卖点太长:「");
            append_str(&mut s, points[i].as_str());
            append_str(&mut s, "」");
            let ghost before = views(out@);
            out.push(s);
            assert(views(out@) =~= before.push("卖点太长:「"@ + points@[i as int]@ + "」"@));
            return out;
        }
        assert(pv.skip(i as int).drop_first() == pv.skip(i + 1));
        i += 1;
    }
    assert(pv.skip(i as int).len() == 0);
    out
}

pub const LISTING_TAIL: &'static str = ";请改掉这些地方";

/// The check of a drafted listing: a title and some body or selling points are needed; rule
/// problems are sent back on the first answer only.
pub open spec fn listing_check_spec(title: Seq<char>, points: Seq<Seq<char>>, body: Seq<char>, first: bool) -> Option<Seq<char>> {
    if trim(title).len() == 0 || (trim(body).len() == 0 && points.len() == 0) {
        Some(LISTING_EMPTY@)
    } else if first && listing_problems_spec(title, points, body).len() > 0 {
        Some(join(listing_problems_spec(title, points, body), ";"@) + LISTING_TAIL@)
    } else {
        None
    }
}

pub fn check_listing(title: &str, points: &[String], body: &str, first: bool) -> (r: Result<(), String>)
    ensures
        r is Ok <==> listing_check_spec(title@, views(points@), body@, first) is None,
        r matches Err(w) ==> listing_check_spec(title@, views(points@), body@, first) == Some(w@),
{
    if trimmed(title).as_str().unicode_len() == 0 || (trimmed(body).as_str().unicode_len() == 0 && points.len() == 0) {
        return Err(String::from_str(LISTING_EMPTY));
    }
    if first {
        let problems = listing_problems(title, points, body);
        if problems.len() > 0 {
            let mut w = join_strings(problems.as_slice(), ";");
            append_str(&mut w, LISTING_TAIL);
            return Err(w);
        }
    }
    Ok(())
}

/// A drafted listing as it is handed over: title and body trimmed, the selling points trimmed,
/// blank ones dropped, at most six.
pub open spec fn tidy_points(points: Seq<Seq<char>>) -> Seq<Seq<char>>
    decreases points.len(),
{
    if points.len() == 0 {
        seq![]
    } else if trim(points.last()).len() == 0 {
        tidy_points(points.drop_last())
    } else {
        tidy_points(points.drop_last()).push(trim(points.last()))
    }
}

pub fn listing_points(points: &[String]) -> (r: Vec<String>)
    ensures
        views(r@) == (if tidy_points(views(points@)).len() > 6 {
            tidy_points(views(points@)).subrange(0, 6)
        } else {
            tidy_points(views(points@))
        }),
{
    let ghost pv = views(points@);
    let mut out: Vec<String> = Vec::new();
    let mut i: usize = 0;
    while i < points.len()
        invariant
            i <= points@.len(),
            pv == views(points@),
            views(out@) == tidy_points(pv.take(i as int)),
        decreases points.len() - i,
    {
        let ghost before = views(out@);
        proof {
            assert(pv.take(i + 1).drop_last() == pv.take(i as int));
            assert(pv.take(i + 1).last() == points@[i as int]@);
        }
        let p = trimmed(points[i].as_str());
        if p.as_str().unicode_len() > 0 {
            out.push(p);
            assert(views(out@) == before.push(trim(points@[i as int]@)));
        }
        i += 1;
    }
    assert(pv.take(points@.len() as int) == pv);
    if out.len() > 6 {
        out.truncate(6);
        assert(views(out@) =~= tidy_points(pv).subrange(0, 6));
    }
    out
}

/// The angles to write: as asked, or pain and scene when none were asked for (at least two
/// candidates).
pub fn note_angles(angles: &[NoteAngle]) -> (r: Vec<NoteAngle>)
    ensures
        angles@.len() == 0 ==> r@ == seq![NoteAngle::Pain, NoteAngle::Scene],
        angles@.len() > 0 ==> r@ == angles@,
{
    if angles.len() == 0 {
        vec![NoteAngle::Pain, NoteAngle::Scene]
    } else {
        let mut out: Vec<NoteAngle> = Vec::new();
        let mut i: usize = 0;
        while i < angles.len()
            invariant
                i <= angles@.len(),
                out@ == angles@.take(i as int),
            decreases angles.len() - i,
        {
            out.push(angles[i]);
            assert(out@ =~= angles@.take(i + 1));
            i += 1;
        }
        assert(angles@.take(angles@.len() as int) == angles@);
        out
    }
}

// ---------------------------------------------------------------- drafted notes

/// One drafted note as the model wrote it.
#[derive(Debug, Clone, PartialEq)]
pub struct RawNote {
    pub title: String,
    pub body: String,
    pub tags: Vec<String>,
}

pub open spec fn raw_views(v: Seq<RawNote>) -> Seq<(Seq<char>, Seq<char>, Seq<Seq<char>>)> {
    v.map_values(|n: RawNote| (n.title@, n.body@, views(n.tags@)))
}

/// The first note with a blank title or body.
pub open spec fn first_blank(notes: Seq<(Seq<char>, Seq<char>, Seq<Seq<char>>)>) -> Option<nat>
    decreases notes.len(),
{
    if notes.len() == 0 {
        None
    } else if trim(notes[0].0).len() == 0 || trim(notes[0].1).len() == 0 {
        Some(0)
    } else {
        match first_blank(notes.drop_first()) {
            Some(k) => Some(k + 1),
            None => None,
        }
    }
}

/// Every note's problems, each prefixed with the note's number.
pub open spec fn all_problems(notes: Seq<(Seq<char>, Seq<char>, Seq<Seq<char>>)>) -> Seq<Seq<char>>
    decreases notes.len(),
{
    if notes.len() == 0 {
        seq![]
    } else {
        let n = notes.last();
        all_problems(notes.drop_last()) + note_problems_spec(n.0, n.1, n.2).map_values(
            |p: Seq<char>| "第 "@ + decimal(notes.len()) + " 篇 "@ + p,
        )
    }
}

pub const NOTES_TAIL: &'static str = ";请改掉这些地方(标题不超过 20 字、正文不超过 1000 字、话题不超过 5 个,不要出现违禁词)";

/// Why a set of drafted notes is sent back: too few notes, or a blank title or body; and, on the
/// first answer only, the rule problems of every note (a second answer with problems goes to the
/// person, who fixes them faster than another call would).
pub open spec fn notes_check_spec(notes: Seq<(Seq<char>, Seq<char>, Seq<Seq<char>>)>, expected: nat, first: bool) -> Option<
    Seq<char>,
> {
    if notes.len() < expected {
        Some("要 "@ + decimal(expected) + " 篇,只给了 "@ + decimal(notes.len()) + " 篇"@)
    } else if first_blank(notes) is Some {
        Some("第 "@ + decimal(first_blank(notes)->0 + 1) + " 篇的标题或正文是空的"@)
    } else if first && all_problems(notes).len() > 0 {
        Some(join(all_problems(notes), ";"@) + NOTES_TAIL@)
    } else {
        None
    }
}

/// The check of a drafted set of notes (see `notes_check_spec`).
pub fn check_notes(notes: &[RawNote], expected: usize, first: bool) -> (r: Result<(), String>)
    ensures
        r is Ok <==> notes_check_spec(raw_views(notes@), expected as nat, first) is None,
        r matches Err(w) ==> notes_check_spec(raw_views(notes@), expected as nat, first) == Some(w@),
{
    let ghost nv = raw_views(notes@);
    if notes.len() < expected {
        let mut w = String::from_str("要 ");
        append_str(&mut w, decimal_string(expected as u64).as_str());
        append_str(&mut w, " 篇,只给了 ");
        append_str(&mut w, decimal_string(notes.len() as u64).as_str());
        append_str(&mut w, " 篇");
        return Err(w);
    }
    let mut i: usize = 0;
    assert(nv.skip(0) == nv);
    while i < notes.len()
        invariant
            i <= notes@.len(),
            notes@.len() >= expected,
            nv == raw_views(notes@),
            first_blank(nv) == match first_blank(nv.skip(i as int)) {
                Some(k) => Some((k + i) as nat),
                None => None::<nat>,
            },
        decreases notes.len() - i,
    {
        assert(nv.skip(i as int)[0] == nv[i as int]);
        assert(nv[i as int] == (notes@[i as int].title@, notes@[i as int].body@, views(notes@[i as int].tags@)));
        if trimmed(notes[i].title.as_str()).as_str().unicode_len() == 0 || trimmed(notes[i].body.as_str()).as_str().unicode_len() == 0 {
            let mut w = String::from_str("第 ");
            append_str(&mut w, decimal_string((i + 1) as u64).as_str());
            append_str(&mut w, " 篇的标题或正文是空的");
            assert(first_blank(nv.skip(i as int)) == Some(0nat));
            assert(first_blank(nv) == Some(i as nat));
            assert(w@ =~= "第 "@ + decimal((i + 1) as nat) + " 篇的标题或正文是空的"@);
            assert(!(nv.len() < expected));
            assert(first_blank(nv)->0 + 1 == i + 1);
            assert(notes_check_spec(nv, expected as nat, first) == Some(w@));
            return Err(w);
        }
        assert(nv.skip(i as int).drop_first() == nv.skip(i + 1));
        i += 1;
    }
    assert(nv.skip(i as int).len() == 0);
    let mut problems: Vec<String> = Vec::new();
    let mut j: usize = 0;
    while j < notes.len()
        invariant
            j <= notes@.len(),
            nv == raw_views(notes@),
            views(problems@) == all_problems(nv.take(j as int)),
        decreases notes.len() - j,
    {
        let ghost before = views(problems@);
        proof {
            assert(nv.take(j + 1).drop_last() == nv.take(j as int));
            assert(nv.take(j + 1).last() == nv[j as int]);
            assert(nv[j as int] == (notes@[j as int].title@, notes@[j as int].body@, views(notes@[j as int].tags@)));
        }
        let ps = note_problems(notes[j].title.as_str(), notes[j].body.as_str(), &notes[j].tags);
        let num: u64 = (j + 1) as u64;
        let ghost pv = views(ps@);
        let mut k: usize = 0;
        while k < ps.len()
            invariant
                k <= ps@.len(),
                num == j + 1,
                pv == views(ps@),
                views(problems@) == before + pv.take(k as int).map_values(
                    |p: Seq<char>| "第 "@ + decimal((j + 1) as nat) + " 篇 "@ + p,
                ),
            decreases ps.len() - k,
        {
            let ghost mid = views(problems@);
            let mut line = String::from_str("第 ");
            append_str(&mut line, decimal_string(num).as_str());
            append_str(&mut line, " 篇 ");
            append_str(&mut line, ps[k].as_str());
            problems.push(line);
            proof {
                let f = |p: Seq<char>| "第 "@ + decimal((j + 1) as nat) + " 篇 "@ + p;
                assert(pv.take(k + 1) == pv.take(k as int).push(ps@[k as int]@));
                assert(pv.take(k + 1).map_values(f) =~= pv.take(k as int).map_values(f).push(f(ps@[k as int]@)));
                assert(views(problems@) =~= mid.push(f(ps@[k as int]@)));
            }
            k += 1;
        }
        assert(pv.take(ps@.len() as int) == pv);
        assert(nv.take(j + 1).len() == j + 1);
        j += 1;
    }
    assert(nv.take(notes@.len() as int) == nv);
    if first && problems.len() > 0 {
        let mut w = join_strings(problems.as_slice(), ";");
        append_str(&mut w, NOTES_TAIL);
        return Err(w);
    }
    Ok(())
}

/// A topic as kept: trimmed and without leading `#`s; `None` when nothing is left.
pub fn bare_tag(t: &String) -> (r: Option<String>)
    ensures
        r matches Some(x) ==> x@.len() > 0 && x@ == strip_hashes(trim(t@)),
        r is None ==> strip_hashes(trim(t@)).len() == 0,
{
    let v = chars_of(t.as_str());
    let (a, b) = trim_bounds(&v, 0, v.len());
    assert(v@.subrange(0, v@.len() as int) == v@);
    let mut i = a;
    while i < b && v[i] == '#'
        invariant
            a <= i <= b <= v@.len(),
            strip_hashes(v@.subrange(i as int, b as int)) == strip_hashes(trim(t@)),
        decreases b - i,
    {
        assert(v@.subrange(i as int, b as int).drop_first() == v@.subrange(i + 1, b as int));
        i += 1;
    }
    if i == b {
        return None;
    }
    Some(string_of(&v, i, b))
}


/// The topics of a note as kept: each trimmed and without leading `#`s, empty ones dropped.
pub open spec fn kept_tags(tags: Seq<Seq<char>>) -> Seq<Seq<char>>
    decreases tags.len(),
{
    if tags.len() == 0 {
        seq![]
    } else {
        let t = strip_hashes(trim(tags.last()));
        if t.len() == 0 {
            kept_tags(tags.drop_last())
        } else {
            kept_tags(tags.drop_last()).push(t)
        }
    }
}

pub fn bare_tags(tags: &Vec<String>) -> (r: Vec<String>)
    ensures
        views(r@) == kept_tags(views(tags@)),
{
    let ghost tv = views(tags@);
    let mut out: Vec<String> = Vec::new();
    let mut i: usize = 0;
    while i < tags.len()
        invariant
            i <= tags@.len(),
            tv == views(tags@),
            views(out@) == kept_tags(tv.take(i as int)),
        decreases tags.len() - i,
    {
        proof {
            assert(tv.take(i + 1).drop_last() == tv.take(i as int));
            assert(tv.take(i + 1).last() == tags@[i as int]@);
        }
        match bare_tag(&tags[i]) {
            Some(x) => {
                let ghost before = views(out@);
                out.push(x);
                assert(views(out@) == before.push(x@));
            },
            None => {},
        }
        i += 1;
    }
    assert(tv.take(tags@.len() as int) == tv);
    out
}

/// A drafted note as it is handed to the person.
#[derive(Debug, Clone, PartialEq)]
pub struct NoteCandidate {
    /// The angle it was asked for (the order is ours, whatever angle name the model wrote).
    pub angle: NoteAngle,
    pub title: String,
    pub body: String,
    pub tags: Vec<String>,
}

/// The note candidate made of the `i`-th answer and the `i`-th angle asked for.
pub open spec fn is_candidate(c: NoteCandidate, n: RawNote, angle: NoteAngle) -> bool {
    &&& c.angle == angle
    &&& c.title@ == trim(n.title@)
    &&& c.body@ == trim(n.body@)
    &&& views(c.tags@) == kept_tags(views(n.tags@))
}

/// One candidate per angle asked for, in that order, from the notes the model wrote (extra
/// notes are dropped).
pub fn note_candidates(notes: &[RawNote], angles: &[NoteAngle]) -> (r: Vec<NoteCandidate>)
    ensures
        r@.len() == (if notes@.len() < angles@.len() {
            notes@.len()
        } else {
            angles@.len()
        }),
        forall|i: int| 0 <= i < r@.len() ==> is_candidate(#[trigger] r@[i], notes@[i], angles@[i]),
{
    let n = if notes.len() < angles.len() { notes.len() } else { angles.len() };
    let mut out: Vec<NoteCandidate> = Vec::new();
    let mut i: usize = 0;
    while i < n
        invariant
            i <= n,
            n <= notes@.len(),
            n <= angles@.len(),
            out@.len() == i,
            forall|k: int| 0 <= k < i ==> is_candidate(#[trigger] out@[k], notes@[k], angles@[k]),
        decreases n - i,
    {
        let c = NoteCandidate {
            angle: angles[i],
            title: trimmed(notes[i].title.as_str()),
            body: trimmed(notes[i].body.as_str()),
            tags: bare_tags(&notes[i].tags),
        };
        out.push(c);
        i += 1;
    }
    out
}

/// The listing copy as it is handed to the person.
#[derive(Debug, Clone, PartialEq)]
pub struct ListingCandidate {
    pub title: String,
    pub selling_points: Vec<String>,
    pub body: String,
}

/// Title and body trimmed, selling points tidied and at most six (see `listing_points`).
pub fn listing_candidate(title: &str, points: &[String], body: &str) -> (r: ListingCandidate)
    ensures
        r.title@ == trim(title@),
        r.body@ == trim(body@),
        views(r.selling_points@) == (if tidy_points(views(points@)).len() > 6 {
            tidy_points(views(points@)).subrange(0, 6)
        } else {
            tidy_points(views(points@))
        }),
{
    ListingCandidate { title: trimmed(title), selling_points: listing_points(points), body: trimmed(body) }
}

} // verus!

verus! {

/// Rule problems are sent back once: a second answer with enough notes and no blank title or
/// body is handed over as it is, for the person to fix.
pub proof fn a_second_imperfect_draft_is_handed_over(notes: Seq<(Seq<char>, Seq<char>, Seq<Seq<char>>)>, expected: nat)
    requires
        notes.len() >= expected,
        first_blank(notes) is None,
    ensures
        notes_check_spec(notes, expected, false) is None,
{
}

} // verus!

verus! {

/// The same holds of a listing: on the second answer only a missing title, or missing body and
/// selling points, sends it back; rule problems are left for the person.
pub proof fn a_second_imperfect_listing_is_handed_over(title: Seq<char>, points: Seq<Seq<char>>, body: Seq<char>)
    ensures
        (trim(title).len() > 0 && (trim(body).len() > 0 || points.len() > 0)) ==> listing_check_spec(title, points, body, false) is None,
        listing_check_spec(title, points, body, true) is None ==> listing_check_spec(title, points, body, false) is None,
{
}

} // verus!
