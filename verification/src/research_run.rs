//! The decisions of a research run: which queries to send, which search hits become evidence
//! cards, what to do when a search fails, and whether the scored opportunities cite real cards.
//! The run itself (the model and search calls) is driven from outside.
use vstd::prelude::*;

use std::collections::HashSet;

use crate::chat::clip_spec;
use crate::research::{Evidence, EvidenceGrade};
use crate::text::{
    append_str, occurs_at, push_char, has_prefix, chars_of, decimal, decimal_string, is_ws, is_ws_char, join, slice_of, starts_with, str_eq, string_from,
    string_of, trim, trim_bounds, trimmed, views,
};

verus! {

/// `s` cut to `max` characters, `…` marking a cut (see `clip_spec`).
pub fn truncate_chars(s: &str, max: usize) -> (r: String)
    ensures
        r@ == clip_spec(s@, max as nat),
{
    let v = chars_of(s);
    if v.len() > max {
        let mut out = string_of(&v, 0, max);
        crate::text::push_char(&mut out, '…');
        out
    } else {
        assert(v@.subrange(0, v@.len() as int) == v@);
        string_of(&v, 0, v.len())
    }
}

/// The reason a plan without a single usable query is sent back.
pub const NO_QUERIES: &'static str = "queries 至少要有一条非空的检索词";

pub open spec fn blank(s: Seq<char>) -> bool {
    trim(s).len() == 0
}

/// A plan needs at least one query that is not blank.
pub fn validate_plan(queries: &[String]) -> (r: Result<(), String>)
    ensures
        r is Ok <==> exists|k: int| 0 <= k < queries@.len() && !blank(#[trigger] queries@[k]@),
        r matches Err(why) ==> why@ == NO_QUERIES@,
{
    let mut i: usize = 0;
    while i < queries.len()
        invariant
            i <= queries@.len(),
            forall|k: int| 0 <= k < i ==> blank(#[trigger] queries@[k]@),
        decreases queries.len() - i,
    {
        if trimmed(queries[i].as_str()).as_str().unicode_len() > 0 {
            return Ok(());
        }
        i += 1;
    }
    Err(String::from_str(NO_QUERIES))
}

/// The queries to send: trimmed, blank ones dropped, each only the first time it appears, at
/// most `max` of them.
pub open spec fn plan_spec(queries: Seq<Seq<char>>, max: nat) -> Seq<Seq<char>> {
    let d = distinct_trimmed(queries);
    if d.len() > max {
        d.subrange(0, max as int)
    } else {
        d
    }
}

/// Trimmed, non-blank, each once, in order of first appearance.
pub open spec fn distinct_trimmed(queries: Seq<Seq<char>>) -> Seq<Seq<char>>
    decreases queries.len(),
{
    if queries.len() == 0 {
        seq![]
    } else {
        let d = distinct_trimmed(queries.drop_last());
        let q = trim(queries.last());
        if q.len() == 0 || d.contains(q) {
            d
        } else {
            d.push(q)
        }
    }
}

proof fn lemma_distinct_prefix(queries: Seq<Seq<char>>, i: int, j: int)
    requires
        0 <= i <= j <= queries.len(),
    ensures
        distinct_trimmed(queries.take(i)).len() <= distinct_trimmed(queries.take(j)).len(),
        distinct_trimmed(queries.take(i)) == distinct_trimmed(queries.take(j)).subrange(
            0,
            distinct_trimmed(queries.take(i)).len() as int,
        ),
    decreases j - i,
{
    if i < j {
        lemma_distinct_prefix(queries, i, j - 1);
        assert(queries.take(j).drop_last() == queries.take(j - 1));
        let a = distinct_trimmed(queries.take(i));
        let b = distinct_trimmed(queries.take(j - 1));
        let c = distinct_trimmed(queries.take(j));
        assert(c == b || c == b.push(trim(queries.take(j).last())));
        assert(a == c.subrange(0, a.len() as int));
    } else {
        let a = distinct_trimmed(queries.take(i));
        assert(a == a.subrange(0, a.len() as int));
    }
}

/// The queries of a plan, ready to send (see `plan_spec`).
pub fn plan_queries(queries: &[String], max: u32) -> (r: Vec<String>)
    ensures
        views(r@) == plan_spec(views(queries@), max as nat),
{
    let ghost qs = views(queries@);
    let mut out: Vec<String> = Vec::new();
    let mut i: usize = 0;
    while i < queries.len() && out.len() < max as usize
        invariant
            i <= queries@.len(),
            qs == views(queries@),
            out@.len() <= max,
            views(out@) == distinct_trimmed(qs.take(i as int)),
        decreases queries.len() - i,
    {
        let ghost before = views(out@);
        proof {
            assert(qs.take(i + 1).drop_last() == qs.take(i as int));
            assert(qs.take(i + 1).last() == queries@[i as int]@);
        }
        let q = trimmed(queries[i].as_str());
        if q.as_str().unicode_len() > 0 {
            let mut seen = false;
            let mut k: usize = 0;
            while k < out.len()
                invariant
                    k <= out@.len(),
                    views(out@) == before,
                    seen == exists|j: int| 0 <= j < k && #[trigger] before[j] == q@,
                decreases out.len() - k,
            {
                assert(before[k as int] == out@[k as int]@);
                if str_eq(out[k].as_str(), q.as_str()) {
                    seen = true;
                }
                k += 1;
            }
            if !seen {
                out.push(q);
                assert(views(out@) == before.push(q@));
            }
        }
        i += 1;
    }
    proof {
        let d = distinct_trimmed(qs);
        lemma_distinct_prefix(qs, i as int, qs.len() as int);
        assert(qs.take(qs.len() as int) == qs);
        if i < qs.len() {
            assert(out@.len() == max);
        }
    }
    out
}

// ------------------------------------------------------------ evidence from the seller's notes

/// The end of the word that starts at `i` (the next whitespace, or the end).
pub open spec fn word_end(s: Seq<char>, i: int) -> int
    decreases s.len() - i,
{
    if i < 0 || i >= s.len() || is_ws(s[i]) {
        i
    } else {
        word_end(s, i + 1)
    }
}

/// A whitespace-separated word starting at `i` is a web link.
pub open spec fn link_at(s: Seq<char>, i: int) -> bool {
    &&& 0 <= i < s.len()
    &&& (i == 0 || is_ws(s[i - 1]))
    &&& (occurs_at(s, "http://"@, i) || occurs_at(s, "https://"@, i))
}

/// The first word of a note that is a web link, or nothing.
pub open spec fn first_link(s: Seq<char>) -> Seq<char> {
    if exists|i: int| #[trigger] link_at(s, i) {
        let i = choose|i: int| #[trigger] link_at(s, i) && forall|j: int| 0 <= j < i ==> !link_at(s, j);
        s.subrange(i, word_end(s, i))
    } else {
        seq![]
    }
}

proof fn lemma_word_end(s: Seq<char>, i: int)
    requires
        0 <= i <= s.len(),
    ensures
        i <= word_end(s, i) <= s.len(),
        forall|k: int| i <= k < word_end(s, i) ==> !is_ws(#[trigger] s[k]),
        word_end(s, i) < s.len() ==> is_ws(s[word_end(s, i)]),
    decreases s.len() - i,
{
    if i < s.len() && !is_ws(s[i]) {
        lemma_word_end(s, i + 1);
    }
}

fn link_in(v: &Vec<char>) -> (r: Vec<char>)
    ensures
        r@ == first_link(v@),
{
    let http = chars_of("http://");
    let https = chars_of("https://");
    let mut i: usize = 0;
    while i < v.len()
        invariant
            i <= v@.len(),
            http@ == "http://"@,
            https@ == "https://"@,
            forall|j: int| 0 <= j < i ==> !#[trigger] link_at(v@, j),
        decreases v.len() - i,
    {
        let starts = i == 0 || is_ws_char(v[i - 1]);
        if starts && (crate::text::matches_at(v, &http, i) || crate::text::matches_at(v, &https, i)) {
            assert(link_at(v@, i as int));
            let mut j = i;
            while j < v.len() && !is_ws_char(v[j])
                invariant
                    i <= j <= v@.len(),
                    word_end(v@, j as int) == word_end(v@, i as int),
                decreases v.len() - j,
            {
                j += 1;
            }
            proof {
                let c = choose|c: int| #[trigger] link_at(v@, c) && forall|q: int| 0 <= q < c ==> !link_at(v@, q);
                assert(link_at(v@, i as int) && forall|q: int| 0 <= q < i ==> !link_at(v@, q));
                if c < i {
                } else if c > i {
                }
                assert(c == i);
            }
            return slice_of(v, i, j);
        }
        i += 1;
    }
    assert forall|j: int| !#[trigger] link_at(v@, j) by {
        if 0 <= j < i {
        }
    }
    Vec::new()
}

/// An evidence card as plain values.
pub struct EvidenceV {
    pub id: int,
    pub title: Seq<char>,
    pub url: Seq<char>,
    pub site: Seq<char>,
    pub published: Option<Seq<char>>,
    pub excerpt: Seq<char>,
    pub grade: EvidenceGrade,
}

pub open spec fn opt_view(o: Option<String>) -> Option<Seq<char>> {
    match o {
        Some(s) => Some(s@),
        None => None,
    }
}

pub open spec fn evidence_view(e: Evidence) -> EvidenceV {
    EvidenceV {
        id: e.id as int,
        title: e.title@,
        url: e.url@,
        site: e.site@,
        published: opt_view(e.published),
        excerpt: e.excerpt@,
        grade: e.grade,
    }
}

pub open spec fn evidence_views(v: Seq<Evidence>) -> Seq<EvidenceV> {
    v.map_values(|e: Evidence| evidence_view(e))
}

/// The seller's notes that say something, trimmed, in order.
pub open spec fn kept_notes(notes: Seq<Seq<char>>) -> Seq<Seq<char>>
    decreases notes.len(),
{
    if notes.len() == 0 {
        seq![]
    } else {
        let k = kept_notes(notes.drop_last());
        if trim(notes.last()).len() == 0 {
            k
        } else {
            k.push(trim(notes.last()))
        }
    }
}

/// Each note that says something becomes a first-hand (A) card, numbered from 1 ahead of any
/// search result: its first 30 characters as the title, its first link, and the note as the
/// excerpt (cut to `excerpt_chars`).
pub open spec fn user_evidence_spec(notes: Seq<Seq<char>>, excerpt_chars: nat) -> Seq<EvidenceV> {
    let kept = kept_notes(notes);
    Seq::new(
        kept.len(),
        |i: int|
            EvidenceV {
                id: i + 1,
                title: clip_spec(kept[i], 30),
                url: first_link(kept[i]),
                site: seq![],
                published: None,
                excerpt: clip_spec(kept[i], excerpt_chars),
                grade: EvidenceGrade::A,
            },
    )
}

proof fn lemma_kept_len(notes: Seq<Seq<char>>)
    ensures
        kept_notes(notes).len() <= notes.len(),
    decreases notes.len(),
{
    if notes.len() > 0 {
        lemma_kept_len(notes.drop_last());
    }
}

/// The seller's own notes as evidence cards (see `user_evidence_spec`).
pub fn user_evidence(notes: &[String], excerpt_chars: usize) -> (r: Vec<Evidence>)
    requires
        notes@.len() < u32::MAX,
    ensures
        evidence_views(r@) == user_evidence_spec(views(notes@), excerpt_chars as nat),
{
    let ghost ns = views(notes@);
    let mut out: Vec<Evidence> = Vec::new();
    let mut i: usize = 0;
    while i < notes.len()
        invariant
            i <= notes@.len() < u32::MAX,
            ns == views(notes@),
            evidence_views(out@) == user_evidence_spec(ns.take(i as int), excerpt_chars as nat),
            out@.len() == kept_notes(ns.take(i as int)).len() <= i,
        decreases notes.len() - i,
    {
        let ghost before = evidence_views(out@);
        proof {
            assert(ns.take(i + 1).drop_last() == ns.take(i as int));
            assert(ns.take(i + 1).last() == notes@[i as int]@);
        }
        let note = trimmed(notes[i].as_str());
        if note.as_str().unicode_len() > 0 {
            let v = chars_of(note.as_str());
            let url = string_from(&link_in(&v));
            let id = (out.len() + 1) as u32;
            out.push(Evidence {
                id,
                title: truncate_chars(note.as_str(), 30),
                url,
                site: String::new(),
                published: None,
                excerpt: truncate_chars(note.as_str(), excerpt_chars),
                grade: EvidenceGrade::A,
            });
            proof {
                let kept = kept_notes(ns.take(i + 1));
                assert(kept == kept_notes(ns.take(i as int)).push(note@));
                assert(evidence_views(out@) =~= user_evidence_spec(ns.take(i + 1), excerpt_chars as nat)) by {
                    let want = user_evidence_spec(ns.take(i + 1), excerpt_chars as nat);
                    assert forall|k: int| 0 <= k < want.len() implies #[trigger] evidence_views(out@)[k] == want[k] by {
                        if k < before.len() {
                            assert(evidence_views(out@)[k] == before[k]);
                            assert(kept[k] == kept_notes(ns.take(i as int))[k]);
                        }
                    }
                }
            }
        } else {
            proof {
                assert(kept_notes(ns.take(i + 1)) == kept_notes(ns.take(i as int)));
                assert(user_evidence_spec(ns.take(i + 1), excerpt_chars as nat) =~= before);
            }
        }
        i += 1;
    }
    assert(ns.take(notes@.len() as int) == ns);
    out
}

// ------------------------------------------------------------ the evidence as the model reads it

pub const NO_EVIDENCE_BLOCK: &'static str = "## 证据卡\n(没有任何证据。请只基于常识判断,`evidence_ids` 留空,并把所有判断明确标注为「推测」。)\n";

pub const FIRST_HAND: &'static str = "A · 卖家提供的一手观察";

/// Where a card comes from, as the model is told.
pub open spec fn source_spec(e: EvidenceV) -> Seq<char> {
    if e.grade == EvidenceGrade::A {
        FIRST_HAND@
    } else {
        "B · "@ + (if e.site.len() == 0 {
            "网页"@
        } else {
            e.site
        }) + match e.published {
            Some(d) => " · "@ + d,
            None => seq![],
        }
    }
}

/// One card: `[id] (source) title`, the excerpt, and a blank line.
pub open spec fn card_spec(e: EvidenceV) -> Seq<char> {
    "["@ + decimal(e.id as nat) + "] ("@ + source_spec(e) + ") "@ + e.title + "\n"@ + e.excerpt + "\n\n"@
}

pub open spec fn cards_spec(es: Seq<EvidenceV>) -> Seq<char>
    decreases es.len(),
{
    if es.len() == 0 {
        seq![]
    } else {
        cards_spec(es.drop_last()) + card_spec(es.last())
    }
}

/// The evidence section of a prompt; without evidence it tells the model to judge from common
/// knowledge only, cite nothing and mark every judgement as a guess.
pub open spec fn evidence_block_spec(es: Seq<EvidenceV>) -> Seq<char> {
    if es.len() == 0 {
        NO_EVIDENCE_BLOCK@
    } else {
        "## 证据卡\n"@ + cards_spec(es)
    }
}

fn append_source(out: &mut String, e: &Evidence)
    ensures
        final(out)@ == old(out)@ + source_spec(evidence_view(*e)),
{
    match e.grade {
        EvidenceGrade::A => append_str(out, FIRST_HAND),
        _ => {
            let ghost start = out@;
            append_str(out, "B · ");
            if e.site.as_str().unicode_len() == 0 {
                append_str(out, "网页");
            } else {
                append_str(out, e.site.as_str());
            }
            let ghost mid = out@;
            match &e.published {
                Some(d) => {
                    append_str(out, " · ");
                    append_str(out, d.as_str());
                },
                None => {},
            }
            proof {
                let ev = evidence_view(*e);
                let site_part = if ev.site.len() == 0 {
                    "网页"@
                } else {
                    ev.site
                };
                let pub_part = match ev.published {
                    Some(d) => " · "@ + d,
                    None => seq![],
                };
                assert(mid =~= start + "B · "@ + site_part);
                assert(out@ =~= mid + pub_part);
                assert(out@ =~= start + ("B · "@ + site_part + pub_part));
            }
        },
    }
}

/// The evidence section of a prompt (see `evidence_block_spec`).
pub fn evidence_block(evidence: &[Evidence]) -> (r: String)
    ensures
        r@ == evidence_block_spec(evidence_views(evidence@)),
{
    if evidence.len() == 0 {
        return String::from_str(NO_EVIDENCE_BLOCK);
    }
    let ghost es = evidence_views(evidence@);
    let mut out = String::from_str("## 证据卡\n");
    let mut i: usize = 0;
    while i < evidence.len()
        invariant
            i <= evidence@.len(),
            es == evidence_views(evidence@),
            out@ == "## 证据卡\n"@ + cards_spec(es.take(i as int)),
        decreases evidence.len() - i,
    {
        let ghost before = out@;
        let e = &evidence[i];
        append_str(&mut out, "[");
        let id = decimal_string(e.id as u64);
        append_str(&mut out, id.as_str());
        append_str(&mut out, "] (");
        append_source(&mut out, e);
        append_str(&mut out, ") ");
        append_str(&mut out, e.title.as_str());
        append_str(&mut out, "\n");
        append_str(&mut out, e.excerpt.as_str());
        append_str(&mut out, "\n\n");
        proof {
            assert(es.take(i + 1).drop_last() == es.take(i as int));
            assert(es.take(i + 1).last() == evidence_view(evidence@[i as int]));
            assert(out@ =~= before + card_spec(evidence_view(evidence@[i as int])));
        }
        i += 1;
    }
    assert(es.take(evidence@.len() as int) == es);
    out
}

// ------------------------------------------------------------ search results

/// One search result, as plain values.
#[derive(Debug, Clone, PartialEq)]
pub struct SearchHit {
    pub title: String,
    pub url: String,
    pub site: String,
    pub published: Option<String>,
    pub snippet: String,
}

pub struct HitV {
    pub title: Seq<char>,
    pub url: Seq<char>,
    pub site: Seq<char>,
    pub published: Option<Seq<char>>,
    pub snippet: Seq<char>,
}

pub open spec fn hit_views(v: Seq<SearchHit>) -> Seq<HitV> {
    v.map_values(
        |h: SearchHit|
            HitV { title: h.title@, url: h.url@, site: h.site@, published: opt_view(h.published), snippet: h.snippet@ },
    )
}

/// The cards gathered so far, the links already used, and whether any search gave a card.
pub struct Gathered {
    pub evidence: Seq<EvidenceV>,
    pub seen: Seq<Seq<char>>,
    pub got_hits: bool,
}

/// One hit taken in: skipped once `max_evidence` cards exist, when its snippet is blank, or when
/// its link was already used (by the seller's notes or an earlier query); otherwise a new B card
/// numbered after the last, with the title cut to 80 characters and the trimmed snippet cut to
/// `excerpt_chars`.
pub open spec fn take_hit(g: Gathered, h: HitV, max_evidence: nat, excerpt_chars: nat) -> Gathered {
    if g.evidence.len() >= max_evidence || trim(h.snippet).len() == 0 || g.seen.contains(h.url) {
        g
    } else {
        Gathered {
            evidence: g.evidence.push(
                EvidenceV {
                    id: g.evidence.len() + 1int,
                    title: clip_spec(h.title, 80),
                    url: h.url,
                    site: h.site,
                    published: h.published,
                    excerpt: clip_spec(trim(h.snippet), excerpt_chars),
                    grade: EvidenceGrade::B,
                },
            ),
            seen: g.seen.push(h.url),
            got_hits: true,
        }
    }
}

/// All hits of one query taken in, in order.
pub open spec fn take_hits(g: Gathered, hits: Seq<HitV>, max_evidence: nat, excerpt_chars: nat) -> Gathered
    decreases hits.len(),
{
    if hits.len() == 0 {
        g
    } else {
        take_hit(take_hits(g, hits.drop_last(), max_evidence, excerpt_chars), hits.last(), max_evidence, excerpt_chars)
    }
}

/// The links of the seller's notes that have one: a search result with such a link adds nothing.
pub open spec fn links_of(es: Seq<EvidenceV>) -> Seq<Seq<char>>
    decreases es.len(),
{
    if es.len() == 0 {
        seq![]
    } else if es.last().url.len() == 0 {
        links_of(es.drop_last())
    } else {
        links_of(es.drop_last()).push(es.last().url)
    }
}

/// The links already in use (see `links_of`).
pub fn used_links(evidence: &[Evidence]) -> (r: Vec<String>)
    ensures
        views(r@) == links_of(evidence_views(evidence@)),
{
    let ghost es = evidence_views(evidence@);
    let mut out: Vec<String> = Vec::new();
    let mut i: usize = 0;
    while i < evidence.len()
        invariant
            i <= evidence@.len(),
            es == evidence_views(evidence@),
            views(out@) == links_of(es.take(i as int)),
        decreases evidence.len() - i,
    {
        let ghost before = views(out@);
        proof {
            assert(es.take(i + 1).drop_last() == es.take(i as int));
            assert(es.take(i + 1).last() == evidence_view(evidence@[i as int]));
        }
        if evidence[i].url.as_str().unicode_len() > 0 {
            out.push(string_from(&chars_of(evidence[i].url.as_str())));
            assert(views(out@) == before.push(evidence@[i as int].url@));
        }
        i += 1;
    }
    assert(es.take(evidence@.len() as int) == es);
    out
}

fn has_string(v: &Vec<String>, s: &String) -> (r: bool)
    ensures
        r == views(v@).contains(s@),
{
    let mut i: usize = 0;
    while i < v.len()
        invariant
            i <= v@.len(),
            forall|k: int| 0 <= k < i ==> views(v@)[k] != s@,
        decreases v.len() - i,
    {
        assert(views(v@)[i as int] == v@[i as int]@);
        if str_eq(v[i].as_str(), s.as_str()) {
            return true;
        }
        i += 1;
    }
    false
}

/// Takes the hits of one query into the evidence (see `take_hits`); says whether any became a card.
pub fn take_search_hits(
    evidence: &mut Vec<Evidence>,
    seen: &mut Vec<String>,
    hits: &[SearchHit],
    max_evidence: usize,
    excerpt_chars: usize,
) -> (got: bool)
    requires
        max_evidence < u32::MAX,
    ensures
        ({
            let g = take_hits(
                Gathered { evidence: evidence_views(old(evidence)@), seen: views(old(seen)@), got_hits: false },
                hit_views(hits@),
                max_evidence as nat,
                excerpt_chars as nat,
            );
            &&& evidence_views(final(evidence)@) == g.evidence
            &&& views(final(seen)@) == g.seen
            &&& got == g.got_hits
        }),
{
    let ghost g0 = Gathered { evidence: evidence_views(evidence@), seen: views(seen@), got_hits: false };
    let ghost hs = hit_views(hits@);
    let mut got = false;
    let mut i: usize = 0;
    while i < hits.len()
        invariant
            i <= hits@.len(),
            max_evidence < u32::MAX,
            hs == hit_views(hits@),
            ({
                let g = take_hits(g0, hs.take(i as int), max_evidence as nat, excerpt_chars as nat);
                &&& evidence_views(evidence@) == g.evidence
                &&& views(seen@) == g.seen
                &&& got == g.got_hits
            }),
        decreases hits.len() - i,
    {
        let ghost g = take_hits(g0, hs.take(i as int), max_evidence as nat, excerpt_chars as nat);
        proof {
            assert(hs.take(i + 1).drop_last() == hs.take(i as int));
            assert(hs.take(i + 1).last() == hs[i as int]);
        }
        let h = &hits[i];
        let full = evidence.len() >= max_evidence;
        let empty = trimmed(h.snippet.as_str()).as_str().unicode_len() == 0;
        if !full && !empty {
            if !has_string(seen, &h.url) {
                let id = (evidence.len() + 1) as u32;
                let ghost ev_before = evidence_views(evidence@);
                let ghost seen_before = views(seen@);
                let snippet = trimmed(h.snippet.as_str());
                evidence.push(Evidence {
                    id,
                    title: truncate_chars(h.title.as_str(), 80),
                    url: string_from(&chars_of(h.url.as_str())),
                    site: string_from(&chars_of(h.site.as_str())),
                    published: match &h.published {
                        Some(d) => Some(string_from(&chars_of(d.as_str()))),
                        None => None,
                    },
                    excerpt: truncate_chars(snippet.as_str(), excerpt_chars),
                    grade: EvidenceGrade::B,
                });
                seen.push(string_from(&chars_of(h.url.as_str())));
                got = true;
                proof {
                    let next = take_hit(g, hs[i as int], max_evidence as nat, excerpt_chars as nat);
                    assert(evidence_views(evidence@) =~= next.evidence);
                    assert(views(seen@) =~= next.seen);
                }
            }
        }
        i += 1;
    }
    assert(hs.take(hits@.len() as int) == hs);
    got
}

/// How a search call failed.
#[derive(Debug, Clone, PartialEq)]
pub enum SearchFailure {
    /// No key configured for search.
    MissingKey,
    /// The key was refused.
    Auth,
    /// The account has no balance left.
    InsufficientBalance,
    /// Anything else (network, rate limit, a bad response): this query only.
    Other(String),
}

/// What the run does after a failed search.
#[derive(Debug, Clone, Copy, PartialEq, Eq, Structural)]
pub enum SearchStep {
    /// Carry on as if there were no search at all.
    StopSearching,
    /// Stop the run with the error: it is a setting the user has to fix, and quietly degrading
    /// would hide it.
    Abort,
    /// Skip this query; the others go on.
    SkipQuery,
}

pub open spec fn search_step_spec(f: SearchFailure) -> SearchStep {
    match f {
        SearchFailure::MissingKey => SearchStep::StopSearching,
        SearchFailure::Auth => SearchStep::Abort,
        SearchFailure::InsufficientBalance => SearchStep::Abort,
        SearchFailure::Other(_) => SearchStep::SkipQuery,
    }
}

/// The decision after a failed search (see `search_step_spec`).
pub fn search_step(f: &SearchFailure) -> (r: SearchStep)
    ensures
        r == search_step_spec(*f),
{
    match f {
        SearchFailure::MissingKey => SearchStep::StopSearching,
        SearchFailure::Auth => SearchStep::Abort,
        SearchFailure::InsufficientBalance => SearchStep::Abort,
        SearchFailure::Other(_) => SearchStep::SkipQuery,
    }
}

/// A scored opportunity's citations that cannot stand.
#[derive(Debug, Clone, Copy, PartialEq, Eq, Structural)]
pub enum CitationProblem {
    /// It cites a card number that was never given (the first such).
    Unknown(u32),
    /// There are cards, but it cites none.
    Uncited,
}

pub open spec fn first_unknown(ids: Seq<u32>, known: Set<u32>) -> Option<u32>
    decreases ids.len(),
{
    if ids.len() == 0 {
        None
    } else if !known.contains(ids[0]) {
        Some(ids[0])
    } else {
        first_unknown(ids.drop_first(), known)
    }
}

pub open spec fn citation_spec(ids: Seq<u32>, known: Set<u32>) -> Option<CitationProblem> {
    match first_unknown(ids, known) {
        Some(bad) => Some(CitationProblem::Unknown(bad)),
        None => if !known.is_empty() && ids.len() == 0 {
            Some(CitationProblem::Uncited)
        } else {
            None
        },
    }
}

/// What is wrong with an opportunity's citations, if anything: every number must be a card that
/// was given (`known`: the numbers of the cards), and when there are cards at least one must be
/// cited.
pub fn citation_problem(ids: &[u32], known: &HashSet<u32>) -> (r: Option<CitationProblem>)
    ensures
        r == citation_spec(ids@, known@),
{
    broadcast use vstd::std_specs::hash::group_hash_axioms;

    let mut i: usize = 0;
    assert(ids@.skip(0) == ids@);
    while i < ids.len()
        invariant
            i <= ids@.len(),
            first_unknown(ids@, known@) == first_unknown(ids@.skip(i as int), known@),
        decreases ids.len() - i,
    {
        assert(ids@.skip(i as int)[0] == ids@[i as int]);
        if !known.contains(&ids[i]) {
            return Some(CitationProblem::Unknown(ids[i]));
        }
        assert(ids@.skip(i as int).drop_first() == ids@.skip(i + 1));
        i += 1;
    }
    assert(ids@.skip(i as int).len() == 0);
    if !known.is_empty() && ids.len() == 0 {
        Some(CitationProblem::Uncited)
    } else {
        None
    }
}

/// Whether the summary goes to the critic: only when a critic model is set and there is evidence
/// to hold it against.
pub fn should_review(critic_configured: bool, evidence_count: usize) -> (r: bool)
    ensures
        r == (critic_configured && evidence_count > 0),
{
    critic_configured && evidence_count > 0
}

/// The target price of a brief as the prompt states it.
pub open spec fn price_text_spec(min: Option<u32>, max: Option<u32>) -> Seq<char> {
    match (min, max) {
        (Some(lo), Some(hi)) => "¥"@ + decimal(lo as nat) + "~¥"@ + decimal(hi as nat),
        (Some(lo), None) => "¥"@ + decimal(lo as nat) + " 以上"@,
        (None, Some(hi)) => "¥"@ + decimal(hi as nat) + " 以内"@,
        (None, None) => "不限"@,
    }
}

pub fn price_text(min: Option<u32>, max: Option<u32>) -> (r: String)
    ensures
        r@ == price_text_spec(min, max),
{
    match (min, max) {
        (Some(lo), Some(hi)) => {
            let mut out = String::from_str("¥");
            append_str(&mut out, decimal_string(lo as u64).as_str());
            append_str(&mut out, "~¥");
            append_str(&mut out, decimal_string(hi as u64).as_str());
            out
        },
        (Some(lo), None) => {
            let mut out = String::from_str("¥");
            append_str(&mut out, decimal_string(lo as u64).as_str());
            append_str(&mut out, " 以上");
            out
        },
        (None, Some(hi)) => {
            let mut out = String::from_str("¥");
            append_str(&mut out, decimal_string(hi as u64).as_str());
            append_str(&mut out, " 以内");
            out
        },
        (None, None) => String::from_str("不限"),
    }
}

pub const SUMMARY_BLANK: &'static str = "summary_md 不能为空";

/// A scored answer needs a summary and one to six opportunities (the prompt asks for three to
/// five; six is tolerated).
pub open spec fn scored_shape_spec(summary: Seq<char>, count: nat) -> Option<Seq<char>> {
    if trim(summary).len() == 0 {
        Some(SUMMARY_BLANK@)
    } else if count == 0 || count > 6 {
        Some("opportunities 应为 3~5 个,现在是 "@ + decimal(count) + " 个"@)
    } else {
        None
    }
}

pub fn scored_shape_problem(summary: &str, count: usize) -> (r: Option<String>)
    ensures
        r matches Some(w) ==> scored_shape_spec(summary@, count as nat) == Some(w@),
        r is None ==> scored_shape_spec(summary@, count as nat) is None,
{
    if trimmed(summary).as_str().unicode_len() == 0 {
        Some(String::from_str(SUMMARY_BLANK))
    } else if count == 0 || count > 6 {
        let mut w = String::from_str("opportunities 应为 3~5 个,现在是 ");
        append_str(&mut w, decimal_string(count as u64).as_str());
        append_str(&mut w, " 个");
        Some(w)
    } else {
        None
    }
}

/// How the `i`-th card (from 0) is named in a complaint: `第 n 个机会「title」`.
pub open spec fn card_at(i: nat, title: Seq<char>) -> Seq<char> {
    "第 "@ + decimal(i + 1) + " 个机会「"@ + title + "」"@
}

fn card_at_text(i: usize, title: &str) -> (r: String)
    requires
        i < usize::MAX,
    ensures
        r@ == card_at(i as nat, title@),
{
    let mut out = String::from_str("第 ");
    append_str(&mut out, decimal_string((i + 1) as u64).as_str());
    append_str(&mut out, " 个机会「");
    append_str(&mut out, title);
    append_str(&mut out, "」");
    out
}

/// The checks of a card that need no measurement, in order: a title, selling points, a price
/// band whose top is set and not below its bottom.
pub open spec fn card_check_spec(i: nat, title: Seq<char>, points: nat, low: u32, high: u32) -> Option<Seq<char>> {
    if trim(title).len() == 0 {
        Some("第 "@ + decimal(i + 1) + " 个机会缺少 title"@)
    } else if points == 0 {
        Some(card_at(i, title) + " 缺少 selling_points"@)
    } else if high == 0 || low > high {
        Some(card_at(i, title) + " 的价格带不合理:"@ + decimal(low as nat) + "~"@ + decimal(high as nat))
    } else {
        None
    }
}

pub fn card_problem(i: usize, title: &str, points: usize, low: u32, high: u32) -> (r: Option<String>)
    requires
        i < usize::MAX,
    ensures
        r matches Some(w) ==> card_check_spec(i as nat, title@, points as nat, low, high) == Some(w@),
        r is None ==> card_check_spec(i as nat, title@, points as nat, low, high) is None,
{
    if trimmed(title).as_str().unicode_len() == 0 {
        let mut w = String::from_str("第 ");
        append_str(&mut w, decimal_string((i + 1) as u64).as_str());
        append_str(&mut w, " 个机会缺少 title");
        Some(w)
    } else if points == 0 {
        let mut w = card_at_text(i, title);
        append_str(&mut w, " 缺少 selling_points");
        Some(w)
    } else if high == 0 || low > high {
        let mut w = card_at_text(i, title);
        append_str(&mut w, " 的价格带不合理:");
        append_str(&mut w, decimal_string(low as u64).as_str());
        append_str(&mut w, "~");
        append_str(&mut w, decimal_string(high as u64).as_str());
        Some(w)
    } else {
        None
    }
}

/// The complaint about a card's citations (see `CitationProblem`).
pub open spec fn citation_message_spec(i: nat, title: Seq<char>, p: CitationProblem) -> Seq<char> {
    match p {
        CitationProblem::Unknown(bad) => card_at(i, title) + " 引用了不存在的证据编号 ["@ + decimal(bad as nat)
            + "];只能引用给出的证据卡"@,
        CitationProblem::Uncited => card_at(i, title) + " 没有引用任何证据卡;评分依据必须引用证据编号"@,
    }
}

pub fn citation_message(i: usize, title: &str, p: CitationProblem) -> (r: String)
    requires
        i < usize::MAX,
    ensures
        r@ == citation_message_spec(i as nat, title@, p),
{
    let mut w = card_at_text(i, title);
    match p {
        CitationProblem::Unknown(bad) => {
            append_str(&mut w, " 引用了不存在的证据编号 [");
            append_str(&mut w, decimal_string(bad as u64).as_str());
            append_str(&mut w, "];只能引用给出的证据卡");
        },
        CitationProblem::Uncited => {
            append_str(&mut w, " 没有引用任何证据卡;评分依据必须引用证据编号");
        },
    }
    w
}

/// A card's cited evidence numbers as kept: each once, in increasing order.
pub open spec fn tidy_ids_spec(ids: Seq<u32>, r: Seq<u32>) -> bool {
    &&& forall|a: int, b: int| 0 <= a < b < r.len() ==> r[a] < r[b]
    &&& forall|x: u32| r.contains(x) <==> ids.contains(x)
}

pub fn tidy_ids(ids: &[u32]) -> (r: Vec<u32>)
    ensures
        tidy_ids_spec(ids@, r@),
{
    let mut out: Vec<u32> = Vec::new();
    let mut i: usize = 0;
    while i < ids.len()
        invariant
            i <= ids@.len(),
            forall|a: int, b: int| 0 <= a < b < out@.len() ==> out@[a] < out@[b],
            forall|x: u32| out@.contains(x) <==> ids@.take(i as int).contains(x),
        decreases ids.len() - i,
    {
        let x = ids[i];
        // the place of `x`: after every smaller number
        let mut k: usize = 0;
        while k < out.len() && out[k] < x
            invariant
                k <= out@.len(),
                forall|a: int| 0 <= a < k ==> out@[a] < x,
            decreases out.len() - k,
        {
            k += 1;
        }
        let ghost before = out@;
        if k < out.len() && out[k] == x {
            proof {
                assert forall|y: u32| out@.contains(y) <==> ids@.take(i + 1).contains(y) by {
                    assert(ids@.take(i + 1) == ids@.take(i as int).push(x));
                    if y == x {
                        assert(out@[k as int] == x);
                    }
                }
            }
        } else {
            out.insert(k, x);
            proof {
                assert(out@ == before.insert(k as int, x));
                assert forall|a: int, b: int| 0 <= a < b < out@.len() implies out@[a] < out@[b] by {
                    if b < k {
                        assert(out@[a] == before[a] && out@[b] == before[b]);
                    } else if b == k {
                        assert(out@[a] == before[a]);
                    } else if a < k {
                        assert(out@[a] == before[a] && out@[b] == before[b - 1]);
                        assert(before[b - 1] >= x) by {
                            if k < before.len() {
                                assert(before[k as int] >= x);
                                if b - 1 > k {
                                    assert(before[k as int] < before[b - 1]);
                                }
                            }
                        }
                    } else if a == k {
                        assert(out@[b] == before[b - 1]);
                        assert(before[k as int] >= x && before[k as int] != x);
                        if b - 1 > k {
                            assert(before[k as int] < before[b - 1]);
                        }
                    } else {
                        assert(out@[a] == before[a - 1] && out@[b] == before[b - 1]);
                    }
                }
                assert forall|y: u32| out@.contains(y) <==> ids@.take(i + 1).contains(y) by {
                    let pre = ids@.take(i as int);
                    let post = ids@.take(i + 1);
                    assert(post == pre.push(x));
                    assert(post.contains(y) <==> (pre.contains(y) || y == x)) by {
                        if post.contains(y) {
                            let j = choose|j: int| 0 <= j < post.len() && post[j] == y;
                            if j < pre.len() {
                                assert(pre[j] == y);
                            }
                        }
                        if pre.contains(y) {
                            let j = choose|j: int| 0 <= j < pre.len() && pre[j] == y;
                            assert(post[j] == y);
                        }
                        if y == x {
                            assert(post[pre.len() as int] == x);
                        }
                    }
                    assert(out@.contains(y) <==> (before.contains(y) || y == x)) by {
                        if out@.contains(y) {
                            let j = choose|j: int| 0 <= j < out@.len() && out@[j] == y;
                            if j < k {
                                assert(before[j] == y);
                            } else if j > k {
                                assert(before[j - 1] == y);
                            }
                        }
                        if before.contains(y) {
                            let j = choose|j: int| 0 <= j < before.len() && before[j] == y;
                            if j < k {
                                assert(out@[j] == y);
                            } else {
                                assert(out@[j + 1] == y);
                            }
                        }
                        if y == x {
                            assert(out@[k as int] == x);
                        }
                    }
                }
            }
        }
        i += 1;
    }
    assert(ids@.take(ids@.len() as int) == ids@);
    out
}

/// Where a research run is, as shown to the user while it runs.
#[derive(Debug, Clone, PartialEq)]
pub enum ResearchProgress {
    Planning,
    /// `done` of `total` planned searches finished.
    Searching { done: u32, total: u32 },
    Scoring,
    Reviewing,
    Done,
}

} // verus!

verus! {

// ---------------------------------------------------------------- laws

proof fn lemma_distinct_trimmed(queries: Seq<Seq<char>>)
    ensures
        forall|i: int| 0 <= i < distinct_trimmed(queries).len() ==> trim(#[trigger] distinct_trimmed(queries)[i]).len() > 0
            && distinct_trimmed(queries)[i].len() > 0,
        forall|i: int, j: int|
            0 <= i < j < distinct_trimmed(queries).len() ==> #[trigger] distinct_trimmed(queries)[i]
                != #[trigger] distinct_trimmed(queries)[j],
    decreases queries.len(),
{
    if queries.len() > 0 {
        lemma_distinct_trimmed(queries.drop_last());
        let d = distinct_trimmed(queries.drop_last());
        let q = trim(queries.last());
        if q.len() > 0 && !d.contains(q) {
            let r = d.push(q);
            crate::text::lemma_trim_idempotent(queries.last());
            assert forall|i: int, j: int| 0 <= i < j < r.len() implies #[trigger] r[i] != #[trigger] r[j] by {
                if j == d.len() {
                    assert(r[i] == d[i]);
                    assert(d.contains(d[i]));
                } else {
                    assert(r[i] == d[i] && r[j] == d[j]);
                }
            }
            assert forall|i: int| 0 <= i < r.len() implies trim(#[trigger] r[i]).len() > 0 && r[i].len() > 0 by {
                if i < d.len() {
                    assert(r[i] == d[i]);
                }
            }
        }
    }
}

/// The queries a run sends are at most the budget, none blank, none twice.
pub proof fn planned_queries_are_distinct_and_within_budget(queries: Seq<Seq<char>>, max: nat)
    ensures
        plan_spec(queries, max).len() <= max,
        forall|i: int| 0 <= i < plan_spec(queries, max).len() ==> trim(#[trigger] plan_spec(queries, max)[i]).len() > 0,
        forall|i: int, j: int|
            0 <= i < j < plan_spec(queries, max).len() ==> #[trigger] plan_spec(queries, max)[i] != #[trigger] plan_spec(
                queries,
                max,
            )[j],
{
    lemma_distinct_trimmed(queries);
    let d = distinct_trimmed(queries);
    if d.len() > max {
        assert forall|i: int| 0 <= i < plan_spec(queries, max).len() implies trim(#[trigger] plan_spec(queries, max)[i]).len()
            > 0 by {
            assert(plan_spec(queries, max)[i] == d[i]);
        }
        assert forall|i: int, j: int| 0 <= i < j < plan_spec(queries, max).len() implies #[trigger] plan_spec(queries, max)[i]
            != #[trigger] plan_spec(queries, max)[j] by {
            assert(plan_spec(queries, max)[i] == d[i]);
            assert(plan_spec(queries, max)[j] == d[j]);
        }
    }
}

/// Cards are numbered 1, 2, 3, … in order.
pub open spec fn numbered(es: Seq<EvidenceV>) -> bool {
    forall|k: int| 0 <= k < es.len() ==> (#[trigger] es[k]).id == k + 1
}

pub open spec fn links(es: Seq<EvidenceV>) -> Seq<Seq<char>> {
    es.map_values(|e: EvidenceV| e.url)
}

proof fn lemma_take_hits(g: Gathered, hits: Seq<HitV>, max: nat, ex: nat)
    requires
        numbered(g.evidence),
        g.evidence.len() <= max,
    ensures
        ({
            let r = take_hits(g, hits, max, ex);
            let new = r.evidence.subrange(g.evidence.len() as int, r.evidence.len() as int);
            &&& numbered(r.evidence)
            &&& r.evidence.len() <= max
            &&& g.evidence.len() <= r.evidence.len()
            &&& r.evidence.subrange(0, g.evidence.len() as int) == g.evidence
            &&& r.seen == g.seen + links(new)
            &&& forall|k: int| 0 <= k < new.len() ==> !g.seen.contains(#[trigger] new[k].url)
            &&& forall|i: int, j: int| 0 <= i < j < new.len() ==> #[trigger] new[i].url != #[trigger] new[j].url
            &&& forall|k: int| 0 <= k < new.len() ==> (#[trigger] new[k]).grade == EvidenceGrade::B
            &&& (r.got_hits <==> (g.got_hits || new.len() > 0))
        }),
    decreases hits.len(),
{
    if hits.len() == 0 {
        let new = g.evidence.subrange(g.evidence.len() as int, g.evidence.len() as int);
        assert(new =~= Seq::<EvidenceV>::empty());
        assert(links(new) =~= Seq::<Seq<char>>::empty());
        assert(g.seen + links(new) =~= g.seen);
        assert(g.evidence.subrange(0, g.evidence.len() as int) =~= g.evidence);
    } else {
        lemma_take_hits(g, hits.drop_last(), max, ex);
        let r0 = take_hits(g, hits.drop_last(), max, ex);
        let new0 = r0.evidence.subrange(g.evidence.len() as int, r0.evidence.len() as int);
        let h = hits.last();
        let r = take_hit(r0, h, max, ex);
        if r0.evidence.len() >= max || trim(h.snippet).len() == 0 || r0.seen.contains(h.url) {
        } else {
            let card = r.evidence.last();
            let new = r.evidence.subrange(g.evidence.len() as int, r.evidence.len() as int);
            assert(new =~= new0.push(card));
            assert(links(new) =~= links(new0).push(h.url));
            assert(r.seen =~= g.seen + links(new));
            assert(r.evidence.subrange(0, g.evidence.len() as int) =~= r0.evidence.subrange(0, g.evidence.len() as int));
            assert forall|k: int| 0 <= k < new.len() implies !g.seen.contains(#[trigger] new[k].url) by {
                if k == new0.len() {
                    if g.seen.contains(h.url) {
                        let w = choose|w: int| 0 <= w < g.seen.len() && g.seen[w] == h.url;
                        assert(r0.seen[w] == h.url);
                    }
                } else {
                    assert(new[k] == new0[k]);
                }
            }
            assert forall|i: int, j: int| 0 <= i < j < new.len() implies #[trigger] new[i].url != #[trigger] new[j].url by {
                if j == new0.len() {
                    assert(new[i] == new0[i]);
                    assert(r0.seen[g.seen.len() + i] == new0[i].url);
                } else {
                    assert(new[i] == new0[i] && new[j] == new0[j]);
                }
            }
            assert forall|k: int| 0 <= k < new.len() implies (#[trigger] new[k]).grade == EvidenceGrade::B by {
                if k < new0.len() {
                    assert(new[k] == new0[k]);
                }
            }
            assert forall|k: int| 0 <= k < r.evidence.len() implies (#[trigger] r.evidence[k]).id == k + 1 by {
                if k < r0.evidence.len() {
                    assert(r.evidence[k] == r0.evidence[k]);
                }
            }
        }
    }
}

/// Taking in search results keeps the cards numbered 1, 2, 3, … with the earlier cards
/// untouched, never goes past `max_evidence`, and gives every new card (graded B) a link that
/// was not used before — by the seller's notes, an earlier query, or another card.
pub proof fn search_results_keep_cards_numbered_and_links_unique(g: Gathered, hits: Seq<HitV>, max: nat, ex: nat)
    requires
        numbered(g.evidence),
        g.evidence.len() <= max,
    ensures
        ({
            let r = take_hits(g, hits, max, ex);
            let new = r.evidence.subrange(g.evidence.len() as int, r.evidence.len() as int);
            &&& numbered(r.evidence)
            &&& r.evidence.len() <= max
            &&& r.evidence.subrange(0, g.evidence.len() as int) == g.evidence
            &&& forall|k: int| 0 <= k < new.len() ==> !g.seen.contains(#[trigger] new[k].url)
            &&& forall|i: int, j: int| 0 <= i < j < new.len() ==> #[trigger] new[i].url != #[trigger] new[j].url
            &&& forall|k: int| 0 <= k < new.len() ==> (#[trigger] new[k]).grade == EvidenceGrade::B
        }),
{
    lemma_take_hits(g, hits, max, ex);
}

/// The seller's notes become first-hand cards numbered from 1.
pub proof fn seller_cards_come_first(notes: Seq<Seq<char>>, excerpt_chars: nat)
    ensures
        numbered(user_evidence_spec(notes, excerpt_chars)),
        forall|k: int| 0 <= k < user_evidence_spec(notes, excerpt_chars).len() ==> (#[trigger] user_evidence_spec(
            notes,
            excerpt_chars,
        )[k]).grade == EvidenceGrade::A,
{
}

} // verus!
