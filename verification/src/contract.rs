//! The code contract of a generated CAD script: parameters gathered in a `PARAMS` section, one
//! section per feature, the final shape assigned to `result`. Only text is looked at here; the
//! real safety check (an AST allow-list) happens in the Python runner.
use vstd::prelude::*;

use crate::text::{
    append_str, chars_of, copy_strings, join, join_strings, line_strings, str_eq, trimmed, views, eq_ignore_case, eq_ignore_case_at, find, find_vec, has_prefix, line_ranges, lines, range_texts, skip_ws,
    slice_of, starts_with, string_from, string_of, trim, trim_bounds, trim_start, upper, upper_of, all_ws,
    trim_ignores_whitespace_at_the_ends,
};

verus! {

/// One section of a script.
#[derive(Debug, Clone, PartialEq)]
pub struct Section {
    /// `PARAMS` / `RESULT` / a feature's name (`FEATURE: mounting_holes` → `mounting_holes`).
    pub name: String,
    pub is_feature: bool,
    /// The header's line and the section's last line (from 1, both included).
    pub start_line: u32,
    pub end_line: u32,
}

pub struct SectionV {
    pub name: Seq<char>,
    pub is_feature: bool,
    pub start_line: int,
    pub end_line: int,
}

impl View for Section {
    type V = SectionV;

    open spec fn view(&self) -> SectionV {
        SectionV {
            name: self.name@,
            is_feature: self.is_feature,
            start_line: self.start_line as int,
            end_line: self.end_line as int,
        }
    }
}

pub open spec fn section_views(v: Seq<Section>) -> Seq<SectionV> {
    v.map_values(|s: Section| s@)
}

/// The text of a section header line: `# ----`, then the name up to the next `----`, trimmed.
/// `# ---- FEATURE: base ----  note` has the name `FEATURE: base`.
pub open spec fn header_spec(line: Seq<char>) -> Option<Seq<char>> {
    let t = trim_start(line);
    if starts_with(t, "# ----"@) {
        let r = t.subrange("# ----"@.len() as int, t.len() as int);
        let piece = match find(r, "----"@) {
            Some(k) => r.subrange(0, k),
            None => r,
        };
        if trim(piece).len() == 0 {
            None
        } else {
            Some(trim(piece))
        }
    } else {
        None
    }
}

fn header_at(v: &Vec<char>, lo: usize, hi: usize) -> (r: Option<Vec<char>>)
    requires
        lo <= hi <= v@.len(),
    ensures
        r matches Some(n) ==> header_spec(v@.subrange(lo as int, hi as int)) == Some(n@),
        r is None ==> header_spec(v@.subrange(lo as int, hi as int)) is None,
{
    let a = skip_ws(v, lo, hi);
    let t = slice_of(v, a, hi);
    let mark = chars_of("# ----");
    proof {
        reveal_strlit("# ----");
    }
    if !has_prefix(&t, &mark) {
        return None;
    }
    let r = slice_of(&t, 6, t.len());
    let dashes = chars_of("----");
    let end = match find_vec(&r, &dashes, 0) {
        Some(k) => k,
        None => r.len(),
    };
    proof {
        crate::text::lemma_find_from_in_bounds(r@, dashes@, 0);
        assert(r@.subrange(0, r@.len() as int) == r@);
    }
    let (x, y) = trim_bounds(&r, 0, end);
    if x == y {
        None
    } else {
        Some(slice_of(&r, x, y))
    }
}

/// The section name in a header line, if the line is a header.
pub fn header_name(line: &str) -> (r: Option<String>)
    ensures
        r matches Some(n) ==> header_spec(line@) == Some(n@),
        r is None ==> header_spec(line@) is None,
{
    let v = chars_of(line);
    assert(v@.subrange(0, v@.len() as int) == v@);
    match header_at(&v, 0, v.len()) {
        Some(n) => Some(string_from(&n)),
        None => None,
    }
}

/// What a header names: `FEATURE: x` (any case, spaces allowed around the word) is the
/// feature `x`; anything else is a section named in upper case.
pub open spec fn section_kind(raw: Seq<char>) -> (Seq<char>, bool) {
    match find(raw, seq![':']) {
        Some(k) => if eq_ignore_case(trim(raw.subrange(0, k)), "FEATURE"@) {
            (trim(raw.subrange(k + 1, raw.len() as int)), true)
        } else {
            (upper(raw), false)
        },
        None => (upper(raw), false),
    }
}

/// The indices of the header lines, in order.
pub open spec fn header_rows(ls: Seq<Seq<char>>) -> Seq<int>
    decreases ls.len(),
{
    if ls.len() == 0 {
        seq![]
    } else if header_spec(ls.last()) is Some {
        header_rows(ls.drop_last()).push(ls.len() - 1)
    } else {
        header_rows(ls.drop_last())
    }
}

/// The sections that start at the header rows `hs` of the lines `ls`; the last one runs to
/// line `total`.
pub open spec fn sections_of(ls: Seq<Seq<char>>, hs: Seq<int>, total: int) -> Seq<SectionV> {
    Seq::new(
        hs.len(),
        |k: int|
            SectionV {
                name: section_kind(header_spec(ls[hs[k]])->0).0,
                is_feature: section_kind(header_spec(ls[hs[k]])->0).1,
                start_line: hs[k] + 1,
                end_line: if k + 1 < hs.len() {
                    hs[k + 1]
                } else {
                    total
                },
            },
    )
}

/// Every section of a script, each from its header line to the line before the next header
/// (the last to the end).
pub open spec fn sections_spec(code: Seq<char>) -> Seq<SectionV> {
    sections_of(lines(code), header_rows(lines(code)), lines(code).len() as int)
}

proof fn lemma_header_rows(ls: Seq<Seq<char>>)
    ensures
        forall|k: int| 0 <= k < header_rows(ls).len() ==> 0 <= #[trigger] header_rows(ls)[k] < ls.len(),
        forall|k: int| 0 <= k < header_rows(ls).len() ==> header_spec(ls[#[trigger] header_rows(ls)[k]]) is Some,
    decreases ls.len(),
{
    if ls.len() > 0 {
        lemma_header_rows(ls.drop_last());
        assert forall|k: int| 0 <= k < header_rows(ls.drop_last()).len() implies ls[#[trigger] header_rows(ls.drop_last())[k]]
            == ls.drop_last()[header_rows(ls.drop_last())[k]] by {}
    }
}

fn kind_of(n: &Vec<char>) -> (r: (String, bool))
    ensures
        (r.0@, r.1) == section_kind(n@),
{
    let colon = vec![':'];
    assert(colon@ == seq![':']);
    match find_vec(n, &colon, 0) {
        Some(k) => {
            proof {
                crate::text::lemma_find_from_in_bounds(n@, colon@, 0);
                assert(crate::text::occurs_at(n@, colon@, k as int));
                assert(k < n.len());
            }
            let (a, b) = trim_bounds(n, 0, k);
            let feature = chars_of("FEATURE");
            if eq_ignore_case_at(n, a, b, &feature) {
                let (c, d) = trim_bounds(n, k + 1, n.len());
                (string_of(n, c, d), true)
            } else {
                let u = upper_of(n, 0, n.len());
                assert(n@.subrange(0, n@.len() as int) == n@);
                (string_from(&u), false)
            }
        },
        None => {
            let u = upper_of(n, 0, n.len());
            assert(n@.subrange(0, n@.len() as int) == n@);
            (string_from(&u), false)
        },
    }
}

/// The sections of a script, with their line ranges.
pub fn sections(code: &str) -> (r: Vec<Section>)
    requires
        lines(code@).len() <= u32::MAX,
    ensures
        section_views(r@) == sections_spec(code@),
{
    let v = chars_of(code);
    let ranges = line_ranges(&v);
    let ghost ls = lines(code@);
    let total = ranges.len() as u32;
    proof {
        lemma_header_rows(ls);
    }
    let mut out: Vec<Section> = Vec::new();
    let mut i: usize = 0;
    while i < ranges.len()
        invariant
            i <= ranges@.len() == ls.len() <= u32::MAX,
            total == ls.len(),
            ls == lines(code@),
            v@ == code@,
            range_texts(v@, ranges@) == ls,
            forall|k: int| 0 <= k < ranges@.len() ==> (#[trigger] ranges@[k]).0 <= ranges@[k].1 <= v@.len(),
            section_views(out@) == sections_of(ls, header_rows(ls.take(i as int)), total as int),
        decreases ranges.len() - i,
    {
        let (lo, hi) = ranges[i];
        let ghost hs = header_rows(ls.take(i as int));
        proof {
            assert(ls.take(i + 1).drop_last() == ls.take(i as int));
            assert(ls.take(i + 1).last() == ls[i as int]);
            assert(ls[i as int] == v@.subrange(lo as int, hi as int));
            lemma_header_rows(ls.take(i as int));
            assert forall|k: int| 0 <= k < hs.len() implies ls.take(i as int)[#[trigger] hs[k]] == ls[hs[k]] by {}
        }
        match header_at(&v, lo, hi) {
            Some(n) => {
                let line_no = (i + 1) as u32;
                let ghost before = section_views(out@);
                assert(before.len() == hs.len());
                if out.len() > 0 {
                    let mut last = out.pop().unwrap();
                    last.end_line = line_no - 1;
                    out.push(last);
                }
                let ghost mid = section_views(out@);
                assert(mid.len() == hs.len());
                assert forall|k: int| 0 <= k < hs.len() && k + 1 < hs.len() implies #[trigger] mid[k] == before[k] by {
                    assert(mid[k] == out@[k]@);
                }
                let (name, is_feature) = kind_of(&n);
                out.push(Section { name, is_feature, start_line: line_no, end_line: total });
                proof {
                    let hs2 = hs.push(i as int);
                    assert(header_rows(ls.take(i + 1)) == hs2);
                    let now = section_views(out@);
                    assert(now.len() == hs2.len());
                    assert forall|k: int| 0 <= k < hs2.len() implies #[trigger] now[k] == sections_of(ls, hs2, total as int)[k] by {
                        assert(now[k] == out@[k]@);
                        if k + 1 < hs.len() {
                            assert(before[k] == sections_of(ls, hs, total as int)[k]);
                        } else if k + 1 == hs.len() {
                            assert(before[k] == sections_of(ls, hs, total as int)[k]);
                        }
                    }
                    assert(now =~= sections_of(ls, hs2, total as int));
                }
            },
            None => {
                assert(header_rows(ls.take(i + 1)) == hs);
            },
        }
        i += 1;
    }
    assert(ls.take(ranges@.len() as int) == ls);
    out
}

/// The request for a missing `PARAMS` section.
pub const NEED_PARAMS: &'static str = "Add a `# ---- PARAMS ----` section at the top with one `name = number  # unit | label | [min, max]` line per dimension.";

/// The request for feature sections.
pub const NEED_FEATURES: &'static str = "Split the model into `# ---- FEATURE: <name> ----` sections, one per feature.";

/// The request for a `result` assignment.
pub const NEED_RESULT: &'static str = "Assign the final shape to a variable named `result`.";

/// A line that (after indentation) starts `result =` or `result=`.
pub open spec fn assigns_result(line: Seq<char>) -> bool {
    starts_with(trim_start(line), "result ="@) || starts_with(trim_start(line), "result="@)
}

/// What a script misses of the contract, as requests to the model, in this order: a `PARAMS`
/// section, feature sections, an assignment to `result`.
pub open spec fn contract_issues_spec(code: Seq<char>) -> Seq<Seq<char>> {
    let secs = sections_spec(code);
    (if !(exists|k: int| 0 <= k < secs.len() && #[trigger] secs[k].name == "PARAMS"@) {
        seq![NEED_PARAMS@]
    } else {
        seq![]
    }) + (if !(exists|k: int| 0 <= k < secs.len() && #[trigger] secs[k].is_feature) {
        seq![NEED_FEATURES@]
    } else {
        seq![]
    }) + (if !(exists|k: int| 0 <= k < lines(code).len() && assigns_result(#[trigger] lines(code)[k])) {
        seq![NEED_RESULT@]
    } else {
        seq![]
    })
}

fn line_assigns_result(line: &String) -> (r: bool)
    ensures
        r == assigns_result(line@),
{
    let v = chars_of(line.as_str());
    let a = skip_ws(&v, 0, v.len());
    let t = slice_of(&v, a, v.len());
    assert(v@.subrange(0, v@.len() as int) == v@);
    has_prefix(&t, &chars_of("result =")) || has_prefix(&t, &chars_of("result="))
}

/// Where a script breaks the contract. The sentences go to the model as they are.
pub fn contract_issues(code: &str) -> (r: Vec<String>)
    requires
        lines(code@).len() <= u32::MAX,
    ensures
        views(r@) == contract_issues_spec(code@),
{
    let secs = sections(code);
    let ghost sv = sections_spec(code@);
    let mut has_params = false;
    let mut has_feature = false;
    let mut i: usize = 0;
    while i < secs.len()
        invariant
            i <= secs@.len(),
            section_views(secs@) == sv,
            has_params == exists|k: int| 0 <= k < i && #[trigger] sv[k].name == "PARAMS"@,
            has_feature == exists|k: int| 0 <= k < i && #[trigger] sv[k].is_feature,
        decreases secs.len() - i,
    {
        assert(sv[i as int] == secs@[i as int]@);
        let p = str_eq(secs[i].name.as_str(), "PARAMS");
        let f = secs[i].is_feature;
        assert(p == (sv[i as int].name == "PARAMS"@));
        assert(f == sv[i as int].is_feature);
        proof {
            if p {
                assert(exists|k: int| 0 <= k < i + 1 && #[trigger] sv[k].name == "PARAMS"@);
            }
            if f {
                assert(exists|k: int| 0 <= k < i + 1 && #[trigger] sv[k].is_feature);
            }
        }
        has_params = has_params || p;
        has_feature = has_feature || f;
        i += 1;
    }
    let ls = line_strings(code);
    let mut assigns = false;
    let mut j: usize = 0;
    while j < ls.len()
        invariant
            j <= ls@.len(),
            views(ls@) == lines(code@),
            assigns == exists|k: int| 0 <= k < j && assigns_result(#[trigger] lines(code@)[k]),
        decreases ls.len() - j,
    {
        assert(views(ls@)[j as int] == ls@[j as int]@);
        if line_assigns_result(&ls[j]) {
            assigns = true;
        }
        j += 1;
    }
    let mut issues: Vec<String> = Vec::new();
    if !has_params {
        issues.push(String::from_str(NEED_PARAMS));
    }
    if !has_feature {
        issues.push(String::from_str(NEED_FEATURES));
    }
    if !assigns {
        issues.push(String::from_str(NEED_RESULT));
    }
    assert(views(issues@) =~= contract_issues_spec(code@));
    issues
}

pub open spec fn is_crlf(c: char) -> bool {
    c == '\r' || c == '\n'
}

/// `trim_matches(['\r', '\n'])`.
pub open spec fn trim_crlf(s: Seq<char>) -> Seq<char>
    decreases s.len(),
{
    if s.len() > 0 && is_crlf(s[0]) {
        trim_crlf(s.drop_first())
    } else if s.len() > 0 && is_crlf(s.last()) {
        trim_crlf(s.drop_last())
    } else {
        s
    }
}

/// The code in a model's answer: the inside of the first ``` fence (a `python` or `py` tag
/// dropped, an unclosed fence running to the end) without leading and trailing line breaks,
/// or the whole trimmed answer when there is no fence; either way ending in one `\n`.
pub open spec fn extract_code_spec(answer: Seq<char>) -> Seq<char> {
    let text = trim(answer);
    match find(text, "```"@) {
        Some(start) => {
            let after = text.subrange(start + 3, text.len() as int);
            let after = if starts_with(after, "python"@) {
                after.subrange(6, after.len() as int)
            } else if starts_with(after, "py"@) {
                after.subrange(2, after.len() as int)
            } else {
                after
            };
            let body = match find(after, "```"@) {
                Some(end) => after.subrange(0, end),
                None => after,
            };
            trim_crlf(body) + seq!['\n']
        },
        None => text + seq!['\n'],
    }
}

proof fn lemma_trim_crlf_sub(s: Seq<char>, a: int, b: int)
    requires
        0 <= a <= b <= s.len(),
        forall|k: int| 0 <= k < a ==> is_crlf(#[trigger] s[k]),
        forall|k: int| b <= k < s.len() ==> is_crlf(#[trigger] s[k]),
        a < b ==> !is_crlf(s[a]) && !is_crlf(s[b - 1]),
    ensures
        trim_crlf(s) == s.subrange(a, b),
    decreases s.len(),
{
    if s.len() > 0 && is_crlf(s[0]) {
        assert(a > 0 || (a == b && b == 0)) by {
            if a == 0 && a < b {
            }
        }
        if a > 0 {
            lemma_trim_crlf_sub(s.drop_first(), a - 1, b - 1);
            assert(s.drop_first().subrange(a - 1, b - 1) == s.subrange(a, b));
        } else {
            lemma_trim_crlf_sub(s.drop_first(), 0, 0);
            assert(s.drop_first().subrange(0, 0) == s.subrange(a, b));
        }
    } else if s.len() > 0 && is_crlf(s.last()) {
        if b < s.len() {
            lemma_trim_crlf_sub(s.drop_last(), a, b);
            assert(s.drop_last().subrange(a, b) == s.subrange(a, b));
        } else {
            assert(a == b);
            lemma_trim_crlf_sub(s.drop_last(), a, a - 0);
        }
    } else {
        if a < b {
        } else {
        }
        assert(s.subrange(a, b) == s) by {
            if s.len() > 0 {
                assert(a == 0);
                assert(b == s.len());
            }
        }
    }
}

/// The bounds of `v[..end]` without leading and trailing line breaks.
fn crlf_bounds(v: &Vec<char>, end: usize) -> (r: (usize, usize))
    requires
        end <= v@.len(),
    ensures
        r.0 <= r.1 <= end,
        v@.subrange(r.0 as int, r.1 as int) == trim_crlf(v@.subrange(0, end as int)),
{
    let mut a: usize = 0;
    while a < end && (v[a] == '\r' || v[a] == '\n')
        invariant
            a <= end <= v@.len(),
            forall|k: int| 0 <= k < a ==> is_crlf(#[trigger] v@[k]),
        decreases end - a,
    {
        a += 1;
    }
    let mut b: usize = end;
    while b > a && (v[b - 1] == '\r' || v[b - 1] == '\n')
        invariant
            a <= b <= end <= v@.len(),
            forall|k: int| b <= k < end ==> is_crlf(#[trigger] v@[k]),
        decreases b - a,
    {
        b -= 1;
    }
    proof {
        let body = v@.subrange(0, end as int);
        assert forall|k: int| 0 <= k < a implies is_crlf(#[trigger] body[k]) by {
            assert(body[k] == v@[k]);
        }
        assert forall|k: int| b <= k < body.len() implies is_crlf(#[trigger] body[k]) by {
            assert(body[k] == v@[k]);
        }
        if a < b {
            assert(body[a as int] == v@[a as int]);
            assert(body[b - 1] == v@[b - 1]);
        }
        lemma_trim_crlf_sub(body, a as int, b as int);
        assert(body.subrange(a as int, b as int) == v@.subrange(a as int, b as int));
    }
    (a, b)
}

/// What follows an opening fence: without a `python` or `py` tag.
fn untagged(after0: &Vec<char>) -> (r: Vec<char>)
    ensures
        r@ == (if starts_with(after0@, "python"@) {
            after0@.subrange(6, after0@.len() as int)
        } else if starts_with(after0@, "py"@) {
            after0@.subrange(2, after0@.len() as int)
        } else {
            after0@
        }),
{
    proof {
        reveal_strlit("python");
        reveal_strlit("py");
    }
    if has_prefix(after0, &chars_of("python")) {
        slice_of(after0, 6, after0.len())
    } else if has_prefix(after0, &chars_of("py")) {
        slice_of(after0, 2, after0.len())
    } else {
        assert(after0@.subrange(0, after0@.len() as int) == after0@);
        slice_of(after0, 0, after0.len())
    }
}

/// The code of a model's answer (see `extract_code_spec`).
pub fn extract_code(answer: &str) -> (r: String)
    ensures
        r@ == extract_code_spec(answer@),
{
    let text = chars_of(trimmed(answer).as_str());
    let fence = chars_of("```");
    proof {
        reveal_strlit("```");
        reveal_strlit("\n");
    }
    match find_vec(&text, &fence, 0) {
        Some(start) => {
            proof {
                crate::text::lemma_find_from_in_bounds(text@, fence@, 0);
                assert(crate::text::occurs_at(text@, fence@, start as int));
            }
            assert(start + 3 <= text.len());
            let after0 = slice_of(&text, start + 3, text.len());
            let after = untagged(&after0);
            let end = match find_vec(&after, &fence, 0) {
                Some(e) => e,
                None => after.len(),
            };
            proof {
                crate::text::lemma_find_from_in_bounds(after@, fence@, 0);
                assert(after@.subrange(0, after@.len() as int) == after@);
            }
            let (a, b) = crlf_bounds(&after, end);
            let mut out = string_of(&after, a, b);
            append_str(&mut out, "\n");
            out
        },
        None => {
            let mut out = string_from(&text);
            append_str(&mut out, "\n");
            out
        },
    }
}

/// A section's body as compared between versions: its lines joined, trimmed.
pub open spec fn body_text(ls: Seq<Seq<char>>, a: int, b: int) -> Seq<char> {
    trim(join(ls.subrange(a, b), "\n"@))
}

/// `(name, body)` of what comes before the first header (named `(header)`), then of each
/// section, its header line left out.
pub open spec fn bodies_spec(code: Seq<char>) -> Seq<(Seq<char>, Seq<char>)> {
    let ls = lines(code);
    let secs = sections_spec(code);
    let first = if secs.len() > 0 {
        secs[0].start_line - 1
    } else {
        ls.len() as int
    };
    seq![("(header)"@, body_text(ls, 0, first))] + secs.map_values(
        |x: SectionV| (x.name, body_text(ls, x.start_line, x.end_line)),
    )
}

/// The body of the first entry with this name.
pub open spec fn lookup(list: Seq<(Seq<char>, Seq<char>)>, name: Seq<char>) -> Option<Seq<char>>
    decreases list.len(),
{
    if list.len() == 0 {
        None
    } else if list[0].0 == name {
        Some(list[0].1)
    } else {
        lookup(list.drop_first(), name)
    }
}

/// Names of the new entries that are missing from the old list or whose body differs, in order.
pub open spec fn changed_in(old: Seq<(Seq<char>, Seq<char>)>, new: Seq<(Seq<char>, Seq<char>)>) -> Seq<Seq<char>>
    decreases new.len(),
{
    if new.len() == 0 {
        seq![]
    } else if lookup(old, new.last().0) == Some(new.last().1) {
        changed_in(old, new.drop_last())
    } else {
        changed_in(old, new.drop_last()).push(new.last().0)
    }
}

/// `-name` for each old entry whose name is gone from the new list, in order.
pub open spec fn removed_in(old: Seq<(Seq<char>, Seq<char>)>, new: Seq<(Seq<char>, Seq<char>)>) -> Seq<Seq<char>>
    decreases old.len(),
{
    if old.len() == 0 {
        seq![]
    } else if lookup(new, old.last().0) is Some {
        removed_in(old.drop_last(), new)
    } else {
        removed_in(old.drop_last(), new).push(seq!['-'] + old.last().0)
    }
}

/// `s` without the entries equal to `x`.
pub open spec fn without(s: Seq<Seq<char>>, x: Seq<char>) -> Seq<Seq<char>>
    decreases s.len(),
{
    if s.len() == 0 {
        seq![]
    } else if s.last() == x {
        without(s.drop_last(), x)
    } else {
        without(s.drop_last(), x).push(s.last())
    }
}

/// The sections whose content changed between two versions (blank lines and indentation at the
/// ends of a section do not count): changed or added ones by name in the new order, then the
/// removed ones as `-name`. What precedes the first header is reported as `(header)` only when
/// it changed.
pub open spec fn changed_spec(old: Seq<char>, new: Seq<char>) -> Seq<Seq<char>> {
    let o = bodies_spec(old);
    let n = bodies_spec(new);
    let all = changed_in(o, n) + removed_in(o, n);
    if o[0].1 == n[0].1 {
        without(all, "(header)"@)
    } else {
        all
    }
}

proof fn lemma_sections_ordered(code: Seq<char>)
    ensures
        forall|k: int|
            0 <= k < sections_spec(code).len() ==> 1 <= (#[trigger] sections_spec(code)[k]).start_line <= sections_spec(code)[k].end_line
                <= lines(code).len(),
{
    let ls = lines(code);
    lemma_header_rows(ls);
    lemma_rows_increase(ls);
}

proof fn lemma_rows_increase(ls: Seq<Seq<char>>)
    ensures
        forall|k: int| 0 <= k < header_rows(ls).len() - 1 ==> #[trigger] header_rows(ls)[k] < header_rows(ls)[k + 1],
    decreases ls.len(),
{
    if ls.len() > 0 {
        lemma_rows_increase(ls.drop_last());
        lemma_header_rows(ls.drop_last());
    }
}

fn body_of(ls: &Vec<String>, a: usize, b: usize) -> (r: String)
    requires
        a <= b <= ls@.len(),
    ensures
        r@ == body_text(views(ls@), a as int, b as int),
{
    let part = copy_strings(ls, a, b);
    let joined = join_strings(part.as_slice(), "\n");
    trimmed(joined.as_str())
}

fn bodies(code: &str) -> (r: Vec<(String, String)>)
    requires
        lines(code@).len() <= u32::MAX,
    ensures
        r@.len() == bodies_spec(code@).len(),
        forall|k: int| 0 <= k < r@.len() ==> (#[trigger] r@[k].0@, r@[k].1@) == bodies_spec(code@)[k],
{
    let ls = line_strings(code);
    let secs = sections(code);
    let ghost sv = sections_spec(code@);
    proof {
        lemma_sections_ordered(code@);
    }
    let first = if secs.len() > 0 {
        assert(sv[0] == secs@[0]@);
        (secs[0].start_line - 1) as usize
    } else {
        ls.len()
    };
    let mut out: Vec<(String, String)> = Vec::new();
    out.push((String::from_str("(header)"), body_of(&ls, 0, first)));
    let mut i: usize = 0;
    while i < secs.len()
        invariant
            i <= secs@.len(),
            views(ls@) == lines(code@),
            section_views(secs@) == sv,
            sv == sections_spec(code@),
            forall|k: int|
                0 <= k < sv.len() ==> 1 <= (#[trigger] sv[k]).start_line <= sv[k].end_line <= lines(code@).len(),
            out@.len() == i + 1,
            forall|k: int| 0 <= k < out@.len() ==> (#[trigger] out@[k].0@, out@[k].1@) == bodies_spec(code@)[k],
        decreases secs.len() - i,
    {
        assert(sv[i as int] == secs@[i as int]@);
        let name = string_from(&chars_of(secs[i].name.as_str()));
        let body = body_of(&ls, secs[i].start_line as usize, secs[i].end_line as usize);
        out.push((name, body));
        i += 1;
    }
    out
}

fn find_named(list: &Vec<(String, String)>, name: &String) -> (r: Option<usize>)
    ensures
        r matches Some(j) ==> j < list@.len() && lookup(pair_views(list@), name@) == Some(list@[j as int].1@),
        r is None ==> lookup(pair_views(list@), name@) is None,
{
    let ghost pv = pair_views(list@);
    assert(pv.skip(0) == pv);
    let mut j: usize = 0;
    while j < list.len()
        invariant
            j <= list@.len(),
            pv == pair_views(list@),
            lookup(pv, name@) == lookup(pv.skip(j as int), name@),
        decreases list.len() - j,
    {
        assert(pv.skip(j as int)[0] == pv[j as int]);
        if str_eq(list[j].0.as_str(), name.as_str()) {
            return Some(j);
        }
        assert(pv.skip(j as int).drop_first() == pv.skip(j + 1));
        j += 1;
    }
    assert(pv.skip(j as int).len() == 0);
    None
}

pub open spec fn pair_views(v: Seq<(String, String)>) -> Seq<(Seq<char>, Seq<char>)> {
    v.map_values(|p: (String, String)| (p.0@, p.1@))
}

/// Which sections changed between two versions of a script (see `changed_spec`). It answers
/// what a local edit actually touched, and whether the model kept to the section it was asked
/// to change.
pub fn changed_sections(old: &str, new: &str) -> (r: Vec<String>)
    requires
        lines(old@).len() <= u32::MAX,
        lines(new@).len() <= u32::MAX,
    ensures
        views(r@) == changed_spec(old@, new@),
{
    let o = bodies(old);
    let n = bodies(new);
    let ghost ov = bodies_spec(old@);
    let ghost nv = bodies_spec(new@);
    assert(pair_views(o@) =~= ov);
    assert(pair_views(n@) =~= nv);
    let mut changed: Vec<String> = Vec::new();
    let mut i: usize = 0;
    while i < n.len()
        invariant
            i <= n@.len(),
            pair_views(o@) == ov,
            pair_views(n@) == nv,
            views(changed@) == changed_in(ov, nv.take(i as int)),
        decreases n.len() - i,
    {
        let ghost before = views(changed@);
        proof {
            assert(nv.take(i + 1).drop_last() == nv.take(i as int));
            assert(nv.take(i + 1).last() == nv[i as int]);
            assert(nv[i as int] == (n@[i as int].0@, n@[i as int].1@));
        }
        let same = match find_named(&o, &n[i].0) {
            Some(j) => str_eq(o[j].1.as_str(), n[i].1.as_str()),
            None => false,
        };
        if !same {
            changed.push(string_from(&chars_of(n[i].0.as_str())));
            assert(views(changed@) == before.push(n@[i as int].0@));
        }
        i += 1;
    }
    assert(nv.take(n@.len() as int) == nv);
    let ghost first_part = views(changed@);
    let mut k: usize = 0;
    while k < o.len()
        invariant
            k <= o@.len(),
            pair_views(o@) == ov,
            pair_views(n@) == nv,
            views(changed@) == first_part + removed_in(ov.take(k as int), nv),
        decreases o.len() - k,
    {
        let ghost before = views(changed@);
        proof {
            assert(ov.take(k + 1).drop_last() == ov.take(k as int));
            assert(ov.take(k + 1).last() == ov[k as int]);
            assert(ov[k as int] == (o@[k as int].0@, o@[k as int].1@));
        }
        if find_named(&n, &o[k].0).is_none() {
            proof {
                reveal_strlit("-");
            }
            let mut gone = String::from_str("-");
            append_str(&mut gone, o[k].0.as_str());
            assert(gone@ =~= seq!['-'] + o@[k as int].0@);
            changed.push(gone);
            assert(views(changed@) =~= before.push(seq!['-'] + o@[k as int].0@));
        }
        k += 1;
    }
    assert(ov.take(o@.len() as int) == ov);
    assert(ov[0] == (o@[0].0@, o@[0].1@));
    assert(nv[0] == (n@[0].0@, n@[0].1@));
    if str_eq(o[0].1.as_str(), n[0].1.as_str()) {
        let ghost all = views(changed@);
        let mut kept: Vec<String> = Vec::new();
        let mut q: usize = 0;
        while q < changed.len()
            invariant
                q <= changed@.len(),
                views(changed@) == all,
                views(kept@) == without(all.take(q as int), "(header)"@),
            decreases changed.len() - q,
        {
            let ghost before = views(kept@);
            proof {
                assert(all.take(q + 1).drop_last() == all.take(q as int));
                assert(all.take(q + 1).last() == changed@[q as int]@);
            }
            if !str_eq(changed[q].as_str(), "(header)") {
                kept.push(string_from(&chars_of(changed[q].as_str())));
                assert(views(kept@) == before.push(changed@[q as int]@));
            }
            q += 1;
        }
        assert(all.take(changed@.len() as int) == all);
        kept
    } else {
        changed
    }
}

} // verus!

verus! {

pub open spec fn names_distinct(list: Seq<(Seq<char>, Seq<char>)>) -> bool {
    forall|i: int, j: int| 0 <= i < j < list.len() ==> #[trigger] list[i].0 != #[trigger] list[j].0
}

proof fn lemma_lookup_finds(list: Seq<(Seq<char>, Seq<char>)>, k: int)
    requires
        names_distinct(list),
        0 <= k < list.len(),
    ensures
        lookup(list, list[k].0) == Some(list[k].1),
    decreases list.len(),
{
    if k > 0 {
        let rest = list.drop_first();
        assert(list[0].0 != list[k].0);
        assert forall|i: int, j: int| 0 <= i < j < rest.len() implies #[trigger] rest[i].0 != #[trigger] rest[j].0 by {
            assert(rest[i] == list[i + 1] && rest[j] == list[j + 1]);
        }
        assert(rest[k - 1] == list[k]);
        lemma_lookup_finds(rest, k - 1);
    }
}

proof fn lemma_nothing_changed(list: Seq<(Seq<char>, Seq<char>)>, m: int)
    requires
        names_distinct(list),
        0 <= m <= list.len(),
    ensures
        changed_in(list, list.take(m)) == Seq::<Seq<char>>::empty(),
        removed_in(list.take(m), list) == Seq::<Seq<char>>::empty(),
    decreases m,
{
    if m > 0 {
        lemma_nothing_changed(list, m - 1);
        assert(list.take(m).drop_last() == list.take(m - 1));
        assert(list.take(m).last() == list[m - 1]);
        lemma_lookup_finds(list, m - 1);
    } else {
        assert(list.take(0) =~= Seq::<(Seq<char>, Seq<char>)>::empty());
    }
}

/// A script compared with itself has no changed sections — when its sections have distinct
/// names and none is called `(header)` (with a repeated name, only the first section of that
/// name is compared, so a second one with different content shows up as changed).
pub proof fn unchanged_script_has_no_changed_sections(code: Seq<char>)
    requires
        forall|i: int, j: int|
            0 <= i < j < sections_spec(code).len() ==> #[trigger] sections_spec(code)[i].name != #[trigger] sections_spec(
                code,
            )[j].name,
        forall|i: int| 0 <= i < sections_spec(code).len() ==> #[trigger] sections_spec(code)[i].name != "(header)"@,
    ensures
        changed_spec(code, code) == Seq::<Seq<char>>::empty(),
{
    let l = bodies_spec(code);
    let secs = sections_spec(code);
    assert(l.len() == secs.len() + 1);
    assert forall|i: int, j: int| 0 <= i < j < l.len() implies #[trigger] l[i].0 != #[trigger] l[j].0 by {
        assert(l[j].0 == secs[j - 1].name);
        if i > 0 {
            assert(l[i].0 == secs[i - 1].name);
        }
    }
    lemma_nothing_changed(l, l.len() as int);
    assert(l.take(l.len() as int) == l);
    assert(changed_in(l, l) + removed_in(l, l) =~= Seq::<Seq<char>>::empty());
    assert(without(Seq::<Seq<char>>::empty(), "(header)"@) == Seq::<Seq<char>>::empty());
}

/// Extracted code always ends with a line break.
pub proof fn extracted_code_ends_with_a_newline(answer: Seq<char>)
    ensures
        extract_code_spec(answer).len() > 0,
        extract_code_spec(answer).last() == '\n',
{
}

/// A section's body before trimming: its lines joined.
pub open spec fn raw_body(ls: Seq<Seq<char>>, a: int, b: int) -> Seq<char> {
    join(ls.subrange(a, b), "\n"@)
}

/// `(name, body)` as in `bodies_spec`, the bodies not yet trimmed.
pub open spec fn raw_bodies_spec(code: Seq<char>) -> Seq<(Seq<char>, Seq<char>)> {
    let ls = lines(code);
    let secs = sections_spec(code);
    let first = if secs.len() > 0 {
        secs[0].start_line - 1
    } else {
        ls.len() as int
    };
    seq![("(header)"@, raw_body(ls, 0, first))] + secs.map_values(
        |x: SectionV| (x.name, raw_body(ls, x.start_line, x.end_line)),
    )
}

/// `new` is `old` with only whitespace added at the start or the end of its body.
pub open spec fn reflowed(old: Seq<char>, new: Seq<char>) -> bool {
    exists|a: Seq<char>, b: Seq<char>| all_ws(a) && all_ws(b) && new == a + old + b
}

proof fn lemma_bodies_are_trimmed(code: Seq<char>)
    ensures
        bodies_spec(code).len() == raw_bodies_spec(code).len(),
        forall|k: int|
            0 <= k < bodies_spec(code).len() ==> #[trigger] bodies_spec(code)[k] == (
                raw_bodies_spec(code)[k].0,
                trim(raw_bodies_spec(code)[k].1),
            ),
{
    let b = bodies_spec(code);
    let r = raw_bodies_spec(code);
    assert forall|k: int| 0 <= k < b.len() implies #[trigger] b[k] == (r[k].0, trim(r[k].1)) by {
        if k > 0 {
            let secs = sections_spec(code);
            assert(b[k] == (secs[k - 1].name, body_text(lines(code), secs[k - 1].start_line, secs[k - 1].end_line)));
            assert(r[k] == (secs[k - 1].name, raw_body(lines(code), secs[k - 1].start_line, secs[k - 1].end_line)));
        }
    }
}

/// Moving whitespace at the edges of section bodies is no change: when the new script has the
/// same sections under the same names and each body (and what precedes the first header) only
/// gained whitespace at its start or end, no section is reported changed, either way round.
/// (Section names distinct and none called `(header)`, as for the unchanged script.)
pub proof fn whitespace_at_section_edges_is_no_change(old: Seq<char>, new: Seq<char>)
    requires
        forall|i: int, j: int|
            0 <= i < j < sections_spec(old).len() ==> #[trigger] sections_spec(old)[i].name != #[trigger] sections_spec(
                old,
            )[j].name,
        forall|i: int| 0 <= i < sections_spec(old).len() ==> #[trigger] sections_spec(old)[i].name != "(header)"@,
        raw_bodies_spec(new).len() == raw_bodies_spec(old).len(),
        forall|k: int|
            #![trigger raw_bodies_spec(new)[k]]
            0 <= k < raw_bodies_spec(old).len() ==> raw_bodies_spec(new)[k].0 == raw_bodies_spec(old)[k].0 && reflowed(
                raw_bodies_spec(old)[k].1,
                raw_bodies_spec(new)[k].1,
            ),
    ensures
        changed_spec(old, new) == Seq::<Seq<char>>::empty(),
        changed_spec(new, old) == Seq::<Seq<char>>::empty(),
{
    lemma_bodies_are_trimmed(old);
    lemma_bodies_are_trimmed(new);
    let bo = bodies_spec(old);
    let bn = bodies_spec(new);
    let ro = raw_bodies_spec(old);
    let rn = raw_bodies_spec(new);
    assert forall|k: int| 0 <= k < bo.len() implies #[trigger] bn[k] == bo[k] by {
        assert(0 <= k < ro.len());
        assert(rn[k].0 == ro[k].0 && reflowed(ro[k].1, rn[k].1));
        let (a, b) = choose|a: Seq<char>, b: Seq<char>| all_ws(a) && all_ws(b) && rn[k].1 == a + ro[k].1 + b;
        trim_ignores_whitespace_at_the_ends(a, ro[k].1, b);
        assert(bn[k] == (rn[k].0, trim(rn[k].1)));
        assert(bo[k] == (ro[k].0, trim(ro[k].1)));
    }
    assert(bn =~= bo);
    unchanged_script_has_no_changed_sections(old);
    assert(changed_spec(old, new) == changed_spec(old, old));
    assert(changed_spec(new, old) == changed_spec(old, old));
}

} // verus!
