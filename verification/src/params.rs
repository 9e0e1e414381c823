//! The `# ---- PARAMS ----` section: finding the parameter lines and rewriting one number in
//! place — the edit that costs nothing and never goes through the model. One parameter per line:
//! `width = 60.0        # mm | width | [20, 200]`. Turning the number text into a value, and a
//! value back into text, is done by the caller.
use vstd::prelude::*;

use crate::text::{
    lemma_nl_from_bounds, next_nl, nl_from, back_ws, decimal, append_chars, append_str, chars_of, contains, eq_ignore_case, eq_ignore_case_at, find, find_vec, has_prefix, is_ws,
    lemma_find_from_in_bounds, lines, line_strings, occurs_at, push_char, skip_ws, slice_of, starts_with, string_of, trim,
    trim_bounds, trim_start, upper, upper_of, views,
};

verus! {

/// A section header line (after indentation, `# ----`).
pub open spec fn section_header(line: Seq<char>) -> bool {
    starts_with(trim_start(line), "# ----"@)
}

/// The header of the parameters section: a header whose upper-cased text mentions `PARAMS`.
pub open spec fn params_header(line: Seq<char>) -> bool {
    section_header(line) && contains(upper(line), "PARAMS"@)
}

pub fn is_section_header(line: &str) -> (r: bool)
    ensures
        r == section_header(line@),
{
    let v = chars_of(line);
    let a = skip_ws(&v, 0, v.len());
    assert(v@.subrange(0, v@.len() as int) == v@);
    has_prefix(&slice_of(&v, a, v.len()), &chars_of("# ----"))
}

pub fn is_params_header(line: &str) -> (r: bool)
    ensures
        r == params_header(line@),
{
    if !is_section_header(line) {
        return false;
    }
    let v = chars_of(line);
    let u = upper_of(&v, 0, v.len());
    assert(v@.subrange(0, v@.len() as int) == v@);
    crate::text::contains_vec(&u, &chars_of("PARAMS"))
}

// ---------------------------------------------------------------- number literals

pub open spec fn is_digit(c: char) -> bool {
    '0' <= c && c <= '9'
}

/// The end of the run of digits starting at `i`.
pub open spec fn digits_end(s: Seq<char>, i: int) -> int
    decreases s.len() - i,
{
    if 0 <= i < s.len() && is_digit(s[i]) {
        digits_end(s, i + 1)
    } else {
        i
    }
}

/// `e` or `E`, an optional sign, and at least one digit, to the end.
pub open spec fn exponent_at(s: Seq<char>, b: int) -> bool {
    let c = if b + 1 < s.len() && (s[b + 1] == '+' || s[b + 1] == '-') {
        b + 2
    } else {
        b + 1
    };
    &&& 0 <= b < s.len()
    &&& (s[b] == 'e' || s[b] == 'E')
    &&& digits_end(s, c) > c
    &&& digits_end(s, c) == s.len()
}

/// `Digit+ | Digit+ '.' Digit* | Digit* '.' Digit+`, then an optional exponent.
pub open spec fn number_text(s: Seq<char>) -> bool {
    let a = digits_end(s, 0);
    let dot = a < s.len() && s[a] == '.';
    let b = if dot {
        digits_end(s, a + 1)
    } else {
        a
    };
    &&& (a > 0 || (dot && b > a + 1))
    &&& (b == s.len() || exponent_at(s, b))
}

/// What `str::parse::<f64>` accepts, by its documented grammar: an optional sign, then `inf`,
/// `infinity`, `nan` (any case) or a decimal number.
pub open spec fn float_text(s: Seq<char>) -> bool {
    let body = if s.len() > 0 && (s[0] == '+' || s[0] == '-') {
        s.drop_first()
    } else {
        s
    };
    eq_ignore_case(body, "inf"@) || eq_ignore_case(body, "infinity"@) || eq_ignore_case(body, "nan"@) || number_text(body)
}

proof fn lemma_digits_end(s: Seq<char>, i: int)
    requires
        0 <= i <= s.len(),
    ensures
        i <= digits_end(s, i) <= s.len(),
    decreases s.len() - i,
{
    if i < s.len() && is_digit(s[i]) {
        lemma_digits_end(s, i + 1);
    }
}

fn digits_from(v: &Vec<char>, i: usize) -> (r: usize)
    requires
        i <= v@.len(),
    ensures
        r == digits_end(v@, i as int),
        i <= r <= v@.len(),
{
    let mut j = i;
    while j < v.len() && '0' <= v[j] && v[j] <= '9'
        invariant
            i <= j <= v@.len(),
            digits_end(v@, j as int) == digits_end(v@, i as int),
        decreases v.len() - j,
    {
        j += 1;
    }
    j
}

fn is_number_text(s: &Vec<char>) -> (r: bool)
    ensures
        r == number_text(s@),
{
    let a = digits_from(s, 0);
    let dot = a < s.len() && s[a] == '.';
    let b = if dot { digits_from(s, a + 1) } else { a };
    if !(a > 0 || (dot && b > a + 1)) {
        return false;
    }
    if b == s.len() {
        return true;
    }
    if !(s[b] == 'e' || s[b] == 'E') {
        return false;
    }
    let c = if b + 1 < s.len() && (s[b + 1] == '+' || s[b + 1] == '-') { b + 2 } else { b + 1 };
    let d = digits_from(s, c);
    d > c && d == s.len()
}

/// Whether a literal reads as a floating-point number (see `float_text`).
pub fn is_float_text(s: &Vec<char>) -> (r: bool)
    ensures
        r == float_text(s@),
{
    let body = if s.len() > 0 && (s[0] == '+' || s[0] == '-') {
        slice_of(s, 1, s.len())
    } else {
        assert(s@.subrange(0, s@.len() as int) == s@);
        slice_of(s, 0, s.len())
    };
    assert(s@.len() > 0 ==> s@.drop_first() == s@.subrange(1, s@.len() as int));
    let n = body.len();
    assert(body@.subrange(0, n as int) == body@);
    let inf = eq_ignore_case_at(&body, 0, n, &chars_of("inf"));
    let infinity = eq_ignore_case_at(&body, 0, n, &chars_of("infinity"));
    let nan = eq_ignore_case_at(&body, 0, n, &chars_of("nan"));
    let num = is_number_text(&body);
    inf || infinity || nan || num
}

// ---------------------------------------------------------------- parameter lines

pub open spec fn name_char(c: char) -> bool {
    ('a' <= c && c <= 'z') || ('A' <= c && c <= 'Z') || is_digit(c) || c == '_'
}

/// A parameter name: ASCII letters, digits and `_`, not starting with a digit.
pub open spec fn valid_name(n: Seq<char>) -> bool {
    n.len() > 0 && (forall|k: int| 0 <= k < n.len() ==> name_char(#[trigger] n[k])) && !is_digit(n[0])
}

/// `name = number  # comment`: the name, where the number literal starts and ends in the line
/// (character positions), and the trimmed comment. Not a parameter line (no `=`, a bad name, or
/// something other than a plain number on the right) gives nothing.
pub open spec fn split_param_spec(line: Seq<char>) -> Option<(Seq<char>, int, int, Seq<char>)> {
    let (code, comment) = match find(line, seq!['#']) {
        Some(i) => (line.subrange(0, i), trim(line.subrange(i + 1, line.len() as int))),
        None => (line, seq![]),
    };
    match find(code, seq!['=']) {
        None => None,
        Some(eq) => {
            let name = trim(code.subrange(0, eq));
            let rhs = code.subrange(eq + 1, code.len() as int);
            let lit = trim(rhs);
            if !valid_name(name) || lit.len() == 0 || !float_text(lit) {
                None
            } else {
                let start = eq + 1 + (rhs.len() - trim_start(rhs).len());
                Some((name, start, start + lit.len(), comment))
            }
        },
    }
}

fn name_ok(v: &Vec<char>, a: usize, b: usize) -> (r: bool)
    requires
        a <= b <= v@.len(),
    ensures
        r == valid_name(v@.subrange(a as int, b as int)),
{
    if a == b {
        return false;
    }
    if '0' <= v[a] && v[a] <= '9' {
        return false;
    }
    let mut i = a;
    while i < b
        invariant
            a <= i <= b <= v@.len(),
            forall|k: int| a <= k < i ==> name_char(#[trigger] v@[k]),
        decreases b - i,
    {
        let c = v[i];
        if !(('a' <= c && c <= 'z') || ('A' <= c && c <= 'Z') || ('0' <= c && c <= '9') || c == '_') {
            assert(!name_char(v@.subrange(a as int, b as int)[i - a]));
            return false;
        }
        i += 1;
    }
    assert forall|k: int| 0 <= k < b - a implies name_char(#[trigger] v@.subrange(a as int, b as int)[k]) by {
        assert(v@.subrange(a as int, b as int)[k] == v@[a + k]);
    }
    true
}

/// Splits a parameter line (see `split_param_spec`).
pub fn split_param_line(line: &str) -> (r: Option<(String, usize, usize, String)>)
    ensures
        r matches Some(x) ==> split_param_spec(line@) == Some((x.0@, x.1 as int, x.2 as int, x.3@)),
        r matches Some(x) ==> x.1 <= x.2 <= line@.len(),
        r is None ==> split_param_spec(line@) is None,
{
    let v = chars_of(line);
    let hash = vec!['#'];
    let equals = vec!['='];
    assert(hash@ == seq!['#']);
    assert(equals@ == seq!['=']);
    let (code_end, comment) = match find_vec(&v, &hash, 0) {
        Some(i) => {
            proof {
                lemma_find_from_in_bounds(v@, hash@, 0);
                assert(occurs_at(v@, hash@, i as int));
            }
            assert(i < v.len());
            let (c, d) = trim_bounds(&v, i + 1, v.len());
            (i, string_of(&v, c, d))
        },
        None => (v.len(), String::new()),
    };
    let code = slice_of(&v, 0, code_end);
    assert(code_end == v.len() ==> code@ == v@);
    let eq = match find_vec(&code, &equals, 0) {
        Some(e) => e,
        None => return None,
    };
    proof {
        lemma_find_from_in_bounds(code@, equals@, 0);
        assert(occurs_at(code@, equals@, eq as int));
    }
    assert(eq < code.len());
    let (na, nb) = trim_bounds(&code, 0, eq);
    if !name_ok(&code, na, nb) {
        return None;
    }
    let a = skip_ws(&code, eq + 1, code.len());
    let b = back_ws(&code, a, code.len());
    proof {
        let rhs = code@.subrange(eq + 1, code@.len() as int);
        assert(code@.subrange(a as int, code@.len() as int) == trim_start(rhs));
        assert(code@.subrange(a as int, b as int) == crate::text::trim_end(trim_start(rhs)));
    }
    if a == b {
        return None;
    }
    let lit = slice_of(&code, a, b);
    if !is_float_text(&lit) {
        return None;
    }
    let name = string_of(&code, na, nb);
    Some((name, a, b, comment))
}

/// The pieces of a comment separated by `|`, as `split('|')` gives them.
pub open spec fn pieces(s: Seq<char>) -> Seq<Seq<char>>
    decreases s.len(),
{
    match find(s, seq!['|']) {
        Some(i) => {
            proof {
                crate::text::lemma_find_from_in_bounds(s, seq!['|'], 0);
            }
            seq![s.subrange(0, i)] + pieces(s.subrange(i + 1, s.len() as int))
        },
        None => seq![s],
    }
}

/// A parameter line of the `PARAMS` section, before its number is read.
#[derive(Debug, Clone, PartialEq)]
pub struct ParamLine {
    pub name: String,
    /// The number as written.
    pub literal: String,
    pub unit: String,
    pub label: String,
    /// The third comment field (`[min, max]`), when there is one.
    pub range: Option<String>,
    /// Line number (from 1).
    pub line: u32,
    /// The literal has no `.`, `e` or `E`: a count, stepped by 1 and written back as an integer.
    pub integer: bool,
}

pub struct ParamLineV {
    pub name: Seq<char>,
    pub literal: Seq<char>,
    pub unit: Seq<char>,
    pub label: Seq<char>,
    pub range: Option<Seq<char>>,
    pub line: int,
    pub integer: bool,
}

pub open spec fn param_line_views(v: Seq<ParamLine>) -> Seq<ParamLineV> {
    v.map_values(
        |p: ParamLine|
            ParamLineV {
                name: p.name@,
                literal: p.literal@,
                unit: p.unit@,
                label: p.label@,
                range: match p.range {
                    Some(r) => Some(r@),
                    None => None,
                },
                line: p.line as int,
                integer: p.integer,
            },
    )
}

/// The parameter line found at line index `i` (from 0).
pub open spec fn param_at(line: Seq<char>, i: int) -> Option<ParamLineV> {
    match split_param_spec(line) {
        None => None,
        Some((name, start, end, comment)) => {
            let ps = pieces(comment);
            let lit = line.subrange(start, end);
            Some(
                ParamLineV {
                    name,
                    literal: lit,
                    unit: trim(ps[0]),
                    label: if ps.len() > 1 {
                        trim(ps[1])
                    } else {
                        seq![]
                    },
                    range: if ps.len() > 2 {
                        Some(trim(ps[2]))
                    } else {
                        None
                    },
                    line: i + 1,
                    integer: !(contains(lit, seq!['.']) || contains(lit, seq!['e']) || contains(lit, seq!['E'])),
                },
            )
        },
    }
}

/// The parameters of lines `ls` from the start: a header switches the block on (the `PARAMS`
/// header) or off (any other); inside the block each parameter line is taken.
pub open spec fn params_upto(ls: Seq<Seq<char>>, n: int) -> (Seq<ParamLineV>, bool)
    decreases n,
{
    if n <= 0 {
        (seq![], false)
    } else {
        let (ps, in_block) = params_upto(ls, n - 1);
        let line = ls[n - 1];
        if section_header(line) {
            (ps, params_header(line))
        } else if !in_block {
            (ps, in_block)
        } else {
            match param_at(line, n - 1) {
                Some(p) => (ps.push(p), in_block),
                None => (ps, in_block),
            }
        }
    }
}

/// The parameter lines of a script, in order (see `params_upto`).
pub open spec fn param_lines_spec(code: Seq<char>) -> Seq<ParamLineV> {
    params_upto(lines(code), lines(code).len() as int).0
}

proof fn lemma_pieces_nonempty(s: Seq<char>)
    ensures
        pieces(s).len() >= 1,
    decreases s.len(),
{
    match find(s, seq!['|']) {
        Some(i) => {
            crate::text::lemma_find_from_in_bounds(s, seq!['|'], 0);
            lemma_pieces_nonempty(s.subrange(i + 1, s.len() as int));
        },
        None => {},
    }
}

/// The first three `|`-pieces of a comment, trimmed (missing ones empty / absent).
fn comment_fields(comment: &String) -> (r: (String, String, Option<String>))
    ensures
        pieces(comment@).len() >= 1,
        r.0@ == trim(pieces(comment@)[0]),
        r.1@ == (if pieces(comment@).len() > 1 {
            trim(pieces(comment@)[1])
        } else {
            seq![]
        }),
        r.2 matches Some(x) ==> pieces(comment@).len() > 2 && x@ == trim(pieces(comment@)[2]),
        r.2 is None ==> pieces(comment@).len() <= 2,
{
    let v = chars_of(comment.as_str());
    let bar = vec!['|'];
    assert(bar@ == seq!['|']);
    proof {
        lemma_pieces_nonempty(v@);
    }
    let mut fields: Vec<String> = Vec::new();
    let mut start: usize = 0;
    let mut rest_done = false;
    assert(v@.subrange(0, v@.len() as int) == v@);
    while fields.len() < 3 && !rest_done
        invariant
            start <= v@.len(),
            bar@ == seq!['|'],
            fields@.len() <= 3,
            rest_done ==> pieces(v@).len() == fields@.len(),
            !rest_done ==> pieces(v@).len() == fields@.len() + pieces(v@.subrange(start as int, v@.len() as int)).len(),
            !rest_done ==> forall|k: int| 0 <= k < pieces(v@.subrange(start as int, v@.len() as int)).len() ==>
                #[trigger] pieces(v@.subrange(start as int, v@.len() as int))[k] == pieces(v@)[fields@.len() + k],
            forall|k: int| 0 <= k < fields@.len() ==> (#[trigger] fields@[k])@ == trim(pieces(v@)[k]),
        decreases 4 - fields@.len(),
    {
        let rest = slice_of(&v, start, v.len());
        proof {
            lemma_pieces_nonempty(rest@);
        }
        match find_vec(&rest, &bar, 0) {
            Some(i) => {
                proof {
                    lemma_find_from_in_bounds(rest@, bar@, 0);
                    assert(occurs_at(rest@, bar@, i as int));
                    assert(rest@.subrange(i + 1, rest@.len() as int) == v@.subrange(start + i + 1, v@.len() as int));
                    assert(pieces(rest@) == seq![rest@.subrange(0, i as int)] + pieces(rest@.subrange(i + 1, rest@.len() as int)));
                }
                let (a, b) = trim_bounds(&rest, 0, i);
                let ghost before = fields@;
                fields.push(string_of(&rest, a, b));
                proof {
                    assert(pieces(rest@)[0] == rest@.subrange(0, i as int));
                    assert forall|k: int| 0 <= k < fields@.len() implies (#[trigger] fields@[k])@ == trim(pieces(v@)[k]) by {
                        if k == before.len() {
                            assert(pieces(rest@)[0] == pieces(v@)[before.len() as int]);
                        }
                    }
                    let rest2 = v@.subrange(start + i + 1, v@.len() as int);
                    assert forall|k: int| 0 <= k < pieces(rest2).len() implies #[trigger] pieces(rest2)[k] == pieces(v@)[fields@.len() + k] by {
                        assert(pieces(rest@)[k + 1] == pieces(rest2)[k]);
                    }
                }
                start = start + i + 1;
            },
            None => {
                assert(pieces(rest@) == seq![rest@]);
                assert(rest@.subrange(0, rest@.len() as int) == rest@);
                let (a, b) = trim_bounds(&rest, 0, rest.len());
                let ghost before = fields@;
                fields.push(string_of(&rest, a, b));
                proof {
                    assert forall|k: int| 0 <= k < fields@.len() implies (#[trigger] fields@[k])@ == trim(pieces(v@)[k]) by {
                        if k == before.len() {
                            assert(pieces(rest@)[0] == pieces(v@)[before.len() as int]);
                        }
                    }
                }
                rest_done = true;
            },
        }
    }
    assert(fields@.len() >= 1);
    let unit = string_of(&chars_of(fields[0].as_str()), 0, fields[0].as_str().unicode_len());
    proof {
        let f = fields@[0]@;
        assert(f.subrange(0, f.len() as int) == f);
    }
    let label = if fields.len() > 1 {
        proof {
            let f = fields@[1]@;
            assert(f.subrange(0, f.len() as int) == f);
        }
        string_of(&chars_of(fields[1].as_str()), 0, fields[1].as_str().unicode_len())
    } else {
        String::new()
    };
    let range = if fields.len() > 2 {
        proof {
            let f = fields@[2]@;
            assert(f.subrange(0, f.len() as int) == f);
        }
        Some(string_of(&chars_of(fields[2].as_str()), 0, fields[2].as_str().unicode_len()))
    } else {
        None
    };
    (unit, label, range)
}


fn lit_integer(lit: &Vec<char>) -> (r: bool)
    ensures
        r == !(contains(lit@, seq!['.']) || contains(lit@, seq!['e']) || contains(lit@, seq!['E'])),
{
    let dot = vec!['.'];
    let e = vec!['e'];
    let big_e = vec!['E'];
    assert(dot@ == seq!['.']);
    assert(e@ == seq!['e']);
    assert(big_e@ == seq!['E']);
    !(crate::text::contains_vec(lit, &dot) || crate::text::contains_vec(lit, &e) || crate::text::contains_vec(lit, &big_e))
}

pub open spec fn param_view(p: ParamLine) -> ParamLineV {
    param_line_views(seq![p])[0]
}

/// The parameter found on one line, if it is a parameter line (see `param_at`).
fn param_on(line: &String, i: usize) -> (r: Option<ParamLine>)
    requires
        i < u32::MAX,
    ensures
        r matches Some(p) ==> param_at(line@, i as int) == Some(param_view(p)),
        r is None ==> param_at(line@, i as int) is None,
{
    match split_param_line(line.as_str()) {
        None => None,
        Some((name, start, end, comment)) => {
            let v = chars_of(line.as_str());
            let lit = slice_of(&v, start, end);
            let (unit, label, range) = comment_fields(&comment);
            let integer = lit_integer(&lit);
            let p = ParamLine { name, literal: crate::text::string_from(&lit), unit, label, range, line: (i + 1) as u32, integer };
            assert(param_at(line@, i as int) == Some(param_view(p)));
            Some(p)
        },
    }
}

/// The parameter lines of a script (see `param_lines_spec`). The caller reads the numbers.
pub fn param_lines(code: &str) -> (r: Vec<ParamLine>)
    requires
        lines(code@).len() < u32::MAX,
    ensures
        param_line_views(r@) == param_lines_spec(code@),
{
    let ls = line_strings(code);
    let ghost lv = lines(code@);
    let mut out: Vec<ParamLine> = Vec::new();
    let mut in_block = false;
    let mut i: usize = 0;
    while i < ls.len()
        invariant
            i <= ls@.len() < u32::MAX,
            views(ls@) == lv,
            (param_line_views(out@), in_block) == params_upto(lv, i as int),
        decreases ls.len() - i,
    {
        let ghost before = param_line_views(out@);
        assert(views(ls@)[i as int] == ls@[i as int]@);
        if is_section_header(ls[i].as_str()) {
            in_block = is_params_header(ls[i].as_str());
        } else if in_block {
            match param_on(&ls[i], i) {
                Some(p) => {
                    out.push(p);
                    assert(param_line_views(out@) =~= before.push(param_view(p)));
                },
                None => {},
            }
        }
        i += 1;
    }
    out
}

// ---------------------------------------------------------------- rewriting one number

/// `split_inclusive('\n')` of `s[i..]`: pieces each ending with their `\n` (the last may not).
pub open spec fn incl_from(s: Seq<char>, i: int) -> Seq<Seq<char>>
    decreases s.len() - i,
{
    if i < 0 || i >= s.len() {
        seq![]
    } else {
        let e = nl_from(s, i);
        if e >= s.len() {
            seq![s.subrange(i, s.len() as int)]
        } else {
            proof {
                lemma_nl_from_bounds(s, i);
            }
            seq![s.subrange(i, e + 1)] + incl_from(s, e + 1)
        }
    }
}

pub open spec fn concat(ps: Seq<Seq<char>>) -> Seq<char>
    decreases ps.len(),
{
    if ps.len() == 0 {
        seq![]
    } else {
        concat(ps.drop_last()) + ps.last()
    }
}

/// Without its trailing `\r`s and `\n`s.
pub open spec fn strip_line_end(s: Seq<char>) -> Seq<char>
    decreases s.len(),
{
    if s.len() > 0 && (s.last() == '\n' || s.last() == '\r') {
        strip_line_end(s.drop_last())
    } else {
        s
    }
}

/// How many spaces (`' '`) a text starts with.
pub open spec fn leading_spaces(s: Seq<char>) -> nat
    decreases s.len(),
{
    if s.len() > 0 && s[0] == ' ' {
        1 + leading_spaces(s.drop_first())
    } else {
        0
    }
}

pub open spec fn spaces(n: nat) -> Seq<char> {
    Seq::new(n, |k: int| ' ')
}

/// A parameter line with its number replaced by `lit`. The spaces after the number grow or
/// shrink so that a trailing comment stays where it was (at least two spaces before it).
pub open spec fn rewrite_body(body: Seq<char>, lit: Seq<char>) -> Option<Seq<char>> {
    match split_param_spec(body) {
        None => None,
        Some((_n, start, end, _c)) => {
            let after = body.subrange(end, body.len() as int);
            let pad_before = leading_spaces(after);
            let old_len = end - start;
            let blank_after = trim(after).len() == 0;
            let base: int = if pad_before + old_len > lit.len() {
                pad_before + old_len - lit.len()
            } else {
                0
            };
            let pad: nat = if !blank_after && base < 2 {
                2
            } else {
                base as nat
            };
            Some(
                body.subrange(0, start) + lit + (if blank_after {
                    seq![]
                } else {
                    spaces(pad)
                }) + after.subrange(pad_before as int, after.len() as int),
            )
        },
    }
}

/// Line `line_no` (from 1) of `code` with its number replaced by `lit`, every other character
/// as it was; `None` when that line is not a parameter line. A line number past the end changes
/// nothing.
pub open spec fn set_literal_spec(code: Seq<char>, line_no: int, lit: Seq<char>) -> Option<Seq<char>> {
    let ps = incl_from(code, 0);
    if 1 <= line_no <= ps.len() {
        let piece = ps[line_no - 1];
        let body = strip_line_end(piece);
        match rewrite_body(body, lit) {
            None => None,
            Some(b) => Some(concat(ps.update(line_no - 1, b + piece.subrange(body.len() as int, piece.len() as int)))),
        }
    } else {
        Some(concat(ps))
    }
}

proof fn lemma_leading_spaces(s: Seq<char>)
    ensures
        leading_spaces(s) <= s.len(),
        forall|k: int| 0 <= k < leading_spaces(s) ==> #[trigger] s[k] == ' ',
        leading_spaces(s) < s.len() ==> s[leading_spaces(s) as int] != ' ',
    decreases s.len(),
{
    if s.len() > 0 && s[0] == ' ' {
        lemma_leading_spaces(s.drop_first());
        assert forall|k: int| 0 <= k < leading_spaces(s) implies #[trigger] s[k] == ' ' by {
            if k > 0 {
                assert(s[k] == s.drop_first()[k - 1]);
            }
        }
    }
}

proof fn lemma_strip_line_end(s: Seq<char>)
    ensures
        strip_line_end(s) == s.subrange(0, strip_line_end(s).len() as int),
        strip_line_end(s).len() <= s.len(),
    decreases s.len(),
{
    if s.len() > 0 && (s.last() == '\n' || s.last() == '\r') {
        lemma_strip_line_end(s.drop_last());
        assert(s.drop_last().subrange(0, strip_line_end(s).len() as int) == s.subrange(0, strip_line_end(s).len() as int));
    } else {
        assert(s.subrange(0, s.len() as int) == s);
    }
}

/// The rewritten line (see `rewrite_body`).
fn rewrite_line(body: &str, lit: &str) -> (r: Option<String>)
    ensures
        r matches Some(x) ==> rewrite_body(body@, lit@) == Some(x@),
        r is None ==> rewrite_body(body@, lit@) is None,
{
    let (start, end) = match split_param_line(body) {
        None => return None,
        Some((_n, a, b, _c)) => (a, b),
    };
    let v = chars_of(body);
    let lv = chars_of(lit);
    let after = slice_of(&v, end, v.len());
    let mut pad_before: usize = 0;
    proof {
        lemma_leading_spaces(after@);
    }
    assert(after@.subrange(0, after@.len() as int) == after@);
    while pad_before < after.len() && after[pad_before] == ' '
        invariant
            pad_before <= after@.len(),
            leading_spaces(after@) == pad_before + leading_spaces(after@.subrange(pad_before as int, after@.len() as int)),
        decreases after.len() - pad_before,
    {
        assert(after@.subrange(pad_before as int, after@.len() as int).drop_first() == after@.subrange(
            pad_before + 1,
            after@.len() as int,
        ));
        pad_before += 1;
    }
    let old_len = end - start;
    let (ta, tb) = trim_bounds(&after, 0, after.len());
    assert(after@.subrange(0, after@.len() as int) == after@);
    let blank_after = ta == tb;
    let base: usize = if pad_before + old_len > lv.len() { pad_before + old_len - lv.len() } else { 0 };
    let pad: usize = if !blank_after && base < 2 { 2 } else { base };
    let mut out = string_of(&v, 0, start);
    append_str(&mut out, lit);
    let ghost mid = out@;
    if !blank_after {
        let mut k: usize = 0;
        while k < pad
            invariant
                k <= pad,
                out@ == mid + spaces(k as nat),
            decreases pad - k,
        {
            push_char(&mut out, ' ');
            assert(out@ =~= mid + spaces((k + 1) as nat));
            k += 1;
        }
    }
    let ghost mid2 = out@;
    append_chars(&mut out, &after, pad_before, after.len());
    proof {
        assert(pad_before == leading_spaces(after@)) by {
            if pad_before < after@.len() {
                assert(after@.subrange(pad_before as int, after@.len() as int)[0] == after@[pad_before as int]);
            }
        }
        if blank_after {
            assert(mid2 =~= mid + Seq::<char>::empty());
        }
    }
    Some(out)
}

/// Start and end of each `\n`-terminated piece of `v` (see `incl_from`).
fn piece_ranges(v: &Vec<char>) -> (r: Vec<(usize, usize)>)
    ensures
        crate::text::range_texts(v@, r@) == incl_from(v@, 0),
        forall|k: int| 0 <= k < r@.len() ==> (#[trigger] r@[k]).0 <= r@[k].1 <= v@.len(),
{
    let mut out: Vec<(usize, usize)> = Vec::new();
    let mut i: usize = 0;
    while i < v.len()
        invariant
            i <= v@.len(),
            crate::text::range_texts(v@, out@) + incl_from(v@, i as int) == incl_from(v@, 0),
            forall|k: int| 0 <= k < out@.len() ==> (#[trigger] out@[k]).0 <= out@[k].1 <= v@.len(),
        decreases v.len() - i,
    {
        let e = next_nl(v, i);
        let end = if e < v.len() { e + 1 } else { v.len() };
        let ghost before = out@;
        out.push((i, end));
        proof {
            lemma_nl_from_bounds(v@, i as int);
            assert(crate::text::range_texts(v@, out@) == crate::text::range_texts(v@, before).push(
                v@.subrange(i as int, end as int),
            ));
            if e < v.len() {
                assert(incl_from(v@, i as int) == seq![v@.subrange(i as int, e + 1)] + incl_from(v@, e + 1));
            } else {
                assert(incl_from(v@, i as int) == seq![v@.subrange(i as int, v@.len() as int)]);
                assert(incl_from(v@, v@.len() as int) == Seq::<Seq<char>>::empty());
            }
            assert(crate::text::range_texts(v@, out@) + incl_from(v@, end as int) == crate::text::range_texts(v@, before)
                + incl_from(v@, i as int));
        }
        i = end;
    }
    assert(incl_from(v@, i as int) == Seq::<Seq<char>>::empty());
    assert(crate::text::range_texts(v@, out@) + incl_from(v@, i as int) == crate::text::range_texts(v@, out@));
    out
}

/// One piece with its number rewritten (see `set_literal_spec`).
fn rewrite_piece(piece: &Vec<char>, lit: &str) -> (r: Option<String>)
    ensures
        r matches Some(x) ==> rewrite_body(strip_line_end(piece@), lit@) is Some && x@ == rewrite_body(
            strip_line_end(piece@),
            lit@,
        )->0 + piece@.subrange(strip_line_end(piece@).len() as int, piece@.len() as int),
        r is None ==> rewrite_body(strip_line_end(piece@), lit@) is None,
{
    proof {
        lemma_strip_line_end(piece@);
    }
    let mut b = piece.len();
    assert(piece@.subrange(0, piece@.len() as int) == piece@);
    while b > 0 && (piece[b - 1] == '\n' || piece[b - 1] == '\r')
        invariant
            b <= piece@.len(),
            strip_line_end(piece@.subrange(0, b as int)) == strip_line_end(piece@),
        decreases b,
    {
        assert(piece@.subrange(0, b as int).drop_last() == piece@.subrange(0, b - 1));
        b -= 1;
    }
    assert(strip_line_end(piece@.subrange(0, b as int)) == piece@.subrange(0, b as int));
    let body = string_of(piece, 0, b);
    match rewrite_line(body.as_str(), lit) {
        None => None,
        Some(new_body) => {
            let mut out = new_body;
            append_chars(&mut out, piece, b, piece.len());
            Some(out)
        },
    }
}

/// Sets the number on line `line_no` (see `set_literal_spec`). The caller checks the name, the
/// range and formats the value.
pub fn set_literal(code: &str, line_no: u32, lit: &str) -> (r: Option<String>)
    ensures
        r matches Some(x) ==> set_literal_spec(code@, line_no as int, lit@) == Some(x@),
        r is None ==> set_literal_spec(code@, line_no as int, lit@) is None,
{
    let v = chars_of(code);
    let ranges = piece_ranges(&v);
    let ghost ps = incl_from(v@, 0);
    assert(ranges@.len() == ps.len());
    let has_target = line_no >= 1 && (line_no as usize) <= ranges.len();
    let idx: usize = if has_target { (line_no - 1) as usize } else { 0 };
    let replacement: String = if has_target {
        let (lo, hi) = ranges[idx];
        let piece = slice_of(&v, lo, hi);
        assert(crate::text::range_texts(v@, ranges@)[idx as int] == v@.subrange(lo as int, hi as int));
        match rewrite_piece(&piece, lit) {
            None => return None,
            Some(x) => x,
        }
    } else {
        String::new()
    };
    let ghost fin = if has_target {
        ps.update(idx as int, replacement@)
    } else {
        ps
    };
    let mut out = String::new();
    let mut k: usize = 0;
    while k < ranges.len()
        invariant
            k <= ranges@.len() == ps.len(),
            v@ == code@,
            ps == incl_from(v@, 0),
            crate::text::range_texts(v@, ranges@) == ps,
            forall|q: int| 0 <= q < ranges@.len() ==> (#[trigger] ranges@[q]).0 <= ranges@[q].1 <= v@.len(),
            fin.len() == ps.len(),
            forall|q: int| 0 <= q < ps.len() && !(has_target && q == idx) ==> #[trigger] fin[q] == ps[q],
            has_target ==> idx < ps.len() && fin[idx as int] == replacement@,
            out@ == concat(fin.take(k as int)),
        decreases ranges.len() - k,
    {
        let ghost before = out@;
        if has_target && k == idx {
            append_str(&mut out, replacement.as_str());
        } else {
            let (lo, hi) = ranges[k];
            append_chars(&mut out, &v, lo, hi);
            assert(crate::text::range_texts(v@, ranges@)[k as int] == v@.subrange(lo as int, hi as int));
        }
        proof {
            assert(fin.take(k + 1).drop_last() == fin.take(k as int));
            assert(fin.take(k + 1).last() == fin[k as int]);
        }
        k += 1;
    }
    assert(fin.take(ps.len() as int) == fin);
    Some(out)
}

} // verus!

verus! {

proof fn lemma_concat_front(x: Seq<char>, rest: Seq<Seq<char>>)
    ensures
        concat(seq![x] + rest) == x + concat(rest),
    decreases rest.len(),
{
    if rest.len() == 0 {
        assert(seq![x] + rest =~= seq![x]);
        assert(seq![x].drop_last() =~= Seq::<Seq<char>>::empty());
        assert(concat(Seq::<Seq<char>>::empty()) == Seq::<char>::empty());
        assert(concat(seq![x]) == concat(seq![x].drop_last()) + x);
        assert(concat(seq![x]) =~= x);
        assert(x + concat(rest) =~= x);
    } else {
        lemma_concat_front(x, rest.drop_last());
        assert((seq![x] + rest).drop_last() =~= seq![x] + rest.drop_last());
        assert((seq![x] + rest).last() == rest.last());
        assert(concat(seq![x] + rest) == concat(seq![x] + rest.drop_last()) + rest.last());
        assert(concat(rest) == concat(rest.drop_last()) + rest.last());
        assert(x + concat(rest.drop_last()) + rest.last() =~= x + concat(rest));
    }
}

proof fn lemma_pieces_rebuild(s: Seq<char>, i: int)
    requires
        0 <= i <= s.len(),
    ensures
        concat(incl_from(s, i)) == s.subrange(i, s.len() as int),
    decreases s.len() - i,
{
    if i >= s.len() {
        assert(s.subrange(i, s.len() as int) =~= Seq::<char>::empty());
    } else {
        let e = nl_from(s, i);
        lemma_nl_from_bounds(s, i);
        if e >= s.len() {
            let x = s.subrange(i, s.len() as int);
            assert(incl_from(s, i) == seq![x]);
            assert(seq![x].drop_last() =~= Seq::<Seq<char>>::empty());
            assert(concat(seq![x]) == concat(seq![x].drop_last()) + x);
            assert(concat(seq![x]) =~= x);
        } else {
            lemma_pieces_rebuild(s, e + 1);
            lemma_concat_front(s.subrange(i, e + 1), incl_from(s, e + 1));
            assert(s.subrange(i, e + 1) + s.subrange(e + 1, s.len() as int) =~= s.subrange(i, s.len() as int));
        }
    }
}

proof fn lemma_split_bounds(line: Seq<char>)
    requires
        split_param_spec(line) is Some,
    ensures
        ({
            let (_n, start, end, _c) = split_param_spec(line)->0;
            0 <= start <= end <= line.len()
        }),
{
    let (code, _comment) = match find(line, seq!['#']) {
        Some(i) => (line.subrange(0, i), trim(line.subrange(i + 1, line.len() as int))),
        None => (line, Seq::<char>::empty()),
    };
    lemma_find_from_in_bounds(line, seq!['#'], 0);
    lemma_find_from_in_bounds(code, seq!['='], 0);
    let eq = find(code, seq!['='])->0;
    let rhs = code.subrange(eq + 1, code.len() as int);
    crate::text::lemma_trim_start_suffix(rhs);
    crate::text::lemma_trim_end_prefix(trim_start(rhs));
}

/// Only the number changes: the text before it stays, the new number stands where the old one
/// started, and what followed it stays (give or take the spaces before a comment).
pub proof fn rewriting_touches_only_the_number(body: Seq<char>, lit: Seq<char>)
    requires
        split_param_spec(body) is Some,
    ensures
        ({
            let (_n, start, end, _c) = split_param_spec(body)->0;
            let after = body.subrange(end, body.len() as int);
            let r = rewrite_body(body, lit)->0;
            &&& r.subrange(0, start) == body.subrange(0, start)
            &&& r.subrange(start, start + lit.len()) == lit
            &&& r.subrange(r.len() - (after.len() - leading_spaces(after)), r.len() as int) == after.subrange(
                leading_spaces(after) as int,
                after.len() as int,
            )
        }),
{
    let (_n, start, end, _c) = split_param_spec(body)->0;
    lemma_split_bounds(body);
    let after = body.subrange(end, body.len() as int);
    lemma_leading_spaces(after);
    let r = rewrite_body(body, lit)->0;
    let pad_before = leading_spaces(after);
    let old_len = end - start;
    let blank_after = trim(after).len() == 0;
    let base: int = if pad_before + old_len > lit.len() {
        pad_before + old_len - lit.len()
    } else {
        0
    };
    let pad: nat = if !blank_after && base < 2 {
        2
    } else {
        base as nat
    };
    let mid = if blank_after {
        Seq::<char>::empty()
    } else {
        spaces(pad)
    };
    assert(r == body.subrange(0, start) + lit + mid + after.subrange(pad_before as int, after.len() as int));
    let head = body.subrange(0, start);
    let tail = after.subrange(leading_spaces(after) as int, after.len() as int);
    assert(r.subrange(0, start) =~= head);
    assert(r.subrange(start, start + lit.len()) =~= lit);
    assert(r.subrange(r.len() - tail.len(), r.len() as int) =~= tail);
}

/// Writing back the number that is already there gives the line back unchanged, when the line
/// keeps two or more spaces before its comment (or has nothing at all after the number). With
/// fewer spaces the comment is pushed to two.
pub proof fn writing_back_the_same_number_changes_nothing(body: Seq<char>)
    requires
        split_param_spec(body) is Some,
        ({
            let (_n, start, end, _c) = split_param_spec(body)->0;
            let after = body.subrange(end, body.len() as int);
            if trim(after).len() == 0 {
                leading_spaces(after) == 0
            } else {
                leading_spaces(after) >= 2
            }
        }),
    ensures
        ({
            let (_n, start, end, _c) = split_param_spec(body)->0;
            rewrite_body(body, body.subrange(start, end)) == Some(body)
        }),
{
    let (_n, start, end, _c) = split_param_spec(body)->0;
    let after = body.subrange(end, body.len() as int);
    lemma_leading_spaces(after);
    let lit = body.subrange(start, end);
    let pad = leading_spaces(after);
    lemma_split_bounds(body);
    assert(after.subrange(0, pad as int) =~= spaces(pad));
    let r = rewrite_body(body, lit)->0;
    if trim(after).len() == 0 {
        assert(r =~= body.subrange(0, start) + lit + after);
    } else {
        assert(r =~= body.subrange(0, start) + lit + spaces(pad) + after.subrange(pad as int, after.len() as int));
        assert(spaces(pad) + after.subrange(pad as int, after.len() as int) =~= after);
    }
    assert(body.subrange(0, start) + lit + after =~= body);
}

} // verus!

verus! {

/// The padding condition under which writing back a line's own number changes nothing.
pub open spec fn keeps_its_padding(body: Seq<char>) -> bool {
    let (_n, start, end, _c) = split_param_spec(body)->0;
    let after = body.subrange(end, body.len() as int);
    if trim(after).len() == 0 {
        leading_spaces(after) == 0
    } else {
        leading_spaces(after) >= 2
    }
}

/// Setting a parameter back to the number it already shows leaves the whole script as it was,
/// byte for byte (line endings included), when its line keeps its comment two or more spaces
/// away — so a round of edits that ends on the first value restores the file.
pub proof fn setting_the_same_number_keeps_the_script(code: Seq<char>, line_no: int)
    requires
        1 <= line_no <= incl_from(code, 0).len(),
        split_param_spec(strip_line_end(incl_from(code, 0)[line_no - 1])) is Some,
        keeps_its_padding(strip_line_end(incl_from(code, 0)[line_no - 1])),
    ensures
        ({
            let body = strip_line_end(incl_from(code, 0)[line_no - 1]);
            let (_n, start, end, _c) = split_param_spec(body)->0;
            set_literal_spec(code, line_no, body.subrange(start, end)) == Some(code)
        }),
{
    let ps = incl_from(code, 0);
    let piece = ps[line_no - 1];
    let body = strip_line_end(piece);
    let (_n, start, end, _c) = split_param_spec(body)->0;
    writing_back_the_same_number_changes_nothing(body);
    lemma_strip_line_end(piece);
    assert(body + piece.subrange(body.len() as int, piece.len() as int) =~= piece);
    assert(ps.update(line_no - 1, piece) =~= ps);
    lemma_pieces_rebuild(code, 0);
    assert(code.subrange(0, code.len() as int) =~= code);
}

proof fn lemma_no_bar_found(s: Seq<char>)
    requires
        forall|j: int| 0 <= j < s.len() ==> #[trigger] s[j] != '|',
    ensures
        find(s, seq!['|']) is None,
{
    crate::text::lemma_find_from_in_bounds(s, seq!['|'], 0);
    if let Some(k) = find(s, seq!['|']) {
        assert(s.subrange(k, k + 1) == seq!['|']);
        assert(s.subrange(k, k + 1)[0] == s[k]);
    }
}

proof fn lemma_pieces_split(u: Seq<char>, r: Seq<char>)
    requires
        forall|j: int| 0 <= j < u.len() ==> #[trigger] u[j] != '|',
    ensures
        pieces(u + seq!['|'] + r) == seq![u] + pieces(r),
{
    let s = u + seq!['|'] + r;
    assert forall|j: int| 0 <= j < u.len() implies #[trigger] s[j] != '|' by {
        assert(s[j] == u[j]);
    }
    assert(s[u.len() as int] == '|');
    crate::text::lemma_find_first_char(s, '|', u.len() as int);
    assert(s.subrange(0, u.len() as int) =~= u);
    assert(s.subrange(u.len() + 1int, s.len() as int) =~= r);
}

/// A parameter's comment reads `unit | label | range`: the unit is the trimmed text before the
/// first `|`, and the label the trimmed text between the first and the second `|` (or to the
/// end of the comment when there is no second one), whether a range follows or not; without a
/// second `|` there is no range.
pub proof fn the_second_comment_field_is_the_label(line: Seq<char>, i: int, u: Seq<char>, l: Seq<char>, rest: Seq<char>)
    requires
        split_param_spec(line) matches Some(x) && x.3 == u + seq!['|'] + l + rest,
        forall|j: int| 0 <= j < u.len() ==> #[trigger] u[j] != '|',
        forall|j: int| 0 <= j < l.len() ==> #[trigger] l[j] != '|',
        rest.len() == 0 || rest[0] == '|',
    ensures
        param_at(line, i) is Some,
        param_at(line, i)->0.unit == trim(u),
        param_at(line, i)->0.label == trim(l),
        rest.len() == 0 ==> param_at(line, i)->0.range is None,
        rest.len() > 0 ==> param_at(line, i)->0.range is Some,
{
    let x = split_param_spec(line).unwrap();
    let c = x.3;
    assert(c == u + seq!['|'] + (l + rest));
    lemma_pieces_split(u, l + rest);
    if rest.len() == 0 {
        assert(l + rest =~= l);
        lemma_no_bar_found(l);
        assert(pieces(l) == seq![l]);
    } else {
        let r2 = rest.subrange(1, rest.len() as int);
        assert(rest =~= seq!['|'] + r2);
        assert(l + rest =~= l + seq!['|'] + r2);
        lemma_pieces_split(l, r2);
        lemma_pieces_nonempty(r2);
    }
    let ps = pieces(c);
    assert(ps[0] == u);
    assert(ps[1] == l);
}

} // verus!
