//! Error strings handed to the front end have the form `#code#detail`; the front end
//! translates by code. A string without the leading `#` is shown as it is.
use vstd::prelude::*;

use crate::text::{append_str, chars_of, find_vec, find, string_of};

verus! {

pub const NOT_FOUND: &'static str = "not_found";
pub const INVALID_INPUT: &'static str = "invalid_input";
pub const DB_FAILED: &'static str = "db_failed";
pub const IO_FAILED: &'static str = "io_failed";
pub const KEYRING_FAILED: &'static str = "keyring_failed";
pub const MESH_UNREADABLE: &'static str = "mesh_unreadable";
pub const MESH_NOT_CLOSED: &'static str = "mesh_not_closed";
pub const MESH_EMPTY_RESULT: &'static str = "mesh_empty_result";
pub const PROVIDER_MISSING_KEY: &'static str = "provider_missing_key";
pub const PROVIDER_AUTH: &'static str = "provider_auth";
pub const PROVIDER_BALANCE: &'static str = "provider_balance";
pub const PROVIDER_RATE_LIMITED: &'static str = "provider_rate_limited";
pub const PROVIDER_HTTP: &'static str = "provider_http";
pub const PROVIDER_NETWORK: &'static str = "provider_network";
pub const PROVIDER_BAD_RESPONSE: &'static str = "provider_bad_response";
pub const AGENT_BAD_OUTPUT: &'static str = "agent_bad_output";
pub const CAD_ENGINE_MISSING: &'static str = "cad_engine_missing";
pub const CAD_ENGINE_FAILED: &'static str = "cad_engine_failed";
pub const CAD_TIMEOUT: &'static str = "cad_timeout";
pub const CAD_SCRIPT_ERROR: &'static str = "cad_script_error";
pub const IMAGE_UNREADABLE: &'static str = "image_unreadable";

/// `#code#detail`.
pub open spec fn coded(code: Seq<char>, detail: Seq<char>) -> Seq<char> {
    seq!['#'] + code + seq!['#'] + detail
}

/// The code and detail of `raw`: it must start with `#`, and the code runs up to the next `#`;
/// everything after that `#` (further `#`s included) is the detail.
pub open spec fn split_spec(raw: Seq<char>) -> Option<(Seq<char>, Seq<char>)> {
    if raw.len() == 0 || raw[0] != '#' {
        None
    } else {
        let rest = raw.drop_first();
        match find(rest, seq!['#']) {
            Some(k) => Some((rest.subrange(0, k), rest.subrange(k + 1, rest.len() as int))),
            None => None,
        }
    }
}

/// Builds `#code#detail`.
pub fn err(code: &str, detail: &str) -> (r: String)
    ensures
        r@ == coded(code@, detail@),
{
    let mut out = String::new();
    append_str(&mut out, "#");
    append_str(&mut out, code);
    append_str(&mut out, "#");
    append_str(&mut out, detail);
    proof {
        reveal_strlit("#");
    }
    out
}

/// Splits `#code#detail` into its parts; `None` when `raw` is not in that form.
pub fn split(raw: &str) -> (r: Option<(String, String)>)
    ensures
        r matches Some(p) ==> split_spec(raw@) == Some((p.0@, p.1@)),
        r is None ==> split_spec(raw@) is None,
{
    let v = chars_of(raw);
    if v.len() == 0 || v[0] != '#' {
        return None;
    }
    let mut rest: Vec<char> = Vec::new();
    let mut i: usize = 1;
    while i < v.len()
        invariant
            1 <= i <= v@.len(),
            rest@ == v@.subrange(1, i as int),
        decreases v.len() - i,
    {
        rest.push(v[i]);
        assert(v@.subrange(1, i + 1) == v@.subrange(1, i as int).push(v@[i as int]));
        i += 1;
    }
    assert(rest@ == v@.drop_first());
    let hash = vec!['#'];
    assert(hash@ == seq!['#']);
    match find_vec(&rest, &hash, 0) {
        Some(k) => {
            proof {
                crate::text::lemma_find_from_in_bounds(rest@, seq!['#'], 0);
            }
            let code = string_of(&rest, 0, k);
            let detail = string_of(&rest, k + 1, rest.len());
            Some((code, detail))
        },
        None => None,
    }
}

/// Splitting what `err` built gives back its code and detail, provided the code has no `#`.
pub proof fn split_undoes_err(code: Seq<char>, detail: Seq<char>)
    requires
        !code.contains('#'),
    ensures
        split_spec(coded(code, detail)) == Some((code, detail)),
{
    let raw = coded(code, detail);
    let rest = raw.drop_first();
    assert(rest == code + seq!['#'] + detail);
    crate::text::lemma_find_first_char(rest, '#', code.len() as int);
    assert(rest.subrange(0, code.len() as int) == code);
    assert(rest.subrange(code.len() + 1int, rest.len() as int) == detail);
}

} // verus!
