//! Code CAD (build123d): the script errors that go back to the model, and the engine's status.
use vstd::prelude::*;

use crate::text::{chars_of, contains_vec, string_of, trim, trim_bounds, append_str, contains, decimal, decimal_string, starts_with, str_contains, str_eq, str_starts_with};

verus! {

/// Why a script run failed: fed back to the model as it is, and shown to the user.
#[derive(Debug, Clone, PartialEq)]
pub struct CadScriptError {
    /// validate (allow-list refusal / syntax) · exec (runtime exception) · result (no `result`
    /// or no volume) · export
    pub stage: String,
    pub error_type: String,
    pub message: String,
    pub line: Option<u32>,
    /// Only the frames of the user's code.
    pub traceback: String,
}

pub const HINT_RESULT: &'static str = "`result` must be a solid. A sketch or face has to be extruded first; selectors (`.edges()`, `.faces()`) return lists, not shapes; and a cutter that is bigger than the body removes everything.";

pub const HINT_FILLET: &'static str = "the fillet does not fit. A fillet radius must be smaller than half of the thinnest adjacent wall AND shorter than the adjacent edges, and neighbouring fillets compete for the same material. Reduce the radius (derive it, e.g. `min(corner_radius, wall / 2 - 0.1)`), fillet only the edges that matter instead of `part.edges()`, and apply fillets after all booleans.";

pub const HINT_CHAMFER: &'static str = "the chamfer does not fit. Its length must be smaller than the adjacent faces allow (less than half of the thinnest wall). Reduce the length and chamfer only the edges that matter instead of `part.edges()`.";

pub const HINT_INDEX: &'static str = "in modeling code an IndexError almost always means a selector came back with fewer items than expected: `filter_by(...)` matched nothing, or `group_by(...)` / `sort_by(...)` has fewer groups than the index asks for. `fillet()` / `chamfer()` on an EMPTY edge list fails this way too. Selectors see the shape as it is at that line (after the booleans above it): select from the shape that really has those edges, and prefer [0] / [-1] over other indexes.";

pub const HINT_NAME: &'static str = "that name does not exist in build123d 0.12 (or it is a variable that was never defined). Do not invent API names; build the shape from the primitives and operations in the cheat sheet.";

pub const HINT_ATTRIBUTE: &'static str = "that attribute / method does not exist on this object in build123d 0.12. Use the free functions from the cheat sheet — `fillet(...)`, `chamfer(...)`, `extrude(...)`, `offset(...)`, `mirror(...)` — instead of methods, and remember that selectors return lists.";

pub const HINT_LOCATION_ORDER: &'static str = "locations go on the LEFT of the shape: `Pos(x, y, z) * shape`, `Pos(...) * Rot(...) * shape`. `shape * Pos(...)` is not defined.";

pub const HINT_SIGNATURE: &'static str = "wrong call signature. Use exactly the signatures from the cheat sheet, e.g. `Box(length, width, height, align=...)`, `Cylinder(radius, height, align=...)`. There is no `center=` / `centered=` flag: alignment is `align=(Align.CENTER, Align.CENTER, Align.MIN)`.";

pub const HINT_ALIGN: &'static str = "too many positional arguments: the extra value landed in `align=`. Check the signature in the cheat sheet (`Box(length, width, height)`, `Cylinder(radius, height)`).";

pub const HINT_BUILDER: &'static str = "`Hole`, `CounterBoreHole`, `Locations` and friends are builder-mode helpers that need a `with BuildPart():` context. In algebra mode cut a hole with `body - Pos(x, y, z) * Cylinder(radius, height)`.";

pub const HINT_ZERO: &'static str = "a parameter is 0 where the code divides by it. Guard the division (e.g. `max(count, 1)`) or give that parameter a minimum of 1 in its PARAMS range.";

pub const HINT_KERNEL: &'static str = "the OpenCascade kernel could not compute the operation at that line. Typical causes: a revolve profile that touches or crosses the rotation axis (keep it strictly on one side, x > 0); a sweep / loft with degenerate, coplanar or self-intersecting sections; a fillet, chamfer or offset larger than the local geometry allows; booleans between exactly coincident faces (give cutters 0.01-1 mm of over-travel). Simplify that operation or build the feature from simpler primitives.";

/// The fix for a common failure, recognised by stage, exception type and message. Refusals at
/// the `validate` stage already say what to change and get none; an unrecognised error gets none.
pub open spec fn hint_spec(stage: Seq<char>, ty: Seq<char>, msg: Seq<char>) -> Option<Seq<char>> {
    if stage == "validate"@ {
        None
    } else if stage == "result"@ {
        if contains(msg, "no solid volume"@) {
            Some(HINT_RESULT@)
        } else {
            None
        }
    } else if contains(msg, "Failed creating a fillet"@) {
        Some(HINT_FILLET@)
    } else if contains(msg, "Failed creating a chamfer"@) {
        Some(HINT_CHAMFER@)
    } else if ty == "IndexError"@ {
        Some(HINT_INDEX@)
    } else if ty == "NameError"@ {
        Some(HINT_NAME@)
    } else if ty == "AttributeError"@ {
        Some(HINT_ATTRIBUTE@)
    } else if ty == "TypeError"@ {
        if contains(msg, "unsupported operand type(s) for *"@) {
            Some(HINT_LOCATION_ORDER@)
        } else {
            Some(HINT_SIGNATURE@)
        }
    } else if ty == "ValueError"@ && contains(msg, "is not a valid Align"@) {
        Some(HINT_ALIGN@)
    } else if ty == "ValueError"@ && (contains(msg, "No depth provided"@) || contains(msg, "context"@)) {
        Some(HINT_BUILDER@)
    } else if ty == "ZeroDivisionError"@ {
        Some(HINT_ZERO@)
    } else if starts_with(ty, "StdFail_"@) || starts_with(ty, "Standard_"@) {
        Some(HINT_KERNEL@)
    } else {
        None
    }
}

/// The message for the model: `[stage] type: message`, ` (line n)` when known, the traceback
/// on its own lines when there is one, and `Hint: ...` when the failure is recognised.
pub open spec fn for_model_spec(e: CadScriptError) -> Seq<char> {
    let at = match e.line {
        Some(l) => " (line "@ + decimal(l as nat) + ")"@,
        None => seq![],
    };
    let tb = if e.traceback@.len() == 0 {
        seq![]
    } else {
        seq!['\n'] + e.traceback@
    };
    let hint = match hint_spec(e.stage@, e.error_type@, e.message@) {
        Some(h) => "\nHint: "@ + h,
        None => seq![],
    };
    "["@ + e.stage@ + "] "@ + e.error_type@ + ": "@ + e.message@ + at + tb + hint
}

impl CadScriptError {
    /// The fix for a common failure (see `hint_spec`). The engine's raw messages often miss the
    /// point (a selector that matched nothing shows up as `IndexError: list index out of range`);
    /// each entry was seen on the real engine.
    pub fn hint(&self) -> (r: Option<&'static str>)
        ensures
            r matches Some(h) ==> hint_spec(self.stage@, self.error_type@, self.message@) == Some(h@),
            r is None ==> hint_spec(self.stage@, self.error_type@, self.message@) is None,
    {
        let ty = self.error_type.as_str();
        let msg = self.message.as_str();
        if str_eq(self.stage.as_str(), "validate") {
            return None;
        }
        if str_eq(self.stage.as_str(), "result") {
            return if str_contains(msg, "no solid volume") {
                Some(HINT_RESULT)
            } else {
                None
            };
        }
        if str_contains(msg, "Failed creating a fillet") {
            return Some(HINT_FILLET);
        }
        if str_contains(msg, "Failed creating a chamfer") {
            return Some(HINT_CHAMFER);
        }
        if str_eq(ty, "IndexError") {
            Some(HINT_INDEX)
        } else if str_eq(ty, "NameError") {
            Some(HINT_NAME)
        } else if str_eq(ty, "AttributeError") {
            Some(HINT_ATTRIBUTE)
        } else if str_eq(ty, "TypeError") {
            if str_contains(msg, "unsupported operand type(s) for *") {
                Some(HINT_LOCATION_ORDER)
            } else {
                Some(HINT_SIGNATURE)
            }
        } else if str_eq(ty, "ValueError") && str_contains(msg, "is not a valid Align") {
            Some(HINT_ALIGN)
        } else if str_eq(ty, "ValueError") && (str_contains(msg, "No depth provided") || str_contains(msg, "context")) {
            Some(HINT_BUILDER)
        } else if str_eq(ty, "ZeroDivisionError") {
            Some(HINT_ZERO)
        } else if str_starts_with(ty, "StdFail_") || str_starts_with(ty, "Standard_") {
            Some(HINT_KERNEL)
        } else {
            None
        }
    }

    /// The repair note for the model: the raw error, the user's frames, and a hint when the
    /// failure is a known one (see `for_model_spec`).
    pub fn for_model(&self) -> (r: String)
        ensures
            r@ == for_model_spec(*self),
    {
        let mut out = String::from_str("[");
        append_str(&mut out, self.stage.as_str());
        append_str(&mut out, "] ");
        append_str(&mut out, self.error_type.as_str());
        append_str(&mut out, ": ");
        append_str(&mut out, self.message.as_str());
        let ghost head = out@;
        match self.line {
            Some(l) => {
                append_str(&mut out, " (line ");
                let n = decimal_string(l as u64);
                append_str(&mut out, n.as_str());
                append_str(&mut out, ")");
            },
            None => {},
        }
        let ghost with_at = out@;
        if self.traceback.as_str().unicode_len() > 0 {
            append_str(&mut out, "\n");
            append_str(&mut out, self.traceback.as_str());
        }
        let ghost with_tb = out@;
        match self.hint() {
            Some(h) => {
                append_str(&mut out, "\nHint: ");
                append_str(&mut out, h);
            },
            None => {},
        }
        proof {
            reveal_strlit("\n");
            let at = match self.line {
                Some(l) => " (line "@ + decimal(l as nat) + ")"@,
                None => seq![],
            };
            let tb = if self.traceback@.len() == 0 {
                seq![]
            } else {
                seq!['\n'] + self.traceback@
            };
            let hint = match hint_spec(self.stage@, self.error_type@, self.message@) {
                Some(h) => "\nHint: "@ + h,
                None => seq![],
            };
            assert(head =~= "["@ + self.stage@ + "] "@ + self.error_type@ + ": "@ + self.message@);
            assert(with_at =~= head + at);
            assert(with_tb =~= with_at + tb);
            assert(out@ =~= with_tb + hint);
        }
        out
    }
}

/// The conclusion of a visual review of a model against its reference pictures.
#[derive(Debug, Clone, Default, PartialEq)]
pub struct CadReview {
    pub matches: bool,
    pub differences: Vec<String>,
}

/// Whether the CAD engine can run, and what installing it involves.
#[derive(Debug, Clone, Default, PartialEq)]
pub struct CadEngineInfo {
    pub available: bool,
    pub python: String,
    pub python_version: String,
    pub build123d_version: String,
    /// Why it is not available (not installed / does not start).
    pub problem: String,
    /// The installer carries the engine package (release builds do; development builds do not).
    pub bundled: bool,
    /// Bundled but not unpacked yet (or an older version unpacked): installing starts at once.
    pub needs_install: bool,
    /// Bytes the unpacked engine takes.
    pub unpacked_bytes: u64,
    /// The engine this version needs is not in the install folder (a slim online update): it has
    /// to be downloaded, a few hundred MB, so the user is asked first.
    pub needs_download: bool,
    pub download_bytes: u64,
}

/// The default of a design spec's `suitable`: true.
pub fn yes() -> (r: bool)
    ensures
        r,
{
    true
}

/// Why running a script failed.
#[derive(Debug, PartialEq)]
pub enum CadError {
    /// No engine found (the engine package is not installed).
    EngineMissing,
    /// The interpreter would not start.
    Spawn(String),
    Timeout(std::time::Duration),
    /// The script's own fault: refused, raised, no `result`, export failed. Goes back to the model.
    Script(CadScriptError),
    /// The runner did not write its result (crashed, killed, disk full…).
    Protocol(String),
    Io(String),
    /// The user cancelled the turn; the running script was killed.
    Cancelled,
}

pub open spec fn cad_error_code(e: CadError) -> Seq<char> {
    match e {
        CadError::EngineMissing => "cad_engine_missing"@,
        CadError::Spawn(_) => "cad_engine_failed"@,
        CadError::Timeout(_) => "cad_timeout"@,
        CadError::Script(_) => "cad_script_error"@,
        CadError::Protocol(_) => "cad_engine_failed"@,
        CadError::Io(_) => "io_failed"@,
        CadError::Cancelled => "cancelled"@,
    }
}

impl CadError {
    /// The error code the interface localises.
    pub fn code(&self) -> (r: &'static str)
        ensures
            r@ == cad_error_code(*self),
    {
        match self {
            CadError::EngineMissing => "cad_engine_missing",
            CadError::Spawn(_) => "cad_engine_failed",
            CadError::Timeout(_) => "cad_timeout",
            CadError::Script(_) => "cad_script_error",
            CadError::Protocol(_) => "cad_engine_failed",
            CadError::Io(_) => "io_failed",
            CadError::Cancelled => "cancelled",
        }
    }
}

/// A file name the runner may report: no path separators and no `..`, so it stays inside the
/// work folder.
pub open spec fn plain_file_name(name: Seq<char>) -> bool {
    !contains(name, seq!['/']) && !contains(name, seq!['\\']) && !contains(name, ".."@)
}

pub fn is_plain_file_name(name: &str) -> (r: bool)
    ensures
        r == plain_file_name(name@),
{
    let v = chars_of(name);
    let slash = vec!['/'];
    let back = vec!['\\'];
    assert(slash@ == seq!['/']);
    assert(back@ == seq!['\\']);
    !contains_vec(&v, &slash) && !contains_vec(&v, &back) && !contains_vec(&v, &chars_of(".."))
}

/// The last `n` characters of the trimmed text (what is kept of an engine's error output).
pub open spec fn tail_spec(text: Seq<char>, n: nat) -> Seq<char> {
    let t = trim(text);
    if t.len() > n {
        t.subrange(t.len() - n, t.len() as int)
    } else {
        t
    }
}

pub fn tail_chars(text: &str, n: usize) -> (r: String)
    ensures
        r@ == tail_spec(text@, n as nat),
{
    let v = chars_of(text);
    let (a, b) = trim_bounds(&v, 0, v.len());
    assert(v@.subrange(0, v@.len() as int) == v@);
    if b - a > n {
        assert(v@.subrange(a as int, b as int).subrange((b - a - n) as int, (b - a) as int) == v@.subrange((b - n) as int, b as int));
        string_of(&v, b - n, b)
    } else {
        string_of(&v, a, b)
    }
}

} // verus!

verus! {

/// The repair note starts with the raw error as the engine gave it; a hint, when there is one,
/// comes last and replaces nothing. Refusals at the `validate` stage never get a hint.
pub proof fn hints_follow_the_raw_error(e: CadScriptError)
    ensures
        ({
            let head = "["@ + e.stage@ + "] "@ + e.error_type@ + ": "@ + e.message@;
            for_model_spec(e).subrange(0, head.len() as int) == head
        }),
        hint_spec(e.stage@, e.error_type@, e.message@) matches Some(h) ==> for_model_spec(e).subrange(
            for_model_spec(e).len() - h.len(),
            for_model_spec(e).len() as int,
        ) == h,
        e.stage@ == "validate"@ ==> hint_spec(e.stage@, e.error_type@, e.message@) is None,
{
    let head = "["@ + e.stage@ + "] "@ + e.error_type@ + ": "@ + e.message@;
    let full = for_model_spec(e);
    assert(full.subrange(0, head.len() as int) =~= head);
    match hint_spec(e.stage@, e.error_type@, e.message@) {
        Some(h) => {
            assert(full.subrange(full.len() - h.len(), full.len() as int) =~= h);
        },
        None => {},
    }
}

} // verus!
