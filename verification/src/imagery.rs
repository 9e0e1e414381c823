//! The picture workbench: what a set of pictures is for, the frame sizes, and which files can
//! be imported.
use vstd::prelude::*;

use crate::text::{chars_of, eq_ignore_case, eq_ignore_case_at, str_eq};

verus! {

/// What a board's pictures are for; decides how prompts are written and the default frame.
#[derive(Debug, Clone, Copy, PartialEq, Eq, Structural)]
pub enum ImagePurpose {
    /// Modelling reference: white background, one object, 3/4 view, clear shape.
    ModelRef,
    /// The product in its setting, for notes and detail pages.
    Scene,
    /// A cover: leaves room for a title.
    Cover,
    /// No preset.
    Free,
}

impl Default for ImagePurpose {
    fn default() -> (r: Self)
        ensures
            r == ImagePurpose::ModelRef,
    {
        ImagePurpose::ModelRef
    }
}

#[derive(Debug, Clone, Copy, PartialEq, Eq, Structural)]
pub enum ImageAspect {
    Square,
    Portrait,
    Landscape,
    Tall,
    Wide,
}

impl Default for ImageAspect {
    fn default() -> (r: Self)
        ensures
            r == ImageAspect::Square,
    {
        ImageAspect::Square
    }
}

impl ImagePurpose {
    pub open spec fn name(self) -> Seq<char> {
        match self {
            ImagePurpose::ModelRef => "model_ref"@,
            ImagePurpose::Scene => "scene"@,
            ImagePurpose::Cover => "cover"@,
            ImagePurpose::Free => "free"@,
        }
    }

    /// Unknown names read as the default purpose.
    pub open spec fn from_name(s: Seq<char>) -> ImagePurpose {
        if s == "scene"@ {
            ImagePurpose::Scene
        } else if s == "cover"@ {
            ImagePurpose::Cover
        } else if s == "free"@ {
            ImagePurpose::Free
        } else {
            ImagePurpose::ModelRef
        }
    }

    pub open spec fn default_frame(self) -> ImageAspect {
        match self {
            ImagePurpose::ModelRef | ImagePurpose::Free => ImageAspect::Square,
            ImagePurpose::Scene | ImagePurpose::Cover => ImageAspect::Portrait,
        }
    }

    pub fn as_str(self) -> (r: &'static str)
        ensures
            r@ == self.name(),
    {
        match self {
            ImagePurpose::ModelRef => "model_ref",
            ImagePurpose::Scene => "scene",
            ImagePurpose::Cover => "cover",
            ImagePurpose::Free => "free",
        }
    }

    pub fn parse(s: &str) -> (r: ImagePurpose)
        ensures
            r == ImagePurpose::from_name(s@),
    {
        if str_eq(s, "scene") {
            ImagePurpose::Scene
        } else if str_eq(s, "cover") {
            ImagePurpose::Cover
        } else if str_eq(s, "free") {
            ImagePurpose::Free
        } else {
            ImagePurpose::ModelRef
        }
    }

    /// Notes and covers are 3:4 on the channel; references and free pictures are square.
    pub fn default_aspect(self) -> (r: ImageAspect)
        ensures
            r == self.default_frame(),
    {
        match self {
            ImagePurpose::ModelRef | ImagePurpose::Free => ImageAspect::Square,
            ImagePurpose::Scene | ImagePurpose::Cover => ImageAspect::Portrait,
        }
    }
}

impl ImageAspect {
    pub const ALL: [ImageAspect; 5] = [
        ImageAspect::Square,
        ImageAspect::Portrait,
        ImageAspect::Landscape,
        ImageAspect::Tall,
        ImageAspect::Wide,
    ];

    pub open spec fn ratio_text(self) -> Seq<char> {
        match self {
            ImageAspect::Square => "1:1"@,
            ImageAspect::Portrait => "3:4"@,
            ImageAspect::Landscape => "4:3"@,
            ImageAspect::Tall => "9:16"@,
            ImageAspect::Wide => "16:9"@,
        }
    }

    pub open spec fn name(self) -> Seq<char> {
        match self {
            ImageAspect::Square => "square"@,
            ImageAspect::Portrait => "portrait"@,
            ImageAspect::Landscape => "landscape"@,
            ImageAspect::Tall => "tall"@,
            ImageAspect::Wide => "wide"@,
        }
    }

    /// The first frame, in `ALL` order, whose name or ratio is `s`; the default frame otherwise.
    pub open spec fn from_text(s: Seq<char>) -> ImageAspect {
        if s == "square"@ || s == "1:1"@ {
            ImageAspect::Square
        } else if s == "portrait"@ || s == "3:4"@ {
            ImageAspect::Portrait
        } else if s == "landscape"@ || s == "4:3"@ {
            ImageAspect::Landscape
        } else if s == "tall"@ || s == "9:16"@ {
            ImageAspect::Tall
        } else if s == "wide"@ || s == "16:9"@ {
            ImageAspect::Wide
        } else {
            ImageAspect::Square
        }
    }

    /// Width part of the ratio.
    pub open spec fn w_part(self) -> nat {
        match self {
            ImageAspect::Square => 1,
            ImageAspect::Portrait => 3,
            ImageAspect::Landscape => 4,
            ImageAspect::Tall => 9,
            ImageAspect::Wide => 16,
        }
    }

    /// Height part of the ratio.
    pub open spec fn h_part(self) -> nat {
        match self {
            ImageAspect::Square => 1,
            ImageAspect::Portrait => 4,
            ImageAspect::Landscape => 3,
            ImageAspect::Tall => 16,
            ImageAspect::Wide => 9,
        }
    }

    pub fn ratio(self) -> (r: &'static str)
        ensures
            r@ == self.ratio_text(),
    {
        match self {
            ImageAspect::Square => "1:1",
            ImageAspect::Portrait => "3:4",
            ImageAspect::Landscape => "4:3",
            ImageAspect::Tall => "9:16",
            ImageAspect::Wide => "16:9",
        }
    }

    pub fn as_str(self) -> (r: &'static str)
        ensures
            r@ == self.name(),
    {
        match self {
            ImageAspect::Square => "square",
            ImageAspect::Portrait => "portrait",
            ImageAspect::Landscape => "landscape",
            ImageAspect::Tall => "tall",
            ImageAspect::Wide => "wide",
        }
    }

    /// Accepts a frame's name or its ratio (`3:4`, as models write it); unknown gives the default.
    pub fn parse(s: &str) -> (r: ImageAspect)
        ensures
            r == ImageAspect::from_text(s@),
    {
        if str_eq(s, "square") || str_eq(s, "1:1") {
            ImageAspect::Square
        } else if str_eq(s, "portrait") || str_eq(s, "3:4") {
            ImageAspect::Portrait
        } else if str_eq(s, "landscape") || str_eq(s, "4:3") {
            ImageAspect::Landscape
        } else if str_eq(s, "tall") || str_eq(s, "9:16") {
            ImageAspect::Tall
        } else if str_eq(s, "wide") || str_eq(s, "16:9") {
            ImageAspect::Wide
        } else {
            ImageAspect::Square
        }
    }

    /// For a `w` × `h` picture, the frame's ratio over the picture's ratio is
    /// `(wp · h) / (hp · w)`; its distance in log scale is `ln(big / small)` of the two products.
    pub open spec fn big(self, w: nat, h: nat) -> nat {
        let (a, b) = (self.w_part() * h, self.h_part() * w);
        if a >= b { a } else { b }
    }

    pub open spec fn small(self, w: nat, h: nat) -> nat {
        let (a, b) = (self.w_part() * h, self.h_part() * w);
        if a >= b { b } else { a }
    }

    /// `self` is strictly closer to the picture's ratio than `other`, in log distance.
    pub open spec fn closer_than(self, other: ImageAspect, w: nat, h: nat) -> bool {
        self.big(w, h) * other.small(w, h) < other.big(w, h) * self.small(w, h)
    }

    /// Keep `cur` unless `cand` is strictly closer (so ties go to the earlier frame).
    pub open spec fn pick(cur: ImageAspect, cand: ImageAspect, w: nat, h: nat) -> ImageAspect {
        if cand.closer_than(cur, w, h) { cand } else { cur }
    }

    /// The frame closest to a `w` × `h` picture in log distance (2:1 and 1:2 are equally far from
    /// 1:1); among equally close frames the first in `ALL`. A zero side gives the default frame.
    pub open spec fn nearest_spec(w: nat, h: nat) -> ImageAspect {
        if w == 0 || h == 0 {
            ImageAspect::Square
        } else {
            let a = ImageAspect::pick(ImageAspect::Square, ImageAspect::Portrait, w, h);
            let b = ImageAspect::pick(a, ImageAspect::Landscape, w, h);
            let c = ImageAspect::pick(b, ImageAspect::Tall, w, h);
            ImageAspect::pick(c, ImageAspect::Wide, w, h)
        }
    }

    fn parts(self) -> (r: (u128, u128))
        ensures
            r.0 == self.w_part(),
            r.1 == self.h_part(),
    {
        match self {
            ImageAspect::Square => (1, 1),
            ImageAspect::Portrait => (3, 4),
            ImageAspect::Landscape => (4, 3),
            ImageAspect::Tall => (9, 16),
            ImageAspect::Wide => (16, 9),
        }
    }

    fn spread(self, w: u32, h: u32) -> (r: (u128, u128))
        ensures
            r.0 == self.big(w as nat, h as nat),
            r.1 == self.small(w as nat, h as nat),
            r.0 <= 16 * 0xffff_ffffu128,
            r.1 <= r.0,
    {
        let (wp, hp) = self.parts();
        assert(wp * (h as u128) <= 16 * 0xffff_ffffu128) by (nonlinear_arith)
            requires
                wp <= 16,
                h <= 0xffff_ffffu32,
        {
        }
        assert(hp * (w as u128) <= 16 * 0xffff_ffffu128) by (nonlinear_arith)
            requires
                hp <= 16,
                w <= 0xffff_ffffu32,
        {
        }
        let a = wp * (h as u128);
        let b = hp * (w as u128);
        if a >= b { (a, b) } else { (b, a) }
    }

    fn closer(self, other: ImageAspect, w: u32, h: u32) -> (r: bool)
        ensures
            r == self.closer_than(other, w as nat, h as nat),
    {
        let (sb, ss) = self.spread(w, h);
        let (ob, os) = other.spread(w, h);
        assert(sb * os <= (16 * 0xffff_ffffu128) * (16 * 0xffff_ffffu128)) by (nonlinear_arith)
            requires
                sb <= 16 * 0xffff_ffffu128,
                os <= 16 * 0xffff_ffffu128,
        {
        }
        assert(ob * ss <= (16 * 0xffff_ffffu128) * (16 * 0xffff_ffffu128)) by (nonlinear_arith)
            requires
                ob <= 16 * 0xffff_ffffu128,
                ss <= 16 * 0xffff_ffffu128,
        {
        }
        sb * os < ob * ss
    }

    /// Which frame an existing (imported) picture is closest to.
    pub fn nearest(width: u32, height: u32) -> (r: ImageAspect)
        ensures
            r == ImageAspect::nearest_spec(width as nat, height as nat),
    {
        if width == 0 || height == 0 {
            return ImageAspect::Square;
        }
        let mut best = ImageAspect::Square;
        if ImageAspect::Portrait.closer(best, width, height) {
            best = ImageAspect::Portrait;
        }
        if ImageAspect::Landscape.closer(best, width, height) {
            best = ImageAspect::Landscape;
        }
        if ImageAspect::Tall.closer(best, width, height) {
            best = ImageAspect::Tall;
        }
        if ImageAspect::Wide.closer(best, width, height) {
            best = ImageAspect::Wide;
        }
        best
    }
}

/// Reading back a purpose's name, or a frame's name or ratio, gives it back.
pub proof fn imagery_names_roundtrip(p: ImagePurpose, a: ImageAspect)
    ensures
        ImagePurpose::from_name(p.name()) == p,
        ImageAspect::from_text(a.name()) == a,
        ImageAspect::from_text(a.ratio_text()) == a,
{
    reveal_strlit("model_ref");
    reveal_strlit("scene");
    reveal_strlit("cover");
    reveal_strlit("free");
    reveal_strlit("square");
    reveal_strlit("portrait");
    reveal_strlit("landscape");
    reveal_strlit("tall");
    reveal_strlit("wide");
    reveal_strlit("1:1");
    reveal_strlit("3:4");
    reveal_strlit("4:3");
    reveal_strlit("9:16");
    reveal_strlit("16:9");
    let n = p.name();
    if p != ImagePurpose::Scene { assert(n != "scene"@) by { assert(n.len() != 5 || n[0] != 's'); } }
    if p != ImagePurpose::Cover { assert(n != "cover"@) by { assert(n.len() != 5 || n[0] != 'c'); } }
    if p != ImagePurpose::Free { assert(n != "free"@) by { assert(n.len() != 4 || n[0] != 'f'); } }
    let m = a.name();
    let r = a.ratio_text();
    assert(m[0] != '1' && m[0] != '3' && m[0] != '4' && m[0] != '9');
    assert(r[0] != 's' && r[0] != 'p' && r[0] != 'l' && r[0] != 't' && r[0] != 'w');
    if a != ImageAspect::Square {
        assert(m != "square"@) by { assert(m.len() != 6 || m[0] != 's'); }
        assert(r != "1:1"@) by { assert(r.len() != 3 || r[0] != '1'); }
        assert(m != "1:1"@) by { assert(m[0] != '1'); }
        assert(r != "square"@) by { assert(r[0] != 's'); }
    }
    if a != ImageAspect::Portrait {
        assert(m != "portrait"@) by { assert(m.len() != 8 || m[0] != 'p'); }
        assert(r != "3:4"@) by { assert(r.len() != 3 || r[0] != '3'); }
        assert(m != "3:4"@) by { assert(m[0] != '3'); }
        assert(r != "portrait"@) by { assert(r[0] != 'p'); }
    }
    if a != ImageAspect::Landscape {
        assert(m != "landscape"@) by { assert(m.len() != 9 || m[0] != 'l'); }
        assert(r != "4:3"@) by { assert(r.len() != 3 || r[0] != '4'); }
        assert(m != "4:3"@) by { assert(m[0] != '4'); }
        assert(r != "landscape"@) by { assert(r[0] != 'l'); }
    }
    if a != ImageAspect::Tall {
        assert(m != "tall"@) by { assert(m.len() != 4 || m[0] != 't'); }
        assert(r != "9:16"@) by { assert(r.len() != 4 || r[0] != '9'); }
        assert(m != "9:16"@) by { assert(m[0] != '9'); }
        assert(r != "tall"@) by { assert(r[0] != 't'); }
    }
}

/// Picture formats that can be imported (the ones the decoder opens).
pub const IMPORT_EXTENSIONS: [&'static str; 5] = ["png", "jpg", "jpeg", "jfif", "webp"];
/// At most this many files per import, so a whole album is not dragged in.
pub const IMPORT_MAX_FILES: usize = 20;

/// Where the file name starts: just after the last `/` or `\` at or before `i`, else 0.
pub open spec fn name_start(s: Seq<char>, i: int) -> int
    decreases i + 1,
{
    if i < 0 || i >= s.len() {
        0
    } else if s[i] == '/' || s[i] == '\\' {
        i + 1
    } else {
        name_start(s, i - 1)
    }
}

/// Last index of `.` at or before `i`, if any.
pub open spec fn last_dot(s: Seq<char>, i: int) -> Option<int>
    decreases i + 1,
{
    if i < 0 || i >= s.len() {
        None
    } else if s[i] == '.' {
        Some(i)
    } else {
        last_dot(s, i - 1)
    }
}

pub open spec fn import_exts() -> Seq<Seq<char>> {
    seq!["png"@, "jpg"@, "jpeg"@, "jfif"@, "webp"@]
}

/// The part of `path` after its last `/` or `\\`.
pub open spec fn file_name(path: Seq<char>) -> Seq<char> {
    path.subrange(name_start(path, path.len() - 1), path.len() as int)
}

/// What follows the dot at `d` is one of `IMPORT_EXTENSIONS`, in any letter case.
pub open spec fn known_ext(name: Seq<char>, d: int) -> bool {
    exists|k: int| 0 <= k < 5 && #[trigger] eq_ignore_case(name.subrange(d + 1, name.len() as int), import_exts()[k])
}

/// The file name has a non-empty stem before its last dot and a known extension after it.
pub open spec fn importable(path: Seq<char>) -> bool {
    match last_dot(file_name(path), file_name(path).len() - 1) {
        Some(d) => d > 0 && known_ext(file_name(path), d),
        None => false,
    }
}

proof fn lemma_name_start_bounds(s: Seq<char>, i: int)
    requires
        -1 <= i < s.len(),
    ensures
        0 <= name_start(s, i) <= i + 1,
    decreases i + 1,
{
    if i >= 0 && s[i] != '/' && s[i] != '\\' {
        lemma_name_start_bounds(s, i - 1);
    }
}

proof fn lemma_last_dot_bounds(s: Seq<char>, i: int)
    requires
        -1 <= i < s.len(),
    ensures
        last_dot(s, i) matches Some(d) ==> 0 <= d <= i && s[d] == '.',
    decreases i + 1,
{
    if i >= 0 && s[i] != '.' {
        lemma_last_dot_bounds(s, i - 1);
    }
}

/// By extension only: a file dragged in passes this first; decoding decides in the end.
pub fn is_importable_image(path: &str) -> (r: bool)
    ensures
        r == importable(path@),
{
    let v = chars_of(path);
    let n = v.len();
    // start of the file name
    let mut i = n;
    while i > 0 && v[i - 1] != '/' && v[i - 1] != '\\'
        invariant
            i <= n == v@.len(),
            name_start(v@, n - 1) == name_start(v@, i - 1),
        decreases i,
    {
        i -= 1;
    }
    let start = i;
    proof {
        lemma_name_start_bounds(v@, n - 1);
        assert(start == name_start(v@, n - 1));
    }
    let mut name: Vec<char> = Vec::new();
    let mut k = start;
    while k < n
        invariant
            start <= k <= n == v@.len(),
            name@ == v@.subrange(start as int, k as int),
        decreases n - k,
    {
        name.push(v[k]);
        assert(v@.subrange(start as int, k + 1) == v@.subrange(start as int, k as int).push(v@[k as int]));
        k += 1;
    }
    let m = name.len();
    let mut j = m;
    while j > 0 && name[j - 1] != '.'
        invariant
            j <= m == name@.len(),
            last_dot(name@, m - 1) == last_dot(name@, j - 1),
        decreases j,
    {
        j -= 1;
    }
    if j == 0 {
        return false;
    }
    let d = j - 1;
    proof {
        lemma_last_dot_bounds(name@, m - 1);
    }
    if d == 0 {
        return false;
    }
    assert(name@ == path@.subrange(name_start(path@, path@.len() - 1), path@.len() as int));
    let exts: [&'static str; 5] = IMPORT_EXTENSIONS;
    let mut e: usize = 0;
    while e < 5
        invariant
            e <= 5,
            0 < d < m == name@.len(),
            last_dot(name@, m - 1) == Some(d as int),
            0 <= name_start(path@, path@.len() - 1) <= path@.len(),
            name@ == file_name(path@),
            exts@.map_values(|x: &str| x@) == import_exts(),
            forall|q: int| 0 <= q < e ==> !#[trigger] eq_ignore_case(name@.subrange(d + 1, m as int), import_exts()[q]),
        decreases 5 - e,
    {
        let ext = chars_of(exts[e]);
        assert(ext@ == import_exts()[e as int]) by {
            assert(exts@.map_values(|x: &str| x@)[e as int] == exts@[e as int]@);
        }
        if eq_ignore_case_at(&name, d + 1, m, &ext) {
            proof {
                let nm = path@.subrange(name_start(path@, path@.len() - 1), path@.len() as int);
                assert(nm == name@);
                assert(last_dot(nm, nm.len() - 1) == Some(d as int));
                assert(eq_ignore_case(nm.subrange(d + 1, nm.len() as int), import_exts()[e as int]));
                assert(known_ext(nm, d as int));
            }
            return true;
        }
        e += 1;
    }
    false
}

#[derive(Debug, Clone, PartialEq)]
pub struct ImageBoard {
    pub id: String,
    pub project_id: Option<String>,
    pub name: String,
    pub purpose: ImagePurpose,
    pub aspect: ImageAspect,
    /// Reference pictures the user pasted (asset ids).
    pub ref_asset_ids: Vec<String>,
    /// The selected picture ("change it a bit" means this one).
    pub current_image_id: Option<String>,
    pub created_at: i64,
    pub updated_at: i64,
}

/// A row of the board list.
#[derive(Debug, Clone, PartialEq)]
pub struct ImageBoardSummary {
    pub id: String,
    pub name: String,
    pub purpose: ImagePurpose,
    /// Cover = the asset id of the selected picture.
    pub cover_asset_id: Option<String>,
    pub images: u32,
    pub updated_at: i64,
}

/// One picture of a board, generated or imported. `parent_id` set = edited from that picture.
#[derive(Debug, Clone, PartialEq)]
pub struct ImageVersion {
    pub id: String,
    pub board_id: String,
    pub parent_id: Option<String>,
    pub asset_id: String,
    /// The prompt (or edit instruction) given to the picture model; empty for imports.
    pub prompt: String,
    /// generate · edit · import
    pub mode: String,
    pub provider: String,
    pub model: String,
    pub aspect: ImageAspect,
    /// Adopted by the user (can go to modelling, can be a cover).
    pub adopted: bool,
    pub created_at: i64,
}

#[derive(Debug, Clone, Copy, PartialEq, Eq, Structural)]
pub enum ImageMsgKind {
    /// Text: the user's words; the assistant's answer or question.
    Text,
    /// A batch of pictures, generated or imported.
    Images,
}

/// A file that was not imported: its name and the reason (`#code#detail`).
#[derive(Debug, Clone, PartialEq)]
pub struct ImportFailure {
    pub name: String,
    pub reason: String,
}

/// Picture-related settings (preferred provider, endpoints). Keys are not here.
#[derive(Debug, Clone, Default, PartialEq)]
pub struct ImageSettings {
    /// auto / minimax / qwen
    pub provider: String,
    pub minimax_base_url: String,
    pub qwen_base_url: String,
}

/// A picture version before it is stored.
#[derive(Debug, Clone)]
pub struct NewImageVersion {
    pub board_id: String,
    pub parent_id: Option<String>,
    pub asset_id: String,
    pub prompt: String,
    /// generate · edit · import
    pub mode: String,
    pub provider: String,
    pub model: String,
    pub aspect: ImageAspect,
}

} // verus!
