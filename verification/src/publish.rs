//! Listing and publishing: channel rules, drafts, and the compliance check that runs on every
//! keystroke in the editor and once more, authoritatively, when a pack is made.
use vstd::prelude::*;

use crate::text::{
    append_chars, append_str, decimal, decimal_string, chars_of, contains, contains_vec, is_ws, is_ws_char, join, join_strings, matches_at, occurs_at, push_char, seq_eq,
    str_eq, str_views, string_from, string_of, trim, trim_bounds, views,
};

verus! {

/// Sales / content channels. Only Xiaohongshu for now.
#[derive(Debug, Clone, Copy, PartialEq, Eq, Hash, Structural)]
pub enum Channel {
    Xhs,
}

impl Default for Channel {
    fn default() -> (r: Self)
        ensures
            r == Channel::Xhs,
    {
        Channel::Xhs
    }
}

impl Channel {
    pub open spec fn name(self) -> Seq<char> {
        "xhs"@
    }

    pub fn as_str(self) -> (r: &'static str)
        ensures
            r@ == self.name(),
    {
        "xhs"
    }

    /// Every name reads as the only channel there is.
    pub fn parse(s: &str) -> (r: Channel)
        ensures
            r == Channel::Xhs,
    {
        Channel::Xhs
    }
}

#[derive(Debug, Clone, Copy, PartialEq, Eq, Hash, Structural)]
pub enum DraftKind {
    /// A note (content): title + body + topics + pictures.
    Note,
    /// A listing in the shop back office: title + selling points + details + price + main pictures.
    Listing,
}

impl DraftKind {
    pub open spec fn name(self) -> Seq<char> {
        match self {
            DraftKind::Note => "note"@,
            DraftKind::Listing => "listing"@,
        }
    }

    pub open spec fn from_name(s: Seq<char>) -> DraftKind {
        if s == "listing"@ {
            DraftKind::Listing
        } else {
            DraftKind::Note
        }
    }

    pub fn as_str(self) -> (r: &'static str)
        ensures
            r@ == self.name(),
    {
        match self {
            DraftKind::Note => "note",
            DraftKind::Listing => "listing",
        }
    }

    pub fn parse(s: &str) -> (r: DraftKind)
        ensures
            r == DraftKind::from_name(s@),
    {
        if str_eq(s, "listing") {
            DraftKind::Listing
        } else {
            DraftKind::Note
        }
    }
}

/// A channel's hard rules for one kind of content.
#[derive(Debug, Clone, Copy, PartialEq)]
pub struct ContentSpec {
    pub title_max: usize,
    pub body_max: usize,
    /// Most topics allowed (listings have none = 0).
    pub tags_max: usize,
    pub images_min: usize,
    pub images_max: usize,
    /// Pack pictures are processed to this size (width, height).
    pub image_px: (u32, u32),
    pub image_max_bytes: usize,
    /// The first picture must be a real photo (not AI-generated).
    pub first_image_must_be_photo: bool,
    /// The official web page for publishing; "publish from the computer" opens it.
    pub publish_url: &'static str,
}

/// Note: title ≤ 20, body ≤ 1000, ≤ 5 topics, 1–18 pictures. Listing: title ≤ 60, 3–9 pictures,
/// the first a real photo. Both: 1080 × 1440 pictures of at most 3 MB.
pub open spec fn spec_holds(s: ContentSpec, kind: DraftKind) -> bool {
    &&& s.body_max == 1000
    &&& s.image_px == (1080u32, 1440u32)
    &&& s.image_max_bytes == 3 * 1024 * 1024
    &&& match kind {
        DraftKind::Note => {
            &&& s.title_max == 20
            &&& s.tags_max == 5
            &&& s.images_min == 1
            &&& s.images_max == 18
            &&& !s.first_image_must_be_photo
            &&& s.publish_url@ == "https://creator.xiaohongshu.com/publish/publish"@
        },
        DraftKind::Listing => {
            &&& s.title_max == 60
            &&& s.tags_max == 0
            &&& s.images_min == 3
            &&& s.images_max == 9
            &&& s.first_image_must_be_photo
            &&& s.publish_url@ == "https://ark.xiaohongshu.com/"@
        },
    }
}

pub fn spec(channel: Channel, kind: DraftKind) -> (r: ContentSpec)
    ensures
        spec_holds(r, kind),
{
    match (channel, kind) {
        (Channel::Xhs, DraftKind::Note) => ContentSpec {
            title_max: 20,
            body_max: 1000,
            tags_max: 5,
            images_min: 1,
            images_max: 18,
            image_px: (1080, 1440),
            image_max_bytes: 3 * 1024 * 1024,
            first_image_must_be_photo: false,
            publish_url: "https://creator.xiaohongshu.com/publish/publish",
        },
        (Channel::Xhs, DraftKind::Listing) => ContentSpec {
            title_max: 60,
            body_max: 1000,
            tags_max: 0,
            images_min: 3,
            images_max: 9,
            image_px: (1080, 1440),
            image_max_bytes: 3 * 1024 * 1024,
            first_image_must_be_photo: true,
            publish_url: "https://ark.xiaohongshu.com/",
        },
    }
}

/// The angle a note is written from. One product, several angles: the cheapest way to test.
#[derive(Debug, Clone, Copy, PartialEq, Eq, Hash, Structural)]
pub enum NoteAngle {
    /// The annoying problem first.
    Pain,
    /// How it looks on the desk / at home.
    Scene,
    /// Printing, sanding, assembling.
    Process,
    /// Behind the design: why it looks like this, how many versions.
    Backstage,
    /// A custom story: made for whom, engraved with what.
    Custom,
}

impl Default for NoteAngle {
    fn default() -> (r: Self)
        ensures
            r == NoteAngle::Pain,
    {
        NoteAngle::Pain
    }
}

impl NoteAngle {
    pub const ALL: [NoteAngle; 5] = [NoteAngle::Pain, NoteAngle::Scene, NoteAngle::Process, NoteAngle::Backstage, NoteAngle::Custom];

    pub open spec fn name(self) -> Seq<char> {
        match self {
            NoteAngle::Pain => "pain"@,
            NoteAngle::Scene => "scene"@,
            NoteAngle::Process => "process"@,
            NoteAngle::Backstage => "backstage"@,
            NoteAngle::Custom => "custom"@,
        }
    }

    /// Unknown names read as the default angle.
    pub open spec fn from_name(s: Seq<char>) -> NoteAngle {
        if s == "pain"@ {
            NoteAngle::Pain
        } else if s == "scene"@ {
            NoteAngle::Scene
        } else if s == "process"@ {
            NoteAngle::Process
        } else if s == "backstage"@ {
            NoteAngle::Backstage
        } else if s == "custom"@ {
            NoteAngle::Custom
        } else {
            NoteAngle::Pain
        }
    }

    pub fn as_str(self) -> (r: &'static str)
        ensures
            r@ == self.name(),
    {
        match self {
            NoteAngle::Pain => "pain",
            NoteAngle::Scene => "scene",
            NoteAngle::Process => "process",
            NoteAngle::Backstage => "backstage",
            NoteAngle::Custom => "custom",
        }
    }

    pub fn parse(s: &str) -> (r: NoteAngle)
        ensures
            r == NoteAngle::from_name(s@),
    {
        if str_eq(s, "pain") {
            NoteAngle::Pain
        } else if str_eq(s, "scene") {
            NoteAngle::Scene
        } else if str_eq(s, "process") {
            NoteAngle::Process
        } else if str_eq(s, "backstage") {
            NoteAngle::Backstage
        } else if str_eq(s, "custom") {
            NoteAngle::Custom
        } else {
            NoteAngle::Pain
        }
    }
}

#[derive(Debug, Clone, Copy, PartialEq, Eq, Hash, Structural)]
pub enum DraftStatus {
    Draft,
    /// A pack was made; the link is not filled in yet.
    Packed,
    Published,
}

impl Default for DraftStatus {
    fn default() -> (r: Self)
        ensures
            r == DraftStatus::Draft,
    {
        DraftStatus::Draft
    }
}

impl DraftStatus {
    pub open spec fn name(self) -> Seq<char> {
        match self {
            DraftStatus::Draft => "draft"@,
            DraftStatus::Packed => "packed"@,
            DraftStatus::Published => "published"@,
        }
    }

    pub open spec fn from_name(s: Seq<char>) -> DraftStatus {
        if s == "packed"@ {
            DraftStatus::Packed
        } else if s == "published"@ {
            DraftStatus::Published
        } else {
            DraftStatus::Draft
        }
    }

    pub fn as_str(self) -> (r: &'static str)
        ensures
            r@ == self.name(),
    {
        match self {
            DraftStatus::Draft => "draft",
            DraftStatus::Packed => "packed",
            DraftStatus::Published => "published",
        }
    }

    pub fn parse(s: &str) -> (r: DraftStatus)
        ensures
            r == DraftStatus::from_name(s@),
    {
        if str_eq(s, "packed") {
            DraftStatus::Packed
        } else if str_eq(s, "published") {
            DraftStatus::Published
        } else {
            DraftStatus::Draft
        }
    }
}

/// Reading back the name of a kind, angle or status gives it back.
pub proof fn publish_names_roundtrip(k: DraftKind, a: NoteAngle, s: DraftStatus)
    ensures
        DraftKind::from_name(k.name()) == k,
        NoteAngle::from_name(a.name()) == a,
        DraftStatus::from_name(s.name()) == s,
{
    reveal_strlit("note");
    reveal_strlit("listing");
    reveal_strlit("pain");
    reveal_strlit("scene");
    reveal_strlit("process");
    reveal_strlit("backstage");
    reveal_strlit("custom");
    reveal_strlit("draft");
    reveal_strlit("packed");
    reveal_strlit("published");
    let n = k.name();
    if k != DraftKind::Listing { assert(n != "listing"@) by { assert(n.len() != 7); } }
    let m = a.name();
    if a != NoteAngle::Pain { assert(m != "pain"@) by { assert(m.len() != 4 || m[0] != 'p'); } }
    if a != NoteAngle::Scene { assert(m != "scene"@) by { assert(m.len() != 5 || m[0] != 's'); } }
    if a != NoteAngle::Process { assert(m != "process"@) by { assert(m.len() != 7 || m[0] != 'p'); } }
    if a != NoteAngle::Backstage { assert(m != "backstage"@) by { assert(m.len() != 9 || m[0] != 'b'); } }
    let q = s.name();
    if s != DraftStatus::Packed { assert(q != "packed"@) by { assert(q.len() != 6 || q[0] != 'p'); } }
    if s != DraftStatus::Published { assert(q != "published"@) by { assert(q.len() != 9 || q[0] != 'p'); } }
}

/// A note draft.
#[derive(Debug, Clone, PartialEq)]
pub struct NoteDraft {
    pub id: String,
    pub project_id: String,
    pub channel: Channel,
    pub angle: NoteAngle,
    pub title: String,
    pub body: String,
    /// Topics, without `#`.
    pub tags: Vec<String>,
    /// Pictures (asset ids) in publishing order; the first is the cover.
    pub images: Vec<String>,
    pub status: DraftStatus,
    pub external_url: Option<String>,
    /// Drafted by AI (its cost is in the ledger; this is only a mark).
    pub ai_drafted: bool,
    pub created_at: i64,
    pub updated_at: i64,
}

impl Default for NoteDraft {
    fn default() -> (r: Self)
        ensures
            r.id@.len() == 0 && r.project_id@.len() == 0 && r.title@.len() == 0 && r.body@.len() == 0,
            r.tags@.len() == 0 && r.images@.len() == 0,
            r.channel == Channel::Xhs && r.angle == NoteAngle::Pain && r.status == DraftStatus::Draft,
            r.external_url is None && !r.ai_drafted && r.created_at == 0 && r.updated_at == 0,
    {
        NoteDraft {
            id: String::new(),
            project_id: String::new(),
            channel: Channel::Xhs,
            angle: NoteAngle::Pain,
            title: String::new(),
            body: String::new(),
            tags: Vec::new(),
            images: Vec::new(),
            status: DraftStatus::Draft,
            external_url: None,
            ai_drafted: false,
            created_at: 0,
            updated_at: 0,
        }
    }
}

/// Where a model (design) comes from decides whether it may be sold.
#[derive(Debug, Clone, Copy, PartialEq, Eq, Structural)]
pub enum ModelLicense {
    /// Designed by the seller (including with AI in the modelling studio).
    Original,
    /// A third-party model with a commercial license.
    Licensed,
    /// Personal / non-commercial only: may not be sold.
    NonCommercial,
}

#[derive(Debug, Clone, Copy, PartialEq, Eq, Structural)]
pub enum ShipMode {
    /// In stock: shipped within 48 hours.
    InStock,
    /// Pre-sale: shipped within N days of payment.
    Presale { days: u32 },
}

impl Default for ShipMode {
    fn default() -> (r: Self)
        ensures
            r == ShipMode::InStock,
    {
        ShipMode::InStock
    }
}

/// A picture that can go with a draft. The check only cares whether it is AI-generated.
#[derive(Debug, Clone, PartialEq)]
pub struct PublishImage {
    pub asset_id: String,
    /// AI-generated (from the picture workbench). A real photo is `false`.
    pub ai_generated: bool,
    /// photo (imported) / board (adopted on a board) / render (model render)
    pub source: String,
    pub width: u32,
    pub height: u32,
}

impl Default for PublishImage {
    fn default() -> (r: Self)
        ensures
            r.asset_id@.len() == 0 && !r.ai_generated && r.source@.len() == 0 && r.width == 0 && r.height == 0,
    {
        PublishImage { asset_id: String::new(), ai_generated: false, source: String::new(), width: 0, height: 0 }
    }
}

/// Where the link goes for a phone, and its QR code.
#[derive(Debug, Clone, Default, PartialEq)]
pub struct ShareInfo {
    pub url: String,
    /// QR code (SVG text).
    pub qr_svg: String,
    /// false = only this computer can open it (no LAN address found).
    pub lan: bool,
}

/// How a picture is fitted into the channel's frame.
#[derive(Debug, Clone, Copy, PartialEq, Eq, Structural)]
pub enum ImageFit {
    /// Centre crop, filling the frame (scenes).
    Cover,
    /// Whole picture inside, padded (white-background product shots).
    Contain,
}

impl Default for ImageFit {
    fn default() -> (r: Self)
        ensures
            r == ImageFit::Cover,
    {
        ImageFit::Cover
    }
}

// ---------------------------------------------------------------- compliance check: types

#[derive(Debug, Clone, Copy, PartialEq, Eq, Structural)]
pub enum Severity {
    /// No pack until it is fixed (a written reason can override).
    Block,
    /// Worth a look; does not stop anything.
    Warn,
}

#[derive(Debug, Clone, Copy, PartialEq, Eq, Structural)]
pub enum LintField {
    Title,
    Body,
    Tags,
    Images,
    Price,
    License,
}

#[derive(Debug, Clone, Copy, PartialEq, Eq, Structural)]
pub enum LintCode {
    TitleEmpty,
    TitleTooLong,
    BodyEmpty,
    BodyTooLong,
    TooManyTags,
    TooFewImages,
    TooManyImages,
    /// A listing's first picture must be a real photo.
    FirstImageNotPhoto,
    /// AI pictures used: tick the platform's AI-content declaration when publishing.
    AiImages,
    /// Superlatives (best, first, top…): advertising law and the platform both forbid them.
    Extreme,
    /// Health or medical claims.
    Medical,
    /// IP / brand names (characters, films, games, designer toys): not without a license.
    IpName,
    /// Taking buyers off the platform (chat handles, links, phone numbers).
    Diversion,
    /// Cash for reviews, fake orders.
    FakeReview,
    /// Category warning: children's products.
    CategoryKids,
    /// Category warning: powered / lamps.
    CategoryElectric,
    /// Category warning: food contact.
    CategoryFood,
    /// Category warning: blades / weapon shapes.
    CategoryWeapon,
    PriceMissing,
    /// Price below unit cost.
    PriceBelowCost,
    LicenseMissing,
    /// A non-commercial model cannot be sold.
    LicenseNonCommercial,
}

/// One finding: typed, so the UI localises by `code`; `hit` is the word or number that triggered it.
#[derive(Debug, Clone, PartialEq, Eq)]
pub struct LintIssue {
    pub code: LintCode,
    pub severity: Severity,
    pub field: LintField,
    pub hit: String,
}

/// A finding as a plain value.
pub struct IssueV {
    pub code: LintCode,
    pub severity: Severity,
    pub field: LintField,
    pub hit: Seq<char>,
}

impl View for LintIssue {
    type V = IssueV;

    open spec fn view(&self) -> IssueV {
        IssueV { code: self.code, severity: self.severity, field: self.field, hit: self.hit@ }
    }
}

pub open spec fn issue_views(v: Seq<LintIssue>) -> Seq<IssueV> {
    v.map_values(|i: LintIssue| i@)
}

/// A publishing pack: processed pictures + copy, in a folder of the library. Old packs are kept.
#[derive(Debug, Clone, PartialEq)]
pub struct PublishPack {
    pub id: String,
    pub project_id: String,
    pub kind: String,
    pub draft_id: String,
    pub channel: Channel,
    /// Relative path inside the library.
    pub dir: String,
    /// Picture file names in the pack, in order.
    pub images: Vec<String>,
    pub title: String,
    pub body: String,
    pub tags: Vec<String>,
    /// Checks that failed when the pack was made (overridden).
    pub issues: Vec<LintIssue>,
    pub override_reason: String,
    pub external_url: Option<String>,
    pub created_at: i64,
}

/// After the link is filled in: the updated pack, and whether the project moved on to operating.
#[derive(Debug, Clone, PartialEq)]
pub struct PublishMarked {
    pub pack: PublishPack,
    pub advanced: bool,
}

// ---------------------------------------------------------------- topics

/// Without its leading `#`s.
pub open spec fn strip_hashes(s: Seq<char>) -> Seq<char>
    decreases s.len(),
{
    if s.len() > 0 && s[0] == '#' {
        strip_hashes(s.drop_first())
    } else {
        s
    }
}

/// The `#topic` items of a list of topics; topics that are empty after trimming and dropping
/// their own `#`s are left out.
pub open spec fn tag_items(tags: Seq<Seq<char>>) -> Seq<Seq<char>>
    decreases tags.len(),
{
    if tags.len() == 0 {
        seq![]
    } else {
        let before = tag_items(tags.drop_last());
        let core = strip_hashes(trim(tags.last()));
        if core.len() > 0 {
            before.push(seq!['#'] + core)
        } else {
            before
        }
    }
}

/// The line of topics pasted when publishing: `#a #b`.
pub open spec fn tags_line_spec(tags: Seq<Seq<char>>) -> Seq<char> {
    join(tag_items(tags), " "@)
}

/// `#` + the topic without its own leading `#`s and surrounding whitespace; `None` when nothing is left.
fn tag_item(t: &String) -> (r: Option<String>)
    ensures
        r matches Some(x) ==> strip_hashes(trim(t@)).len() > 0 && x@ == seq!['#'] + strip_hashes(trim(t@)),
        r is None ==> strip_hashes(trim(t@)).len() == 0,
{
    let v = chars_of(t.as_str());
    let (a, b) = trim_bounds(&v, 0, v.len());
    assert(v@.subrange(0, v@.len() as int) == v@);
    let mut i = a;
    while i < b && v[i] == '#'
        invariant
            a <= i <= b <= v@.len(),
            strip_hashes(v@.subrange(i as int, b as int)) == strip_hashes(trim(t@)),
        decreases b - i,
    {
        assert(v@.subrange(i as int, b as int).drop_first() == v@.subrange(i + 1, b as int));
        i += 1;
    }
    if i == b {
        return None;
    }
    let mut out = String::new();
    push_char(&mut out, '#');
    append_chars(&mut out, &v, i, b);
    Some(out)
}

impl PublishPack {
    /// The topics as the line to paste: `#desk #3Dprint`.
    pub fn tags_line(&self) -> (r: String)
        ensures
            r@ == tags_line_spec(views(self.tags@)),
    {
        tags_line(self.tags.as_slice())
    }
}

pub fn tags_line(tags: &[String]) -> (r: String)
    ensures
        r@ == tags_line_spec(views(tags@)),
{
    let mut items: Vec<String> = Vec::new();
    let mut i: usize = 0;
    while i < tags.len()
        invariant
            i <= tags@.len(),
            views(items@) == tag_items(views(tags@).take(i as int)),
        decreases tags.len() - i,
    {
        let ghost before = items@;
        assert(views(tags@).take(i + 1).drop_last() == views(tags@).take(i as int));
        assert(views(tags@).take(i + 1).last() == tags@[i as int]@);
        match tag_item(&tags[i]) {
            Some(x) => {
                items.push(x);
                assert(views(items@) == views(before).push(items@.last()@));
            },
            None => {},
        }
        i += 1;
    }
    assert(views(tags@).take(tags@.len() as int) == views(tags@));
    join_strings(items.as_slice(), " ")
}

/// What separates topics typed in one line: whitespace, ASCII and full-width commas and
/// semicolons, the enumeration comma, and `#`.
pub open spec fn is_tag_sep(c: char) -> bool {
    is_ws(c) || c == ',' || c == '\u{ff0c}' || c == '\u{3001}' || c == '#' || c == ';' || c == '\u{ff1b}'
}

/// The pieces between separators (`str::split`): `n` separators give `n + 1` pieces.
pub open spec fn tag_pieces(s: Seq<char>) -> Seq<Seq<char>>
    decreases s.len(),
{
    if s.len() == 0 {
        seq![seq![]]
    } else {
        let p = tag_pieces(s.drop_last());
        if is_tag_sep(s.last()) {
            p.push(seq![])
        } else {
            p.update(p.len() - 1, p.last().push(s.last()))
        }
    }
}

/// Each piece trimmed; empty pieces and repeats dropped, first occurrence kept.
pub open spec fn collect_tags(pieces: Seq<Seq<char>>) -> Seq<Seq<char>>
    decreases pieces.len(),
{
    if pieces.len() == 0 {
        seq![]
    } else {
        let out = collect_tags(pieces.drop_last());
        let t = trim(pieces.last());
        if t.len() > 0 && !out.contains(t) {
            out.push(t)
        } else {
            out
        }
    }
}

pub open spec fn parse_tags_spec(input: Seq<char>) -> Seq<Seq<char>> {
    collect_tags(tag_pieces(input))
}

pub proof fn lemma_tag_pieces_nonempty(s: Seq<char>)
    ensures
        tag_pieces(s).len() >= 1,
    decreases s.len(),
{
    if s.len() > 0 {
        lemma_tag_pieces_nonempty(s.drop_last());
    }
}

fn is_tag_sep_char(c: char) -> (b: bool)
    ensures
        b == is_tag_sep(c),
{
    is_ws_char(c) || c == ',' || c == '\u{ff0c}' || c == '\u{3001}' || c == '#' || c == ';' || c == '\u{ff1b}'
}

/// Is `v[lo..hi]` already in `out`?
fn already_has(out: &Vec<String>, v: &Vec<char>, lo: usize, hi: usize) -> (r: bool)
    requires
        lo <= hi <= v@.len(),
    ensures
        r == views(out@).contains(v@.subrange(lo as int, hi as int)),
{
    let mut k: usize = 0;
    while k < out.len()
        invariant
            k <= out@.len(),
            lo <= hi <= v@.len(),
            forall|j: int| 0 <= j < k ==> views(out@)[j] != v@.subrange(lo as int, hi as int),
        decreases out.len() - k,
    {
        let w = chars_of(out[k].as_str());
        assert(w@.subrange(0, w@.len() as int) == w@);
        if seq_eq(&w, 0, w.len(), v, lo, hi) {
            assert(views(out@)[k as int] == v@.subrange(lo as int, hi as int));
            return true;
        }
        k += 1;
    }
    false
}

/// Splits a typed line of topics: whitespace, commas and semicolons (ASCII and full-width),
/// the enumeration comma and `#` all separate. Repeats are dropped; order is kept.
pub fn parse_tags(input: &str) -> (r: Vec<String>)
    ensures
        views(r@) == parse_tags_spec(input@),
{
    let v = chars_of(input);
    let mut out: Vec<String> = Vec::new();
    let mut start: usize = 0;
    let mut i: usize = 0;
    while i < v.len()
        invariant
            start <= i <= v@.len(),
            v@ == input@,
            tag_pieces(v@.take(i as int)).last() == v@.subrange(start as int, i as int),
            views(out@) == collect_tags(tag_pieces(v@.take(i as int)).drop_last()),
        decreases v.len() - i,
    {
        proof {
            lemma_tag_pieces_nonempty(v@.take(i as int));
            assert(v@.take(i + 1).drop_last() == v@.take(i as int));
            assert(v@.take(i + 1).last() == v@[i as int]);
        }
        if is_tag_sep_char(v[i]) {
            let (a, b) = trim_bounds(&v, start, i);
            let ghost before = out@;
            let ghost ps = tag_pieces(v@.take(i as int));
            if a < b && !already_has(&out, &v, a, b) {
                out.push(string_of(&v, a, b));
                assert(views(out@) == views(before).push(v@.subrange(a as int, b as int)));
            }
            proof {
                let ps2 = tag_pieces(v@.take(i + 1));
                assert(ps2 == ps.push(seq![]));
                assert(ps2.drop_last() == ps);
                assert(ps.drop_last() == ps.drop_last());
                assert(collect_tags(ps) == if trim(ps.last()).len() > 0 && !collect_tags(ps.drop_last()).contains(trim(ps.last())) {
                    collect_tags(ps.drop_last()).push(trim(ps.last()))
                } else {
                    collect_tags(ps.drop_last())
                });
                assert(ps2.last() == v@.subrange(i + 1, i + 1));
            }
            start = i + 1;
        } else {
            proof {
                let ps = tag_pieces(v@.take(i as int));
                let ps2 = tag_pieces(v@.take(i + 1));
                assert(ps2 == ps.update(ps.len() - 1, ps.last().push(v@[i as int])));
                assert(ps2.drop_last() == ps.drop_last());
                assert(ps2.last() == v@.subrange(start as int, i + 1));
            }
        }
        i += 1;
    }
    proof {
        lemma_tag_pieces_nonempty(v@.take(i as int));
        assert(v@.take(i as int) == v@);
    }
    let (a, b) = trim_bounds(&v, start, v.len());
    let ghost before = out@;
    if a < b && !already_has(&out, &v, a, b) {
        out.push(string_of(&v, a, b));
        assert(views(out@) == views(before).push(v@.subrange(a as int, b as int)));
    }
    out
}

/// Length as the platform counts it: characters of the trimmed text.
pub open spec fn char_count(s: Seq<char>) -> nat {
    trim(s).len()
}

pub fn char_len(s: &str) -> (r: usize)
    ensures
        r == char_count(s@),
{
    let v = chars_of(s);
    let (a, b) = trim_bounds(&v, 0, v.len());
    assert(v@.subrange(0, v@.len() as int) == v@);
    b - a
}

// ---------------------------------------------------------------- compliance check

pub open spec fn issue_v(code: LintCode, severity: Severity, field: LintField, hit: Seq<char>) -> IssueV {
    IssueV { code, severity, field, hit }
}

/// A finding.
pub fn issue(code: LintCode, severity: Severity, field: LintField, hit: String) -> (r: LintIssue)
    ensures
        r@ == issue_v(code, severity, field, hit@),
{
    LintIssue { code, severity, field, hit }
}

/// Any finding that blocks.
pub open spec fn blocked(issues: Seq<IssueV>) -> bool {
    exists|i: int| 0 <= i < issues.len() && #[trigger] issues[i].severity == Severity::Block
}

pub fn has_blockers(issues: &[LintIssue]) -> (r: bool)
    ensures
        r == blocked(issue_views(issues@)),
{
    let mut i: usize = 0;
    while i < issues.len()
        invariant
            i <= issues@.len(),
            forall|k: int| 0 <= k < i ==> (#[trigger] issues@[k]).severity != Severity::Block,
        decreases issues.len() - i,
    {
        if issues[i].severity == Severity::Block {
            assert(issue_views(issues@)[i as int].severity == Severity::Block);
            return true;
        }
        i += 1;
    }
    assert forall|k: int| 0 <= k < issue_views(issues@).len() implies #[trigger] issue_views(issues@)[k].severity != Severity::Block by {
        assert(issue_views(issues@)[k] == issues@[k]@);
    }
    false
}

/// The text has 「第一」 somewhere that is not the start of an ordinal such as 「第一步」.
pub open spec fn first_as_superlative(text: Seq<char>) -> bool {
    exists|i: int|
        #[trigger] occurs_at(text, "第一"@, i) && forall|k: int| 0 <= k < ordinal_words().len() ==> !occurs_at(text, #[trigger] ordinal_words()[k], i)
}

/// Whether a listed word is found in the text.
pub open spec fn word_hit(text: Seq<char>, w: Seq<char>) -> bool {
    if w == "第一"@ {
        first_as_superlative(text)
    } else {
        contains(text, w)
    }
}

/// The listed words found in the text, in list order, each once.
pub open spec fn hits_spec(text: Seq<char>, words: Seq<Seq<char>>) -> Seq<Seq<char>>
    decreases words.len(),
{
    if words.len() == 0 {
        seq![]
    } else {
        let found = hits_spec(text, words.drop_last());
        let w = words.last();
        if !found.contains(w) && word_hit(text, w) {
            found.push(w)
        } else {
            found
        }
    }
}

/// An ordinal word starts at `i`.
fn ordinal_at(text: &Vec<char>, ords: &Vec<&'static str>, i: usize) -> (r: bool)
    requires
        str_views(ords@) == ordinal_words(),
    ensures
        r == exists|k: int| 0 <= k < ordinal_words().len() && occurs_at(text@, #[trigger] ordinal_words()[k], i as int),
{
    let mut k: usize = 0;
    while k < ords.len()
        invariant
            k <= ords@.len(),
            str_views(ords@) == ordinal_words(),
            forall|q: int| 0 <= q < k ==> !occurs_at(text@, #[trigger] ordinal_words()[q], i as int),
        decreases ords.len() - k,
    {
        let o = chars_of(ords[k]);
        assert(o@ == ordinal_words()[k as int]) by {
            assert(str_views(ords@)[k as int] == ords@[k as int]@);
        }
        if matches_at(text, &o, i) {
            return true;
        }
        k += 1;
    }
    false
}

fn superlative_first(text: &Vec<char>) -> (r: bool)
    ensures
        r == first_as_superlative(text@),
{
    let first = chars_of("第一");
    let ords = ordinal_list();
    let mut i: usize = 0;
    while i < text.len()
        invariant
            i <= text@.len(),
            first@ == "第一"@,
            str_views(ords@) == ordinal_words(),
            forall|j: int| 0 <= j < i ==> !(#[trigger] occurs_at(text@, "第一"@, j) && forall|k: int|
                0 <= k < ordinal_words().len() ==> !occurs_at(text@, #[trigger] ordinal_words()[k], j)),
        decreases text.len() - i,
    {
        if matches_at(text, &first, i) && !ordinal_at(text, &ords, i) {
            return true;
        }
        i += 1;
    }
    assert forall|j: int| #[trigger] occurs_at(text@, "第一"@, j) implies !forall|k: int|
        0 <= k < ordinal_words().len() ==> !occurs_at(text@, #[trigger] ordinal_words()[k], j) by {
        assert(0 <= j < text@.len()) by {
            reveal_strlit("第一");
        }
    }
    false
}

/// The words of `words` that `text` contains (see `hits_spec`).
fn hits(text: &Vec<char>, words: &Vec<&'static str>) -> (r: Vec<String>)
    ensures
        views(r@) == hits_spec(text@, str_views(words@)),
{
    let mut found: Vec<String> = Vec::new();
    let mut i: usize = 0;
    while i < words.len()
        invariant
            i <= words@.len(),
            views(found@) == hits_spec(text@, str_views(words@).take(i as int)),
        decreases words.len() - i,
    {
        let w = chars_of(words[i]);
        let ghost ws = str_views(words@).take(i + 1);
        proof {
            assert(ws.drop_last() == str_views(words@).take(i as int));
            assert(ws.last() == words@[i as int]@);
        }
        let mut seen = false;
        let mut k: usize = 0;
        while k < found.len()
            invariant
                k <= found@.len(),
                seen == exists|q: int| 0 <= q < k && #[trigger] views(found@)[q] == w@,
            decreases found.len() - k,
        {
            let f = chars_of(found[k].as_str());
            assert(f@.subrange(0, f@.len() as int) == f@);
            assert(w@.subrange(0, w@.len() as int) == w@);
            assert(views(found@)[k as int] == f@);
            if seq_eq(&f, 0, f.len(), &w, 0, w.len()) {
                seen = true;
            }
            k += 1;
        }
        assert(seen == views(found@).contains(w@));
        if !seen {
            let is_first = str_eq(words[i], "第一");
            let hit = if is_first {
                superlative_first(text)
            } else {
                contains_vec(text, &w)
            };
            assert(hit == word_hit(text@, w@));
            if hit {
                let ghost before = found@;
                found.push(string_from(&w));
                assert(views(found@) == views(before).push(w@));
            }
        }
        i += 1;
    }
    assert(str_views(words@).take(words@.len() as int) == str_views(words@));
    found
}

/// Eleven digits in a row, no more, starting with 1 and a second digit 3–9: a mobile number.
pub open spec fn phone_at(t: Seq<char>, i: int) -> bool {
    &&& 0 <= i && i + 11 <= t.len()
    &&& forall|k: int| i <= k < i + 11 ==> is_digit(#[trigger] t[k])
    &&& (i == 0 || !is_digit(t[i - 1]))
    &&& (i + 11 == t.len() || !is_digit(t[i + 11]))
    &&& t[i] == '1'
    &&& '3' <= t[i + 1] && t[i + 1] <= '9'
}

pub open spec fn is_digit(c: char) -> bool {
    '0' <= c && c <= '9'
}

pub open spec fn has_phone(t: Seq<char>) -> bool {
    exists|i: int| #[trigger] phone_at(t, i)
}

fn phone_starts_at(t: &Vec<char>, i: usize) -> (r: bool)
    ensures
        r == phone_at(t@, i as int),
{
    if i > t.len() || t.len() - i < 11 {
        return false;
    }
    let end = i + 11;
    let mut k = i;
    while k < end
        invariant
            end == i + 11,
            i <= k <= end <= t@.len(),
            forall|q: int| i <= q < k ==> is_digit(#[trigger] t@[q]),
        decreases end - k,
    {
        if !('0' <= t[k] && t[k] <= '9') {
            return false;
        }
        k += 1;
    }
    if i > 0 && '0' <= t[i - 1] && t[i - 1] <= '9' {
        return false;
    }
    if i + 11 < t.len() && '0' <= t[i + 11] && t[i + 11] <= '9' {
        return false;
    }
    t[i] == '1' && '3' <= t[i + 1] && t[i + 1] <= '9'
}

/// Is there a mobile number in the text?
pub fn has_phone_number(text: &str) -> (r: bool)
    ensures
        r == has_phone(text@),
{
    let t = chars_of(text);
    let mut i: usize = 0;
    while i < t.len()
        invariant
            i <= t@.len(),
            t@ == text@,
            forall|j: int| 0 <= j < i ==> !#[trigger] phone_at(t@, j),
        decreases t.len() - i,
    {
        if phone_starts_at(&t, i) {
            return true;
        }
        i += 1;
    }
    assert forall|j: int| !#[trigger] phone_at(t@, j) by {
        if 0 <= j < i {
        } else {
            assert(!(0 <= j && j + 11 <= t@.len()));
        }
    }
    false
}

/// The first word found, if any.
pub open spec fn first_only(words: Seq<Seq<char>>) -> Seq<Seq<char>> {
    if words.len() == 0 {
        words
    } else {
        words.take(1)
    }
}

pub open spec fn word_issues(code: LintCode, severity: Severity, field: LintField, words: Seq<Seq<char>>) -> Seq<IssueV> {
    words.map_values(|w: Seq<char>| issue_v(code, severity, field, w))
}

/// What the word lists and the phone check find in one field, in this order: superlatives,
/// medical, IP, diversion, fake reviews (all blocking, every word), then one warning per
/// category (kids, electric, food, weapon), then a phone number.
pub open spec fn scan_spec(text: Seq<char>, field: LintField) -> Seq<IssueV> {
    blocking_hits(text, field) + category_hits(text, field) + phone_hit(text, field)
}

fn push_words(out: &mut Vec<LintIssue>, code: LintCode, severity: Severity, field: LintField, words: &Vec<String>, all: bool)
    ensures
        issue_views(final(out)@) == issue_views(old(out)@) + word_issues(
            code,
            severity,
            field,
            if all {
                views(words@)
            } else {
                first_only(views(words@))
            },
        ),
{
    let n = if all || words.len() == 0 { words.len() } else { 1 };
    let ghost start = issue_views(out@);
    let mut i: usize = 0;
    while i < n
        invariant
            i <= n <= words@.len(),
            issue_views(out@) == start + word_issues(code, severity, field, views(words@).take(i as int)),
        decreases n - i,
    {
        let ghost before = issue_views(out@);
        let hit = string_from(&chars_of(words[i].as_str()));
        out.push(LintIssue { code, severity, field, hit });
        proof {
            assert(views(words@)[i as int] == words@[i as int]@);
            assert(views(words@).take(i + 1) == views(words@).take(i as int).push(words@[i as int]@));
            assert(issue_views(out@) == before.push(issue_v(code, severity, field, words@[i as int]@)));
        }
        i += 1;
    }
    assert(views(words@).take(words@.len() as int) == views(words@));
}

fn scan_list(
    t: &Vec<char>,
    words: &Vec<&'static str>,
    code: LintCode,
    severity: Severity,
    field: LintField,
    all: bool,
    out: &mut Vec<LintIssue>,
)
    ensures
        issue_views(final(out)@) == issue_views(old(out)@) + word_issues(
            code,
            severity,
            field,
            if all {
                hits_spec(t@, str_views(words@))
            } else {
                first_only(hits_spec(t@, str_views(words@)))
            },
        ),
{
    let f = hits(t, words);
    push_words(out, code, severity, field, &f, all);
}

/// The blocking word lists of `scan_spec`.
pub open spec fn blocking_hits(text: Seq<char>, field: LintField) -> Seq<IssueV> {
    word_issues(LintCode::Extreme, Severity::Block, field, hits_spec(text, extreme_words()))
        + word_issues(LintCode::Medical, Severity::Block, field, hits_spec(text, medical_words()))
        + word_issues(LintCode::IpName, Severity::Block, field, hits_spec(text, ip_words()))
        + word_issues(LintCode::Diversion, Severity::Block, field, hits_spec(text, diversion_words()))
        + word_issues(LintCode::FakeReview, Severity::Block, field, hits_spec(text, fake_review_words()))
}

/// The category warnings of `scan_spec`: at most one per category.
pub open spec fn category_hits(text: Seq<char>, field: LintField) -> Seq<IssueV> {
    word_issues(LintCode::CategoryKids, Severity::Warn, field, first_only(hits_spec(text, kids_words())))
        + word_issues(LintCode::CategoryElectric, Severity::Warn, field, first_only(hits_spec(text, electric_words())))
        + word_issues(LintCode::CategoryFood, Severity::Warn, field, first_only(hits_spec(text, food_words())))
        + word_issues(LintCode::CategoryWeapon, Severity::Warn, field, first_only(hits_spec(text, weapon_words())))
}

pub open spec fn phone_hit(text: Seq<char>, field: LintField) -> Seq<IssueV> {
    if has_phone(text) {
        one(LintCode::Diversion, Severity::Block, field, "手机号"@)
    } else {
        seq![]
    }
}

fn scan_blocking(t: &Vec<char>, field: LintField, out: &mut Vec<LintIssue>)
    ensures
        issue_views(final(out)@) == issue_views(old(out)@) + blocking_hits(t@, field),
{
    let ghost start = issue_views(out@);
    let ghost ts = t@;
    scan_list(t, &extreme_list(), LintCode::Extreme, Severity::Block, field, true, out);
    let ghost p1 = word_issues(LintCode::Extreme, Severity::Block, field, hits_spec(ts, extreme_words()));
    scan_list(t, &medical_list(), LintCode::Medical, Severity::Block, field, true, out);
    let ghost p2 = p1 + word_issues(LintCode::Medical, Severity::Block, field, hits_spec(ts, medical_words()));
    assert(issue_views(out@) =~= start + p2);
    scan_list(t, &ip_list(), LintCode::IpName, Severity::Block, field, true, out);
    let ghost p3 = p2 + word_issues(LintCode::IpName, Severity::Block, field, hits_spec(ts, ip_words()));
    assert(issue_views(out@) =~= start + p3);
    scan_list(t, &diversion_list(), LintCode::Diversion, Severity::Block, field, true, out);
    let ghost p4 = p3 + word_issues(LintCode::Diversion, Severity::Block, field, hits_spec(ts, diversion_words()));
    assert(issue_views(out@) =~= start + p4);
    scan_list(t, &fake_review_list(), LintCode::FakeReview, Severity::Block, field, true, out);
    let ghost p5 = p4 + word_issues(LintCode::FakeReview, Severity::Block, field, hits_spec(ts, fake_review_words()));
    assert(issue_views(out@) =~= start + p5);
}

fn scan_categories(t: &Vec<char>, field: LintField, out: &mut Vec<LintIssue>)
    ensures
        issue_views(final(out)@) == issue_views(old(out)@) + category_hits(t@, field),
{
    let ghost start = issue_views(out@);
    let ghost ts = t@;
    scan_list(t, &kids_list(), LintCode::CategoryKids, Severity::Warn, field, false, out);
    let ghost p1 = word_issues(LintCode::CategoryKids, Severity::Warn, field, first_only(hits_spec(ts, kids_words())));
    scan_list(t, &electric_list(), LintCode::CategoryElectric, Severity::Warn, field, false, out);
    let ghost p2 = p1 + word_issues(LintCode::CategoryElectric, Severity::Warn, field, first_only(hits_spec(ts, electric_words())));
    assert(issue_views(out@) =~= start + p2);
    scan_list(t, &food_list(), LintCode::CategoryFood, Severity::Warn, field, false, out);
    let ghost p3 = p2 + word_issues(LintCode::CategoryFood, Severity::Warn, field, first_only(hits_spec(ts, food_words())));
    assert(issue_views(out@) =~= start + p3);
    scan_list(t, &weapon_list(), LintCode::CategoryWeapon, Severity::Warn, field, false, out);
    let ghost p4 = p3 + word_issues(LintCode::CategoryWeapon, Severity::Warn, field, first_only(hits_spec(ts, weapon_words())));
    assert(issue_views(out@) =~= start + p4);
}

/// What one field's text is scanned for (see `scan_spec`).
pub fn scan_text(text: &str, field: LintField, out: &mut Vec<LintIssue>)
    ensures
        issue_views(final(out)@) == issue_views(old(out)@) + scan_spec(text@, field),
{
    let t = chars_of(text);
    let ghost start = issue_views(out@);
    scan_blocking(&t, field, out);
    scan_categories(&t, field, out);
    let ghost mid = issue_views(out@);
    if has_phone_number(text) {
        out.push(LintIssue { code: LintCode::Diversion, severity: Severity::Block, field, hit: String::from_str("手机号") });
        assert(issue_views(out@) == mid.push(issue_v(LintCode::Diversion, Severity::Block, field, "手机号"@)));
    }
    assert(issue_views(out@) =~= start + scan_spec(text@, field));
}

/// `n/max`, as the count findings show it.
pub open spec fn count_hit(n: nat, max: nat) -> Seq<char> {
    decimal(n) + "/"@ + decimal(max)
}

fn count_text(n: usize, max: usize) -> (r: String)
    ensures
        r@ == count_hit(n as nat, max as nat),
{
    let mut r = decimal_string(n as u64);
    append_str(&mut r, "/");
    let m = decimal_string(max as u64);
    append_str(&mut r, m.as_str());
    proof {
        reveal_strlit("/");
    }
    r
}

pub open spec fn one(code: LintCode, severity: Severity, field: LintField, hit: Seq<char>) -> Seq<IssueV> {
    seq![issue_v(code, severity, field, hit)]
}

/// Title and body: empty, or longer than the channel allows (lengths in characters, trimmed).
pub open spec fn length_findings(title: Seq<char>, body: Seq<char>, title_max: nat, body_max: nat) -> Seq<IssueV> {
    (if char_count(title) == 0 {
        one(LintCode::TitleEmpty, Severity::Block, LintField::Title, seq![])
    } else if char_count(title) > title_max {
        one(LintCode::TitleTooLong, Severity::Block, LintField::Title, count_hit(char_count(title), title_max))
    } else {
        seq![]
    }) + (if char_count(body) == 0 {
        one(LintCode::BodyEmpty, Severity::Block, LintField::Body, seq![])
    } else if char_count(body) > body_max {
        one(LintCode::BodyTooLong, Severity::Block, LintField::Body, count_hit(char_count(body), body_max))
    } else {
        seq![]
    })
}

pub fn check_lengths(title: &str, body: &str, spec: &ContentSpec, out: &mut Vec<LintIssue>)
    ensures
        issue_views(final(out)@) == issue_views(old(out)@) + length_findings(
            title@,
            body@,
            spec.title_max as nat,
            spec.body_max as nat,
        ),
{
    let ghost start = issue_views(out@);
    let n = char_len(title);
    if n == 0 {
        out.push(issue(LintCode::TitleEmpty, Severity::Block, LintField::Title, String::new()));
    } else if n > spec.title_max {
        let hit = count_text(n, spec.title_max);
        out.push(issue(LintCode::TitleTooLong, Severity::Block, LintField::Title, hit));
    }
    let ghost mid = issue_views(out@);
    let m = char_len(body);
    if m == 0 {
        out.push(issue(LintCode::BodyEmpty, Severity::Block, LintField::Body, String::new()));
    } else if m > spec.body_max {
        let hit = count_text(m, spec.body_max);
        out.push(issue(LintCode::BodyTooLong, Severity::Block, LintField::Body, hit));
    }
    assert(issue_views(out@) =~= start + length_findings(title@, body@, spec.title_max as nat, spec.body_max as nat));
}

/// The pool as (asset id, AI-generated) pairs.
pub open spec fn pool_views(pool: Seq<PublishImage>) -> Seq<(Seq<char>, bool)> {
    pool.map_values(|p: PublishImage| (p.asset_id@, p.ai_generated))
}

/// The first pool entry with this id is AI-generated (an id missing from the pool is not).
pub open spec fn is_ai(pool: Seq<(Seq<char>, bool)>, id: Seq<char>) -> bool {
    exists|j: int|
        0 <= j < pool.len() && #[trigger] pool[j].0 == id && pool[j].1 && forall|q: int| 0 <= q < j ==> (#[trigger] pool[q]).0 != id
}

/// How many of the ids are AI-generated pictures.
pub open spec fn ai_count(ids: Seq<Seq<char>>, pool: Seq<(Seq<char>, bool)>) -> nat
    decreases ids.len(),
{
    if ids.len() == 0 {
        0
    } else {
        ai_count(ids.drop_last(), pool) + (if is_ai(pool, ids.last()) { 1nat } else { 0nat })
    }
}

/// Too few / too many pictures, an AI cover where a photo is required, and a reminder when AI
/// pictures are used at all.
pub open spec fn image_findings(
    ids: Seq<Seq<char>>,
    pool: Seq<(Seq<char>, bool)>,
    min: nat,
    max: nat,
    first_photo: bool,
) -> Seq<IssueV> {
    (if ids.len() < min {
        one(LintCode::TooFewImages, Severity::Block, LintField::Images, count_hit(ids.len(), min))
    } else {
        seq![]
    }) + (if ids.len() > max {
        one(LintCode::TooManyImages, Severity::Block, LintField::Images, count_hit(ids.len(), max))
    } else {
        seq![]
    }) + (if first_photo && ids.len() > 0 && is_ai(pool, ids[0]) {
        one(LintCode::FirstImageNotPhoto, Severity::Block, LintField::Images, seq![])
    } else {
        seq![]
    }) + (if ai_count(ids, pool) > 0 {
        one(LintCode::AiImages, Severity::Warn, LintField::Images, decimal(ai_count(ids, pool)))
    } else {
        seq![]
    })
}

fn picture_is_ai(id: &String, pool: &[PublishImage]) -> (r: bool)
    ensures
        r == is_ai(pool_views(pool@), id@),
{
    let ghost pv = pool_views(pool@);
    let mut j: usize = 0;
    while j < pool.len()
        invariant
            j <= pool@.len(),
            pv == pool_views(pool@),
            forall|q: int| 0 <= q < j ==> (#[trigger] pv[q]).0 != id@,
        decreases pool.len() - j,
    {
        assert(pv[j as int] == (pool@[j as int].asset_id@, pool@[j as int].ai_generated));
        if str_eq(pool[j].asset_id.as_str(), id.as_str()) {
            assert(pv[j as int].0 == id@);
            if !pool[j].ai_generated {
                assert forall|k: int| 0 <= k < pv.len() && #[trigger] pv[k].0 == id@ && pv[k].1 implies !forall|q: int|
                    0 <= q < k ==> (#[trigger] pv[q]).0 != id@ by {
                    if k > j {
                        assert(pv[j as int].0 == id@);
                    }
                }
            }
            return pool[j].ai_generated;
        }
        j += 1;
    }
    false
}

pub fn check_images(ids: &[String], pool: &[PublishImage], spec: &ContentSpec, out: &mut Vec<LintIssue>)
    requires
        ids@.len() < u64::MAX,
    ensures
        issue_views(final(out)@) == issue_views(old(out)@) + image_findings(
            views(ids@),
            pool_views(pool@),
            spec.images_min as nat,
            spec.images_max as nat,
            spec.first_image_must_be_photo,
        ),
{
    let ghost start = issue_views(out@);
    let ghost iv = views(ids@);
    let ghost pv = pool_views(pool@);
    let n = ids.len();
    if n < spec.images_min {
        let hit = count_text(n, spec.images_min);
        out.push(LintIssue { code: LintCode::TooFewImages, severity: Severity::Block, field: LintField::Images, hit });
    }
    if n > spec.images_max {
        let hit = count_text(n, spec.images_max);
        out.push(LintIssue { code: LintCode::TooManyImages, severity: Severity::Block, field: LintField::Images, hit });
    }
    if spec.first_image_must_be_photo && n > 0 {
        let first_ai = picture_is_ai(&ids[0], pool);
        assert(iv[0] == ids@[0]@);
        if first_ai {
            out.push(LintIssue { code: LintCode::FirstImageNotPhoto, severity: Severity::Block, field: LintField::Images, hit: String::new() });
        }
    }
    let ghost mid = issue_views(out@);
    let mut ai: u64 = 0;
    let mut i: usize = 0;
    while i < n
        invariant
            i <= n == ids@.len() < u64::MAX,
            iv == views(ids@),
            pv == pool_views(pool@),
            ai == ai_count(iv.take(i as int), pv),
            ai <= i,
        decreases n - i,
    {
        let this = picture_is_ai(&ids[i], pool);
        proof {
            let t = iv.take(i + 1);
            assert(t.drop_last() == iv.take(i as int));
            assert(t.last() == ids@[i as int]@);
        }
        if this {
            ai += 1;
        }
        i += 1;
    }
    assert(iv.take(n as int) == iv);
    if ai > 0 {
        let hit = decimal_string(ai);
        out.push(LintIssue { code: LintCode::AiImages, severity: Severity::Warn, field: LintField::Images, hit });
    }
    assert(issue_views(out@) =~= start + image_findings(
        iv,
        pv,
        spec.images_min as nat,
        spec.images_max as nat,
        spec.first_image_must_be_photo,
    ));
}

/// The findings of one severity, in the order they were made.
pub open spec fn of_severity(s: Seq<IssueV>, sev: Severity) -> Seq<IssueV>
    decreases s.len(),
{
    if s.len() == 0 {
        seq![]
    } else if s.last().severity == sev {
        of_severity(s.drop_last(), sev).push(s.last())
    } else {
        of_severity(s.drop_last(), sev)
    }
}

/// Blocking findings first, then warnings; each group keeps its order (a stable sort by severity).
pub open spec fn blocks_first(s: Seq<IssueV>) -> Seq<IssueV> {
    of_severity(s, Severity::Block) + of_severity(s, Severity::Warn)
}

fn copy_issue(x: &LintIssue) -> (r: LintIssue)
    ensures
        r@ == x@,
{
    LintIssue { code: x.code, severity: x.severity, field: x.field, hit: string_from(&chars_of(x.hit.as_str())) }
}

fn take_severity(v: &Vec<LintIssue>, sev: Severity, out: &mut Vec<LintIssue>)
    ensures
        issue_views(final(out)@) == issue_views(old(out)@) + of_severity(issue_views(v@), sev),
{
    let ghost start = issue_views(out@);
    let ghost all = issue_views(v@);
    let mut i: usize = 0;
    while i < v.len()
        invariant
            i <= v@.len(),
            all == issue_views(v@),
            issue_views(out@) == start + of_severity(all.take(i as int), sev),
        decreases v.len() - i,
    {
        let ghost before = issue_views(out@);
        proof {
            let t = all.take(i + 1);
            assert(t.drop_last() == all.take(i as int));
            assert(t.last() == v@[i as int]@);
        }
        if v[i].severity == sev {
            let c = copy_issue(&v[i]);
            out.push(c);
            assert(issue_views(out@) == before.push(v@[i as int]@));
        }
        i += 1;
    }
    assert(all.take(v@.len() as int) == all);
}

/// Sorts findings so that the blocking ones come first, keeping the order within each severity.
pub fn sort_by_severity(v: &Vec<LintIssue>) -> (r: Vec<LintIssue>)
    ensures
        issue_views(r@) == blocks_first(issue_views(v@)),
{
    let mut out: Vec<LintIssue> = Vec::new();
    take_severity(v, Severity::Block, &mut out);
    take_severity(v, Severity::Warn, &mut out);
    out
}

/// Everything a note is checked for, before sorting: lengths, topic count, pictures, then the
/// word scan of the title, the body and the topics joined with spaces.
pub open spec fn note_findings(
    title: Seq<char>,
    body: Seq<char>,
    tags: Seq<Seq<char>>,
    images: Seq<Seq<char>>,
    pool: Seq<(Seq<char>, bool)>,
) -> Seq<IssueV> {
    length_findings(title, body, 20, 1000) + (if tags.len() > 5 {
        one(LintCode::TooManyTags, Severity::Block, LintField::Tags, count_hit(tags.len(), 5))
    } else {
        seq![]
    }) + image_findings(images, pool, 1, 18, false) + scan_spec(title, LintField::Title) + scan_spec(body, LintField::Body)
        + scan_spec(join(tags, " "@), LintField::Tags)
}

/// Checks a note. `pool` is the pictures this project can use (to tell which are AI-generated).
pub fn lint_note(draft: &NoteDraft, pool: &[PublishImage]) -> (r: Vec<LintIssue>)
    requires
        draft.images@.len() < u64::MAX,
    ensures
        issue_views(r@) == blocks_first(
            note_findings(draft.title@, draft.body@, views(draft.tags@), views(draft.images@), pool_views(pool@)),
        ),
{
    let spec = spec(draft.channel, DraftKind::Note);
    let mut out: Vec<LintIssue> = Vec::new();
    check_lengths(draft.title.as_str(), draft.body.as_str(), &spec, &mut out);
    let ghost a = issue_views(out@);
    if draft.tags.len() > spec.tags_max {
        let hit = count_text(draft.tags.len(), spec.tags_max);
        out.push(LintIssue { code: LintCode::TooManyTags, severity: Severity::Block, field: LintField::Tags, hit });
    }
    assert(views(draft.tags@).len() == draft.tags@.len());
    check_images(draft.images.as_slice(), pool, &spec, &mut out);
    scan_text(draft.title.as_str(), LintField::Title, &mut out);
    scan_text(draft.body.as_str(), LintField::Body, &mut out);
    let joined = join_strings(draft.tags.as_slice(), " ");
    scan_text(joined.as_str(), LintField::Tags, &mut out);
    assert(issue_views(out@) =~= note_findings(
        draft.title@,
        draft.body@,
        views(draft.tags@),
        views(draft.images@),
        pool_views(pool@),
    ));
    sort_by_severity(&out)
}

/// What the price comparison (done on the money amounts, outside this module) concluded.
#[derive(Debug, Clone, PartialEq)]
pub enum PriceCheck {
    /// No price, or not above zero.
    Missing,
    /// Priced below the unit cost; the price as shown to two decimals.
    BelowCost(String),
    /// Priced, and not below a known cost.
    Fine,
}

/// The body a listing is measured by: its detail text, or its selling points (one per line)
/// when the detail is blank.
pub open spec fn listing_body(selling_points: Seq<Seq<char>>, body: Seq<char>) -> Seq<char> {
    if trim(body).len() == 0 {
        join(selling_points, "\n"@)
    } else {
        body
    }
}

pub open spec fn price_findings(price: PriceCheck) -> Seq<IssueV> {
    match price {
        PriceCheck::Missing => one(LintCode::PriceMissing, Severity::Block, LintField::Price, seq![]),
        PriceCheck::BelowCost(shown) => one(LintCode::PriceBelowCost, Severity::Warn, LintField::Price, shown@),
        PriceCheck::Fine => seq![],
    }
}

pub open spec fn license_findings(license: Option<ModelLicense>) -> Seq<IssueV> {
    match license {
        None => one(LintCode::LicenseMissing, Severity::Block, LintField::License, seq![]),
        Some(ModelLicense::NonCommercial) => one(LintCode::LicenseNonCommercial, Severity::Block, LintField::License, seq![]),
        Some(_) => seq![],
    }
}

/// Everything a listing is checked for, before sorting.
pub open spec fn listing_findings(
    title: Seq<char>,
    selling_points: Seq<Seq<char>>,
    body: Seq<char>,
    images: Seq<Seq<char>>,
    pool: Seq<(Seq<char>, bool)>,
    price: PriceCheck,
    license: Option<ModelLicense>,
) -> Seq<IssueV> {
    length_findings(title, listing_body(selling_points, body), 60, 1000) + image_findings(images, pool, 3, 9, true)
        + scan_spec(title, LintField::Title) + scan_spec(join(selling_points, "\n"@) + "\n"@ + body, LintField::Body)
        + price_findings(price) + license_findings(license)
}

/// Checks a listing. The price has already been compared with the unit cost (`price`).
pub fn lint_listing_parts(
    channel: Channel,
    title: &str,
    selling_points: &[String],
    body: &str,
    images: &[String],
    license: Option<ModelLicense>,
    pool: &[PublishImage],
    price: &PriceCheck,
) -> (r: Vec<LintIssue>)
    requires
        images@.len() < u64::MAX,
    ensures
        issue_views(r@) == blocks_first(
            listing_findings(title@, views(selling_points@), body@, views(images@), pool_views(pool@), *price, license),
        ),
{
    let spec = spec(channel, DraftKind::Listing);
    let mut out: Vec<LintIssue> = Vec::new();
    let points = join_strings(selling_points, "\n");
    let bv = chars_of(body);
    let (lo, hi) = trim_bounds(&bv, 0, bv.len());
    assert(bv@.subrange(0, bv@.len() as int) == bv@);
    let measured = if lo == hi {
        string_from(&chars_of(points.as_str()))
    } else {
        string_from(&bv)
    };
    proof {
        reveal_strlit("\n");
    }
    check_lengths(title, measured.as_str(), &spec, &mut out);
    check_images(images, pool, &spec, &mut out);
    scan_text(title, LintField::Title, &mut out);
    let mut all = string_from(&chars_of(points.as_str()));
    append_str(&mut all, "\n");
    append_str(&mut all, body);
    scan_text(all.as_str(), LintField::Body, &mut out);
    let ghost before_price = issue_views(out@);
    match price {
        PriceCheck::Missing => {
            out.push(LintIssue { code: LintCode::PriceMissing, severity: Severity::Block, field: LintField::Price, hit: String::new() });
        },
        PriceCheck::BelowCost(shown) => {
            let hit = string_from(&chars_of(shown.as_str()));
            out.push(LintIssue { code: LintCode::PriceBelowCost, severity: Severity::Warn, field: LintField::Price, hit });
        },
        PriceCheck::Fine => {},
    }
    assert(issue_views(out@) =~= before_price + price_findings(*price));
    let ghost before_license = issue_views(out@);
    match license {
        None => {
            out.push(LintIssue { code: LintCode::LicenseMissing, severity: Severity::Block, field: LintField::License, hit: String::new() });
        },
        Some(ModelLicense::NonCommercial) => {
            out.push(
                LintIssue { code: LintCode::LicenseNonCommercial, severity: Severity::Block, field: LintField::License, hit: String::new() },
            );
        },
        Some(_) => {},
    }
    assert(issue_views(out@) =~= before_license + license_findings(license));
    assert(issue_views(out@) =~= listing_findings(
        title@,
        views(selling_points@),
        body@,
        views(images@),
        pool_views(pool@),
        *price,
        license,
    ));
    sort_by_severity(&out)
}

/// Superlatives. Word groups, not single characters: 「最」 alone would also catch 「最近」.
#[verifier::opaque]
pub open spec fn extreme_words() -> Seq<Seq<char>> {
    seq!["最好"@, "最佳"@, "最强"@, "最优"@, "最低价"@, "最便宜"@, "最高级"@, "最先进"@, "最牛"@, "最美"@, "最火"@, "最全"@, "第一"@, "NO.1"@, "No.1"@, "no.1"@, "TOP1"@, "Top1"@, "top1"@, "顶级"@, "顶尖"@, "极致"@, "全网"@, "全国"@, "国家级"@, "世界级"@, "史无前例"@, "绝无仅有"@, "独一无二"@, "万能"@, "永久"@, "100%"@, "百分百"@, "绝对"@, "完美"@, "首选"@, "唯一"@, "销量冠军"@, "遥遥领先"@, "无敌"@, "神器"@]
}

fn extreme_list() -> (r: Vec<&'static str>)
    ensures
        str_views(r@) == extreme_words(),
{
    let r = vec!["最好", "最佳", "最强", "最优", "最低价", "最便宜", "最高级", "最先进", "最牛", "最美", "最火", "最全", "第一", "NO.1", "No.1", "no.1", "TOP1", "Top1", "top1", "顶级", "顶尖", "极致", "全网", "全国", "国家级", "世界级", "史无前例", "绝无仅有", "独一无二", "万能", "永久", "100%", "百分百", "绝对", "完美", "首选", "唯一", "销量冠军", "遥遥领先", "无敌", "神器"];
    proof {
        reveal(extreme_words);
    }
    assert(str_views(r@) =~= extreme_words());
    r
}

/// When 「第一」 is followed by one of these it counts something and is no superlative.
#[verifier::opaque]
pub open spec fn ordinal_words() -> Seq<Seq<char>> {
    seq!["第一步"@, "第一次"@, "第一眼"@, "第一时间"@, "第一层"@, "第一张"@, "第一个"@, "第一版"@, "第一天"@, "第一件"@, "第一根"@, "第一遍"@]
}

fn ordinal_list() -> (r: Vec<&'static str>)
    ensures
        str_views(r@) == ordinal_words(),
{
    let r = vec!["第一步", "第一次", "第一眼", "第一时间", "第一层", "第一张", "第一个", "第一版", "第一天", "第一件", "第一根", "第一遍"];
    proof {
        reveal(ordinal_words);
    }
    assert(str_views(r@) =~= ordinal_words());
    r
}

/// Health and medical claims.
#[verifier::opaque]
pub open spec fn medical_words() -> Seq<Seq<char>> {
    seq!["治疗"@, "治愈"@, "疗效"@, "药用"@, "抗菌"@, "杀菌"@, "抑菌"@, "消炎"@, "防辐射"@, "减肥"@, "瘦身"@, "保健"@, "缓解疼痛"@, "预防疾病"@, "降血压"@, "助眠"@, "护眼"@]
}

fn medical_list() -> (r: Vec<&'static str>)
    ensures
        str_views(r@) == medical_words(),
{
    let r = vec!["治疗", "治愈", "疗效", "药用", "抗菌", "杀菌", "抑菌", "消炎", "防辐射", "减肥", "瘦身", "保健", "缓解疼痛", "预防疾病", "降血压", "助眠", "护眼"];
    proof {
        reveal(medical_words);
    }
    assert(str_views(r@) =~= medical_words());
    r
}

/// Character, film, game and designer-toy names.
#[verifier::opaque]
pub open spec fn ip_words() -> Seq<Seq<char>> {
    seq!["迪士尼"@, "Disney"@, "漫威"@, "Marvel"@, "皮卡丘"@, "宝可梦"@, "Pokemon"@, "Pokémon"@, "Hello Kitty"@, "HelloKitty"@, "凯蒂猫"@, "哆啦A梦"@, "机器猫"@, "原神"@, "王者荣耀"@, "任天堂"@, "Nintendo"@, "马里奥"@, "塞尔达"@, "乐高"@, "LEGO"@, "海贼王"@, "火影"@, "高达"@, "泡泡玛特"@, "POP MART"@, "Labubu"@, "LABUBU"@, "拉布布"@, "三丽鸥"@, "库洛米"@, "美乐蒂"@, "玉桂狗"@, "玲娜贝儿"@, "星黛露"@, "奥特曼"@, "小猪佩奇"@, "蜡笔小新"@, "哈利波特"@, "星球大战"@, "钢铁侠"@, "蜘蛛侠"@, "蝙蝠侠"@, "米老鼠"@, "米奇"@, "史努比"@, "吉伊卡哇"@, "chiikawa"@, "Chiikawa"@, "线条小狗"@, "龙猫"@, "吉卜力"@, "初音"@, "EVA"@, "黑神话"@, "悟空黑神话"@, "英雄联盟"@, "我的世界"@, "Minecraft"@, "蛋仔派对"@, "光遇"@, "崩坏"@, "咒术回战"@, "鬼灭"@, "间谍过家家"@, "loopy"@, "Loopy"@]
}

fn ip_list() -> (r: Vec<&'static str>)
    ensures
        str_views(r@) == ip_words(),
{
    let r = vec!["迪士尼", "Disney", "漫威", "Marvel", "皮卡丘", "宝可梦", "Pokemon", "Pokémon", "Hello Kitty", "HelloKitty", "凯蒂猫", "哆啦A梦", "机器猫", "原神", "王者荣耀", "任天堂", "Nintendo", "马里奥", "塞尔达", "乐高", "LEGO", "海贼王", "火影", "高达", "泡泡玛特", "POP MART", "Labubu", "LABUBU", "拉布布", "三丽鸥", "库洛米", "美乐蒂", "玉桂狗", "玲娜贝儿", "星黛露", "奥特曼", "小猪佩奇", "蜡笔小新", "哈利波特", "星球大战", "钢铁侠", "蜘蛛侠", "蝙蝠侠", "米老鼠", "米奇", "史努比", "吉伊卡哇", "chiikawa", "Chiikawa", "线条小狗", "龙猫", "吉卜力", "初音", "EVA", "黑神话", "悟空黑神话", "英雄联盟", "我的世界", "Minecraft", "蛋仔派对", "光遇", "崩坏", "咒术回战", "鬼灭", "间谍过家家", "loopy", "Loopy"];
    proof {
        reveal(ip_words);
    }
    assert(str_views(r@) =~= ip_words());
    r
}

/// Ways of taking buyers off the platform.
#[verifier::opaque]
pub open spec fn diversion_words() -> Seq<Seq<char>> {
    seq!["微信"@, "VX"@, "vx"@, "Vx"@, "V信"@, "v信"@, "薇信"@, "威信"@, "加我"@, "加V"@, "加v"@, "QQ"@, "qq"@, "淘宝"@, "拼多多"@, "闲鱼"@, "抖音"@, "咸鱼"@, "二维码"@, "扫码"@, "私下交易"@, "站外"@, "http://"@, "https://"@, "www."@]
}

fn diversion_list() -> (r: Vec<&'static str>)
    ensures
        str_views(r@) == diversion_words(),
{
    let r = vec!["微信", "VX", "vx", "Vx", "V信", "v信", "薇信", "威信", "加我", "加V", "加v", "QQ", "qq", "淘宝", "拼多多", "闲鱼", "抖音", "咸鱼", "二维码", "扫码", "私下交易", "站外", "http://", "https://", "www."];
    proof {
        reveal(diversion_words);
    }
    assert(str_views(r@) =~= diversion_words());
    r
}

/// Paying for reviews.
#[verifier::opaque]
pub open spec fn fake_review_words() -> Seq<Seq<char>> {
    seq!["好评返现"@, "返现"@, "刷单"@, "晒图返"@, "五星好评"@, "好评有礼"@, "好评送"@]
}

fn fake_review_list() -> (r: Vec<&'static str>)
    ensures
        str_views(r@) == fake_review_words(),
{
    let r = vec!["好评返现", "返现", "刷单", "晒图返", "五星好评", "好评有礼", "好评送"];
    proof {
        reveal(fake_review_words);
    }
    assert(str_views(r@) =~= fake_review_words());
    r
}

/// Children's products.
#[verifier::opaque]
pub open spec fn kids_words() -> Seq<Seq<char>> {
    seq!["儿童"@, "宝宝"@, "婴儿"@, "幼儿"@, "小孩玩"@, "给孩子玩"@, "玩具"@]
}

fn kids_list() -> (r: Vec<&'static str>)
    ensures
        str_views(r@) == kids_words(),
{
    let r = vec!["儿童", "宝宝", "婴儿", "幼儿", "小孩玩", "给孩子玩", "玩具"];
    proof {
        reveal(kids_words);
    }
    assert(str_views(r@) =~= kids_words());
    r
}

/// Powered products and lamps.
#[verifier::opaque]
pub open spec fn electric_words() -> Seq<Seq<char>> {
    seq!["夜灯"@, "台灯"@, "灯具"@, "插电"@, "充电"@, "USB 供电"@, "USB供电"@, "电池"@, "LED"@]
}

fn electric_list() -> (r: Vec<&'static str>)
    ensures
        str_views(r@) == electric_words(),
{
    let r = vec!["夜灯", "台灯", "灯具", "插电", "充电", "USB 供电", "USB供电", "电池", "LED"];
    proof {
        reveal(electric_words);
    }
    assert(str_views(r@) =~= electric_words());
    r
}

/// Food contact.
#[verifier::opaque]
pub open spec fn food_words() -> Seq<Seq<char>> {
    seq!["餐具"@, "杯子"@, "水杯"@, "吸管"@, "食品"@, "入口"@, "饼干模"@, "模具"@, "奶瓶"@]
}

fn food_list() -> (r: Vec<&'static str>)
    ensures
        str_views(r@) == food_words(),
{
    let r = vec!["餐具", "杯子", "水杯", "吸管", "食品", "入口", "饼干模", "模具", "奶瓶"];
    proof {
        reveal(food_words);
    }
    assert(str_views(r@) =~= food_words());
    r
}

/// Blades and weapon shapes.
#[verifier::opaque]
pub open spec fn weapon_words() -> Seq<Seq<char>> {
    seq!["匕首"@, "刀具"@, "军刀"@, "弹弓"@, "飞镖"@, "仿真枪"@, "枪"@]
}

fn weapon_list() -> (r: Vec<&'static str>)
    ensures
        str_views(r@) == weapon_words(),
{
    let r = vec!["匕首", "刀具", "军刀", "弹弓", "飞镖", "仿真枪", "枪"];
    proof {
        reveal(weapon_words);
    }
    assert(str_views(r@) =~= weapon_words());
    r
}

} // verus!

verus! {

// ---------------------------------------------------------------- laws

proof fn lemma_of_severity_members(s: Seq<IssueV>, sev: Severity)
    ensures
        forall|k: int| 0 <= k < of_severity(s, sev).len() ==> (#[trigger] of_severity(s, sev)[k]).severity == sev,
        of_severity(s, sev).len() <= s.len(),
    decreases s.len(),
{
    if s.len() > 0 {
        lemma_of_severity_members(s.drop_last(), sev);
        let p = of_severity(s.drop_last(), sev);
        assert forall|k: int| 0 <= k < of_severity(s, sev).len() implies (#[trigger] of_severity(s, sev)[k]).severity == sev by {
            if k < p.len() {
                assert(of_severity(s, sev)[k] == p[k]);
            }
        }
    }
}

proof fn lemma_of_severity_multiset(s: Seq<IssueV>)
    ensures
        of_severity(s, Severity::Block).to_multiset().add(of_severity(s, Severity::Warn).to_multiset()) == s.to_multiset(),
    decreases s.len(),
{
    broadcast use vstd::seq_lib::group_to_multiset_ensures;

    if s.len() == 0 {
        assert(of_severity(s, Severity::Block) =~= Seq::<IssueV>::empty());
        assert(of_severity(s, Severity::Warn) =~= Seq::<IssueV>::empty());
        assert(s.to_multiset() =~= vstd::multiset::Multiset::empty());
        assert(of_severity(s, Severity::Block).to_multiset() =~= vstd::multiset::Multiset::empty());
        assert(of_severity(s, Severity::Warn).to_multiset() =~= vstd::multiset::Multiset::empty());
    } else {
        lemma_of_severity_multiset(s.drop_last());
        assert(s.drop_last().push(s.last()) =~= s);
        assert(s.to_multiset() =~= s.drop_last().to_multiset().insert(s.last()));
        let b = of_severity(s.drop_last(), Severity::Block);
        let w = of_severity(s.drop_last(), Severity::Warn);
        if s.last().severity == Severity::Block {
            assert(of_severity(s, Severity::Block).to_multiset() =~= b.to_multiset().insert(s.last()));
            assert(of_severity(s, Severity::Warn) == w);
        } else {
            assert(s.last().severity == Severity::Warn);
            assert(of_severity(s, Severity::Warn).to_multiset() =~= w.to_multiset().insert(s.last()));
            assert(of_severity(s, Severity::Block) == b);
        }
        assert(of_severity(s, Severity::Block).to_multiset().add(of_severity(s, Severity::Warn).to_multiset()) =~= s.to_multiset());
    }
}

/// Sorting findings by severity loses none and adds none, and every blocking finding comes
/// before every warning.
pub proof fn sorting_keeps_every_finding(s: Seq<IssueV>)
    ensures
        blocks_first(s).to_multiset() == s.to_multiset(),
        forall|i: int, j: int|
            0 <= i < j < blocks_first(s).len() && (#[trigger] blocks_first(s)[j]).severity == Severity::Block
                ==> (#[trigger] blocks_first(s)[i]).severity == Severity::Block,
{
    broadcast use vstd::seq_lib::group_to_multiset_ensures;

    lemma_of_severity_multiset(s);
    lemma_of_severity_members(s, Severity::Block);
    lemma_of_severity_members(s, Severity::Warn);
    let b = of_severity(s, Severity::Block);
    let w = of_severity(s, Severity::Warn);
    vstd::seq_lib::lemma_multiset_commutative(b, w);
    assert forall|i: int, j: int|
        0 <= i < j < blocks_first(s).len() && (#[trigger] blocks_first(s)[j]).severity == Severity::Block implies (
        #[trigger] blocks_first(s)[i]).severity == Severity::Block by {
        if j >= b.len() {
            assert(blocks_first(s)[j] == w[j - b.len()]);
        }
        assert(i < b.len());
        assert(blocks_first(s)[i] == b[i]);
    }
}

/// Category words (children, power, food contact, weapons) only ever warn: they never block a
/// pack on their own.
pub proof fn category_words_never_block(text: Seq<char>, field: LintField)
    ensures
        forall|k: int| 0 <= k < category_hits(text, field).len() ==> (#[trigger] category_hits(text, field)[k]).severity
            == Severity::Warn,
{
    let a = word_issues(LintCode::CategoryKids, Severity::Warn, field, first_only(hits_spec(text, kids_words())));
    let b = word_issues(LintCode::CategoryElectric, Severity::Warn, field, first_only(hits_spec(text, electric_words())));
    let c = word_issues(LintCode::CategoryFood, Severity::Warn, field, first_only(hits_spec(text, food_words())));
    let d = word_issues(LintCode::CategoryWeapon, Severity::Warn, field, first_only(hits_spec(text, weapon_words())));
    assert forall|k: int| 0 <= k < category_hits(text, field).len() implies (#[trigger] category_hits(text, field)[k]).severity
        == Severity::Warn by {
        let all = category_hits(text, field);
        assert(all == a + b + c + d);
        if k < a.len() {
            assert(all[k] == a[k]);
        } else if k < a.len() + b.len() {
            assert(all[k] == b[k - a.len()]);
        } else if k < a.len() + b.len() + c.len() {
            assert(all[k] == c[k - a.len() - b.len()]);
        } else {
            assert(all[k] == d[k - a.len() - b.len() - c.len()]);
        }
    }
}

proof fn lemma_collect_tags(pieces: Seq<Seq<char>>)
    ensures
        forall|i: int| 0 <= i < collect_tags(pieces).len() ==> (#[trigger] collect_tags(pieces)[i]).len() > 0,
        forall|i: int, j: int|
            0 <= i < j < collect_tags(pieces).len() ==> #[trigger] collect_tags(pieces)[i] != #[trigger] collect_tags(pieces)[j],
    decreases pieces.len(),
{
    if pieces.len() > 0 {
        lemma_collect_tags(pieces.drop_last());
        let out = collect_tags(pieces.drop_last());
        let t = trim(pieces.last());
        if t.len() > 0 && !out.contains(t) {
            let r = out.push(t);
            assert forall|i: int, j: int| 0 <= i < j < r.len() implies #[trigger] r[i] != #[trigger] r[j] by {
                if j == out.len() {
                    assert(r[i] == out[i]);
                    assert(out.contains(out[i]));
                } else {
                    assert(r[i] == out[i] && r[j] == out[j]);
                }
            }
            assert forall|i: int| 0 <= i < r.len() implies (#[trigger] r[i]).len() > 0 by {
                if i < out.len() {
                    assert(r[i] == out[i]);
                }
            }
        }
    }
}

/// Parsed topics are never empty and never repeat.
pub proof fn parsed_tags_are_distinct_and_non_empty(input: Seq<char>)
    ensures
        forall|i: int| 0 <= i < parse_tags_spec(input).len() ==> (#[trigger] parse_tags_spec(input)[i]).len() > 0,
        forall|i: int, j: int|
            0 <= i < j < parse_tags_spec(input).len() ==> #[trigger] parse_tags_spec(input)[i] != #[trigger] parse_tags_spec(
                input,
            )[j],
{
    lemma_collect_tags(tag_pieces(input));
}

/// Any run of exactly eleven ASCII digits that starts with `1` followed by a digit from `3`
/// to `9` is reported as a mobile number, wherever it stands in the text (`a` and `b` are what
/// comes before and after it, and do not continue the run of digits); and every reported
/// number is such a run.
pub proof fn mobile_numbers_are_always_found(a: Seq<char>, d: Seq<char>, b: Seq<char>)
    requires
        d.len() == 11,
        forall|k: int| 0 <= k < 11 ==> '0' <= #[trigger] d[k] <= '9',
        d[0] == '1',
        d[1] == '3' || d[1] == '4' || d[1] == '5' || d[1] == '6' || d[1] == '7' || d[1] == '8' || d[1] == '9',
        a.len() == 0 || !('0' <= a.last() <= '9'),
        b.len() == 0 || !('0' <= b[0] <= '9'),
    ensures
        has_phone(a + d + b),
{
    let t = a + d + b;
    let i = a.len() as int;
    assert forall|k: int| i <= k < i + 11 implies is_digit(#[trigger] t[k]) by {
        assert(t[k] == d[k - i]);
    }
    assert(t[i] == d[0]);
    assert(t[i + 1] == d[1]);
    if i > 0 {
        assert(t[i - 1] == a.last());
    }
    if i + 11 < t.len() {
        assert(t[i + 11] == b[0]);
    }
    assert(phone_at(t, i));
}

/// Every number the check reports is eleven ASCII digits, not part of a longer run of digits,
/// starting with `1` and a second digit from `3` to `9`.
pub proof fn reported_numbers_are_mobile_numbers(t: Seq<char>)
    requires
        has_phone(t),
    ensures
        exists|i: int|
            0 <= i && i + 11 <= t.len() && (forall|k: int| i <= k < i + 11 ==> '0' <= #[trigger] t[k] <= '9') && t[i] == '1'
                && '3' <= t[i + 1] <= '9' && (i == 0 || !('0' <= t[i - 1] <= '9')) && (i + 11 == t.len() || !('0' <= t[i
                + 11] <= '9')),
{
    let i = choose|i: int| #[trigger] phone_at(t, i);
    assert(phone_at(t, i));
}

spec fn sep_free(x: Seq<char>) -> bool {
    forall|k: int| 0 <= k < x.len() ==> !is_tag_sep(#[trigger] x[k])
}

proof fn lemma_pieces_sep_free(s: Seq<char>)
    ensures
        forall|i: int| 0 <= i < tag_pieces(s).len() ==> sep_free(#[trigger] tag_pieces(s)[i]),
    decreases s.len(),
{
    if s.len() > 0 {
        lemma_pieces_sep_free(s.drop_last());
        lemma_tag_pieces_nonempty(s.drop_last());
        let p = tag_pieces(s.drop_last());
        let r = tag_pieces(s);
        if is_tag_sep(s.last()) {
            assert forall|i: int| 0 <= i < r.len() implies sep_free(#[trigger] r[i]) by {
                if i < p.len() {
                    assert(r[i] == p[i]);
                }
            }
        } else {
            assert forall|i: int| 0 <= i < r.len() implies sep_free(#[trigger] r[i]) by {
                if i < p.len() - 1 {
                    assert(r[i] == p[i]);
                } else {
                    let x = p.last().push(s.last());
                    assert(r[i] == x);
                    assert(sep_free(p[p.len() - 1]));
                    assert forall|k: int| 0 <= k < x.len() implies !is_tag_sep(#[trigger] x[k]) by {
                        if k < x.len() - 1 {
                            assert(x[k] == p[p.len() - 1][k]);
                        }
                    }
                }
            }
        }
    }
}

proof fn lemma_trim_sep_free(x: Seq<char>)
    requires
        sep_free(x),
    ensures
        sep_free(trim(x)),
{
    crate::text::lemma_trim_start_suffix(x);
    let y = crate::text::trim_start(x);
    crate::text::lemma_trim_end_prefix(y);
    let off = x.len() - y.len();
    assert forall|k: int| 0 <= k < trim(x).len() implies !is_tag_sep(#[trigger] trim(x)[k]) by {
        assert(trim(x)[k] == y[k]);
        assert(y[k] == x[k + off]);
    }
}

proof fn lemma_collect_sep_free(pieces: Seq<Seq<char>>)
    requires
        forall|i: int| 0 <= i < pieces.len() ==> sep_free(#[trigger] pieces[i]),
    ensures
        forall|i: int| 0 <= i < collect_tags(pieces).len() ==> sep_free(#[trigger] collect_tags(pieces)[i]),
    decreases pieces.len(),
{
    if pieces.len() > 0 {
        let rest = pieces.drop_last();
        assert forall|i: int| 0 <= i < rest.len() implies sep_free(#[trigger] rest[i]) by {
            assert(rest[i] == pieces[i]);
        }
        lemma_collect_sep_free(rest);
        let out = collect_tags(rest);
        let t = trim(pieces.last());
        assert(sep_free(pieces[pieces.len() - 1]));
        lemma_trim_sep_free(pieces.last());
        if t.len() > 0 && !out.contains(t) {
            let r = out.push(t);
            assert forall|i: int| 0 <= i < r.len() implies sep_free(#[trigger] r[i]) by {
                if i < out.len() {
                    assert(r[i] == out[i]);
                }
            }
        }
    }
}

/// No parsed topic holds a separator: whitespace (spaces, tabs, line breaks, the ideographic
/// space…), ASCII or full-width commas and semicolons, the enumeration comma, or `#`. Words
/// typed with spaces between them are separate topics, just as with commas.
pub proof fn parsed_tags_hold_no_separator(input: Seq<char>)
    ensures
        forall|i: int, k: int|
            0 <= i < parse_tags_spec(input).len() && 0 <= k < parse_tags_spec(input)[i].len() ==> {
                let c = #[trigger] parse_tags_spec(input)[i][k];
                &&& !is_ws(c)
                &&& c != ' ' && c != '\t' && c != '\n' && c != '\u{3000}'
                &&& c != ',' && c != '\u{ff0c}' && c != '\u{3001}' && c != '#' && c != ';' && c != '\u{ff1b}'
            },
{
    lemma_pieces_sep_free(input);
    lemma_collect_sep_free(tag_pieces(input));
    assert forall|i: int, k: int|
        0 <= i < parse_tags_spec(input).len() && 0 <= k < parse_tags_spec(input)[i].len() implies !is_tag_sep(
        #[trigger] parse_tags_spec(input)[i][k],
    ) by {
        assert(sep_free(parse_tags_spec(input)[i]));
    }
}

proof fn lemma_pieces_of_sep_free(x: Seq<char>)
    requires
        sep_free(x),
    ensures
        tag_pieces(x) == seq![x],
    decreases x.len(),
{
    if x.len() > 0 {
        let y = x.drop_last();
        assert forall|k: int| 0 <= k < y.len() implies !is_tag_sep(#[trigger] y[k]) by {
            assert(y[k] == x[k]);
        }
        lemma_pieces_of_sep_free(y);
        assert(!is_tag_sep(x[x.len() - 1]));
        assert(y.push(x.last()) =~= x);
        let u = seq![y].update(0, y.push(x.last()));
        assert(u.len() == 1 && u[0] == x);
        assert(u =~= seq![x]);
    } else {
        assert(x =~= Seq::<char>::empty());
    }
}

/// A topic typed alone, with no whitespace, comma, semicolon, enumeration comma or `#` in it,
/// comes back as exactly that one topic: nothing else splits or changes it.
pub proof fn a_single_topic_parses_to_itself(x: Seq<char>)
    requires
        x.len() > 0,
        forall|k: int|
            0 <= k < x.len() ==> {
                let c = #[trigger] x[k];
                &&& !is_ws(c)
                &&& c != ',' && c != '\u{ff0c}' && c != '\u{3001}' && c != '#' && c != ';' && c != '\u{ff1b}'
            },
    ensures
        parse_tags_spec(x) == seq![x],
{
    assert(sep_free(x));
    lemma_pieces_of_sep_free(x);
    assert(!is_ws(x[0]));
    assert(crate::text::trim_start(x) == x);
    assert(!is_ws(x.last()));
    assert(crate::text::trim_end(x) == x);
    let ps = seq![x];
    assert(ps.drop_last() =~= Seq::<Seq<char>>::empty());
    assert(collect_tags(ps.drop_last()) == Seq::<Seq<char>>::empty());
    assert(ps.last() == x);
    assert(seq![x] =~= Seq::<Seq<char>>::empty().push(x));
}

} // verus!
