//! Assets: the files a project owns (pictures, 3D models, publishing packs…).
use vstd::prelude::*;

use crate::text::{lower, lower_str, str_eq};

verus! {

#[derive(Debug, Clone, Copy, PartialEq, Eq, Hash, Structural)]
pub enum AssetKind {
    Image,
    Model3d,
    Doc,
    Photo,
    Video,
    Pack,
}

impl AssetKind {
    pub open spec fn name(self) -> Seq<char> {
        match self {
            AssetKind::Image => "image"@,
            AssetKind::Model3d => "model3d"@,
            AssetKind::Doc => "doc"@,
            AssetKind::Photo => "photo"@,
            AssetKind::Video => "video"@,
            AssetKind::Pack => "pack"@,
        }
    }

    pub open spec fn from_name(s: Seq<char>) -> Option<AssetKind> {
        if s == "image"@ {
            Some(AssetKind::Image)
        } else if s == "model3d"@ {
            Some(AssetKind::Model3d)
        } else if s == "doc"@ {
            Some(AssetKind::Doc)
        } else if s == "photo"@ {
            Some(AssetKind::Photo)
        } else if s == "video"@ {
            Some(AssetKind::Video)
        } else if s == "pack"@ {
            Some(AssetKind::Pack)
        } else {
            None
        }
    }

    pub fn as_str(self) -> (r: &'static str)
        ensures
            r@ == self.name(),
    {
        match self {
            AssetKind::Image => "image",
            AssetKind::Model3d => "model3d",
            AssetKind::Doc => "doc",
            AssetKind::Photo => "photo",
            AssetKind::Video => "video",
            AssetKind::Pack => "pack",
        }
    }

    pub fn parse(s: &str) -> (r: Option<AssetKind>)
        ensures
            r == AssetKind::from_name(s@),
    {
        if str_eq(s, "image") {
            Some(AssetKind::Image)
        } else if str_eq(s, "model3d") {
            Some(AssetKind::Model3d)
        } else if str_eq(s, "doc") {
            Some(AssetKind::Doc)
        } else if str_eq(s, "photo") {
            Some(AssetKind::Photo)
        } else if str_eq(s, "video") {
            Some(AssetKind::Video)
        } else if str_eq(s, "pack") {
            Some(AssetKind::Pack)
        } else {
            None
        }
    }
}

/// Reading back the name of an asset kind gives that kind.
pub proof fn asset_kind_name_roundtrip(k: AssetKind)
    ensures
        AssetKind::from_name(k.name()) == Some(k),
{
    reveal_strlit("image");
    reveal_strlit("model3d");
    reveal_strlit("doc");
    reveal_strlit("photo");
    reveal_strlit("video");
    reveal_strlit("pack");
    let n = k.name();
    if k != AssetKind::Image { assert(n != "image"@) by { assert(n.len() != 5 || n[0] != 'i'); } }
    if k != AssetKind::Model3d { assert(n != "model3d"@) by { assert(n.len() != 7 || n[0] != 'm'); } }
    if k != AssetKind::Doc { assert(n != "doc"@) by { assert(n.len() != 3 || n[0] != 'd'); } }
    if k != AssetKind::Photo { assert(n != "photo"@) by { assert(n.len() != 5 || n[0] != 'p'); } }
    if k != AssetKind::Video { assert(n != "video"@) by { assert(n.len() != 5 || n[0] != 'v'); } }
}

/// A file of a project. `parent_asset_id` records where it came from: reference picture →
/// raw model → edited model → print file.
#[derive(Debug, Clone, PartialEq)]
pub struct Asset {
    pub id: String,
    pub project_id: Option<String>,
    pub kind: AssetKind,
    /// concept_ref / concept_scene / cover / real_photo / model_raw / model_edited / print_file …
    pub role: String,
    /// Path below the asset library's root, with forward slashes.
    pub rel_path: String,
    /// Lower-case extension without the dot: glb / stl / png …
    pub ext: String,
    pub bytes: i64,
    pub meta_json: Option<String>,
    pub parent_asset_id: Option<String>,
    pub source_job_id: Option<String>,
    /// Generated by AI: drives the AIGC label and the reminder when publishing.
    pub ai_generated: bool,
    pub is_adopted: bool,
    pub created_at: i64,
}

/// The characters a fresh id is made of.
pub open spec fn is_lower_hex(c: char) -> bool {
    ('0' <= c && c <= '9') || ('a' <= c && c <= 'f')
}

/// The shape of a hyphenated lower-case UUID: 36 characters, `-` at 8, 13, 18 and 23, hex elsewhere.
pub open spec fn is_uuid_text(s: Seq<char>) -> bool {
    &&& s.len() == 36
    &&& forall|k: int|
        0 <= k < 36 ==> if k == 8 || k == 13 || k == 18 || k == 23 {
            #[trigger] s[k] == '-'
        } else {
            is_lower_hex(s[k])
        }
}

/// `uuid::Uuid::now_v7()` rendered with `to_string`: a time-ordered UUID in its hyphenated
/// lower-case form. Which UUID comes back depends on the clock and on random bits; only its
/// shape is stated.
#[verifier::external_body]
pub fn new_id() -> (id: String)
    ensures
        is_uuid_text(id@),
{
    uuid::Uuid::now_v7().to_string()
}

/// What is known about an asset before it is stored.
#[derive(Debug, Clone)]
pub struct NewAsset {
    /// Made by the caller first (the file name uses it); see `new_id`.
    pub id: String,
    pub project_id: Option<String>,
    pub kind: AssetKind,
    pub role: String,
    pub rel_path: String,
    pub ext: String,
    pub bytes: i64,
    pub meta_json: Option<String>,
    pub parent_asset_id: Option<String>,
    pub source_job_id: Option<String>,
    pub ai_generated: bool,
}

impl NewAsset {
    /// A new asset with a fresh id and a lower-cased extension; nothing else set.
    pub fn new(kind: AssetKind, role: &str, rel_path: &str, ext: &str, bytes: i64) -> (r: Self)
        ensures
            is_uuid_text(r.id@),
            r.project_id is None,
            r.kind == kind,
            r.role@ == role@,
            r.rel_path@ == rel_path@,
            r.ext@ == lower(ext@),
            r.bytes == bytes,
            r.meta_json is None,
            r.parent_asset_id is None,
            r.source_job_id is None,
            !r.ai_generated,
    {
        NewAsset {
            id: new_id(),
            project_id: None,
            kind,
            role: String::from_str(role),
            rel_path: String::from_str(rel_path),
            ext: lower_str(ext),
            bytes,
            meta_json: None,
            parent_asset_id: None,
            source_job_id: None,
            ai_generated: false,
        }
    }
}

} // verus!
