//! Editor user-interface state shared with the drawing code.

use crate::text::{concat3, str_eq};
use vstd::prelude::*;

verus! {

/// The menu command chosen during a frame.
#[derive(Debug, Clone, Copy, PartialEq, Eq, Structural)]
pub enum MenuAction {
    /// No command was chosen.
    NoAction,
    OpenScene,
    SaveScene,
    ImportModel,
    ImportHdr,
    Undo,
    Redo,
    ResetCamera,
    Exit,
}

/// The editor's panels; they keep no state of their own yet.
pub struct EditorUI {}

impl EditorUI {
    /// The editor's panels.
    pub fn new() -> (ui: Self) {
        EditorUI {  }
    }
}

/// The text of the Undo menu entry: the name of the command it would undo,
/// if any, then the shortcut.
pub fn undo_menu_label(name: Option<&str>) -> (label: String)
    ensures
        label@ == (match name {
            Some(n) => "撤销 ("@ + n@ + ")"@ + " (Ctrl+Z)"@,
            None => "撤销"@ + " (Ctrl+Z)"@,
        }),
{
    let mut label = match name {
        Some(n) => concat3("撤销 (", n, ")"),
        None => String::from_str("撤销"),
    };
    label.append(" (Ctrl+Z)");
    label
}

/// The text of the Redo menu entry: the name of the command it would redo,
/// if any, then the shortcut.
pub fn redo_menu_label(name: Option<&str>) -> (label: String)
    ensures
        label@ == (match name {
            Some(n) => "重做 ("@ + n@ + ")"@ + " (Ctrl+Shift+Z)"@,
            None => "重做"@ + " (Ctrl+Shift+Z)"@,
        }),
{
    let mut label = match name {
        Some(n) => concat3("重做 (", n, ")"),
        None => String::from_str("重做"),
    };
    label.append(" (Ctrl+Shift+Z)");
    label
}

/// What the asset browser shows for a file.
#[derive(Debug, Clone, Copy, PartialEq, Eq, Structural)]
pub enum AssetKind {
    /// A picture, previewed in the browser.
    Image,
    /// A glTF model.
    Model,
    /// A scene or data file.
    SceneData,
    /// Anything else.
    Unknown,
}

/// What `str::to_lowercase` returns for a string.
pub uninterp spec fn lowercase(s: Seq<char>) -> Seq<char>;

/// The lower-case form of a string.
///
/// Trusted: calls `str::to_lowercase`; the contract only names its result.
#[verifier::external_body]
fn to_lowercase(s: &str) -> (r: String)
    ensures
        r@ == lowercase(s@),
{
    s.to_lowercase()
}

/// The kind of a file, from its extension in lower case.
pub open spec fn kind_of(ext: Seq<char>) -> AssetKind {
    if ext == "png"@ || ext == "jpg"@ || ext == "jpeg"@ || ext == "hdr"@ {
        AssetKind::Image
    } else if ext == "glb"@ || ext == "gltf"@ {
        AssetKind::Model
    } else if ext == "json"@ {
        AssetKind::SceneData
    } else {
        AssetKind::Unknown
    }
}

/// Classifies a file by its extension, already in lower case.
pub fn kind_of_lowercase(extension: &str) -> (k: AssetKind)
    ensures
        k == kind_of(extension@),
{
    let e = extension;
    if str_eq(e, "png") || str_eq(e, "jpg") || str_eq(e, "jpeg") || str_eq(e, "hdr") {
        AssetKind::Image
    } else if str_eq(e, "glb") || str_eq(e, "gltf") {
        AssetKind::Model
    } else if str_eq(e, "json") {
        AssetKind::SceneData
    } else {
        AssetKind::Unknown
    }
}

/// Classifies a file by its extension, ignoring case.
pub fn asset_kind(extension: &str) -> (k: AssetKind)
    ensures
        k == kind_of(lowercase(extension@)),
{
    let lower = to_lowercase(extension);
    kind_of_lowercase(lower.as_str())
}

} // verus!
