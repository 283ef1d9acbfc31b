//! What the plugin manager knows of a plugin.
use vstd::prelude::*;

verus! {

/// The metadata of a Lua plugin.
pub struct PluginManifest {
    pub name: String,
    pub description: String,
    pub version: String,
    pub author: String,
    pub on_enable_ref: Option<usize>,
    pub on_disable_ref: Option<usize>,
}

/// The metadata of a plugin, as text.
pub struct ManifestView {
    pub name: Seq<char>,
    pub description: Seq<char>,
    pub version: Seq<char>,
    pub author: Seq<char>,
    pub on_enable_ref: Option<usize>,
    pub on_disable_ref: Option<usize>,
}

impl View for PluginManifest {
    type V = ManifestView;

    open spec fn view(&self) -> ManifestView {
        ManifestView {
            name: self.name@,
            description: self.description@,
            version: self.version@,
            author: self.author@,
            on_enable_ref: self.on_enable_ref,
            on_disable_ref: self.on_disable_ref,
        }
    }
}

/// The metadata that a plugin file's returned table gives as text, under the
/// keys `name`, `description`, `version` and `author`; `None` where it gives none.
pub struct ManifestFields {
    pub name: Option<String>,
    pub description: Option<String>,
    pub version: Option<String>,
    pub author: Option<String>,
}

/// The metadata a plugin file gives, as text.
pub struct FieldsView {
    pub name: Option<Seq<char>>,
    pub description: Option<Seq<char>>,
    pub version: Option<Seq<char>>,
    pub author: Option<Seq<char>>,
}

/// The view of an optional text.
pub open spec fn text_view(t: Option<String>) -> Option<Seq<char>> {
    match t {
        Some(s) => Some(s@),
        None => None,
    }
}

impl View for ManifestFields {
    type V = FieldsView;

    open spec fn view(&self) -> FieldsView {
        FieldsView {
            name: text_view(self.name),
            description: text_view(self.description),
            version: text_view(self.version),
            author: text_view(self.author),
        }
    }
}

/// No metadata at all.
pub open spec fn no_fields() -> FieldsView {
    FieldsView { name: None, description: None, version: None, author: None }
}

} // verus!
