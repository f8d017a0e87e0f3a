//! Fuzzy search over NixOS option documents.
//!
//! The crate holds a set of option records grouped into prefix-addressed
//! namespaces, matches a free-text query against the option keys with a fuzzy
//! subsequence scorer, ranks and truncates the candidates, and renders each
//! hit as a styled title (matched characters highlighted) plus a styled
//! description assembled from a small documentation markup.  A previously
//! rendered title can be turned back into the plain option key, looked up
//! across the namespaces, and resolved into the locations that declare the
//! option.

use vstd::prelude::*;

pub mod escape;
pub mod markup;
pub mod matcher;
pub mod pipeline;
pub mod resolve;
pub mod store;
pub mod text;
pub mod title;

verus! {

/// A tagged text blob carried through from the loaded documents: either the
/// default value or the example value of an option, with its kind tag.  The
/// tag is not interpreted; only the text is rendered.
pub struct DefaultOrExample {
    pub kind: String,
    pub text: String,
}

/// A reference to the place that declares an option: either a path that may
/// still need to be resolved against a base location, or a structured
/// declaration that carries its location directly.
pub enum Declaration {
    NixOS(String),
    Nmd(NmdDeclaration),
}

/// A structured declaration carrying the location of the declaring module.
pub struct NmdDeclaration {
    pub url: String,
}

/// One option record: where it is declared, its free-text documentation, its
/// default and example values, its location path, whether it is read-only,
/// and its type descriptor.
pub struct NixOSOption {
    pub declarations: Vec<Declaration>,
    pub description: Option<String>,
    pub default: Option<DefaultOrExample>,
    pub example: Option<DefaultOrExample>,
    pub loc: Vec<String>,
    pub read_only: bool,
    pub ty: String,
}

/// The plugin's own configuration: the option sources per namespace prefix,
/// the minimum score a candidate must exceed, and the base location used to
/// resolve relative declaration paths.
pub struct Config {
    pub options: Vec<(String, Vec<String>)>,
    pub min_score: i64,
    pub nixpkgs_url: String,
}

/// The host's configuration as far as this plugin reads it: the cap on the
/// number of results shown, where zero or absent means unlimited.
pub struct AnyrunConfig {
    pub max_entries: Option<usize>,
}

/// One result handed back to the caller: a styled title whose matched
/// characters are highlighted, and a styled description.
pub struct RenderedResult {
    pub title: String,
    pub description: String,
}

} // verus!
