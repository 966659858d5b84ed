//! The view of one symbol of the analysis index that the document builder
//! reads: its kind, its globally unique qualified name, its short display
//! name, and its documentation text.

use vstd::prelude::*;

verus! {

/// The kinds of the symbol vocabulary that the builder distinguishes.
///
/// Only modules and structs are classified into the output document; every
/// other kind is carried as `Other` and contributes nothing to the output,
/// though its children are still walked.
#[derive(Clone, Copy, PartialEq, Eq, Structural, Debug)]
pub enum SymbolKind {
    Mod,
    Struct,
    Enum,
    Other,
}

/// The metadata of one symbol: what the analysis index reports for it.
pub struct Symbol {
    /// The kind tag that the classifier inspects.
    pub kind: SymbolKind,
    /// The globally unique path-style name; resource identity in the output.
    pub qualname: String,
    /// The short human-facing name.
    pub name: String,
    /// Free-form documentation text, possibly empty.
    pub docs: String,
}

/// The mathematical view of a [`Symbol`].
pub ghost struct SymbolView {
    pub kind: SymbolKind,
    pub qualname: Seq<char>,
    pub name: Seq<char>,
    pub docs: Seq<char>,
}

impl View for Symbol {
    type V = SymbolView;

    open spec fn view(&self) -> SymbolView {
        SymbolView {
            kind: self.kind,
            qualname: self.qualname@,
            name: self.name@,
            docs: self.docs@,
        }
    }
}

} // verus!
