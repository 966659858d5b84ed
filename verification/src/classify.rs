//! The classifier: maps a symbol's kind to the resource type written on its
//! resource record and the plural relationship-bucket key it is grouped
//! under. Kinds outside the recognized vocabulary map to nothing and are
//! excluded from the output.

use vstd::prelude::*;
use vstd::string::StringExecFns;

use crate::symbol::SymbolKind;

verus! {

/// What [`classify`] returns for each symbol kind: the resource type and the
/// bucket key for recognized kinds, nothing for all others.
pub open spec fn spec_classify(kind: SymbolKind) -> Option<(Seq<char>, Seq<char>)> {
    match kind {
        SymbolKind::Mod => Some(("module"@, "modules"@)),
        SymbolKind::Struct => Some(("struct"@, "structs"@)),
        _ => None,
    }
}

/// Maps a symbol kind to its resource type and relationship-bucket key, or
/// `None` for kinds that the document does not represent.
pub fn classify(kind: SymbolKind) -> (r: Option<(String, String)>)
    ensures
        r is Some <==> spec_classify(kind) is Some,
        r matches Some(p) ==> spec_classify(kind) == Some((p.0@, p.1@)),
{
    match kind {
        SymbolKind::Mod => Some((String::from_str("module"), String::from_str("modules"))),
        SymbolKind::Struct => Some((String::from_str("struct"), String::from_str("structs"))),
        _ => None,
    }
}

} // verus!
