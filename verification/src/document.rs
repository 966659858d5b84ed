//! The normalized output model: resource records, relationship stubs, and
//! the documentation envelope that pairs the crate's own record with the
//! records of its reachable, classified symbols.

use vstd::prelude::*;

verus! {

/// A relationship stub: a `{type, id}` pointer into the resource record set,
/// used only inside a relationships table and never carrying attributes.
pub struct Data {
    /// The resource type of the record pointed at.
    pub ty: String,
    /// The qualified name of the record pointed at.
    pub id: String,
}

/// The mathematical view of a [`Data`] stub.
pub ghost struct DataView {
    pub ty: Seq<char>,
    pub id: Seq<char>,
}

impl View for Data {
    type V = DataView;

    open spec fn view(&self) -> DataView {
        DataView { ty: self.ty@, id: self.id@ }
    }
}

/// A resource record: the self-contained description of one symbol, or of
/// the crate itself. Attributes are an ordered name-to-value table; the
/// relationships table is non-empty only on the crate's own record.
pub struct Document {
    /// The category of the resource, such as `module`, `struct` or `crate`.
    pub ty: String,
    /// The record's identity: the symbol's qualified name, or the crate name.
    pub id: String,
    /// Ordered attribute table, such as `name` and `docs`.
    pub attributes: Vec<(String, String)>,
    /// Ordered relationship buckets, keyed by plural category name; each
    /// bucket holds its stubs in visitation order.
    pub relationships: Vec<(String, Vec<Data>)>,
}

/// The mathematical view of a [`Document`].
pub ghost struct DocumentView {
    pub ty: Seq<char>,
    pub id: Seq<char>,
    pub attributes: Seq<(Seq<char>, Seq<char>)>,
    pub relationships: Seq<(Seq<char>, Seq<DataView>)>,
}

impl View for Document {
    type V = DocumentView;

    open spec fn view(&self) -> DocumentView {
        DocumentView {
            ty: self.ty@,
            id: self.id@,
            attributes: attrs_view(self.attributes@),
            relationships: buckets_view(self.relationships@),
        }
    }
}

/// The view of an attribute table: both columns viewed as characters.
pub open spec fn attrs_view(a: Seq<(String, String)>) -> Seq<(Seq<char>, Seq<char>)> {
    a.map_values(|p: (String, String)| (p.0@, p.1@))
}

/// The view of a stub table: each stub replaced by its view.
pub open spec fn stubs_view(ds: Seq<Data>) -> Seq<DataView> {
    ds.map_values(|d: Data| d@)
}

/// The view of a bucket table: each key viewed as characters, each bucket as
/// its stubs' views.
pub open spec fn buckets_view(bs: Seq<(String, Vec<Data>)>) -> Seq<(Seq<char>, Seq<DataView>)> {
    bs.map_values(|b: (String, Vec<Data>)| (b.0@, stubs_view(b.1@)))
}

/// The view of a record table: each record replaced by its view.
pub open spec fn docs_view(ds: Seq<Document>) -> Seq<DocumentView> {
    ds.map_values(|d: Document| d@)
}

/// The documentation envelope: the crate's own record as `data`, and the
/// ordered records of every classified reachable symbol as `included`.
pub struct Documentation {
    /// The crate's resource record, the only one carrying relationships.
    pub data: Document,
    /// The non-crate resource records, in visitation order.
    pub included: Vec<Document>,
}

/// The mathematical view of a [`Documentation`] envelope.
pub ghost struct DocumentationView {
    pub data: DocumentView,
    pub included: Seq<DocumentView>,
}

impl View for Documentation {
    type V = DocumentationView;

    open spec fn view(&self) -> DocumentationView {
        DocumentationView {
            data: self.data@,
            included: docs_view(self.included@),
        }
    }
}

} // verus!
