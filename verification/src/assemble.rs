//! The document assembler: folds the stream of visited symbols into the
//! ordered `included` resource records and the relationship buckets, then
//! closes the build with the crate's own record.

use vstd::prelude::*;
use vstd::string::StringExecFns;

use crate::classify::{classify, spec_classify};
use crate::document::{buckets_view, docs_view, Data, DataView, Document, DocumentView, Documentation, DocumentationView};
use crate::symbol::{Symbol, SymbolView};

verus! {

/// The relationship stub written for a classified symbol.
pub open spec fn stub_of(s: SymbolView, ty: Seq<char>) -> DataView {
    DataView { ty, id: s.qualname }
}

/// The resource record written for a classified symbol: its type, its
/// qualified name as identity, and its `name` and `docs` attributes.
pub open spec fn doc_of(s: SymbolView, ty: Seq<char>) -> DocumentView {
    DocumentView {
        ty,
        id: s.qualname,
        attributes: seq![("name"@, s.name), ("docs"@, s.docs)],
        relationships: Seq::empty(),
    }
}

/// Appends a stub to the first bucket keyed `key`, or creates that bucket at
/// the end of the table when no bucket carries the key yet.
pub open spec fn bucket_add(
    bs: Seq<(Seq<char>, Seq<DataView>)>,
    key: Seq<char>,
    d: DataView,
) -> Seq<(Seq<char>, Seq<DataView>)>
    decreases bs.len(),
{
    if bs.len() == 0 {
        seq![(key, seq![d])]
    } else if bs[0].0 == key {
        seq![(bs[0].0, bs[0].1.push(d))] + bs.drop_first()
    } else {
        seq![bs[0]] + bucket_add(bs.drop_first(), key, d)
    }
}

/// The `included` records of a visit sequence: one record per classified
/// symbol, in visitation order; unclassified symbols contribute nothing.
pub open spec fn included_of(syms: Seq<SymbolView>) -> Seq<DocumentView>
    decreases syms.len(),
{
    if syms.len() == 0 {
        Seq::empty()
    } else {
        let rest = included_of(syms.drop_last());
        match spec_classify(syms.last().kind) {
            Some(p) => rest.push(doc_of(syms.last(), p.0)),
            None => rest,
        }
    }
}

/// The relationship buckets of a visit sequence: one stub per classified
/// symbol, grouped under its bucket key, buckets in order of first use.
pub open spec fn buckets_of(syms: Seq<SymbolView>) -> Seq<(Seq<char>, Seq<DataView>)>
    decreases syms.len(),
{
    if syms.len() == 0 {
        Seq::empty()
    } else {
        let rest = buckets_of(syms.drop_last());
        match spec_classify(syms.last().kind) {
            Some(p) => bucket_add(rest, p.1, stub_of(syms.last(), p.0)),
            None => rest,
        }
    }
}

/// The whole envelope assembled from a visit sequence: the crate's record as
/// `data`, with its documentation and the accumulated buckets, and the
/// classified symbols' records as `included`.
pub open spec fn envelope_of(
    syms: Seq<SymbolView>,
    crate_name: Seq<char>,
    root_docs: Seq<char>,
) -> DocumentationView {
    DocumentationView {
        data: DocumentView {
            ty: "crate"@,
            id: crate_name,
            attributes: seq![("docs"@, root_docs)],
            relationships: buckets_of(syms),
        },
        included: included_of(syms),
    }
}

/// The accumulator of one build: owns the growing `included` sequence and
/// the relationship buckets, and remembers (in ghost state) the symbols it
/// was fed, in order.
pub struct Assembler {
    included: Vec<Document>,
    buckets: Vec<(String, Vec<Data>)>,
    visited: Ghost<Seq<SymbolView>>,
}

impl Assembler {
    /// The visit sequence this assembler has been fed so far.
    pub closed spec fn syms(&self) -> Seq<SymbolView> {
        self.visited@
    }

    /// The accumulated state is exactly the assembly of the visit sequence.
    pub closed spec fn wf(&self) -> bool {
        &&& docs_view(self.included@) == included_of(self.visited@)
        &&& buckets_view(self.buckets@) == buckets_of(self.visited@)
    }

    /// A fresh assembler that has seen no symbol.
    pub fn new() -> (r: Assembler)
        ensures
            r.wf(),
            r.syms() == Seq::<SymbolView>::empty(),
    {
        let r = Assembler { included: Vec::new(), buckets: Vec::new(), visited: Ghost(Seq::empty()) };
        proof {
            assert(docs_view(r.included@) =~= included_of(r.visited@));
            assert(buckets_view(r.buckets@) =~= buckets_of(r.visited@));
        }
        r
    }

    /// Feeds one visited symbol: a classified one gains a resource record
    /// and a relationship stub; an unclassified one changes nothing.
    pub fn push(&mut self, s: &Symbol)
        requires
            old(self).wf(),
        ensures
            final(self).wf(),
            final(self).syms() == old(self).syms().push(s@),
    {
        let ghost prev = self.visited@;
        match classify(s.kind) {
            None => {
                proof {
                    self.visited@ = prev.push(s@);
                    assert(prev.push(s@).drop_last() =~= prev);
                }
            }
            Some((ty, key)) => {
                let mut attributes: Vec<(String, String)> = Vec::new();
                attributes.push((String::from_str("name"), s.name.clone()));
                attributes.push((String::from_str("docs"), s.docs.clone()));
                let doc = Document {
                    ty: ty.clone(),
                    id: s.qualname.clone(),
                    attributes,
                    relationships: Vec::new(),
                };
                proof {
                    assert(doc@.attributes =~= doc_of(s@, ty@).attributes);
                    assert(doc@.relationships =~= doc_of(s@, ty@).relationships);
                }
                self.included.push(doc);
                let stub = Data { ty, id: s.qualname.clone() };
                bucket_push(&mut self.buckets, key, stub);
                proof {
                    self.visited@ = prev.push(s@);
                    assert(prev.push(s@).drop_last() =~= prev);
                    assert(docs_view(self.included@) =~~= included_of(prev).push(
                        doc_of(s@, spec_classify(s@.kind)->Some_0.0),
                    ));
                }
            }
        }
    }

    /// Closes the build: wraps the accumulated buckets and records into the
    /// envelope for the named crate with the root's documentation text.
    pub fn finish(self, crate_name: &str, root_docs: &str) -> (r: Documentation)
        requires
            self.wf(),
        ensures
            r@ == envelope_of(self.syms(), crate_name@, root_docs@),
    {
        let mut attributes: Vec<(String, String)> = Vec::new();
        attributes.push((String::from_str("docs"), root_docs.to_owned()));
        let data = Document {
            ty: String::from_str("crate"),
            id: crate_name.to_owned(),
            attributes,
            relationships: self.buckets,
        };
        let r = Documentation { data, included: self.included };
        proof {
            assert(r@.data.attributes =~= envelope_of(
                self.visited@,
                crate_name@,
                root_docs@,
            ).data.attributes);
        }
        r
    }
}

/// Appends `d` to the first bucket keyed `key`, creating the bucket at the
/// end of the table when the key is new; the exec mirror of [`bucket_add`].
fn bucket_push(buckets: &mut Vec<(String, Vec<Data>)>, key: String, d: Data)
    ensures
        buckets_view(final(buckets)@) == bucket_add(buckets_view(old(buckets)@), key@, d@),
{
    let ghost bs0 = buckets_view(buckets@);
    let n = buckets.len();
    for i in 0..n
        invariant
            n == buckets.len(),
            bs0 == buckets_view(buckets@),
            bs0 == buckets_view(old(buckets)@),
            forall|j: int| 0 <= j < i ==> bs0[j].0 != key@,
    {
        if buckets[i].0 == key {
            let (k, mut stubs) = buckets.remove(i);
            stubs.push(d);
            buckets.insert(i, (k, stubs));
            proof {
                lemma_bucket_add_at(bs0, key@, d@, i as int);
                assert(buckets_view(buckets@) =~~= bs0.update(
                    i as int,
                    (bs0[i as int].0, bs0[i as int].1.push(d@)),
                ));
            }
            return ;
        }
    }
    let mut stubs: Vec<Data> = Vec::new();
    stubs.push(d);
    buckets.push((key, stubs));
    proof {
        lemma_bucket_add_absent(bs0, key@, d@);
        assert(buckets_view(buckets@) =~~= bs0.push((key@, seq![d@])));
    }
}

/// When the key sits first at position `i`, adding a stub updates exactly
/// that bucket.
proof fn lemma_bucket_add_at(bs: Seq<(Seq<char>, Seq<DataView>)>, key: Seq<char>, d: DataView, i: int)
    requires
        0 <= i < bs.len(),
        bs[i].0 == key,
        forall|j: int| 0 <= j < i ==> bs[j].0 != key,
    ensures
        bucket_add(bs, key, d) == bs.update(i, (bs[i].0, bs[i].1.push(d))),
    decreases i,
{
    if i == 0 {
        assert(bucket_add(bs, key, d) =~= bs.update(0, (bs[0].0, bs[0].1.push(d))));
    } else {
        lemma_bucket_add_at(bs.drop_first(), key, d, i - 1);
        assert(bucket_add(bs, key, d) =~= bs.update(i, (bs[i].0, bs[i].1.push(d))));
    }
}

/// When no bucket carries the key, adding a stub appends a fresh bucket.
proof fn lemma_bucket_add_absent(bs: Seq<(Seq<char>, Seq<DataView>)>, key: Seq<char>, d: DataView)
    requires
        forall|j: int| 0 <= j < bs.len() ==> bs[j].0 != key,
    ensures
        bucket_add(bs, key, d) == bs.push((key, seq![d])),
    decreases bs.len(),
{
    if bs.len() == 0 {
        assert(bucket_add(bs, key, d) =~= bs.push((key, seq![d])));
    } else {
        lemma_bucket_add_absent(bs.drop_first(), key, d);
        assert(bucket_add(bs, key, d) =~= bs.push((key, seq![d])));
    }
}

/// The stubs that a visit sequence owes to the bucket keyed `key`: one per
/// classified symbol whose bucket key matches, in visitation order.
pub open spec fn stubs_for(syms: Seq<SymbolView>, key: Seq<char>) -> Seq<DataView>
    decreases syms.len(),
{
    if syms.len() == 0 {
        Seq::empty()
    } else {
        let rest = stubs_for(syms.drop_last(), key);
        match spec_classify(syms.last().kind) {
            Some(p) => if p.1 == key {
                rest.push(stub_of(syms.last(), p.0))
            } else {
                rest
            },
            None => rest,
        }
    }
}

/// The contents of the first bucket keyed `key`, or the empty sequence when
/// the table has none.
pub open spec fn bucket_lookup(bs: Seq<(Seq<char>, Seq<DataView>)>, key: Seq<char>) -> Seq<DataView>
    decreases bs.len(),
{
    if bs.len() == 0 {
        Seq::empty()
    } else if bs[0].0 == key {
        bs[0].1
    } else {
        bucket_lookup(bs.drop_first(), key)
    }
}

/// Adding under key `k` extends the bucket looked up by `k` and leaves every
/// other lookup unchanged.
proof fn lemma_bucket_add_lookup(
    bs: Seq<(Seq<char>, Seq<DataView>)>,
    k: Seq<char>,
    d: DataView,
    key: Seq<char>,
)
    ensures
        bucket_lookup(bucket_add(bs, k, d), key) == if k == key {
            bucket_lookup(bs, key).push(d)
        } else {
            bucket_lookup(bs, key)
        },
    decreases bs.len(),
{
    reveal_with_fuel(bucket_lookup, 3);
    if bs.len() == 0 {
        if k == key {
            assert(bucket_lookup(bucket_add(bs, k, d), key) =~= bucket_lookup(bs, key).push(d));
        } else {
            assert(bucket_add(bs, k, d)[0].0 == k);
            assert(bucket_add(bs, k, d).drop_first() =~= Seq::<(Seq<char>, Seq<DataView>)>::empty());
        }
    } else if bs[0].0 == k {
        assert(bucket_add(bs, k, d)[0] == (bs[0].0, bs[0].1.push(d)));
        assert(bucket_add(bs, k, d).drop_first() =~= bs.drop_first());
        if key == k {
            assert(bucket_lookup(bucket_add(bs, k, d), key) == bs[0].1.push(d));
            assert(bucket_lookup(bs, key) == bs[0].1);
        } else {
            assert(bucket_lookup(bucket_add(bs, k, d), key) == bucket_lookup(bs.drop_first(), key));
            assert(bucket_lookup(bs, key) == bucket_lookup(bs.drop_first(), key));
        }
    } else {
        lemma_bucket_add_lookup(bs.drop_first(), k, d, key);
        assert(bucket_add(bs, k, d)[0] == bs[0]);
        assert(bucket_add(bs, k, d).drop_first() =~= bucket_add(bs.drop_first(), k, d));
    }
}

/// Law: for every visit sequence and every bucket key, the bucket's stubs
/// are exactly those of the classified symbols whose bucket key matches, in
/// visitation order.
pub proof fn lemma_buckets_partition(syms: Seq<SymbolView>, key: Seq<char>)
    ensures
        bucket_lookup(buckets_of(syms), key) == stubs_for(syms, key),
    decreases syms.len(),
{
    if syms.len() == 0 {
    } else {
        lemma_buckets_partition(syms.drop_last(), key);
        match spec_classify(syms.last().kind) {
            Some(p) => {
                lemma_bucket_add_lookup(
                    buckets_of(syms.drop_last()),
                    p.1,
                    stub_of(syms.last(), p.0),
                    key,
                );
            }
            None => {}
        }
    }
}

/// Every `included` record carries the resource type of a recognized kind.
proof fn lemma_included_tys(syms: Seq<SymbolView>)
    ensures
        forall|i: int| 0 <= i < included_of(syms).len() ==> included_of(syms)[i].ty == "module"@
            || included_of(syms)[i].ty == "struct"@,
    decreases syms.len(),
{
    if syms.len() == 0 {
    } else {
        lemma_included_tys(syms.drop_last());
        let rest = included_of(syms.drop_last());
        assert forall|i: int| 0 <= i < included_of(syms).len() implies included_of(syms)[i].ty
            == "module"@ || included_of(syms)[i].ty == "struct"@ by {
            if i < rest.len() {
                assert(included_of(syms)[i] == rest[i]);
            }
        }
    }
}

/// Law: the envelope's `data` record carries the requested crate name as its
/// identity, and never appears among `included`: the crate's record is the
/// only one with the `crate` resource type.
pub proof fn lemma_data_never_included(
    syms: Seq<SymbolView>,
    crate_name: Seq<char>,
    root_docs: Seq<char>,
)
    ensures
        envelope_of(syms, crate_name, root_docs).data.id == crate_name,
        forall|i: int| 0 <= i < envelope_of(syms, crate_name, root_docs).included.len()
            ==> envelope_of(syms, crate_name, root_docs).included[i] != envelope_of(
            syms,
            crate_name,
            root_docs,
        ).data,
{
    lemma_included_tys(syms);
    reveal_strlit("crate");
    reveal_strlit("module");
    reveal_strlit("struct");
    assert("module"@.len() == 6);
    assert("struct"@.len() == 6);
    assert("crate"@.len() == 5);
}

/// How many records of the table carry the given identity.
pub open spec fn count_with_id(ds: Seq<DocumentView>, id: Seq<char>) -> int
    decreases ds.len(),
{
    if ds.len() == 0 {
        0
    } else {
        count_with_id(ds.drop_last(), id) + if ds.last().id == id {
            1int
        } else {
            0int
        }
    }
}

/// A visit sequence without the identity contributes no record under it.
proof fn lemma_count_zero_when_absent(syms: Seq<SymbolView>, id: Seq<char>)
    requires
        forall|i: int| 0 <= i < syms.len() ==> (#[trigger] syms[i]).qualname != id,
    ensures
        count_with_id(included_of(syms), id) == 0,
    decreases syms.len(),
{
    if syms.len() == 0 {
    } else {
        lemma_count_zero_when_absent(syms.drop_last(), id);
        let rest = included_of(syms.drop_last());
        assert(syms[syms.len() - 1] == syms.last());
        match spec_classify(syms.last().kind) {
            Some(p) => {
                let d = doc_of(syms.last(), p.0);
                assert(rest.push(d).drop_last() =~= rest);
                assert(rest.push(d).last() == d);
            },
            None => {},
        }
    }
}

/// Law: in a visit sequence whose qualified names are pairwise distinct,
/// every classified symbol's resource record appears exactly once in
/// `included`.
pub proof fn lemma_included_exactly_once(syms: Seq<SymbolView>, k: int)
    requires
        0 <= k < syms.len(),
        spec_classify(syms[k].kind) is Some,
        forall|i: int, j: int| 0 <= i < j < syms.len() ==> (#[trigger] syms[i]).qualname != (
        #[trigger] syms[j]).qualname,
    ensures
        count_with_id(included_of(syms), syms[k].qualname) == 1,
    decreases syms.len(),
{
    let pre = syms.drop_last();
    let rest = included_of(pre);
    assert(syms[syms.len() - 1] == syms.last());
    if k == syms.len() - 1 {
        assert forall|i: int| 0 <= i < pre.len() implies (#[trigger] pre[i]).qualname != syms[
            k
        ].qualname by {
            assert(pre[i] == syms[i]);
        }
        lemma_count_zero_when_absent(pre, syms[k].qualname);
        let p = spec_classify(syms.last().kind)->Some_0;
        let d = doc_of(syms.last(), p.0);
        assert(rest.push(d).drop_last() =~= rest);
        assert(rest.push(d).last() == d);
    } else {
        assert forall|i: int, j: int| 0 <= i < j < pre.len() implies (#[trigger] pre[i]).qualname
            != (#[trigger] pre[j]).qualname by {
            assert(pre[i] == syms[i]);
            assert(pre[j] == syms[j]);
        }
        assert(pre[k] == syms[k]);
        lemma_included_exactly_once(pre, k);
        assert(syms[k].qualname != syms[syms.len() - 1].qualname);
        match spec_classify(syms.last().kind) {
            Some(p) => {
                let d = doc_of(syms.last(), p.0);
                assert(rest.push(d).drop_last() =~= rest);
                assert(rest.push(d).last() == d);
            },
            None => {},
        }
    }
}

/// Law: a symbol whose kind is not classified contributes no resource record
/// and no relationship stub; assembly of a walk extended by it is unchanged.
/// (The walk itself never consults a symbol's kind, so the children of such
/// a symbol are still visited and may themselves be classified.)
pub proof fn lemma_unclassified_contributes_nothing(syms: Seq<SymbolView>, s: SymbolView)
    requires
        spec_classify(s.kind) is None,
    ensures
        included_of(syms.push(s)) == included_of(syms),
        buckets_of(syms.push(s)) == buckets_of(syms),
{
    assert(syms.push(s).drop_last() =~= syms);
}

} // verus!
