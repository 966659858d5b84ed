//! Builds the JSON documentation straight from a live analysis host: a
//! work-queue walk that discovers the symbols as the host reports them, with
//! the host's calls behind thin trusted wrappers and everything around them
//! verified.
//!
//! What the host answers depends on the analysis data it has loaded, so the
//! wrappers promise nothing about the values that come back; the builder's
//! contract states that whatever came back, the output is the rendering of a
//! faithfully assembled envelope for the requested crate name.

use vstd::prelude::*;

use crate::assemble::{envelope_of, Assembler};
use crate::error::DocError;
use crate::serialize::{render, render_envelope};
use crate::symbol::{Symbol, SymbolKind, SymbolView};

verus! {

/// A live analysis index. Holds the `rls_analysis::AnalysisHost` that
/// answers the builder's queries; the host type itself cannot be declared to
/// the verifier (its generics are bounded by the loader trait), so it lives
/// behind this opaque struct.
#[verifier::external_body]
pub struct DocHost {
    host: rls_analysis::AnalysisHost,
}

impl DocHost {
    /// Relies on `rls_analysis::AnalysisHost::new`: a host with no analysis
    /// data loaded yet, reading release-mode analysis when it loads.
    #[verifier::external_body]
    pub fn new_host() -> DocHost {
        DocHost { host: rls_analysis::AnalysisHost::new(rls_analysis::Target::Release) }
    }

    /// Relies on `rls_analysis::AnalysisHost::reload`: reads the
    /// save-analysis data under `path_prefix`, rebasing paths at `base_dir`;
    /// reports whether the load succeeded.
    ///
    /// Caution: the call can abort by panic instead of returning its error —
    /// when neither `SYSROOT` nor `RUSTC` is set and no `rustc` can be run,
    /// and on an analysis file whose crate data has no prelude. The verifier
    /// keeps unwind-catching out of this crate, so a caller that must not
    /// unwind has to catch around this method itself. No verified function
    /// of the library calls it.
    #[verifier::external_body]
    pub fn reload(&self, path_prefix: &str, base_dir: &str) -> (r: Result<(), ()>)
    {
        match self.host.reload(
            std::path::Path::new(path_prefix),
            std::path::Path::new(base_dir),
        ) {
            Ok(()) => Ok(()),
            Err(_) => Err(()),
        }
    }
}

/// The index's opaque symbol identifier.
#[verifier::external_type_specification]
#[verifier::external_body]
pub struct ExId(rls_analysis::Id);

/// The index's error type for failed queries.
#[verifier::external_type_specification]
#[verifier::external_body]
pub struct ExAError(rls_analysis::AError);

/// Relies on `rls_analysis::AnalysisHost::def_roots`: the root symbol id and
/// crate name of every crate in the loaded analysis. What it returns depends
/// on the data the host has loaded, so nothing is assumed of the answer.
#[verifier::external_body]
fn host_def_roots(host: &DocHost) -> Result<
    Vec<(rls_analysis::Id, String)>,
    rls_analysis::AError,
> {
    host.host.def_roots()
}

/// Relies on `rls_analysis::AnalysisHost::get_def`: the metadata of one
/// symbol, carried over field by field; kinds outside the recognized
/// vocabulary are carried as [`SymbolKind::Other`]. Nothing is assumed of
/// the answer.
#[verifier::external_body]
fn host_get_def(host: &DocHost, id: rls_analysis::Id) -> Result<
    Symbol,
    rls_analysis::AError,
> {
    match host.host.get_def(id) {
        Ok(d) => Ok(Symbol {
            kind: match d.kind {
                rls_analysis::DefKind::Mod => SymbolKind::Mod,
                rls_analysis::DefKind::Struct => SymbolKind::Struct,
                rls_analysis::DefKind::Enum => SymbolKind::Enum,
                _ => SymbolKind::Other,
            },
            qualname: d.qualname,
            name: d.name,
            docs: d.docs,
        }),
        Err(e) => Err(e),
    }
}

/// Relies on `rls_analysis::AnalysisHost::for_each_child_def`: the ids of a
/// symbol's direct children; the closure hands each id straight back.
/// Nothing is assumed of the answer.
#[verifier::external_body]
fn host_children(host: &DocHost, id: rls_analysis::Id) -> Result<
    Vec<rls_analysis::Id>,
    rls_analysis::AError,
> {
    host.host.for_each_child_def(id, |child, _def| child)
}

/// Relies on `rls_analysis::Id`'s derived `Clone`: an identifier clones to
/// itself.
#[verifier::external_body]
fn copy_id(id: &rls_analysis::Id) -> (r: rls_analysis::Id)
    ensures
        r == *id,
{
    id.clone()
}

/// The defensive bound on visited symbols: a walk that enqueues more than
/// this is treated as cyclic or degenerate and aborted.
pub const TRAVERSAL_LIMIT: usize = 1000000;

/// The first root entry of the table whose crate name matches, as its id:
/// an id comes back exactly when the table carries the name, so the build's
/// missing-crate error is decided by the table alone.
fn find_root_id(roots: &Vec<(rls_analysis::Id, String)>, name: &String) -> (r: Option<
    rls_analysis::Id,
>)
    ensures
        r is Some <==> exists|i: int|
            0 <= i < roots@.len() && (#[trigger] roots@[i]).1@ == name@,
        r matches Some(id) ==> exists|i: int|
            0 <= i < roots@.len() && (#[trigger] roots@[i]).1@ == name@ && roots@[i].0 == id
                && forall|j: int| 0 <= j < i ==> (#[trigger] roots@[j]).1@ != name@,
{
    let n = roots.len();
    for i in 0..n
        invariant
            n == roots.len(),
            forall|j: int| 0 <= j < i ==> (#[trigger] roots@[j]).1@ != name@,
    {
        if roots[i].1 == *name {
            let id = copy_id(&roots[i].0);
            proof {
                assert(roots@[i as int].1@ == name@ && roots@[i as int].0 == id);
            }
            return Some(id);
        }
    }
    None
}

/// Creates the JSON documentation of the named crate from the analysis host.
///
/// Queries the host for its crate roots, walks the matching root's children
/// breadth first, classifies and assembles every visited symbol, and renders
/// the envelope.
///
/// Unlike [`crate::graph::build_docs`], this walk re-enqueues every child id
/// exactly as the host reports it, without deduplication: a symbol reachable
/// through several parents is visited, and so recorded, once per discovery.
/// On tree-shaped graphs the two walks agree; a walk that enqueues more than
/// [`TRAVERSAL_LIMIT`] identifiers (a cycle would) is aborted with
/// [`DocError::TraversalLimit`]. Whatever symbols the host reported, the output
/// is exactly the rendering of the envelope assembled from them for the
/// requested crate name; a missing crate name is reported as
/// [`DocError::CrateNotFound`] carrying that name, and any failed host query
/// aborts the build with no output.
pub fn create_json(host: &DocHost, crate_name: &str) -> (r: Result<
    String,
    DocError,
>)
    ensures
        match r {
            Ok(s) => exists|syms: Seq<SymbolView>, root_docs: Seq<char>| s@ == render_envelope(
                envelope_of(syms, crate_name@, root_docs),
            ),
            Err(e) => e matches DocError::CrateNotFound(n) ==> n@ == crate_name@,
        },
{
    let roots = match host_def_roots(host) {
        Ok(v) => v,
        Err(_) => {
            return Err(DocError::Resolution);
        },
    };
    let owned = crate_name.to_owned();
    let root_id = match find_root_id(&roots, &owned) {
        Some(id) => id,
        None => {
            return Err(DocError::CrateNotFound(owned));
        },
    };
    let root_sym = match host_get_def(host, copy_id(&root_id)) {
        Ok(s) => s,
        Err(_) => {
            return Err(DocError::Resolution);
        },
    };
    let mut queue: Vec<rls_analysis::Id> = match host_children(host, root_id) {
        Ok(c) => c,
        Err(_) => {
            return Err(DocError::Enumeration);
        },
    };
    let mut assembler = Assembler::new();
    let mut visits: usize = 0;
    while queue.len() > 0
        invariant
            assembler.wf(),
            visits <= TRAVERSAL_LIMIT,
        decreases TRAVERSAL_LIMIT - visits,
    {
        if visits == TRAVERSAL_LIMIT {
            return Err(DocError::TraversalLimit);
        }
        visits = visits + 1;
        let id = queue.remove(0);
        let mut children = match host_children(host, copy_id(&id)) {
            Ok(c) => c,
            Err(_) => {
                return Err(DocError::Enumeration);
            },
        };
        queue.append(&mut children);
        let sym = match host_get_def(host, id) {
            Ok(s) => s,
            Err(_) => {
                return Err(DocError::Resolution);
            },
        };
        assembler.push(&sym);
    }
    let envelope = assembler.finish(crate_name, root_sym.docs.as_str());
    let text = render(&envelope);
    proof {
        assert(text@ == render_envelope(
            envelope_of(assembler.syms(), crate_name@, root_sym.docs@),
        ));
    }
    Ok(text)
}

} // verus!
