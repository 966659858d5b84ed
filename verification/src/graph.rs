//! The symbol graph and the traversal engine: a breadth-first, work-queue
//! walk over a crate's symbol graph, seeded with the root's direct children,
//! and the builder that turns one walk into the serialized document.
//!
//! Each identifier is enqueued at most once, even when it is reachable
//! through several parents: this keeps every classified symbol's record
//! unique in the output and guarantees that the walk terminates even on a
//! graph with cycles.

use vstd::prelude::*;
use vstd::seq_lib::lemma_seq_contains_after_push;

use crate::assemble::{count_with_id, envelope_of, included_of, lemma_included_exactly_once, Assembler};
use crate::classify::spec_classify;
use crate::error::DocError;
use crate::serialize::{render, render_envelope};
use crate::symbol::{Symbol, SymbolView};

verus! {

/// One node of the symbol graph: the symbol's metadata and the indices of
/// its direct children.
pub struct GraphNode {
    /// The node's symbol metadata.
    pub symbol: Symbol,
    /// The indices of the node's direct children.
    pub children: Vec<usize>,
}

/// The mathematical view of a [`GraphNode`].
pub ghost struct GraphNodeView {
    pub symbol: SymbolView,
    pub children: Seq<int>,
}

/// Node indices viewed as mathematical integers.
pub open spec fn ids_view(v: Seq<usize>) -> Seq<int> {
    v.map_values(|c: usize| c as int)
}

impl View for GraphNode {
    type V = GraphNodeView;

    open spec fn view(&self) -> GraphNodeView {
        GraphNodeView { symbol: self.symbol@, children: ids_view(self.children@) }
    }
}

/// The view of a node table: each node replaced by its view.
pub open spec fn nodes_view(ns: Seq<GraphNode>) -> Seq<GraphNodeView> {
    ns.map_values(|n: GraphNode| n@)
}

/// The view of a root table: indices as integers, names as characters.
pub open spec fn roots_view(rs: Seq<(usize, String)>) -> Seq<(int, Seq<char>)> {
    rs.map_values(|r: (usize, String)| (r.0 as int, r.1@))
}

/// A crate's symbol graph as plain data: nodes addressed by index, plus the
/// root table pairing each crate name in the index with its root node.
pub struct SymbolGraph {
    /// The nodes, addressed by index.
    pub nodes: Vec<GraphNode>,
    /// Each crate name of the index with the index of its root node.
    pub roots: Vec<(usize, String)>,
}

/// The mathematical view of a [`SymbolGraph`].
pub ghost struct SymbolGraphView {
    pub nodes: Seq<GraphNodeView>,
    pub roots: Seq<(int, Seq<char>)>,
}

impl View for SymbolGraph {
    type V = SymbolGraphView;

    open spec fn view(&self) -> SymbolGraphView {
        SymbolGraphView { nodes: nodes_view(self.nodes@), roots: roots_view(self.roots@) }
    }
}

impl SymbolGraphView {
    /// Every child edge and every root entry lands on a node of the graph.
    pub open spec fn wf(self) -> bool {
        &&& forall|i: int, j: int|
            0 <= i < self.nodes.len() && 0 <= j < self.nodes[i].children.len() ==> 0 <= #[trigger] self.nodes[i].children[j]
                < self.nodes.len()
        &&& forall|i: int|
            0 <= i < self.roots.len() ==> 0 <= (#[trigger] self.roots[i]).0 < self.nodes.len()
    }
}

/// Enqueues, in order, those of the children that the queue does not hold
/// yet; the queue never holds an identifier twice.
pub open spec fn enqueue_children(q: Seq<int>, cs: Seq<int>) -> Seq<int>
    decreases cs.len(),
{
    if cs.len() == 0 {
        q
    } else {
        let q1 = if q.contains(cs[0]) {
            q
        } else {
            q.push(cs[0])
        };
        enqueue_children(q1, cs.drop_first())
    }
}

/// The state of the work-queue walk after one step: the node under the queue
/// head is visited and its unseen children join the queue's tail.
pub open spec fn bfs_rec(g: SymbolGraphView, q: Seq<int>, head: int, fuel: nat) -> Seq<int>
    decreases fuel,
{
    if head >= q.len() || fuel == 0 {
        q
    } else {
        bfs_rec(g, enqueue_children(q, g.nodes[q[head]].children), head + 1, (fuel - 1) as nat)
    }
}

/// The visit order of the breadth-first walk from a seed list: the seeds in
/// order (first occurrences only), then each visited node's unseen children,
/// in discovery order. The fuel equals the node count, which a
/// duplicate-free queue can never outgrow.
pub open spec fn walk(g: SymbolGraphView, seeds: Seq<int>) -> Seq<int> {
    bfs_rec(g, enqueue_children(Seq::empty(), seeds), 0, g.nodes.len() as nat)
}

/// The symbols of the visited nodes, in visit order.
pub open spec fn syms_of(g: SymbolGraphView, order: Seq<int>) -> Seq<SymbolView> {
    order.map_values(|i: int| g.nodes[i].symbol)
}

/// The marks table agrees with queue membership for every node index.
spec fn marks_ok(marks: Seq<bool>, q: Seq<int>, n: int) -> bool {
    &&& marks.len() == n
    &&& forall|id: int| 0 <= id < n ==> (marks[id] <==> q.contains(id))
    &&& forall|k: int| 0 <= k < q.len() ==> 0 <= #[trigger] q[k] < n
}

/// Enqueues the unseen entries of `cs`, keeping the marks in step.
fn enqueue_all(queue: &mut Vec<usize>, marks: &mut Vec<bool>, cs: &Vec<usize>, n: usize)
    requires
        marks_ok(old(marks)@, ids_view(old(queue)@), n as int),
        forall|j: int| 0 <= j < cs@.len() ==> (#[trigger] cs@[j]) < n,
    ensures
        marks_ok(final(marks)@, ids_view(final(queue)@), n as int),
        ids_view(final(queue)@) == enqueue_children(ids_view(old(queue)@), ids_view(cs@)),
{
    broadcast use lemma_seq_contains_after_push;

    let ghost q0 = ids_view(queue@);
    let ghost csv = ids_view(cs@);
    proof {
        assert(csv.skip(0) =~= csv);
    }
    let m = cs.len();
    for j in 0..m
        invariant
            m == cs.len(),
            csv == ids_view(cs@),
            forall|jj: int| 0 <= jj < cs@.len() ==> (#[trigger] cs@[jj]) < n,
            marks_ok(marks@, ids_view(queue@), n as int),
            enqueue_children(ids_view(queue@), csv.skip(j as int)) == enqueue_children(q0, csv),
    {
        let ghost qc = ids_view(queue@);
        let c = cs[j];
        if !marks[c] {
            marks.set(c, true);
            queue.push(c);
            proof {
                assert(ids_view(queue@) =~= qc.push(c as int));
                assert forall|id: int| 0 <= id < n implies (marks@[id] <==> ids_view(
                    queue@,
                ).contains(id)) by {
                    lemma_seq_contains_after_push(qc, c as int, id);
                }
            }
        }
        proof {
            assert(csv.skip(j as int).drop_first() =~= csv.skip(j + 1 as int));
            assert(csv.skip(j as int)[0] == csv[j as int]);
            assert(enqueue_children(ids_view(queue@), csv.skip(j + 1 as int))
                == enqueue_children(qc, csv.skip(j as int)));
        }
    }
    proof {
        assert(csv.skip(m as int) =~= Seq::<int>::empty());
    }
}

/// Walks the graph breadth-first from the seed list, visiting each reachable
/// node at most once, and returns the node indices in visit order.
pub fn traverse(g: &SymbolGraph, seeds: &Vec<usize>) -> (r: Vec<usize>)
    requires
        g@.wf(),
        forall|j: int| 0 <= j < seeds@.len() ==> (#[trigger] seeds@[j] as int) < g@.nodes.len(),
    ensures
        ids_view(r@) == walk(g@, ids_view(seeds@)),
        forall|k: int| 0 <= k < r@.len() ==> (#[trigger] r@[k] as int) < g@.nodes.len(),
{
    let n = g.nodes.len();
    let mut marks: Vec<bool> = Vec::new();
    for i in 0..n
        invariant
            marks@.len() == i,
            forall|k: int| 0 <= k < i ==> !(#[trigger] marks@[k]),
    {
        marks.push(false);
    }
    let mut queue: Vec<usize> = Vec::new();
    proof {
        assert(ids_view(queue@) =~= Seq::<int>::empty());
        assert(marks_ok(marks@, ids_view(queue@), n as int));
    }
    enqueue_all(&mut queue, &mut marks, seeds, n);
    proof {
        assert(bfs_rec(g@, ids_view(queue@), 0, n as nat) == walk(g@, ids_view(seeds@)));
    }
    let mut head: usize = 0;
    while head < queue.len() && head < n
        invariant
            g@.wf(),
            n == g@.nodes.len(),
            head <= n,
            marks_ok(marks@, ids_view(queue@), n as int),
            bfs_rec(g@, ids_view(queue@), head as int, (n - head) as nat) == walk(
                g@,
                ids_view(seeds@),
            ),
        decreases n - head,
    {
        let ghost qc = ids_view(queue@);
        let id = queue[head];
        proof {
            assert(qc[head as int] == id as int);
            assert(0 <= qc[head as int] < n as int);
            assert(g@.nodes[id as int].children == ids_view(g.nodes@[id as int].children@));
            assert forall|j: int| 0 <= j < g.nodes@[id as int].children@.len() implies (
            #[trigger] g.nodes@[id as int].children@[j]) < n by {
                assert(g@.nodes[id as int].children[j] == g.nodes@[id as int].children@[j] as int);
                assert(0 <= g@.nodes[id as int].children[j] < g@.nodes.len());
            }
        }
        enqueue_all(&mut queue, &mut marks, &g.nodes[id].children, n);
        head = head + 1;
    }
    proof {
        assert(bfs_rec(g@, ids_view(queue@), head as int, (n - head) as nat) == ids_view(queue@));
        assert forall|k: int| 0 <= k < queue@.len() implies (#[trigger] queue@[k] as int)
            < g@.nodes.len() by {
            assert(ids_view(queue@)[k] == queue@[k] as int);
        }
    }
    queue
}

/// The first root entry named `name`, as the index it pairs the name with.
pub open spec fn find_root(roots: Seq<(int, Seq<char>)>, name: Seq<char>) -> Option<int>
    decreases roots.len(),
{
    if roots.len() == 0 {
        None
    } else if roots[0].1 == name {
        Some(roots[0].0)
    } else {
        find_root(roots.drop_first(), name)
    }
}

/// Finds the root node of the named crate in the root table, or nothing when
/// the index knows no crate of that name.
pub fn lookup_root(roots: &Vec<(usize, String)>, name: &str) -> (r: Option<usize>)
    ensures
        match r {
            Some(id) => find_root(roots_view(roots@), name@) == Some(id as int),
            None => find_root(roots_view(roots@), name@) is None,
        },
{
    let ghost v = roots_view(roots@);
    proof {
        assert(v.skip(0) =~= v);
    }
    let owned = name.to_owned();
    let n = roots.len();
    for i in 0..n
        invariant
            n == roots.len(),
            v == roots_view(roots@),
            owned@ == name@,
            find_root(v.skip(i as int), name@) == find_root(v, name@),
    {
        proof {
            assert(v.skip(i as int)[0] == v[i as int]);
            assert(v.skip(i as int).drop_first() =~= v.skip(i + 1 as int));
        }
        if roots[i].1 == owned {
            return Some(roots[i].0);
        }
    }
    proof {
        assert(v.skip(n as int) =~= Seq::<(int, Seq<char>)>::empty());
    }
    None
}

/// A found root is one of the root table's entries.
proof fn lemma_find_root_entry(roots: Seq<(int, Seq<char>)>, name: Seq<char>)
    ensures
        find_root(roots, name) matches Some(id) ==> exists|i: int|
            0 <= i < roots.len() && (#[trigger] roots[i]).0 == id,
    decreases roots.len(),
{
    if roots.len() == 0 {
    } else if roots[0].1 == name {
        assert(roots[0].0 == find_root(roots, name)->Some_0);
    } else {
        lemma_find_root_entry(roots.drop_first(), name);
        if find_root(roots.drop_first(), name) is Some {
            let id = find_root(roots.drop_first(), name)->Some_0;
            let i = choose|i: int|
                0 <= i < roots.drop_first().len() && (#[trigger] roots.drop_first()[i]).0 == id;
            assert(roots[i + 1].0 == id);
        }
    }
}

/// The text that a build of the named crate with root `rid` produces: the
/// serialized envelope assembled from the walk seeded with the root's
/// children, carrying the root's documentation on the crate record.
pub open spec fn spec_build(g: SymbolGraphView, name: Seq<char>, rid: int) -> Seq<char> {
    render_envelope(
        envelope_of(syms_of(g, walk(g, g.nodes[rid].children)), name, g.nodes[rid].symbol.docs),
    )
}

/// Builds the serialized documentation of the named crate from its symbol
/// graph: resolves the crate's root, walks the root's children breadth
/// first, classifies and assembles every visited symbol, and renders the
/// envelope. Fails exactly when the root table has no entry for the name.
pub fn build_docs(g: &SymbolGraph, crate_name: &str) -> (r: Result<String, DocError>)
    requires
        g@.wf(),
    ensures
        match r {
            Ok(s) => find_root(g@.roots, crate_name@) matches Some(rid) && s@ == spec_build(
                g@,
                crate_name@,
                rid,
            ),
            Err(e) => {
                &&& find_root(g@.roots, crate_name@) is None
                &&& e matches DocError::CrateNotFound(n) && n@ == crate_name@
            },
        },
{
    let rid = match lookup_root(&g.roots, crate_name) {
        Some(id) => id,
        None => {
            return Err(DocError::CrateNotFound(crate_name.to_owned()));
        },
    };
    proof {
        lemma_find_root_entry(g@.roots, crate_name@);
        assert((rid as int) < g@.nodes.len());
        assert(g@.nodes[rid as int].children == ids_view(g.nodes@[rid as int].children@));
        assert forall|j: int| 0 <= j < g.nodes@[rid as int].children@.len() implies (
        #[trigger] g.nodes@[rid as int].children@[j] as int) < g@.nodes.len() by {
            assert(g@.nodes[rid as int].children[j] == g.nodes@[rid as int].children@[j] as int);
            assert(0 <= g@.nodes[rid as int].children[j] < g@.nodes.len());
        }
    }
    let order = traverse(g, &g.nodes[rid].children);
    let ghost ov = ids_view(order@);
    let mut assembler = Assembler::new();
    proof {
        assert(assembler.syms() =~= syms_of(g@, ov.take(0)));
    }
    let m = order.len();
    for k in 0..m
        invariant
            m == order.len(),
            ov == ids_view(order@),
            g@.nodes.len() == g.nodes@.len(),
            forall|kk: int| 0 <= kk < order@.len() ==> (#[trigger] order@[kk] as int)
                < g@.nodes.len(),
            assembler.wf(),
            assembler.syms() == syms_of(g@, ov.take(k as int)),
    {
        let idx = order[k];
        assembler.push(&g.nodes[idx].symbol);
        proof {
            assert(g@.nodes[idx as int].symbol == g.nodes@[idx as int].symbol@);
            assert(syms_of(g@, ov.take(k + 1 as int)) =~= syms_of(g@, ov.take(k as int)).push(
                g@.nodes[idx as int].symbol,
            ));
        }
    }
    proof {
        assert(ov.take(m as int) =~= ov);
    }
    let envelope = assembler.finish(crate_name, g.nodes[rid].symbol.docs.as_str());
    let text = render(&envelope);
    Ok(text)
}

/// Enqueueing children keeps the queue duplicate-free, and brings in nothing
/// beyond the old queue and the children themselves.
proof fn lemma_enqueue_children_props(q: Seq<int>, cs: Seq<int>)
    requires
        q.no_duplicates(),
    ensures
        enqueue_children(q, cs).no_duplicates(),
        forall|x: int| #[trigger] enqueue_children(q, cs).contains(x) ==> q.contains(x)
            || cs.contains(x),
    decreases cs.len(),
{
    broadcast use lemma_seq_contains_after_push;

    if cs.len() == 0 {
    } else {
        let q1 = if q.contains(cs[0]) {
            q
        } else {
            q.push(cs[0])
        };
        if !q.contains(cs[0]) {
            assert forall|i: int, j: int|
                0 <= i < q1.len() && 0 <= j < q1.len() && i != j implies q1[i] != q1[j] by {
                if q1[i] == cs[0] && i < q.len() {
                    assert(q.contains(cs[0]));
                }
                if q1[j] == cs[0] && j < q.len() {
                    assert(q.contains(cs[0]));
                }
            }
        }
        lemma_enqueue_children_props(q1, cs.drop_first());
        assert forall|x: int| #[trigger] enqueue_children(q, cs).contains(x) implies q.contains(x)
            || cs.contains(x) by {
            assert(enqueue_children(q, cs) == enqueue_children(q1, cs.drop_first()));
            if cs.drop_first().contains(x) {
                let i = choose|i: int| 0 <= i < cs.drop_first().len() && cs.drop_first()[i] == x;
                assert(cs[i + 1] == x);
            }
        }
    }
}

/// The walk's queue stays duplicate-free and stays inside the graph.
proof fn lemma_bfs_rec_sound(g: SymbolGraphView, q: Seq<int>, head: int, fuel: nat)
    requires
        g.wf(),
        0 <= head,
        q.no_duplicates(),
        forall|k: int| 0 <= k < q.len() ==> 0 <= #[trigger] q[k] < g.nodes.len(),
    ensures
        bfs_rec(g, q, head, fuel).no_duplicates(),
        forall|k: int| 0 <= k < bfs_rec(g, q, head, fuel).len() ==> 0 <= #[trigger] bfs_rec(
            g,
            q,
            head,
            fuel,
        )[k] < g.nodes.len(),
    decreases fuel,
{
    if head >= q.len() || fuel == 0 {
    } else {
        let cs = g.nodes[q[head]].children;
        let q2 = enqueue_children(q, cs);
        lemma_enqueue_children_props(q, cs);
        assert forall|k: int| 0 <= k < q2.len() implies 0 <= #[trigger] q2[k] < g.nodes.len() by {
            assert(q2.contains(q2[k]));
            if q.contains(q2[k]) {
                let i = choose|i: int| 0 <= i < q.len() && q[i] == q2[k];
            } else {
                let j = choose|j: int| 0 <= j < cs.len() && cs[j] == q2[k];
                assert(0 <= q[head] < g.nodes.len());
                assert(0 <= g.nodes[q[head]].children[j] < g.nodes.len());
            }
        }
        lemma_bfs_rec_sound(g, q2, head + 1, (fuel - 1) as nat);
    }
}

/// Law: the walk visits no identifier twice, and every visited identifier is
/// a node of the graph.
pub proof fn lemma_walk_sound(g: SymbolGraphView, seeds: Seq<int>)
    requires
        g.wf(),
        forall|j: int| 0 <= j < seeds.len() ==> 0 <= #[trigger] seeds[j] < g.nodes.len(),
    ensures
        walk(g, seeds).no_duplicates(),
        forall|k: int| 0 <= k < walk(g, seeds).len() ==> 0 <= #[trigger] walk(g, seeds)[k]
            < g.nodes.len(),
{
    let q0 = enqueue_children(Seq::empty(), seeds);
    assert(Seq::<int>::empty().no_duplicates());
    lemma_enqueue_children_props(Seq::empty(), seeds);
    assert forall|k: int| 0 <= k < q0.len() implies 0 <= #[trigger] q0[k] < g.nodes.len() by {
        assert(q0.contains(q0[k]));
        if seeds.contains(q0[k]) {
            let j = choose|j: int| 0 <= j < seeds.len() && seeds[j] == q0[k];
        }
    }
    lemma_bfs_rec_sound(g, q0, 0, g.nodes.len() as nat);
}

/// Qualified names are pairwise distinct across the graph's nodes.
pub open spec fn distinct_qualnames(g: SymbolGraphView) -> bool {
    forall|i: int, j: int|
        0 <= i < g.nodes.len() && 0 <= j < g.nodes.len() && i != j ==> (
        #[trigger] g.nodes[i]).symbol.qualname != (#[trigger] g.nodes[j]).symbol.qualname
}

/// Law: in a well-formed graph whose qualified names are unique, every
/// classified visited symbol's resource record appears exactly once among
/// the `included` records of the walk's assembly.
pub proof fn lemma_each_visited_symbol_included_once(g: SymbolGraphView, seeds: Seq<int>, k: int)
    requires
        g.wf(),
        distinct_qualnames(g),
        forall|j: int| 0 <= j < seeds.len() ==> 0 <= #[trigger] seeds[j] < g.nodes.len(),
        0 <= k < walk(g, seeds).len(),
        spec_classify(g.nodes[walk(g, seeds)[k]].symbol.kind) is Some,
    ensures
        count_with_id(
            included_of(syms_of(g, walk(g, seeds))),
            g.nodes[walk(g, seeds)[k]].symbol.qualname,
        ) == 1,
{
    lemma_walk_sound(g, seeds);
    let vs = walk(g, seeds);
    let syms = syms_of(g, vs);
    assert forall|i: int, j: int| 0 <= i < j < syms.len() implies (
    #[trigger] syms[i]).qualname != (#[trigger] syms[j]).qualname by {
        assert(syms[i] == g.nodes[vs[i]].symbol);
        assert(syms[j] == g.nodes[vs[j]].symbol);
        assert(vs[i] != vs[j]);
    }
    assert(syms[k] == g.nodes[vs[k]].symbol);
    lemma_included_exactly_once(syms, k);
}

/// The walk reads only the graph's shape, never a symbol's kind: on two
/// graphs with the same nodes and the same child edges it follows the same
/// queue.
proof fn lemma_bfs_rec_ignores_symbols(
    g1: SymbolGraphView,
    g2: SymbolGraphView,
    q: Seq<int>,
    head: int,
    fuel: nat,
)
    requires
        g1.wf(),
        0 <= head,
        q.no_duplicates(),
        forall|k: int| 0 <= k < q.len() ==> 0 <= #[trigger] q[k] < g1.nodes.len(),
        g1.nodes.len() == g2.nodes.len(),
        forall|i: int| 0 <= i < g1.nodes.len() ==> (#[trigger] g1.nodes[i]).children == (
        #[trigger] g2.nodes[i]).children,
    ensures
        bfs_rec(g1, q, head, fuel) == bfs_rec(g2, q, head, fuel),
    decreases fuel,
{
    if head >= q.len() || fuel == 0 {
    } else {
        let cs = g1.nodes[q[head]].children;
        assert(0 <= q[head] < g1.nodes.len());
        assert(g2.nodes[q[head]].children == cs);
        let q2 = enqueue_children(q, cs);
        lemma_enqueue_children_props(q, cs);
        assert forall|k: int| 0 <= k < q2.len() implies 0 <= #[trigger] q2[k]
            < g1.nodes.len() by {
            assert(q2.contains(q2[k]));
            if q.contains(q2[k]) {
                let i = choose|i: int| 0 <= i < q.len() && q[i] == q2[k];
            } else {
                let j = choose|j: int| 0 <= j < cs.len() && cs[j] == q2[k];
                assert(0 <= g1.nodes[q[head]].children[j] < g1.nodes.len());
            }
        }
        lemma_bfs_rec_ignores_symbols(g1, g2, q2, head + 1, (fuel - 1) as nat);
    }
}

/// Law: an unclassified symbol's children are still visited: the walk never
/// consults a symbol's kind, name or documentation, so changing any symbol's
/// metadata (while keeping the child edges) leaves the visit order unchanged.
pub proof fn lemma_walk_ignores_symbols(g1: SymbolGraphView, g2: SymbolGraphView, seeds: Seq<int>)
    requires
        g1.wf(),
        forall|j: int| 0 <= j < seeds.len() ==> 0 <= #[trigger] seeds[j] < g1.nodes.len(),
        g1.nodes.len() == g2.nodes.len(),
        forall|i: int| 0 <= i < g1.nodes.len() ==> (#[trigger] g1.nodes[i]).children == (
        #[trigger] g2.nodes[i]).children,
    ensures
        walk(g1, seeds) == walk(g2, seeds),
{
    let q0 = enqueue_children(Seq::empty(), seeds);
    assert(Seq::<int>::empty().no_duplicates());
    lemma_enqueue_children_props(Seq::empty(), seeds);
    assert forall|k: int| 0 <= k < q0.len() implies 0 <= #[trigger] q0[k] < g1.nodes.len() by {
        assert(q0.contains(q0[k]));
        if seeds.contains(q0[k]) {
            let j = choose|j: int| 0 <= j < seeds.len() && seeds[j] == q0[k];
        }
    }
    lemma_bfs_rec_ignores_symbols(g1, g2, q0, 0, g1.nodes.len() as nat);
}

/// Law: a build is a function of the symbol graph, the crate name and the
/// resolved root alone; two builds over an unchanged graph produce
/// byte-identical output.
pub proof fn lemma_build_deterministic(
    g: SymbolGraphView,
    name: Seq<char>,
    rid: int,
    a: Seq<char>,
    b: Seq<char>,
)
    requires
        a == spec_build(g, name, rid),
        b == spec_build(g, name, rid),
    ensures
        a == b,
{
}

} // verus!
