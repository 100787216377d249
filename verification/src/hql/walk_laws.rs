//! What `traverse` walks: every edge of the type leaving the slice's nodes,
//! and, with more hops, every edge of the type leaving the nodes those
//! edges reach; and nothing but walks of such edges.

use vstd::prelude::*;

use crate::hql::ops::{node_by_id, SnapM};
use crate::hql::row::{node_m, EdgeM, NodeM, RowM};
use crate::hql::walk::{start_nodes, traverse_m, visit, visit_edges, visit_frontier, walk_hops, WalkM};

verus! {

/// The edge a row walks, for a walk row.
pub open spec fn walk_edge(r: RowM) -> Option<EdgeM> {
    match r {
        RowM::Walk { edge, .. } => Some(edge),
        _ => None,
    }
}

/// Some row walks an edge with id `id`.
pub open spec fn walked(rows: Seq<RowM>, id: Seq<char>) -> bool {
    exists|k: int| 0 <= k < rows.len() && (#[trigger] walk_edge(rows[k]) matches Some(e) && e.id == id)
}

/// The node an edge's target id names, when there is one.
pub open spec fn resolves(e: EdgeM, nodes: Seq<NodeM>) -> Option<NodeM> {
    match e.to_id {
        Some(t) => node_by_id(nodes, t),
        None => None,
    }
}

/// No two edges share an id, as the store's key keeps them.
pub open spec fn unique_ids(edges: Seq<EdgeM>) -> bool {
    forall|a: int, b: int|
        #![trigger edges[a], edges[b]]
        0 <= a < edges.len() && 0 <= b < edges.len() && edges[a].id == edges[b].id ==> a == b
}

/// Each row is a walk of an edge of `edges` with type `t`, from the node the
/// edge leaves, to the node it resolves to.
pub open spec fn walks_of(rows: Seq<RowM>, edges: Seq<EdgeM>, t: Seq<char>, nodes: Seq<NodeM>) -> bool {
    forall|k: int|
        0 <= k < rows.len() ==> (#[trigger] rows[k] matches RowM::Walk { from, edge, to } && edges.contains(edge)
            && edge.edge_type == t && edge.from_id == from.id && to == resolves(edge, nodes))
}

/// No two rows walk edges with the same id.
pub open spec fn each_once(rows: Seq<RowM>) -> bool {
    forall|k: int, l: int|
        #![trigger rows[k], rows[l]]
        0 <= k < l < rows.len() && walk_edge(rows[k]) is Some && walk_edge(rows[l]) is Some
            ==> walk_edge(rows[k])->0.id != walk_edge(rows[l])->0.id
}

spec fn once(st: WalkM) -> bool {
    &&& each_once(st.emitted)
    &&& forall|k: int|
        0 <= k < st.emitted.len() ==> (#[trigger] walk_edge(st.emitted[k]) matches Some(e) && st.seen.contains(e.id))
}

spec fn grows(a: WalkM, b: WalkM) -> bool {
    &&& forall|id: Seq<char>| #[trigger] a.seen.contains(id) ==> b.seen.contains(id)
    &&& forall|id: Seq<char>| #[trigger] walked(a.emitted, id) ==> walked(b.emitted, id)
    &&& forall|n: NodeM| #[trigger] a.next.contains(n) ==> b.next.contains(n)
}

spec fn logged(st: WalkM) -> bool {
    forall|id: Seq<char>| #[trigger] st.seen.contains(id) ==> walked(st.emitted, id)
}

spec fn lands(st: WalkM, s0: Seq<Seq<char>>, edges: Seq<EdgeM>, nodes: Seq<NodeM>) -> bool {
    forall|a: int|
        #![trigger edges[a]]
        0 <= a < edges.len() && st.seen.contains(edges[a].id) && !s0.contains(edges[a].id) && resolves(
            edges[a],
            nodes,
        ) is Some ==> st.next.contains(resolves(edges[a], nodes)->0)
}

proof fn lemma_grows_trans(a: WalkM, b: WalkM, c: WalkM)
    requires
        grows(a, b),
        grows(b, c),
    ensures
        grows(a, c),
{
}

proof fn lemma_visit(
    st: WalkM,
    src: NodeM,
    e: EdgeM,
    edges: Seq<EdgeM>,
    t: Seq<char>,
    nodes: Seq<NodeM>,
    s0: Seq<Seq<char>>,
)
    requires
        edges.contains(e),
        logged(st),
        walks_of(st.emitted, edges, t, nodes),
    ensures
        grows(st, visit(st, src, e, t, nodes)),
        logged(visit(st, src, e, t, nodes)),
        walks_of(visit(st, src, e, t, nodes).emitted, edges, t, nodes),
        unique_ids(edges) && lands(st, s0, edges, nodes) ==> lands(visit(st, src, e, t, nodes), s0, edges, nodes),
        e.from_id == src.id && e.edge_type == t ==> visit(st, src, e, t, nodes).seen.contains(e.id),
        once(st) ==> once(visit(st, src, e, t, nodes)),
{
    let st2 = visit(st, src, e, t, nodes);
    if e.from_id == src.id && e.edge_type == t && !st.seen.contains(e.id) {
        let dest = resolves(e, nodes);
        let w = RowM::Walk { from: src, edge: e, to: dest };
        assert(st2.emitted == st.emitted.push(w));
        assert(st2.seen == st.seen.push(e.id));
        assert forall|id: Seq<char>| #[trigger] st.seen.contains(id) implies st2.seen.contains(id) by {
            let j = choose|j: int| 0 <= j < st.seen.len() && st.seen[j] == id;
            assert(st2.seen[j] == id);
        }
        assert forall|id: Seq<char>| #[trigger] walked(st.emitted, id) implies walked(st2.emitted, id) by {
            let k = choose|k: int| 0 <= k < st.emitted.len() && (#[trigger] walk_edge(st.emitted[k]) matches Some(x) && x.id == id);
            assert(st2.emitted[k] == st.emitted[k]);
        }
        assert forall|n: NodeM| #[trigger] st.next.contains(n) implies st2.next.contains(n) by {
            let j = choose|j: int| 0 <= j < st.next.len() && st.next[j] == n;
            if let Some(d) = dest {
                assert(st2.next[j] == n);
            }
        }
        assert(walk_edge(st2.emitted[st.emitted.len() as int]) == Some(e));
        assert forall|id: Seq<char>| #[trigger] st2.seen.contains(id) implies walked(st2.emitted, id) by {
            let j = choose|j: int| 0 <= j < st2.seen.len() && st2.seen[j] == id;
            if j < st.seen.len() {
                assert(st.seen[j] == id);
                assert(st.seen.contains(id));
            }
        }
        assert forall|k: int| 0 <= k < st2.emitted.len() implies (#[trigger] st2.emitted[k] matches RowM::Walk {
            from,
            edge,
            to,
        } && edges.contains(edge) && edge.edge_type == t && edge.from_id == from.id && to == resolves(
            edge,
            nodes,
        )) by {
            if k < st.emitted.len() {
                assert(st2.emitted[k] == st.emitted[k]);
            }
        }
        assert(st2.seen[st.seen.len() as int] == e.id);
        if once(st) {
            let n = st.emitted.len() as int;
            assert forall|k: int| 0 <= k < st2.emitted.len() implies (#[trigger] walk_edge(st2.emitted[k]) matches Some(x)
                && st2.seen.contains(x.id)) by {
                if k < n {
                    assert(st2.emitted[k] == st.emitted[k]);
                    assert(walk_edge(st.emitted[k]) matches Some(x) && st.seen.contains(x.id));
                }
            }
            assert forall|k: int, l: int|
                #![trigger st2.emitted[k], st2.emitted[l]]
                0 <= k < l < st2.emitted.len() && walk_edge(st2.emitted[k]) is Some && walk_edge(
                    st2.emitted[l],
                ) is Some implies walk_edge(st2.emitted[k])->0.id != walk_edge(st2.emitted[l])->0.id by {
                assert(st2.emitted[k] == st.emitted[k]);
                if l < n {
                    assert(st2.emitted[l] == st.emitted[l]);
                    assert(st.emitted[k] == st.emitted[k] && st.emitted[l] == st.emitted[l]);
                } else {
                    assert(walk_edge(st.emitted[k]) matches Some(x) && st.seen.contains(x.id));
                }
            }
        }
        if unique_ids(edges) && lands(st, s0, edges, nodes) {
            let b = choose|b: int| 0 <= b < edges.len() && edges[b] == e;
            assert forall|a: int|
                #![trigger edges[a]]
                0 <= a < edges.len() && st2.seen.contains(edges[a].id) && !s0.contains(edges[a].id)
                    && resolves(edges[a], nodes) is Some implies st2.next.contains(
                resolves(edges[a], nodes)->0,
            ) by {
                if st.seen.contains(edges[a].id) {
                    assert(st.next.contains(resolves(edges[a], nodes)->0));
                } else {
                    let j = choose|j: int| 0 <= j < st2.seen.len() && st2.seen[j] == edges[a].id;
                    if j < st.seen.len() {
                        assert(st.seen[j] == edges[a].id);
                    }
                    assert(edges[a].id == edges[b].id);
                    assert(a == b);
                    let d = dest->0;
                    assert(st2.next == st.next.push(d));
                    assert(st2.next[st.next.len() as int] == d);
                }
            }
        }
    }
}

proof fn lemma_visit_edges(
    st: WalkM,
    src: NodeM,
    es: Seq<EdgeM>,
    edges: Seq<EdgeM>,
    t: Seq<char>,
    nodes: Seq<NodeM>,
    s0: Seq<Seq<char>>,
)
    requires
        forall|j: int| 0 <= j < es.len() ==> edges.contains(#[trigger] es[j]),
        logged(st),
        walks_of(st.emitted, edges, t, nodes),
    ensures
        grows(st, visit_edges(st, src, es, t, nodes)),
        logged(visit_edges(st, src, es, t, nodes)),
        walks_of(visit_edges(st, src, es, t, nodes).emitted, edges, t, nodes),
        unique_ids(edges) && lands(st, s0, edges, nodes) ==> lands(
            visit_edges(st, src, es, t, nodes),
            s0,
            edges,
            nodes,
        ),
        forall|j: int|
            0 <= j < es.len() && (#[trigger] es[j]).from_id == src.id && es[j].edge_type == t
                ==> visit_edges(st, src, es, t, nodes).seen.contains(es[j].id),
        once(st) ==> once(visit_edges(st, src, es, t, nodes)),
    decreases es.len(),
{
    if es.len() > 0 {
        let pre = es.drop_last();
        assert forall|j: int| 0 <= j < pre.len() implies edges.contains(#[trigger] pre[j]) by {
            assert(pre[j] == es[j]);
        }
        lemma_visit_edges(st, src, pre, edges, t, nodes, s0);
        let mid = visit_edges(st, src, pre, t, nodes);
        assert(es.last() == es[es.len() - 1]);
        lemma_visit(mid, src, es.last(), edges, t, nodes, s0);
        let fin = visit(mid, src, es.last(), t, nodes);
        lemma_grows_trans(st, mid, fin);
        assert forall|j: int|
            0 <= j < es.len() && (#[trigger] es[j]).from_id == src.id && es[j].edge_type == t
                implies fin.seen.contains(es[j].id) by {
            if j < es.len() - 1 {
                assert(pre[j] == es[j]);
                assert(mid.seen.contains(pre[j].id));
            }
        }
    }
}

proof fn lemma_visit_frontier(
    st: WalkM,
    frontier: Seq<NodeM>,
    edges: Seq<EdgeM>,
    t: Seq<char>,
    nodes: Seq<NodeM>,
    s0: Seq<Seq<char>>,
)
    requires
        logged(st),
        walks_of(st.emitted, edges, t, nodes),
    ensures
        grows(st, visit_frontier(st, frontier, edges, t, nodes)),
        logged(visit_frontier(st, frontier, edges, t, nodes)),
        walks_of(visit_frontier(st, frontier, edges, t, nodes).emitted, edges, t, nodes),
        unique_ids(edges) && lands(st, s0, edges, nodes) ==> lands(
            visit_frontier(st, frontier, edges, t, nodes),
            s0,
            edges,
            nodes,
        ),
        forall|x: int, a: int|
            #![trigger frontier[x], edges[a]]
            0 <= x < frontier.len() && 0 <= a < edges.len() && edges[a].from_id == frontier[x].id
                && edges[a].edge_type == t ==> visit_frontier(st, frontier, edges, t, nodes).seen.contains(
                edges[a].id,
            ),
        once(st) ==> once(visit_frontier(st, frontier, edges, t, nodes)),
    decreases frontier.len(),
{
    if frontier.len() > 0 {
        let pre = frontier.drop_last();
        lemma_visit_frontier(st, pre, edges, t, nodes, s0);
        let mid = visit_frontier(st, pre, edges, t, nodes);
        assert forall|j: int| 0 <= j < edges.len() implies edges.contains(#[trigger] edges[j]) by {}
        lemma_visit_edges(mid, frontier.last(), edges, edges, t, nodes, s0);
        let fin = visit_edges(mid, frontier.last(), edges, t, nodes);
        lemma_grows_trans(st, mid, fin);
        assert forall|x: int, a: int|
            #![trigger frontier[x], edges[a]]
            0 <= x < frontier.len() && 0 <= a < edges.len() && edges[a].from_id == frontier[x].id
                && edges[a].edge_type == t implies fin.seen.contains(edges[a].id) by {
            if x < frontier.len() - 1 {
                assert(pre[x] == frontier[x]);
                assert(mid.seen.contains(edges[a].id));
            } else {
                assert(frontier.last() == frontier[x]);
            }
        }
    }
}

proof fn lemma_hops_keep(
    frontier: Seq<NodeM>,
    emitted: Seq<RowM>,
    seen: Seq<Seq<char>>,
    edges: Seq<EdgeM>,
    t: Seq<char>,
    nodes: Seq<NodeM>,
    k: nat,
)
    requires
        logged(WalkM { emitted, seen, next: Seq::empty() }),
        walks_of(emitted, edges, t, nodes),
    ensures
        forall|id: Seq<char>| #[trigger] walked(emitted, id) ==> walked(walk_hops(frontier, emitted, seen, edges, t, nodes, k), id),
        walks_of(walk_hops(frontier, emitted, seen, edges, t, nodes, k), edges, t, nodes),
        once(WalkM { emitted, seen, next: Seq::empty() }) ==> each_once(
            walk_hops(frontier, emitted, seen, edges, t, nodes, k),
        ),
    decreases k,
{
    if k > 0 {
        let base = WalkM { emitted, seen, next: Seq::empty() };
        lemma_visit_frontier(base, frontier, edges, t, nodes, seen);
        let st = visit_frontier(base, frontier, edges, t, nodes);
        assert(logged(WalkM { emitted: st.emitted, seen: st.seen, next: Seq::empty() }));
        if once(base) {
            assert(once(WalkM { emitted: st.emitted, seen: st.seen, next: Seq::empty() }));
        }
        lemma_hops_keep(st.next, st.emitted, st.seen, edges, t, nodes, (k - 1) as nat);
        let r = walk_hops(frontier, emitted, seen, edges, t, nodes, k);
        assert(r == walk_hops(st.next, st.emitted, st.seen, edges, t, nodes, (k - 1) as nat));
        assert forall|id: Seq<char>| #[trigger] walked(emitted, id) implies walked(r, id) by {
            assert(walked(base.emitted, id));
            assert(walked(st.emitted, id));
        }
    }
}

proof fn lemma_hops_first(
    frontier: Seq<NodeM>,
    emitted: Seq<RowM>,
    seen: Seq<Seq<char>>,
    edges: Seq<EdgeM>,
    t: Seq<char>,
    nodes: Seq<NodeM>,
    k: nat,
    x: int,
    a: int,
)
    requires
        k >= 1,
        logged(WalkM { emitted, seen, next: Seq::empty() }),
        walks_of(emitted, edges, t, nodes),
        0 <= x < frontier.len(),
        0 <= a < edges.len(),
        edges[a].from_id == frontier[x].id,
        edges[a].edge_type == t,
    ensures
        walked(walk_hops(frontier, emitted, seen, edges, t, nodes, k), edges[a].id),
{
    let base = WalkM { emitted, seen, next: Seq::empty() };
    lemma_visit_frontier(base, frontier, edges, t, nodes, seen);
    let st = visit_frontier(base, frontier, edges, t, nodes);
    assert(frontier[x] == frontier[x] && edges[a] == edges[a]);
    assert(st.seen.contains(edges[a].id));
    assert(walked(st.emitted, edges[a].id));
    assert(logged(WalkM { emitted: st.emitted, seen: st.seen, next: Seq::empty() }));
    lemma_hops_keep(st.next, st.emitted, st.seen, edges, t, nodes, (k - 1) as nat);
}

proof fn lemma_hops_second(
    frontier: Seq<NodeM>,
    emitted: Seq<RowM>,
    seen: Seq<Seq<char>>,
    edges: Seq<EdgeM>,
    t: Seq<char>,
    nodes: Seq<NodeM>,
    k: nat,
    x: int,
    a: int,
    b: int,
)
    requires
        k >= 2,
        unique_ids(edges),
        logged(WalkM { emitted, seen, next: Seq::empty() }),
        walks_of(emitted, edges, t, nodes),
        0 <= x < frontier.len(),
        0 <= a < edges.len(),
        0 <= b < edges.len(),
        edges[a].from_id == frontier[x].id,
        edges[a].edge_type == t,
        !seen.contains(edges[a].id),
        resolves(edges[a], nodes) matches Some(d) && edges[b].from_id == d.id,
        edges[b].edge_type == t,
    ensures
        walked(walk_hops(frontier, emitted, seen, edges, t, nodes, k), edges[b].id),
{
    let base = WalkM { emitted, seen, next: Seq::empty() };
    assert(lands(base, seen, edges, nodes));
    lemma_visit_frontier(base, frontier, edges, t, nodes, seen);
    let st = visit_frontier(base, frontier, edges, t, nodes);
    assert(frontier[x] == frontier[x] && edges[a] == edges[a]);
    assert(st.seen.contains(edges[a].id));
    let d = resolves(edges[a], nodes)->0;
    assert(st.next.contains(d));
    let y = choose|y: int| 0 <= y < st.next.len() && st.next[y] == d;
    assert(logged(WalkM { emitted: st.emitted, seen: st.seen, next: Seq::empty() }));
    lemma_hops_first(st.next, st.emitted, st.seen, edges, t, nodes, (k - 1) as nat, y, b);
}

proof fn lemma_start_holds(rows: Seq<RowM>, nodes: Seq<NodeM>, i: int)
    requires
        0 <= i < rows.len(),
        node_m(rows[i]) is Some,
    ensures
        start_nodes(rows, nodes).contains(node_m(rows[i])->0),
    decreases rows.len(),
{
    let n = node_m(rows[i])->0;
    if i == rows.len() - 1 {
        assert(start_nodes(rows, nodes).last() == n);
    } else {
        assert(rows.drop_last()[i] == rows[i]);
        lemma_start_holds(rows.drop_last(), nodes, i);
        let prev = start_nodes(rows.drop_last(), nodes);
        let j = choose|j: int| 0 <= j < prev.len() && prev[j] == n;
        assert(start_nodes(rows, nodes)[j] == n);
    }
}

/// `traverse --edge T --hops H` (H at least 1) gives walk rows only: each
/// walks an edge of the store of type `T`, from the node that edge leaves,
/// to the node it resolves to, and no edge is walked twice.
pub proof fn law_traverse_gives_walks_of_the_type(snap: SnapM, rows: Seq<RowM>, etype: Seq<char>, hops: i64)
    requires
        hops >= 1,
    ensures
        traverse_m(snap, rows, etype, hops) matches Ok(out) && walks_of(out, snap.edges, etype, snap.nodes)
            && each_once(out),
{
    let start = start_nodes(rows, snap.nodes);
    lemma_hops_keep(start, Seq::empty(), Seq::empty(), snap.edges, etype, snap.nodes, hops as nat);
}

/// `traverse --edge T --hops H` (H at least 1) walks every edge of type `T`
/// that leaves a node of the slice.
pub proof fn law_traverse_walks_edges_leaving_the_slice(
    snap: SnapM,
    rows: Seq<RowM>,
    etype: Seq<char>,
    hops: i64,
    i: int,
    a: int,
)
    requires
        hops >= 1,
        0 <= i < rows.len(),
        0 <= a < snap.edges.len(),
        node_m(rows[i]) matches Some(n) && snap.edges[a].from_id == n.id,
        snap.edges[a].edge_type == etype,
    ensures
        traverse_m(snap, rows, etype, hops) matches Ok(out) && walked(out, snap.edges[a].id),
{
    let start = start_nodes(rows, snap.nodes);
    lemma_start_holds(rows, snap.nodes, i);
    let x = choose|x: int| 0 <= x < start.len() && start[x] == node_m(rows[i])->0;
    lemma_hops_first(start, Seq::empty(), Seq::empty(), snap.edges, etype, snap.nodes, hops as nat, x, a);
}

/// `traverse --edge T --hops H` with H at least 2, over a store whose edge
/// ids are distinct: besides the edges of type `T` leaving the slice's
/// nodes, it walks every edge of type `T` leaving a node such an edge
/// resolves to, the second hop.
pub proof fn law_traverse_walks_the_second_hop(
    snap: SnapM,
    rows: Seq<RowM>,
    etype: Seq<char>,
    hops: i64,
    i: int,
    a: int,
    b: int,
)
    requires
        hops >= 2,
        unique_ids(snap.edges),
        0 <= i < rows.len(),
        0 <= a < snap.edges.len(),
        0 <= b < snap.edges.len(),
        node_m(rows[i]) matches Some(n) && snap.edges[a].from_id == n.id,
        snap.edges[a].edge_type == etype,
        resolves(snap.edges[a], snap.nodes) matches Some(d) && snap.edges[b].from_id == d.id,
        snap.edges[b].edge_type == etype,
    ensures
        traverse_m(snap, rows, etype, hops) matches Ok(out) && walked(out, snap.edges[a].id) && walked(
            out,
            snap.edges[b].id,
        ),
{
    let start = start_nodes(rows, snap.nodes);
    lemma_start_holds(rows, snap.nodes, i);
    let x = choose|x: int| 0 <= x < start.len() && start[x] == node_m(rows[i])->0;
    lemma_hops_first(start, Seq::empty(), Seq::empty(), snap.edges, etype, snap.nodes, hops as nat, x, a);
    lemma_hops_second(
        start,
        Seq::empty(),
        Seq::empty(),
        snap.edges,
        etype,
        snap.nodes,
        hops as nat,
        x,
        a,
        b,
    );
}

} // verus!
