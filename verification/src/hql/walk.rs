//! `traverse`: walking edges of one type from the nodes a slice stands on.

use vstd::prelude::*;

use crate::error::{Error, Result};
use crate::hql::ops::{
    agent_exact_m, agent_substring_m, basename_m, extra_val, find_node, keep, lemma_keep_all,
    lemma_keep_step, node_by_id, rows_m, SnapM, Snapshot,
};
use crate::hql::states::keys_contain;
use crate::hql::row::{
    node_m, opt_view, searchable_m, unwrap_text, vault_m, DesiredStateView, EdgeM, EdgeView,
    HistoryEventView, NodeM, NodeView, Row, RowM, StateM, EventM, lookup, from_id_m, to_id_m,
};
use crate::text::{chars_eq, chars_of, contains, has_sub, push_all, string_of};

verus! {

pub open spec fn nodes_m(v: Seq<NodeView>) -> Seq<NodeM> {
    v.map_values(|n: NodeView| n@)
}

/// Walk state: rows emitted so far, edge ids already walked, and the nodes
/// reached in this hop.
pub struct WalkM {
    pub emitted: Seq<RowM>,
    pub seen: Seq<Seq<char>>,
    pub next: Seq<NodeM>,
}

/// Walk edge `e` from `src` when it leaves `src`, has the wanted type, and
/// was not walked before.
pub open spec fn visit(st: WalkM, src: NodeM, e: EdgeM, etype: Seq<char>, nodes: Seq<NodeM>) -> WalkM {
    if e.from_id == src.id && e.edge_type == etype && !st.seen.contains(e.id) {
        let dest = match e.to_id {
            Some(t) => node_by_id(nodes, t),
            None => None,
        };
        WalkM {
            emitted: st.emitted.push(RowM::Walk { from: src, edge: e, to: dest }),
            seen: st.seen.push(e.id),
            next: match dest {
                Some(d) => st.next.push(d),
                None => st.next,
            },
        }
    } else {
        st
    }
}

pub open spec fn visit_edges(
    st: WalkM,
    src: NodeM,
    edges: Seq<EdgeM>,
    etype: Seq<char>,
    nodes: Seq<NodeM>,
) -> WalkM
    decreases edges.len(),
{
    if edges.len() == 0 {
        st
    } else {
        visit(visit_edges(st, src, edges.drop_last(), etype, nodes), src, edges.last(), etype, nodes)
    }
}

pub open spec fn visit_frontier(
    st: WalkM,
    frontier: Seq<NodeM>,
    edges: Seq<EdgeM>,
    etype: Seq<char>,
    nodes: Seq<NodeM>,
) -> WalkM
    decreases frontier.len(),
{
    if frontier.len() == 0 {
        st
    } else {
        visit_edges(
            visit_frontier(st, frontier.drop_last(), edges, etype, nodes),
            frontier.last(),
            edges,
            etype,
            nodes,
        )
    }
}

/// `k` more hops from `frontier`.
pub open spec fn walk_hops(
    frontier: Seq<NodeM>,
    emitted: Seq<RowM>,
    seen: Seq<Seq<char>>,
    edges: Seq<EdgeM>,
    etype: Seq<char>,
    nodes: Seq<NodeM>,
    k: nat,
) -> Seq<RowM>
    decreases k,
{
    if k == 0 {
        emitted
    } else {
        let st = visit_frontier(
            WalkM { emitted, seen, next: Seq::empty() },
            frontier,
            edges,
            etype,
            nodes,
        );
        walk_hops(st.next, st.emitted, st.seen, edges, etype, nodes, (k - 1) as nat)
    }
}

/// The nodes a traverse starts from: each row's node, or the node a walk
/// row's edge resolves to.
pub open spec fn start_nodes(rows: Seq<RowM>, nodes: Seq<NodeM>) -> Seq<NodeM>
    decreases rows.len(),
{
    if rows.len() == 0 {
        Seq::empty()
    } else {
        let prev = start_nodes(rows.drop_last(), nodes);
        match node_m(rows.last()) {
            Some(n) => prev.push(n),
            None => match to_id_m(rows.last()) {
                Some(t) => match node_by_id(nodes, t) {
                    Some(d) => prev.push(d),
                    None => prev,
                },
                None => prev,
            },
        }
    }
}

/// `traverse --edge T --hops H`: one walk row per edge of type `T` reached
/// within `H` hops, each edge once.
pub open spec fn traverse_m(snap: SnapM, rows: Seq<RowM>, etype: Seq<char>, hops: i64) -> core::result::Result<
    Seq<RowM>,
    Seq<char>,
> {
    if hops < 1 {
        Err("traverse --hops must be >= 1"@)
    } else {
        Ok(
            walk_hops(
                start_nodes(rows, snap.nodes),
                Seq::empty(),
                Seq::empty(),
                snap.edges,
                etype,
                snap.nodes,
                hops as nat,
            ),
        )
    }
}

proof fn lemma_walk_empty_frontier(
    emitted: Seq<RowM>,
    seen: Seq<Seq<char>>,
    edges: Seq<EdgeM>,
    etype: Seq<char>,
    nodes: Seq<NodeM>,
    k: nat,
)
    ensures
        walk_hops(Seq::empty(), emitted, seen, edges, etype, nodes, k) == emitted,
    decreases k,
{
    if k > 0 {
        lemma_walk_empty_frontier(emitted, seen, edges, etype, nodes, (k - 1) as nat);
    }
}

pub open spec fn walk_state(emitted: Seq<Row>, seen: Seq<Vec<char>>, next: Seq<NodeView>) -> WalkM {
    WalkM { emitted: rows_m(emitted), seen: crate::text::views_of(seen), next: nodes_m(next) }
}

fn invalid(msg: &str) -> (r: Error)
    ensures
        r matches Error::Invalid(m) && m@ == msg@,
{
    let c = chars_of(msg);
    Error::Invalid(string_of(&c))
}

pub fn traverse(snap: &Snapshot, rows: &Vec<Row>, edge_type: &[char], hops: i64) -> (r: Result<
    Vec<Row>,
>)
    ensures
        match traverse_m(snap@, rows_m(rows@), edge_type@, hops) {
            Ok(v) => r matches Ok(x) && rows_m(x@) == v,
            Err(m) => crate::error::is_invalid_with(r, m),
        },
{
    if hops < 1 {
        return Err(invalid("traverse --hops must be >= 1"));
    }
    let ghost sm = snap@;
    let ghost rs = rows_m(rows@);
    let mut frontier: Vec<NodeView> = Vec::new();
    let mut i: usize = 0;
    assert(rs.take(0) =~= Seq::<RowM>::empty());
    assert(nodes_m(frontier@) =~= Seq::<NodeM>::empty());
    while i < rows.len()
        invariant
            i <= rows@.len() == rs.len(),
            rs == rows_m(rows@),
            sm == snap@,
            nodes_m(frontier@) == start_nodes(rs.take(i as int), sm.nodes),
        decreases rows.len() - i,
    {
        assert(rs.take(i + 1).drop_last() =~= rs.take(i as int));
        assert(rs.take(i + 1).last() == rows@[i as int]@);
        let ghost before = nodes_m(frontier@);
        match rows[i].node() {
            Some(n) => {
                let c = n.clone();
                frontier.push(c);
                assert(nodes_m(frontier@) =~= before.push(c@));
            },
            None => match rows[i].to_id() {
                Some(t) => {
                    let tc = chars_of(t);
                    match find_node(&snap.nodes, &tc) {
                        Some(d) => {
                            let c = d.clone();
                            frontier.push(c);
                            assert(nodes_m(frontier@) =~= before.push(c@));
                        },
                        None => {},
                    }
                },
                None => {},
            },
        }
        i = i + 1;
    }
    assert(rs.take(rs.len() as int) =~= rs);
    let mut emitted: Vec<Row> = Vec::new();
    let mut seen: Vec<Vec<char>> = Vec::new();
    let mut k: u64 = hops as u64;
    assert(rows_m(emitted@) =~= Seq::<RowM>::empty());
    assert(crate::text::views_of(seen@) =~= Seq::<Seq<char>>::empty());
    while k > 0 && frontier.len() > 0
        invariant
            sm == snap@,
            walk_hops(
                start_nodes(rs, sm.nodes),
                Seq::empty(),
                Seq::empty(),
                sm.edges,
                edge_type@,
                sm.nodes,
                hops as nat,
            ) == walk_hops(
                nodes_m(frontier@),
                rows_m(emitted@),
                crate::text::views_of(seen@),
                sm.edges,
                edge_type@,
                sm.nodes,
                k as nat,
            ),
        decreases k,
    {
        let mut next: Vec<NodeView> = Vec::new();
        let ghost st0 = WalkM {
            emitted: rows_m(emitted@),
            seen: crate::text::views_of(seen@),
            next: Seq::empty(),
        };
        let ghost fr = nodes_m(frontier@);
        assert(nodes_m(next@) =~= Seq::<NodeM>::empty());
        assert(fr.take(0) =~= Seq::<NodeM>::empty());
        let mut a: usize = 0;
        while a < frontier.len()
            invariant
                a <= frontier@.len() == fr.len(),
                fr == nodes_m(frontier@),
                sm == snap@,
                walk_state(emitted@, seen@, next@) == visit_frontier(
                    st0,
                    fr.take(a as int),
                    sm.edges,
                    edge_type@,
                    sm.nodes,
                ),
            decreases frontier.len() - a,
        {
            let src = &frontier[a];
            assert(fr[a as int] == src@);
            let sid = chars_of(src.id.as_str());
            let ghost st1 = walk_state(emitted@, seen@, next@);
            assert(sm.edges.take(0) =~= Seq::<EdgeM>::empty());
            let mut b: usize = 0;
            while b < snap.edges.len()
                invariant
                    b <= snap.edges@.len() == sm.edges.len(),
                    sm == snap@,
                    sid@ == src@.id,
                    walk_state(emitted@, seen@, next@) == visit_edges(
                        st1,
                        src@,
                        sm.edges.take(b as int),
                        edge_type@,
                        sm.nodes,
                    ),
                decreases snap.edges.len() - b,
            {
                let e = &snap.edges[b];
                assert(sm.edges[b as int] == e@);
                assert(sm.edges.take(b + 1).drop_last() =~= sm.edges.take(b as int));
                assert(sm.edges.take(b + 1).last() == e@);
                let from = chars_of(e.from_id.as_str());
                let et = chars_of(e.edge_type.as_str());
                if chars_eq(&from, &sid) && chars_eq(&et, edge_type) {
                    let eid = chars_of(e.id.as_str());
                    if !keys_contain(&seen, &eid) {
                        let dest: Option<&NodeView> = match &e.to_id {
                            Some(t) => {
                                let tc = chars_of(t.as_str());
                                find_node(&snap.nodes, &tc)
                            },
                            None => None,
                        };
                        let ghost be = rows_m(emitted@);
                        let ghost bs = crate::text::views_of(seen@);
                        let ghost bn = nodes_m(next@);
                        let walk = Row::Walk {
                            from: src.clone(),
                            edge: e.clone(),
                            to: match dest {
                                Some(d) => Some(d.clone()),
                                None => None,
                            },
                        };
                        let ghost wm = walk@;
                        emitted.push(walk);
                        assert(rows_m(emitted@) =~= be.push(wm));
                        let ghost ev = eid@;
                        seen.push(eid);
                        assert(crate::text::views_of(seen@) =~= bs.push(ev));
                        match dest {
                            Some(d) => {
                                let c = d.clone();
                                next.push(c);
                                assert(nodes_m(next@) =~= bn.push(c@));
                            },
                            None => {},
                        }
                    }
                }
                b = b + 1;
            }
            assert(sm.edges.take(sm.edges.len() as int) =~= sm.edges);
            assert(fr.take(a + 1).drop_last() =~= fr.take(a as int));
            assert(fr.take(a + 1).last() == src@);
            a = a + 1;
        }
        assert(fr.take(fr.len() as int) =~= fr);
        frontier = next;
        k = k - 1;
    }
    proof {
        if k > 0 {
            assert(nodes_m(frontier@) =~= Seq::<NodeM>::empty());
            lemma_walk_empty_frontier(
                rows_m(emitted@),
                crate::text::views_of(seen@),
                sm.edges,
                edge_type@,
                sm.nodes,
                k as nat,
            );
        }
    }
    Ok(emitted)
}


} // verus!
