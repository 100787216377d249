//! HQL operators over typed rows. `state` never reads events; `history`
//! never reads spec / status.

use vstd::prelude::*;

use crate::error::{Error, Result};
use crate::hql::expr::{filter_eval_m, FilterExpr, FilterM};
use crate::hql::row::{
    node_m, opt_view, searchable_m, unwrap_text, vault_m, DesiredStateView, EdgeM, EdgeView,
    HistoryEventView, NodeM, NodeView, Row, RowM, StateM, EventM, lookup, from_id_m, to_id_m,
};
use crate::text::{chars_eq, chars_of, contains, has_sub, push_all, string_of};

verus! {

/// What the store holds, as the query reads it: every node and edge, every
/// desired state, and every event in the order the store returns them
/// (`ts`, then `id`).
#[derive(Debug)]
pub struct Snapshot {
    pub nodes: Vec<NodeView>,
    pub edges: Vec<EdgeView>,
    pub desired_states: Vec<DesiredStateView>,
    pub events: Vec<HistoryEventView>,
}

pub struct SnapM {
    pub nodes: Seq<NodeM>,
    pub edges: Seq<EdgeM>,
    pub states: Seq<StateM>,
    pub events: Seq<EventM>,
}

impl View for Snapshot {
    type V = SnapM;

    open spec fn view(&self) -> SnapM {
        SnapM {
            nodes: self.nodes@.map_values(|n: NodeView| n@),
            edges: self.edges@.map_values(|e: EdgeView| e@),
            states: self.desired_states@.map_values(|d: DesiredStateView| d@),
            events: self.events@.map_values(|e: HistoryEventView| e@),
        }
    }
}

pub open spec fn rows_m(v: Seq<Row>) -> Seq<RowM> {
    v.map_values(|r: Row| r@)
}

/// The elements of `s` that satisfy `p`, in order.
pub open spec fn keep<A>(s: Seq<A>, p: spec_fn(A) -> bool) -> Seq<A>
    decreases s.len(),
{
    if s.len() == 0 {
        Seq::empty()
    } else {
        let k = keep(s.drop_last(), p);
        if p(s.last()) {
            k.push(s.last())
        } else {
            k
        }
    }
}

/// The node with id `id`; the last one when several share it, as an index
/// built by inserting every node in turn would hold.
pub open spec fn node_by_id(nodes: Seq<NodeM>, id: Seq<char>) -> Option<NodeM>
    decreases nodes.len(),
{
    if nodes.len() == 0 {
        None
    } else if nodes.last().id == id {
        Some(nodes.last())
    } else {
        node_by_id(nodes.drop_last(), id)
    }
}

/// The node `id` resolves to.
pub fn find_node<'a>(nodes: &'a Vec<NodeView>, id: &[char]) -> (r: Option<&'a NodeView>)
    ensures
        match r {
            Some(n) => node_by_id(nodes@.map_values(|x: NodeView| x@), id@) == Some(n@),
            None => node_by_id(nodes@.map_values(|x: NodeView| x@), id@) is None,
        },
{
    let ghost all = nodes@.map_values(|x: NodeView| x@);
    let mut k: usize = nodes.len();
    assert(all.take(k as int) =~= all);
    while k > 0
        invariant
            k <= nodes@.len() == all.len(),
            all == nodes@.map_values(|x: NodeView| x@),
            node_by_id(all, id@) == node_by_id(all.take(k as int), id@),
        decreases k,
    {
        let nid = chars_of(nodes[k - 1].id.as_str());
        assert(all.take(k as int).last() == nodes@[k - 1]@);
        assert(all.take(k as int).drop_last() =~= all.take(k - 1));
        if chars_eq(&nid, id) {
            return Some(&nodes[k - 1]);
        }
        k = k - 1;
    }
    None
}

/// The text `search` reads on a destination node.
pub open spec fn node_text_m(n: NodeM) -> Seq<char> {
    unwrap_text(n.path) + seq!['\n'] + n.extra + seq!['\n', '\n']
}

/// The text `search` reads on an outgoing edge.
pub open spec fn edge_text_m(e: EdgeM) -> Seq<char> {
    unwrap_text(e.to_raw) + seq!['\n'] + e.properties
}

/// `search needle` keeps a row when its own text holds the needle, or when
/// an edge leaving the row's node (or a walk's source) does, by its raw
/// target and properties, or by the text of the node it resolves to.
pub open spec fn search_hit_m(snap: SnapM, row: RowM, needle: Seq<char>) -> bool {
    let source = match node_m(row) {
        Some(n) => Some(n.id),
        None => from_id_m(row),
    };
    ||| has_sub(searchable_m(row), needle)
    ||| source matches Some(src) && exists|i: int|
        0 <= i < snap.edges.len() && (#[trigger] snap.edges[i]).from_id == src && (has_sub(
            edge_text_m(snap.edges[i]),
            needle,
        ) || (snap.edges[i].to_id matches Some(t) && node_by_id(snap.nodes, t) matches Some(d)
            && has_sub(node_text_m(d), needle)))
}

fn node_text(n: &NodeView) -> (r: Vec<char>)
    ensures
        r@ == node_text_m(n@),
{
    let mut out: Vec<char> = match &n.path {
        Some(p) => chars_of(p.as_str()),
        None => Vec::new(),
    };
    out.push('\n');
    let e = chars_of(n.extra.as_str());
    push_all(&mut out, &e);
    out.push('\n');
    out.push('\n');
    assert(out@ =~= node_text_m(n@));
    out
}

fn edge_text(e: &EdgeView) -> (r: Vec<char>)
    ensures
        r@ == edge_text_m(e@),
{
    let mut out: Vec<char> = match &e.to_raw {
        Some(p) => chars_of(p.as_str()),
        None => Vec::new(),
    };
    out.push('\n');
    let p = chars_of(e.properties.as_str());
    push_all(&mut out, &p);
    assert(out@ =~= edge_text_m(e@));
    out
}

pub fn search_hit(snap: &Snapshot, row: &Row, needle: &[char]) -> (r: bool)
    ensures
        r == search_hit_m(snap@, row@, needle@),
{
    let own = chars_of(row.searchable_text().as_str());
    if contains(&own, needle) {
        return true;
    }
    let source: Vec<char> = match row.node_id() {
        Some(id) => chars_of(id),
        None => match row.from_id() {
            Some(id) => chars_of(id),
            None => {
                return false;
            },
        },
    };
    let ghost sm = snap@;
    let mut i: usize = 0;
    while i < snap.edges.len()
        invariant
            i <= snap.edges@.len() == sm.edges.len(),
            sm == snap@,
            (match node_m(row@) {
                Some(n) => Some(n.id),
                None => from_id_m(row@),
            }) == Some(source@),
            forall|j: int|
                0 <= j < i ==> !((#[trigger] sm.edges[j]).from_id == source@ && (has_sub(
                    edge_text_m(sm.edges[j]),
                    needle@,
                ) || (sm.edges[j].to_id matches Some(t) && node_by_id(sm.nodes, t) matches Some(d)
                    && has_sub(node_text_m(d), needle@)))),
        decreases snap.edges.len() - i,
    {
        let edge = &snap.edges[i];
        assert(sm.edges[i as int] == edge@);
        let from = chars_of(edge.from_id.as_str());
        if chars_eq(&from, &source) {
            let blob = edge_text(edge);
            if contains(&blob, needle) {
                return true;
            }
            match &edge.to_id {
                Some(t) => {
                    let tc = chars_of(t.as_str());
                    match find_node(&snap.nodes, &tc) {
                        Some(dest) => {
                            let dt = node_text(dest);
                            if contains(&dt, needle) {
                                return true;
                            }
                        },
                        None => {},
                    }
                },
                None => {},
            }
        }
        i = i + 1;
    }
    false
}

/// The number of rows `limit n` keeps: the first `n` for `n >= 0`; for a
/// negative `n`, all but the last `-n`.
pub open spec fn limit_len(len: int, n: i64) -> int {
    if n >= 0 {
        if n < len {
            n as int
        } else {
            len
        }
    } else if len + n > 0 {
        len + n
    } else {
        0
    }
}

pub fn apply_limit(rows: &mut Vec<Row>, n: i64)
    ensures
        final(rows)@ == old(rows)@.take(limit_len(old(rows)@.len() as int, n)),
{
    let len = rows.len();
    let keep: usize = if n >= 0 {
        if (n as u64) < (len as u64) {
            n as usize
        } else {
            len
        }
    } else {
        let drop: u64 = if n == i64::MIN {
            9223372036854775808u64
        } else {
            (-n) as u64
        };
        if (len as u64) > drop {
            ((len as u64) - drop) as usize
        } else {
            0
        }
    };
    assert(keep == limit_len(len as int, n));
    rows.truncate(keep);
    assert(rows@ =~= old(rows)@.take(keep as int));
}


pub proof fn lemma_keep_step<A>(s: Seq<A>, i: int, p: spec_fn(A) -> bool)
    requires
        0 <= i < s.len(),
    ensures
        keep(s.take(i + 1), p) == (if p(s[i]) {
            keep(s.take(i), p).push(s[i])
        } else {
            keep(s.take(i), p)
        }),
{
    assert(s.take(i + 1).drop_last() =~= s.take(i));
    assert(s.take(i + 1).last() == s[i]);
}

/// The rendered value of extra key `key`, when present and not null.
pub open spec fn extra_val(n: NodeM, key: Seq<char>) -> Option<Seq<char>> {
    match lookup(n.extra_map, key) {
        Some(Some(v)) => Some(v),
        _ => None,
    }
}

/// Index of the last `c` in `s`.
pub open spec fn last_index(s: Seq<char>, c: char) -> Option<int>
    decreases s.len(),
{
    if s.len() == 0 {
        None
    } else if s.last() == c {
        Some(s.len() - 1)
    } else {
        last_index(s.drop_last(), c)
    }
}

/// The part of a path after its last `/`.
pub open spec fn basename_m(p: Seq<char>) -> Seq<char> {
    match last_index(p, '/') {
        Some(k) => p.skip(k + 1),
        None => p,
    }
}

/// The part of a path after its last `/`.
pub fn path_basename(p: &[char]) -> (r: Vec<char>)
    ensures
        r@ == basename_m(p@),
{
    let mut k: usize = p.len();
    assert(p@.take(k as int) =~= p@);
    while k > 0
        invariant
            k <= p@.len(),
            last_index(p@, '/') == last_index(p@.take(k as int), '/'),
        decreases k,
    {
        assert(p@.take(k as int).drop_last() =~= p@.take(k - 1));
        if p[k - 1] == '/' {
            return crate::text::copy_range(p, k, p.len());
        }
        k = k - 1;
    }
    crate::text::copy_range(p, 0, p.len())
}

/// An agent row matches a name exactly: its extra `name` or `title`, its
/// path, or its path's basename equals it.
pub open spec fn agent_exact_m(n: NodeM, name: Seq<char>) -> bool {
    ||| extra_val(n, "name"@) == Some(name)
    ||| extra_val(n, "title"@) == Some(name)
    ||| unwrap_text(n.path) == name
    ||| basename_m(unwrap_text(n.path)) == name
}

/// An agent row matches a name loosely: its extra `name`, `title` or path
/// holds it.
pub open spec fn agent_substring_m(n: NodeM, name: Seq<char>) -> bool {
    ||| has_sub(unwrap_text(extra_val(n, "name"@)), name)
    ||| has_sub(unwrap_text(extra_val(n, "title"@)), name)
    ||| has_sub(unwrap_text(n.path), name)
}

pub open spec fn is_agent_row(r: RowM) -> bool {
    node_m(r) matches Some(n) && n.node_type == "Agent"@
}

pub open spec fn agent_pred() -> spec_fn(RowM) -> bool {
    |r: RowM| is_agent_row(r)
}

pub open spec fn exact_pred(name: Seq<char>) -> spec_fn(RowM) -> bool {
    |r: RowM| agent_exact_m(node_m(r)->0, name)
}

pub open spec fn substring_pred(name: Seq<char>) -> spec_fn(RowM) -> bool {
    |r: RowM| agent_substring_m(node_m(r)->0, name)
}

/// `agent NAME`: the Agent rows of the slice whose name matches exactly;
/// when none does, those that hold it.
pub open spec fn filter_agents_m(rows: Seq<RowM>, name: Seq<char>) -> Seq<RowM> {
    let agents = keep(rows, agent_pred());
    let exact = keep(agents, exact_pred(name));
    if exact.len() > 0 {
        exact
    } else {
        keep(agents, substring_pred(name))
    }
}

pub(crate) fn extra_chars(n: &NodeView, key: &str) -> (r: Option<Vec<char>>)
    ensures
        match r {
            Some(v) => extra_val(n@, key@) == Some(v@),
            None => extra_val(n@, key@) is None,
        },
{
    match n.extra_get(key) {
        Some(v) => Some(chars_of(v)),
        None => None,
    }
}

fn eq_opt(o: &Option<Vec<char>>, name: &[char]) -> (r: bool)
    ensures
        r == (match o {
            Some(v) => v@ == name@,
            None => false,
        }),
{
    match o {
        Some(v) => chars_eq(v, name),
        None => false,
    }
}

fn contains_opt(o: &Option<Vec<char>>, name: &[char]) -> (r: bool)
    ensures
        r == has_sub(
            unwrap_text(
                match o {
                    Some(v) => Some(v@),
                    None => None,
                },
            ),
            name@,
        ),
{
    match o {
        Some(v) => contains(v, name),
        None => {
            let e: Vec<char> = Vec::new();
            assert(e@ =~= Seq::<char>::empty());
            contains(&e, name)
        },
    }
}

pub(crate) fn path_chars(n: &NodeView) -> (r: Vec<char>)
    ensures
        r@ == unwrap_text(n@.path),
{
    match &n.path {
        Some(p) => chars_of(p.as_str()),
        None => Vec::new(),
    }
}

pub fn agent_exact(n: &NodeView, name: &[char]) -> (r: bool)
    ensures
        r == agent_exact_m(n@, name@),
{
    let en = extra_chars(n, "name");
    let et = extra_chars(n, "title");
    let path = path_chars(n);
    let base = path_basename(&path);
    eq_opt(&en, name) || eq_opt(&et, name) || chars_eq(&path, name) || chars_eq(&base, name)
}

pub fn agent_substring(n: &NodeView, name: &[char]) -> (r: bool)
    ensures
        r == agent_substring_m(n@, name@),
{
    let en = extra_chars(n, "name");
    let et = extra_chars(n, "title");
    let path = path_chars(n);
    contains_opt(&en, name) || contains_opt(&et, name) || contains(&path, name)
}

fn is_agent(r: &Row) -> (b: bool)
    ensures
        b == is_agent_row(r@),
{
    match r.node_type() {
        Some(t) => {
            let c = chars_of(t);
            crate::text::is_lit(&c, "Agent")
        },
        None => false,
    }
}

/// Keep Agent rows matching `name`: exact on extra.name / extra.title / path /
/// path basename first, else substring. Stays inside the current slice.
pub fn filter_agents(rows: &Vec<Row>, name: &[char]) -> (r: Vec<Row>)
    ensures
        rows_m(r@) == filter_agents_m(rows_m(rows@), name@),
{
    let ghost rs = rows_m(rows@);
    let mut agents: Vec<Row> = Vec::new();
    let mut i: usize = 0;
    assert(rs.take(0) =~= Seq::<RowM>::empty());
    assert(rows_m(agents@) =~= Seq::<RowM>::empty());
    while i < rows.len()
        invariant
            i <= rows@.len() == rs.len(),
            rs == rows_m(rows@),
            rows_m(agents@) == keep(rs.take(i as int), agent_pred()),
        decreases rows.len() - i,
    {
        proof {
            lemma_keep_step(rs, i as int, agent_pred());
        }
        if is_agent(&rows[i]) {
            let c = rows[i].clone();
            let ghost before = rows_m(agents@);
            agents.push(c);
            assert(rows_m(agents@) =~= before.push(c@));
        }
        i = i + 1;
    }
    assert(rs.take(rs.len() as int) =~= rs);
    let ghost ag = rows_m(agents@);
    let mut exact: Vec<Row> = Vec::new();
    let mut loose: Vec<Row> = Vec::new();
    let mut j: usize = 0;
    assert(ag.take(0) =~= Seq::<RowM>::empty());
    assert(rows_m(exact@) =~= Seq::<RowM>::empty());
    assert(rows_m(loose@) =~= Seq::<RowM>::empty());
    while j < agents.len()
        invariant
            j <= agents@.len() == ag.len(),
            ag == rows_m(agents@),
            ag == keep(rs, agent_pred()),
            rows_m(exact@) == keep(ag.take(j as int), exact_pred(name@)),
            rows_m(loose@) == keep(ag.take(j as int), substring_pred(name@)),
        decreases agents.len() - j,
    {
        proof {
            lemma_keep_step(ag, j as int, exact_pred(name@));
            lemma_keep_step(ag, j as int, substring_pred(name@));
        }
        let node = match agents[j].node() {
            Some(n) => n,
            None => {
                proof {
                    lemma_keep_all(rs, agent_pred(), j as int);
                }
                assert(false);
                return Vec::new();
            },
        };
        if agent_exact(node, name) {
            let c = agents[j].clone();
            let ghost before = rows_m(exact@);
            exact.push(c);
            assert(rows_m(exact@) =~= before.push(c@));
        }
        if agent_substring(node, name) {
            let c = agents[j].clone();
            let ghost before = rows_m(loose@);
            loose.push(c);
            assert(rows_m(loose@) =~= before.push(c@));
        }
        j = j + 1;
    }
    assert(ag.take(ag.len() as int) =~= ag);
    if exact.len() > 0 {
        exact
    } else {
        loose
    }
}

/// Everything `keep` returns satisfies its predicate.
pub proof fn lemma_keep_all<A>(s: Seq<A>, p: spec_fn(A) -> bool, j: int)
    requires
        0 <= j < keep(s, p).len(),
    ensures
        p(keep(s, p)[j]),
    decreases s.len(),
{
    if s.len() > 0 {
        let k = keep(s.drop_last(), p);
        if j < k.len() {
            lemma_keep_all(s.drop_last(), p, j);
        }
    }
}



} // verus!
