//! Running a query: each operator in turn over the rows of a snapshot.

use vstd::prelude::*;

use crate::error::{Error, Result};
use crate::hql::expr::{filter_eval_m, parse_filter, parse_filter_spec, FilterM};
use crate::hql::ops::{
    apply_limit, extra_val, filter_agents, filter_agents_m, keep, lemma_keep_step, limit_len, rows_m,
    search_hit, search_hit_m, SnapM, Snapshot,
};
use crate::hql::states::{name_m, select_states, select_states_m, selection_m};
use crate::hql::walk::{nodes_m, traverse, traverse_m};
use crate::hql::query::{ops_m, Op, OpM, Query};
use crate::hql::row::{
    project_m, unwrap_text, vault_m, DesiredStateView, EventM, HistoryEventView, NodeM, NodeView,
    Row, RowM, StateM,
};
use crate::ids::{parse_uuid, uuid_hyphenated, uuid_parse_of, uuid_text};
use crate::text::{chars_eq, chars_of, is_lit, views_of};

verus! {

/// A vault node called `name`: by its path or its extra `name`.
pub open spec fn is_named_vault(n: NodeM, name: Seq<char>) -> bool {
    &&& n.node_type == "Vault"@
    &&& (n.path == Some(name) || extra_val(n, "name"@) == Some(name))
}

/// The rows that belong to a vault called `name`.
pub open spec fn vault_pred(snap: SnapM, name: Seq<char>) -> spec_fn(RowM) -> bool {
    |r: RowM|
        vault_m(r) matches Some(v) && exists|i: int|
            0 <= i < snap.nodes.len() && (#[trigger] snap.nodes[i]).id == v && is_named_vault(
                snap.nodes[i],
                name,
            )
}

pub open spec fn search_pred(snap: SnapM, needle: Seq<char>) -> spec_fn(RowM) -> bool {
    |r: RowM| search_hit_m(snap, r, needle)
}

pub open spec fn filter_pred(f: FilterM) -> spec_fn(RowM) -> bool {
    |r: RowM| filter_eval_m(f, r)
}

/// One warm row per selected desired state, under the node that selected it.
pub open spec fn state_rows_m(sel: Seq<(Option<NodeM>, StateM)>) -> Seq<RowM> {
    sel.map_values(|p: (Option<NodeM>, StateM)| RowM::State { subject: p.0, ds: p.1 })
}

/// The events that reconcile a desired state.
pub open spec fn chain_pred(id: Seq<char>) -> spec_fn(EventM) -> bool {
    |e: EventM| e.reconciles == Some(id)
}

/// The history rows of a desired state whose id reads as the UUID `id`:
/// the events that reconcile it, by the id's hyphenated text, in the
/// snapshot's order.
pub open spec fn chain_rows_m(id: u128, events: Seq<EventM>) -> Seq<RowM> {
    keep(events, chain_pred(uuid_hyphenated(id))).map_values(|e: EventM| RowM::History { event: e })
}

/// The history rows of a selection: each state's causal events in turn. A
/// state whose id does not read as a UUID refuses the query with the parse
/// error; the first such state decides.
pub open spec fn history_rows_m(sel: Seq<(Option<NodeM>, StateM)>, events: Seq<EventM>) -> core::result::Result<
    Seq<RowM>,
    Seq<char>,
>
    decreases sel.len(),
{
    if sel.len() == 0 {
        Ok(Seq::empty())
    } else {
        match history_rows_m(sel.drop_last(), events) {
            Err(m) => Err(m),
            Ok(prev) => match uuid_parse_of(sel.last().1.id) {
                Err(m) => Err(m),
                Ok(id) => Ok(prev + chain_rows_m(id, events)),
            },
        }
    }
}

/// What one operator does to the rows.
pub open spec fn op_step(snap: SnapM, rows: Seq<RowM>, op: OpM) -> core::result::Result<Seq<RowM>, Seq<char>> {
    match op {
        OpM::Vault(name) => Ok(keep(rows, vault_pred(snap, name))),
        OpM::Agent(name) => Ok(filter_agents_m(rows, name)),
        OpM::State(name) => Ok(state_rows_m(select_states_m(rows, name, snap.states))),
        OpM::History(name) => history_rows_m(select_states_m(rows, name, snap.states), snap.events),
        OpM::Search(needle) => Ok(keep(rows, search_pred(snap, needle))),
        OpM::Traverse { edge, hops } => traverse_m(snap, rows, edge, hops),
        OpM::Filter(expr) => match parse_filter_spec(expr) {
            Err(m) => Err(m),
            Ok(f) => Ok(keep(rows, filter_pred(f))),
        },
        OpM::Select(fields) => Ok(rows.map_values(|r: RowM| project_m(r, fields))),
        OpM::Limit(n) => Ok(rows.take(limit_len(rows.len() as int, n))),
    }
}

pub open spec fn run_from(snap: SnapM, rows: Seq<RowM>, ops: Seq<OpM>) -> core::result::Result<Seq<RowM>, Seq<char>>
    decreases ops.len(),
{
    if ops.len() == 0 {
        Ok(rows)
    } else {
        match run_from(snap, rows, ops.drop_last()) {
            Err(e) => Err(e),
            Ok(r) => op_step(snap, r, ops.last()),
        }
    }
}

/// The rows a query starts from: every node.
pub open spec fn initial_rows(snap: SnapM) -> Seq<RowM> {
    snap.nodes.map_values(|n: NodeM| RowM::Node(n))
}

/// What a query returns over a snapshot, or the message it fails with.
pub open spec fn run_m(snap: SnapM, ops: Seq<OpM>) -> core::result::Result<Seq<RowM>, Seq<char>> {
    run_from(snap, initial_rows(snap), ops)
}

fn named_vault(n: &NodeView, name: &[char]) -> (r: bool)
    ensures
        r == is_named_vault(n@, name@),
{
    let t = chars_of(n.node_type.as_str());
    if !is_lit(&t, "Vault") {
        return false;
    }
    let by_path = match &n.path {
        Some(p) => {
            let pc = chars_of(p.as_str());
            chars_eq(&pc, name)
        },
        None => false,
    };
    let by_name = match n.extra_get("name") {
        Some(v) => {
            let vc = chars_of(v);
            chars_eq(&vc, name)
        },
        None => false,
    };
    by_path || by_name
}

/// The ids of the vault nodes called `name`.
fn vault_ids_named(snap: &Snapshot, name: &[char]) -> (r: Vec<Vec<char>>)
    ensures
        forall|v: Seq<char>|
            views_of(r@).contains(v) <==> exists|i: int|
                0 <= i < snap@.nodes.len() && (#[trigger] snap@.nodes[i]).id == v && is_named_vault(
                    snap@.nodes[i],
                    name@,
                ),
{
    let ghost sm = snap@;
    let mut ids: Vec<Vec<char>> = Vec::new();
    let mut i: usize = 0;
    while i < snap.nodes.len()
        invariant
            i <= snap.nodes@.len() == sm.nodes.len(),
            sm == snap@,
            forall|v: Seq<char>|
                views_of(ids@).contains(v) <==> exists|j: int|
                    0 <= j < i && (#[trigger] sm.nodes[j]).id == v && is_named_vault(sm.nodes[j], name@),
        decreases snap.nodes.len() - i,
    {
        let n = &snap.nodes[i];
        assert(sm.nodes[i as int] == n@);
        let ghost before = views_of(ids@);
        if named_vault(n, name) {
            let id = chars_of(n.id.as_str());
            let ghost idv = id@;
            ids.push(id);
            assert(views_of(ids@) =~= before.push(idv));
            assert forall|v: Seq<char>|
                views_of(ids@).contains(v) <==> exists|j: int|
                    0 <= j < i + 1 && (#[trigger] sm.nodes[j]).id == v && is_named_vault(
                        sm.nodes[j],
                        name@,
                    ) by {
                if views_of(ids@).contains(v) {
                    if v != idv {
                        let k = choose|k: int| 0 <= k < views_of(ids@).len() && views_of(ids@)[k] == v;
                        assert(before[k] == v);
                        assert(before.contains(v));
                    }
                }
                if v == idv {
                    assert(views_of(ids@)[before.len() as int] == v);
                } else if exists|j: int|
                    0 <= j < i + 1 && (#[trigger] sm.nodes[j]).id == v && is_named_vault(
                        sm.nodes[j],
                        name@,
                    ) {
                    let j = choose|j: int|
                        0 <= j < i + 1 && (#[trigger] sm.nodes[j]).id == v && is_named_vault(
                            sm.nodes[j],
                            name@,
                        );
                    assert(j < i);
                    assert(before.contains(v));
                    let k = choose|k: int| 0 <= k < before.len() && before[k] == v;
                    assert(views_of(ids@)[k] == v);
                }
            }
        } else {
            assert forall|v: Seq<char>|
                views_of(ids@).contains(v) <==> exists|j: int|
                    0 <= j < i + 1 && (#[trigger] sm.nodes[j]).id == v && is_named_vault(
                        sm.nodes[j],
                        name@,
                    ) by {
                if exists|j: int|
                    0 <= j < i + 1 && (#[trigger] sm.nodes[j]).id == v && is_named_vault(
                        sm.nodes[j],
                        name@,
                    ) {
                    let j = choose|j: int|
                        0 <= j < i + 1 && (#[trigger] sm.nodes[j]).id == v && is_named_vault(
                            sm.nodes[j],
                            name@,
                        );
                    assert(j < i);
                }
            }
        }
        i = i + 1;
    }
    ids
}

fn id_listed(ids: &Vec<Vec<char>>, v: &[char]) -> (r: bool)
    ensures
        r == views_of(ids@).contains(v@),
{
    let ghost ks = views_of(ids@);
    let mut i: usize = 0;
    while i < ids.len()
        invariant
            i <= ids@.len() == ks.len(),
            ks == views_of(ids@),
            forall|k: int| 0 <= k < i ==> ks[k] != v@,
        decreases ids.len() - i,
    {
        if chars_eq(&ids[i], v) {
            assert(ks[i as int] == v@);
            return true;
        }
        i = i + 1;
    }
    false
}

fn keep_in_vault(snap: &Snapshot, rows: &Vec<Row>, name: &[char]) -> (r: Vec<Row>)
    ensures
        rows_m(r@) == keep(rows_m(rows@), vault_pred(snap@, name@)),
{
    let ids = vault_ids_named(snap, name);
    let ghost rs = rows_m(rows@);
    let ghost p = vault_pred(snap@, name@);
    let mut out: Vec<Row> = Vec::new();
    let mut i: usize = 0;
    assert(rs.take(0) =~= Seq::<RowM>::empty());
    assert(rows_m(out@) =~= Seq::<RowM>::empty());
    while i < rows.len()
        invariant
            i <= rows@.len() == rs.len(),
            rs == rows_m(rows@),
            p == vault_pred(snap@, name@),
            forall|v: Seq<char>|
                views_of(ids@).contains(v) <==> exists|i: int|
                    0 <= i < snap@.nodes.len() && (#[trigger] snap@.nodes[i]).id == v
                        && is_named_vault(snap@.nodes[i], name@),
            rows_m(out@) == keep(rs.take(i as int), p),
        decreases rows.len() - i,
    {
        proof {
            lemma_keep_step(rs, i as int, p);
        }
        assert(rs[i as int] == rows@[i as int]@);
        let hit = match rows[i].vault_id() {
            Some(v) => {
                let vc = chars_of(v);
                id_listed(&ids, &vc)
            },
            None => false,
        };
        assert(hit == p(rs[i as int]));
        if hit {
            let c = rows[i].clone();
            let ghost before = rows_m(out@);
            out.push(c);
            assert(rows_m(out@) =~= before.push(c@));
        }
        i = i + 1;
    }
    assert(rs.take(rs.len() as int) =~= rs);
    out
}

fn keep_search(snap: &Snapshot, rows: &Vec<Row>, needle: &[char]) -> (r: Vec<Row>)
    ensures
        rows_m(r@) == keep(rows_m(rows@), search_pred(snap@, needle@)),
{
    let ghost rs = rows_m(rows@);
    let ghost p = search_pred(snap@, needle@);
    let mut out: Vec<Row> = Vec::new();
    let mut i: usize = 0;
    assert(rs.take(0) =~= Seq::<RowM>::empty());
    assert(rows_m(out@) =~= Seq::<RowM>::empty());
    while i < rows.len()
        invariant
            i <= rows@.len() == rs.len(),
            rs == rows_m(rows@),
            p == search_pred(snap@, needle@),
            rows_m(out@) == keep(rs.take(i as int), p),
        decreases rows.len() - i,
    {
        proof {
            lemma_keep_step(rs, i as int, p);
        }
        assert(rs[i as int] == rows@[i as int]@);
        if search_hit(snap, &rows[i], needle) {
            let c = rows[i].clone();
            let ghost before = rows_m(out@);
            out.push(c);
            assert(rows_m(out@) =~= before.push(c@));
        }
        i = i + 1;
    }
    assert(rs.take(rs.len() as int) =~= rs);
    out
}

fn keep_matching(rows: &Vec<Row>, f: &crate::hql::expr::FilterExpr) -> (r: Vec<Row>)
    ensures
        rows_m(r@) == keep(rows_m(rows@), filter_pred(f@)),
{
    let ghost rs = rows_m(rows@);
    let ghost p = filter_pred(f@);
    let mut out: Vec<Row> = Vec::new();
    let mut i: usize = 0;
    assert(rs.take(0) =~= Seq::<RowM>::empty());
    assert(rows_m(out@) =~= Seq::<RowM>::empty());
    while i < rows.len()
        invariant
            i <= rows@.len() == rs.len(),
            rs == rows_m(rows@),
            p == filter_pred(f@),
            rows_m(out@) == keep(rs.take(i as int), p),
        decreases rows.len() - i,
    {
        proof {
            lemma_keep_step(rs, i as int, p);
        }
        assert(rs[i as int] == rows@[i as int]@);
        if f.eval(&rows[i]) {
            let c = rows[i].clone();
            let ghost before = rows_m(out@);
            out.push(c);
            assert(rows_m(out@) =~= before.push(c@));
        }
        i = i + 1;
    }
    assert(rs.take(rs.len() as int) =~= rs);
    out
}

fn project_all(rows: &Vec<Row>, fields: &Vec<String>) -> (r: Vec<Row>)
    ensures
        rows_m(r@) == rows_m(rows@).map_values(
            |x: RowM| project_m(x, crate::text::strings_view(fields@)),
        ),
{
    let ghost fs = crate::text::strings_view(fields@);
    let mut out: Vec<Row> = Vec::new();
    let mut i: usize = 0;
    while i < rows.len()
        invariant
            i <= rows@.len(),
            fs == crate::text::strings_view(fields@),
            rows_m(out@) == rows_m(rows@).take(i as int).map_values(|x: RowM| project_m(x, fs)),
        decreases rows.len() - i,
    {
        let p = rows[i].project(fields.as_slice());
        let ghost before = rows_m(out@);
        out.push(p);
        assert(rows_m(out@) =~= before.push(p@));
        assert(rows_m(rows@).take(i + 1) =~= rows_m(rows@).take(i as int).push(rows@[i as int]@));
        assert(rows_m(out@) =~= rows_m(rows@).take(i + 1).map_values(|x: RowM| project_m(x, fs)));
        i = i + 1;
    }
    assert(rows_m(rows@).take(rows@.len() as int) =~= rows_m(rows@));
    out
}

/// Warm: one `State` row per selected desired state. Never reads events.
pub fn apply_state(snap: &Snapshot, rows: &Vec<Row>, name: &Option<Vec<char>>) -> (r: Vec<Row>)
    ensures
        rows_m(r@) == state_rows_m(
            select_states_m(rows_m(rows@), name_m(*name), snap@.states),
        ),
{
    let sel = select_states(rows, name, &snap.desired_states);
    let ghost sm = selection_m(sel@);
    let mut out: Vec<Row> = Vec::new();
    let mut i: usize = 0;
    while i < sel.len()
        invariant
            i <= sel@.len(),
            sm == selection_m(sel@),
            rows_m(out@) == state_rows_m(sm.take(i as int)),
        decreases sel.len() - i,
    {
        let subject = crate::hql::row::clone_opt_node(&sel[i].0);
        let ds = sel[i].1.clone();
        let row = Row::State { subject, ds };
        let ghost before = rows_m(out@);
        out.push(row);
        assert(rows_m(out@) =~= before.push(row@));
        assert(sm.take(i + 1) =~= sm.take(i as int).push(sm[i as int]));
        assert(rows_m(out@) =~= state_rows_m(sm.take(i + 1)));
        i = i + 1;
    }
    assert(sm.take(sm.len() as int) =~= sm);
    out
}

/// The history rows of the desired state with UUID `state_id`: the events
/// that reconcile it, in the snapshot's order.
pub fn chain_rows(state_id: u128, events: &Vec<HistoryEventView>) -> (r: Vec<Row>)
    ensures
        rows_m(r@) == chain_rows_m(state_id, events@.map_values(|e: HistoryEventView| e@)),
{
    let ghost evs = events@.map_values(|e: HistoryEventView| e@);
    let text = uuid_text(state_id);
    let id = chars_of(text.as_str());
    let ghost p = chain_pred(id@);
    let mut out: Vec<Row> = Vec::new();
    let mut j: usize = 0;
    assert(evs.take(0) =~= Seq::<EventM>::empty());
    assert(rows_m(out@) =~= keep(evs.take(0), p).map_values(|e: EventM| RowM::History { event: e }));
    while j < events.len()
        invariant
            j <= events@.len() == evs.len(),
            evs == events@.map_values(|e: HistoryEventView| e@),
            p == chain_pred(id@),
            rows_m(out@) == keep(evs.take(j as int), p).map_values(
                |e: EventM| RowM::History { event: e },
            ),
        decreases events.len() - j,
    {
        proof {
            lemma_keep_step(evs, j as int, p);
        }
        let e = &events[j];
        assert(evs[j as int] == e@);
        let hit = match &e.reconciles {
            Some(rc) => {
                let c = chars_of(rc.as_str());
                chars_eq(&c, &id)
            },
            None => false,
        };
        if hit {
            let row = Row::History { event: e.clone() };
            let ghost before = rows_m(out@);
            out.push(row);
            assert(rows_m(out@) =~= before.push(row@));
            assert(rows_m(out@) =~= keep(evs.take(j + 1), p).map_values(
                |e: EventM| RowM::History { event: e },
            ));
        }
        j = j + 1;
    }
    assert(evs.take(evs.len() as int) =~= evs);
    out
}

/// Cool: the causal events of each selected desired state, in the store's
/// order. Never reads spec / status. A selected state whose id does not
/// read as a UUID refuses the query.
pub fn apply_history(snap: &Snapshot, rows: &Vec<Row>, name: &Option<Vec<char>>) -> (r: Result<Vec<Row>>)
    ensures
        match history_rows_m(
            select_states_m(rows_m(rows@), name_m(*name), snap@.states),
            snap@.events,
        ) {
            Ok(v) => r matches Ok(x) && rows_m(x@) == v,
            Err(m) => crate::error::is_invalid_with(r, m),
        },
{
    let sel = select_states(rows, name, &snap.desired_states);
    let ghost sm = selection_m(sel@);
    let ghost evs = snap@.events;
    let mut out: Vec<Row> = Vec::new();
    let mut i: usize = 0;
    assert(sm.take(0) =~= Seq::<(Option<NodeM>, StateM)>::empty());
    assert(rows_m(out@) =~= Seq::<RowM>::empty());
    while i < sel.len()
        invariant
            i <= sel@.len(),
            sm == selection_m(sel@),
            sm == select_states_m(rows_m(rows@), name_m(*name), snap@.states),
            evs == snap@.events,
            history_rows_m(sm.take(i as int), evs) == Ok::<Seq<RowM>, Seq<char>>(rows_m(out@)),
        decreases sel.len() - i,
    {
        assert(sm.take(i + 1).drop_last() =~= sm.take(i as int));
        assert(sm.take(i + 1).last() == sm[i as int]);
        assert(sm[i as int].1.id == sel@[i as int].1.id@);
        let id = match parse_uuid(sel[i].1.id.as_str()) {
            Ok(v) => v,
            Err(m) => {
                proof {
                    assert(uuid_parse_of(sm.take(i + 1).last().1.id) == Err::<u128, Seq<char>>(m@));
                    assert(history_rows_m(sm.take(i + 1), evs) == Err::<Seq<RowM>, Seq<char>>(m@));
                    lemma_history_error_sticks(sm, evs, i + 1);
                    assert(history_rows_m(sm, evs) == Err::<Seq<RowM>, Seq<char>>(m@));
                }
                return Err(Error::Invalid(m));
            },
        };
        let rows_i = chain_rows(id, &snap.events);
        let ghost before = rows_m(out@);
        let mut k: usize = 0;
        while k < rows_i.len()
            invariant
                k <= rows_i@.len(),
                rows_m(out@) == before + rows_m(rows_i@).take(k as int),
            decreases rows_i.len() - k,
        {
            let row = rows_i[k].clone();
            let ghost b2 = rows_m(out@);
            out.push(row);
            assert(rows_m(out@) =~= b2.push(rows_i@[k as int]@));
            assert(rows_m(rows_i@).take(k + 1) =~= rows_m(rows_i@).take(k as int).push(rows_i@[k as int]@));
            k = k + 1;
        }
        assert(rows_m(rows_i@).take(rows_i@.len() as int) =~= rows_m(rows_i@));
        i = i + 1;
    }
    assert(sm.take(sm.len() as int) =~= sm);
    Ok(out)
}

/// Once a prefix of the selection is refused, so is the whole selection.
proof fn lemma_history_error_sticks(sel: Seq<(Option<NodeM>, StateM)>, events: Seq<EventM>, k: int)
    requires
        0 <= k <= sel.len(),
        history_rows_m(sel.take(k), events) is Err,
    ensures
        history_rows_m(sel, events) == history_rows_m(sel.take(k), events),
    decreases sel.len() - k,
{
    if k == sel.len() {
        assert(sel.take(k) =~= sel);
    } else {
        assert(sel.take(k + 1).drop_last() =~= sel.take(k));
        lemma_history_error_sticks(sel, events, k + 1);
    }
}


fn step(snap: &Snapshot, rows: Vec<Row>, op: &Op) -> (r: Result<Vec<Row>>)
    ensures
        match op_step(snap@, rows_m(rows@), op@) {
            Ok(v) => r matches Ok(x) && rows_m(x@) == v,
            Err(m) => crate::error::is_invalid_with(r, m),
        },
{
    match op {
        Op::Vault(name) => {
            let n = chars_of(name.as_str());
            Ok(keep_in_vault(snap, &rows, &n))
        },
        Op::Agent(name) => {
            let n = chars_of(name.as_str());
            Ok(filter_agents(&rows, &n))
        },
        Op::State(name) => {
            let n: Option<Vec<char>> = match name {
                Some(x) => Some(chars_of(x.as_str())),
                None => None,
            };
            Ok(apply_state(snap, &rows, &n))
        },
        Op::History(name) => {
            let n: Option<Vec<char>> = match name {
                Some(x) => Some(chars_of(x.as_str())),
                None => None,
            };
            apply_history(snap, &rows, &n)
        },
        Op::Search(needle) => {
            let n = chars_of(needle.as_str());
            Ok(keep_search(snap, &rows, &n))
        },
        Op::Traverse { edge, hops } => {
            let e = chars_of(edge.as_str());
            traverse(snap, &rows, &e, *hops)
        },
        Op::Filter(expr) => {
            let f = parse_filter(expr.as_str())?;
            Ok(keep_matching(&rows, &f))
        },
        Op::Select(fields) => Ok(project_all(&rows, fields)),
        Op::Limit(n) => {
            let mut rows = rows;
            apply_limit(&mut rows, *n);
            Ok(rows)
        },
    }
}

impl Query {
    /// Run the operators in order over the rows of a snapshot, starting from
    /// every node. The first operator that fails decides the error.
    pub fn run(&self, snap: &Snapshot) -> (r: Result<Vec<Row>>)
        ensures
            match run_m(snap@, self@) {
                Ok(v) => r matches Ok(x) && rows_m(x@) == v,
                Err(m) => crate::error::is_invalid_with(r, m),
            },
    {
        let ghost sm = snap@;
        let mut rows: Vec<Row> = Vec::new();
        let mut i: usize = 0;
        while i < snap.nodes.len()
            invariant
                i <= snap.nodes@.len(),
                sm == snap@,
                rows_m(rows@) == initial_rows(sm).take(i as int),
            decreases snap.nodes.len() - i,
        {
            let row = Row::Node(snap.nodes[i].clone());
            let ghost before = rows_m(rows@);
            rows.push(row);
            assert(rows_m(rows@) =~= before.push(row@));
            assert(initial_rows(sm).take(i + 1) =~= initial_rows(sm).take(i as int).push(
                RowM::Node(sm.nodes[i as int]),
            ));
            i = i + 1;
        }
        assert(initial_rows(sm).take(sm.nodes.len() as int) =~= initial_rows(sm));
        let ghost ops = self@;
        let mut k: usize = 0;
        assert(ops.take(0) =~= Seq::<OpM>::empty());
        while k < self.ops.len()
            invariant
                k <= self.ops@.len() == ops.len(),
                ops == self@,
                sm == snap@,
                run_from(sm, initial_rows(sm), ops.take(k as int)) == Ok::<Seq<RowM>, Seq<char>>(
                    rows_m(rows@),
                ),
            decreases self.ops.len() - k,
        {
            assert(ops.take(k + 1).drop_last() =~= ops.take(k as int));
            assert(ops.take(k + 1).last() == self.ops@[k as int]@);
            let next = step(snap, rows, &self.ops[k]);
            match next {
                Ok(v) => {
                    rows = v;
                },
                Err(e) => {
                    proof {
                        lemma_run_error_sticks(sm, initial_rows(sm), ops, k + 1);
                    }
                    return Err(e);
                },
            }
            k = k + 1;
        }
        assert(ops.take(ops.len() as int) =~= ops);
        Ok(rows)
    }
}

/// Parse a pipeline and run it over a snapshot: a pipeline that does not
/// parse, or an operator that fails, decides the error.
pub fn run_pipeline(snap: &Snapshot, pipeline: &str) -> (r: Result<Vec<Row>>)
    ensures
        match crate::hql::query::pipeline_spec(pipeline@) {
            Err(m) => crate::error::is_invalid_with(r, m),
            Ok(ops) => match run_m(snap@, ops) {
                Ok(v) => r matches Ok(x) && rows_m(x@) == v,
                Err(m) => crate::error::is_invalid_with(r, m),
            },
        },
{
    let q = Query::new();
    let q = match q.pipe(pipeline) {
        Ok(q) => q,
        Err(e) => {
            return Err(e);
        },
    };
    assert(Seq::<OpM>::empty() + q@ =~= q@);
    q.run(snap)
}

/// Once an operator fails, the query fails with its message.
proof fn lemma_run_error_sticks(snap: SnapM, rows: Seq<RowM>, ops: Seq<OpM>, k: int)
    requires
        0 <= k <= ops.len(),
        run_from(snap, rows, ops.take(k)) is Err,
    ensures
        run_from(snap, rows, ops) == run_from(snap, rows, ops.take(k)),
    decreases ops.len() - k,
{
    if k == ops.len() {
        assert(ops.take(k) =~= ops);
    } else {
        assert(ops.take(k + 1).drop_last() =~= ops.take(k));
        lemma_run_error_sticks(snap, rows, ops, k + 1);
    }
}

} // verus!
