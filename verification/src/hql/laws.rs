//! What holds of every HQL query: the warm and cool paths stay apart,
//! `agent` stays in its slice, `select` reads from the source row, `limit`
//! keeps a prefix.

use vstd::prelude::*;

use crate::hql::ops::{filter_agents_m, is_agent_row, keep, limit_len, SnapM};
use crate::hql::query::OpM;
use crate::hql::row::{base_m, from_id_m, get_m, node_m, project_m, to_id_m, vault_m, CellM, EventM, RowM};
use crate::hql::states::select_states_m;
use crate::hql::row::{NodeM, StateM};
use crate::hql::run::{
    chain_pred, chain_rows_m, history_rows_m, initial_rows, op_step, run_from, run_m, search_pred,
    vault_pred,
};
use crate::ids::{uuid_hyphenated, uuid_parse_of, version_ref_m};
use crate::store::{reconcile_outcome, Reconciled, Session};

verus! {

/// What `keep` returns are elements of its input.
pub proof fn lemma_keep_within<A>(s: Seq<A>, p: spec_fn(A) -> bool, j: int)
    requires
        0 <= j < keep(s, p).len(),
    ensures
        s.contains(keep(s, p)[j]),
        p(keep(s, p)[j]),
    decreases s.len(),
{
    if s.len() > 0 {
        let k = keep(s.drop_last(), p);
        if j < k.len() {
            lemma_keep_within(s.drop_last(), p, j);
            let i = choose|i: int| 0 <= i < s.drop_last().len() && s.drop_last()[i] == k[j];
            assert(s[i] == keep(s, p)[j]);
        } else {
            assert(s[s.len() - 1] == keep(s, p)[j]);
        }
    }
}

/// `agent NAME` stays in the current slice: every row it keeps is an Agent
/// row of its input.
pub proof fn law_agent_stays_in_slice(rows: Seq<RowM>, name: Seq<char>, j: int)
    requires
        0 <= j < filter_agents_m(rows, name).len(),
    ensures
        rows.contains(filter_agents_m(rows, name)[j]),
        is_agent_row(filter_agents_m(rows, name)[j]),
{
    let agents = keep(rows, |r: RowM| is_agent_row(r));
    let exact = keep(agents, crate::hql::ops::exact_pred(name));
    let x = filter_agents_m(rows, name)[j];
    if exact.len() > 0 {
        lemma_keep_within(agents, crate::hql::ops::exact_pred(name), j);
    } else {
        lemma_keep_within(agents, crate::hql::ops::substring_pred(name), j);
    }
    let i = choose|i: int| 0 <= i < agents.len() && agents[i] == x;
    lemma_keep_within(rows, |r: RowM| is_agent_row(r), i);
}

/// Selecting twice is selecting the second list: a selection always reads
/// from the row it was made over. The selected row names exactly the
/// selected fields, and stands on the same node, vault and edge ends as its
/// source.
pub proof fn law_select_reads_source(r: RowM, first: Seq<Seq<char>>, second: Seq<Seq<char>>)
    ensures
        project_m(project_m(r, first), second) == project_m(r, second),
        project_m(r, second) matches RowM::Selected { columns, .. } && columns.map_values(
            |c: (Seq<char>, CellM)| c.0,
        ) =~= second,
        node_m(project_m(r, second)) == node_m(base_m(r)),
        vault_m(project_m(r, second)) == vault_m(base_m(r)),
        to_id_m(project_m(r, second)) == to_id_m(base_m(r)),
        from_id_m(project_m(r, second)) == from_id_m(base_m(r)),
{
    assert(base_m(project_m(r, first)) == base_m(r));
}

/// Every selected column holds what the source row answers for it, also
/// when a field is selected more than once.
pub proof fn law_select_keeps_values(r: RowM, fields: Seq<Seq<char>>, i: int)
    requires
        0 <= i < fields.len(),
    ensures
        get_m(project_m(r, fields), fields[i]) == get_m(base_m(r), fields[i]),
{
    let cols = fields.map_values(|f: Seq<char>| (f, get_m(base_m(r), f)));
    lemma_lookup_column(cols, fields[i], i, base_m(r));
}

proof fn lemma_lookup_column(cols: Seq<(Seq<char>, CellM)>, f: Seq<char>, i: int, base: RowM)
    requires
        0 <= i < cols.len(),
        cols[i].0 == f,
        forall|j: int| 0 <= j < cols.len() ==> #[trigger] cols[j].1 == get_m(base, cols[j].0),
    ensures
        crate::hql::row::lookup(cols, f) == Some(get_m(base, f)),
    decreases cols.len(),
{
    if cols[0].0 != f {
        let rest = cols.drop_first();
        assert forall|j: int| 0 <= j < rest.len() implies #[trigger] rest[j].1 == get_m(base, rest[j].0) by {
            assert(rest[j] == cols[j + 1]);
        }
        lemma_lookup_column(rest, f, i - 1, base);
    }
}

/// A history row carries no warm field: not the spec, the status, the name
/// or the event's data.
pub proof fn law_history_is_cool(e: EventM, f: Seq<char>)
    requires
        f == "spec"@ || f == "status"@ || f == "name"@ || f == "data"@,
    ensures
        get_m(RowM::History { event: e }, f) == CellM::Null,
{
    reveal_strlit("spec");
    reveal_strlit("status");
    reveal_strlit("name");
    reveal_strlit("data");
    reveal_strlit("id");
    reveal_strlit("vault_id");
    reveal_strlit("ts");
    reveal_strlit("actor");
    reveal_strlit("type");
    reveal_strlit("caused_by");
    reveal_strlit("reconciles");
    reveal_strlit("supersedes");
    assert("spec"@[0] == 's' && "status"@[0] == 's' && "name"@[0] == 'n' && "data"@[0] == 'd');
    assert("spec"@.len() == 4 && "status"@.len() == 6 && "name"@.len() == 4 && "data"@.len() == 4);
    assert("id"@.len() == 2 && "ts"@.len() == 2);
    assert("vault_id"@.len() == 8 && "actor"@.len() == 5 && "type"@.len() == 4);
    assert("caused_by"@.len() == 9 && "reconciles"@.len() == 10 && "supersedes"@.len() == 10);
    assert("type"@[0] == 't');
    assert("supersedes"@[1] == 'u' && "status"@[1] == 't');
}

/// The snapshot with its event log replaced.
pub open spec fn with_events(snap: SnapM, events: Seq<EventM>) -> SnapM {
    SnapM { nodes: snap.nodes, edges: snap.edges, states: snap.states, events }
}

proof fn lemma_step_ignores_events(snap: SnapM, events: Seq<EventM>, rows: Seq<RowM>, op: OpM)
    requires
        !(op is History),
    ensures
        op_step(snap, rows, op) == op_step(with_events(snap, events), rows, op),
{
    let other = with_events(snap, events);
    match op {
        OpM::Vault(name) => {
            assert(vault_pred(snap, name) =~= vault_pred(other, name));
        },
        OpM::Search(needle) => {
            assert(search_pred(snap, needle) =~= search_pred(other, needle));
        },
        _ => {},
    }
}

proof fn lemma_run_ignores_events(snap: SnapM, events: Seq<EventM>, rows: Seq<RowM>, ops: Seq<OpM>)
    requires
        forall|i: int| 0 <= i < ops.len() ==> !(#[trigger] ops[i] is History),
    ensures
        run_from(snap, rows, ops) == run_from(with_events(snap, events), rows, ops),
    decreases ops.len(),
{
    if ops.len() > 0 {
        lemma_run_ignores_events(snap, events, rows, ops.drop_last());
        match run_from(snap, rows, ops.drop_last()) {
            Err(_) => {},
            Ok(r) => {
                assert(!(ops[ops.len() - 1] is History));
                lemma_step_ignores_events(snap, events, r, ops.last());
            },
        }
    }
}

/// A query without `history` never reads the event log: its answer is the
/// same whatever the events are. `state` is the warm path.
pub proof fn law_warm_ignores_events(snap: SnapM, events: Seq<EventM>, ops: Seq<OpM>)
    requires
        forall|i: int| 0 <= i < ops.len() ==> !(#[trigger] ops[i] is History),
    ensures
        run_m(snap, ops) == run_m(with_events(snap, events), ops),
{
    assert(initial_rows(snap) == initial_rows(with_events(snap, events)));
    lemma_run_ignores_events(snap, events, initial_rows(snap), ops);
}

/// `limit n` keeps a prefix of the rows, and at most `n` of them.
pub proof fn law_limit_keeps_prefix(snap: SnapM, rows: Seq<RowM>, n: i64)
    ensures
        op_step(snap, rows, OpM::Limit(n)) matches Ok(out) && out.len() <= rows.len() && out
            =~= rows.take(out.len() as int) && (n >= 0 ==> out.len() <= n),
{
    let k = limit_len(rows.len() as int, n);
    assert(0 <= k <= rows.len());
}

/// Whether an event reconciles a desired state: its `reconciles` is the
/// hyphenated text of the UUID the state's id reads as.
pub open spec fn reconciles_state(e: EventM, st: StateM) -> bool {
    match uuid_parse_of(st.id) {
        Ok(u) => e.reconciles == Some(uuid_hyphenated(u)),
        Err(_) => false,
    }
}

/// Whether a row is a history row of one of the events, reconciling one of
/// the selected desired states by the hyphenated text of its UUID.
pub open spec fn answers_selection(r: RowM, sel: Seq<(Option<NodeM>, StateM)>, events: Seq<EventM>) -> bool {
    match r {
        RowM::History { event } => events.contains(event) && exists|i: int|
            0 <= i < sel.len() && reconciles_state(event, #[trigger] sel[i].1),
        _ => false,
    }
}

proof fn lemma_history_rows(sel: Seq<(Option<NodeM>, StateM)>, events: Seq<EventM>, j: int)
    requires
        history_rows_m(sel, events) is Ok,
        0 <= j < history_rows_m(sel, events)->Ok_0.len(),
    ensures
        answers_selection(history_rows_m(sel, events)->Ok_0[j], sel, events),
    decreases sel.len(),
{
    let prev = history_rows_m(sel.drop_last(), events)->Ok_0;
    let u = uuid_parse_of(sel.last().1.id)->Ok_0;
    let chain = keep(events, chain_pred(uuid_hyphenated(u)));
    let tail = chain_rows_m(u, events);
    assert(history_rows_m(sel, events)->Ok_0 == prev + tail);
    if j < prev.len() {
        lemma_history_rows(sel.drop_last(), events, j);
        let r = prev[j];
        if let RowM::History { event } = r {
            let i = choose|i: int|
                0 <= i < sel.drop_last().len() && reconciles_state(event, #[trigger] sel.drop_last()[i].1);
            assert(sel.drop_last()[i] == sel[i]);
        }
    } else {
        let k = j - prev.len();
        lemma_keep_within(events, chain_pred(uuid_hyphenated(u)), k);
        assert(tail[k] == RowM::History { event: chain[k] });
        assert(sel[sel.len() - 1] == sel.last());
        assert(reconciles_state(chain[k], sel[sel.len() - 1].1));
    }
}

/// `history` answers only with events of the store that reconcile one of
/// the desired states its selection names, matched by the hyphenated text
/// of the state's UUID: the cool path of the same selection `state` shows.
pub proof fn law_history_answers_the_selection(
    snap: SnapM,
    rows: Seq<RowM>,
    name: Option<Seq<char>>,
    j: int,
)
    requires
        history_rows_m(select_states_m(rows, name, snap.states), snap.events) is Ok,
        0 <= j < history_rows_m(select_states_m(rows, name, snap.states), snap.events)->Ok_0.len(),
    ensures
        op_step(snap, rows, OpM::History(name)) == history_rows_m(
            select_states_m(rows, name, snap.states),
            snap.events,
        ),
        answers_selection(
            history_rows_m(select_states_m(rows, name, snap.states), snap.events)->Ok_0[j],
            select_states_m(rows, name, snap.states),
            snap.events,
        ),
{
    lemma_history_rows(select_states_m(rows, name, snap.states), snap.events, j);
}

/// Text order by code point, as the store's `ORDER BY` compares ids.
pub open spec fn text_le(a: Seq<char>, b: Seq<char>) -> bool
    decreases a.len(),
{
    if a.len() == 0 {
        true
    } else if b.len() == 0 {
        false
    } else if (a[0] as u32) < (b[0] as u32) {
        true
    } else if a[0] == b[0] {
        text_le(a.drop_first(), b.drop_first())
    } else {
        false
    }
}

/// `a` comes no later than `b` in the store's event order: by `ts`, then
/// by `id`.
pub open spec fn event_le(a: EventM, b: EventM) -> bool {
    a.ts < b.ts || (a.ts == b.ts && text_le(a.id, b.id))
}

/// Events in the store's order, `ts` then `id`.
pub open spec fn in_store_order(events: Seq<EventM>) -> bool {
    forall|i: int, j: int| 0 <= i < j < events.len() ==> event_le(#[trigger] events[i], #[trigger] events[j])
}

/// The event a history row shows.
pub open spec fn row_event(r: RowM) -> EventM {
    match r {
        RowM::History { event } => event,
        _ => arbitrary(),
    }
}

proof fn lemma_keep_in_order(s: Seq<EventM>, p: spec_fn(EventM) -> bool)
    requires
        in_store_order(s),
    ensures
        in_store_order(keep(s, p)),
    decreases s.len(),
{
    if s.len() > 0 {
        let dl = s.drop_last();
        assert(in_store_order(dl)) by {
            assert forall|i: int, j: int| 0 <= i < j < dl.len() implies event_le(#[trigger] dl[i], #[trigger] dl[j]) by {
                assert(dl[i] == s[i] && dl[j] == s[j]);
            }
        }
        lemma_keep_in_order(dl, p);
        let k = keep(dl, p);
        if p(s.last()) {
            let kk = k.push(s.last());
            assert forall|i: int, j: int| 0 <= i < j < kk.len() implies event_le(#[trigger] kk[i], #[trigger] kk[j]) by {
                if j == k.len() {
                    lemma_keep_within(dl, p, i);
                    let m = choose|m: int| 0 <= m < dl.len() && dl[m] == k[i];
                    assert(s[m] == k[i]);
                    assert(event_le(s[m], s[s.len() - 1]));
                } else {
                    assert(kk[i] == k[i] && kk[j] == k[j]);
                }
            }
        }
    }
}

/// The history of a desired state comes in the store's order: over events
/// in `ts`, `id` order, its rows are in that order too.
pub proof fn law_history_in_store_order(id: u128, events: Seq<EventM>)
    requires
        in_store_order(events),
    ensures
        forall|i: int, j: int|
            0 <= i < j < chain_rows_m(id, events).len() ==> event_le(
                row_event(#[trigger] chain_rows_m(id, events)[i]),
                row_event(#[trigger] chain_rows_m(id, events)[j]),
            ),
{
    let k = keep(events, chain_pred(uuid_hyphenated(id)));
    lemma_keep_in_order(events, chain_pred(uuid_hyphenated(id)));
    assert forall|i: int, j: int| 0 <= i < j < chain_rows_m(id, events).len() implies event_le(
        row_event(#[trigger] chain_rows_m(id, events)[i]),
        row_event(#[trigger] chain_rows_m(id, events)[j]),
    ) by {
        assert(row_event(chain_rows_m(id, events)[i]) == k[i]);
        assert(row_event(chain_rows_m(id, events)[j]) == k[j]);
    }
}

/// Two reconciles of a desired state at version 1, the second after the
/// first: the state ends at version 3, the events supersede `id@1` and then
/// `id@2`, and over events in the store's order, when these two are the
/// state's whole chain, `history` lists them first to last.
pub proof fn law_two_reconciles(
    state_id: u128,
    state_vault: u128,
    session: Session,
    required: Seq<Seq<char>>,
    found1: Seq<(u128, Seq<char>)>,
    found2: Seq<(u128, Seq<char>)>,
    at1: i64,
    at2: i64,
    ts1: i64,
    ts2: i64,
    first: Reconciled,
    second: Reconciled,
    events: Seq<EventM>,
    a: EventM,
    b: EventM,
)
    requires
        reconcile_outcome(state_id, state_vault, 1, session, required, found1, at1, ts1, first),
        reconcile_outcome(
            state_id,
            state_vault,
            first.state_version,
            session,
            required,
            found2,
            at2,
            ts2,
            second,
        ),
        ts1 < ts2,
        in_store_order(events),
        keep(events, chain_pred(uuid_hyphenated(state_id))).len() == 2,
        keep(events, chain_pred(uuid_hyphenated(state_id))).contains(a),
        keep(events, chain_pred(uuid_hyphenated(state_id))).contains(b),
        a.ts == first.event.ts,
        b.ts == second.event.ts,
    ensures
        second.state_version == 3,
        first.event.supersedes matches Some(p) && p@ == version_ref_m(state_id, 1),
        second.event.supersedes matches Some(p) && p@ == version_ref_m(state_id, 2),
        chain_rows_m(state_id, events) == seq![
            RowM::History { event: a },
            RowM::History { event: b },
        ],
{
    let k = keep(events, chain_pred(uuid_hyphenated(state_id)));
    lemma_keep_in_order(events, chain_pred(uuid_hyphenated(state_id)));
    assert(event_le(k[0], k[1]));
    let ia = choose|i: int| 0 <= i < k.len() && k[i] == a;
    let ib = choose|i: int| 0 <= i < k.len() && k[i] == b;
    assert(a.ts < b.ts);
    assert(ia != ib);
    assert(ia == 0 && ib == 1);
    assert(chain_rows_m(state_id, events) =~= seq![
        RowM::History { event: a },
        RowM::History { event: b },
    ]);
}

} // verus!
