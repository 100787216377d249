//! Which desired states a slice of rows selects: by vault, by agent, by
//! name.

use vstd::prelude::*;

use crate::error::{Error, Result};
use crate::hql::ops::{
    agent_exact_m, agent_substring_m, basename_m, extra_chars, extra_val, find_node, keep,
    lemma_keep_all, lemma_keep_step, node_by_id, path_basename, path_chars, rows_m, SnapM, Snapshot,
};
use crate::hql::row::{
    node_m, opt_view, searchable_m, unwrap_text, vault_m, DesiredStateView, EdgeM, EdgeView,
    HistoryEventView, NodeM, NodeView, Row, RowM, StateM, EventM, lookup, from_id_m, to_id_m,
};
use crate::text::{chars_eq, chars_of, contains, has_sub, push_all, string_of};

verus! {

/// The nodes of type `t` that the rows stand on, in row order.
pub open spec fn nodes_of_type(rows: Seq<RowM>, t: Seq<char>) -> Seq<NodeM>
    decreases rows.len(),
{
    if rows.len() == 0 {
        Seq::empty()
    } else {
        let prev = nodes_of_type(rows.drop_last(), t);
        match node_m(rows.last()) {
            Some(n) => if n.node_type == t {
                prev.push(n)
            } else {
                prev
            },
            None => prev,
        }
    }
}

/// The vaults the rows belong to, each once, in order of first appearance.
pub open spec fn distinct_vaults(rows: Seq<RowM>) -> Seq<Seq<char>>
    decreases rows.len(),
{
    if rows.len() == 0 {
        Seq::empty()
    } else {
        let prev = distinct_vaults(rows.drop_last());
        match vault_m(rows.last()) {
            Some(v) => if prev.contains(v) {
                prev
            } else {
                prev.push(v)
            },
            None => prev,
        }
    }
}

pub open spec fn in_vault_pred(vid: Seq<char>) -> spec_fn(StateM) -> bool {
    |ds: StateM| ds.vault_id == vid
}

pub open spec fn wanted_pred(name: Option<Seq<char>>) -> spec_fn(StateM) -> bool {
    |ds: StateM|
        match name {
            Some(n) => ds.name == n,
            None => true,
        }
}

/// The keys an agent's desired state may be named by: extra `name`, extra
/// `title`, path basename, the blank ones left out.
pub open spec fn agent_keys(n: NodeM) -> Seq<Seq<char>> {
    let k1 = match extra_val(n, "name"@) {
        Some(k) => if k.len() > 0 {
            seq![k]
        } else {
            Seq::empty()
        },
        None => Seq::empty(),
    };
    let k2 = match extra_val(n, "title"@) {
        Some(k) => if k.len() > 0 {
            seq![k]
        } else {
            Seq::empty()
        },
        None => Seq::empty(),
    };
    let b = basename_m(unwrap_text(n.path));
    let k3 = if b.len() > 0 {
        seq![b]
    } else {
        Seq::<Seq<char>>::empty()
    };
    k1 + k2 + k3
}

pub open spec fn named_exact_pred(keys: Seq<Seq<char>>) -> spec_fn(StateM) -> bool {
    |ds: StateM| keys.contains(ds.name)
}

pub open spec fn named_sub_pred(keys: Seq<Seq<char>>) -> spec_fn(StateM) -> bool {
    |ds: StateM| exists|i: int| 0 <= i < keys.len() && has_sub(ds.name, #[trigger] keys[i])
}

/// The desired states named like an agent: exact on a key, else holding one.
pub open spec fn named_like_m(agent: NodeM, candidates: Seq<StateM>) -> Seq<StateM> {
    let keys = agent_keys(agent);
    let exact = keep(candidates, named_exact_pred(keys));
    if exact.len() > 0 {
        exact
    } else {
        keep(candidates, named_sub_pred(keys))
    }
}

pub open spec fn with_subject(s: Option<NodeM>, v: Seq<StateM>) -> Seq<(Option<NodeM>, StateM)> {
    v.map_values(|ds: StateM| (s, ds))
}

pub open spec fn sel_vaults(
    vs: Seq<NodeM>,
    states: Seq<StateM>,
    name: Option<Seq<char>>,
) -> Seq<(Option<NodeM>, StateM)>
    decreases vs.len(),
{
    if vs.len() == 0 {
        Seq::empty()
    } else {
        let v = vs.last();
        sel_vaults(vs.drop_last(), states, name) + with_subject(
            Some(v),
            keep(keep(states, in_vault_pred(v.vault_id)), wanted_pred(name)),
        )
    }
}

pub open spec fn sel_agents(
    ags: Seq<NodeM>,
    states: Seq<StateM>,
    name: Option<Seq<char>>,
) -> Seq<(Option<NodeM>, StateM)>
    decreases ags.len(),
{
    if ags.len() == 0 {
        Seq::empty()
    } else {
        let a = ags.last();
        let candidates = keep(states, in_vault_pred(a.vault_id));
        let picked = match name {
            Some(n) => keep(candidates, wanted_pred(name)),
            None => named_like_m(a, candidates),
        };
        sel_agents(ags.drop_last(), states, name) + with_subject(Some(a), picked)
    }
}

pub open spec fn sel_loose(
    vids: Seq<Seq<char>>,
    states: Seq<StateM>,
    name: Option<Seq<char>>,
) -> Seq<(Option<NodeM>, StateM)>
    decreases vids.len(),
{
    if vids.len() == 0 {
        Seq::empty()
    } else {
        sel_loose(vids.drop_last(), states, name) + with_subject(
            None,
            keep(keep(states, in_vault_pred(vids.last())), wanted_pred(name)),
        )
    }
}

/// Which desired states a slice selects, with the node that selected each.
/// Vault nodes in the slice: every named state of that vault (or the one
/// called `name`). Otherwise Agent nodes: the state called `name`, or the
/// ones named like the agent. Otherwise every state of the vaults the slice
/// touches (or the one called `name`), with no subject.
pub open spec fn select_states_m(
    rows: Seq<RowM>,
    name: Option<Seq<char>>,
    states: Seq<StateM>,
) -> Seq<(Option<NodeM>, StateM)> {
    let vs = nodes_of_type(rows, "Vault"@);
    let ags = nodes_of_type(rows, "Agent"@);
    if vs.len() > 0 {
        sel_vaults(vs, states, name)
    } else if ags.len() > 0 {
        sel_agents(ags, states, name)
    } else {
        sel_loose(distinct_vaults(rows), states, name)
    }
}

pub open spec fn states_m(v: Seq<DesiredStateView>) -> Seq<StateM> {
    v.map_values(|d: DesiredStateView| d@)
}

pub open spec fn selection_m(v: Seq<(Option<NodeView>, DesiredStateView)>) -> Seq<(Option<NodeM>, StateM)> {
    v.map_values(|p: (Option<NodeView>, DesiredStateView)| (crate::hql::row::opt_node_m(p.0), p.1@))
}

/// Append `(subject, ds)` for every state of `all` that `take` admits.
fn push_states(
    out: &mut Vec<(Option<NodeView>, DesiredStateView)>,
    subject: &Option<NodeView>,
    picked: &Vec<DesiredStateView>,
)
    ensures
        selection_m(final(out)@) == selection_m(old(out)@) + with_subject(
            crate::hql::row::opt_node_m(*subject),
            states_m(picked@),
        ),
{
    let ghost start = selection_m(out@);
    let mut i: usize = 0;
    assert(with_subject(crate::hql::row::opt_node_m(*subject), states_m(picked@).take(0))
        =~= Seq::empty());
    while i < picked.len()
        invariant
            i <= picked@.len(),
            start == selection_m(old(out)@),
            selection_m(out@) == start + with_subject(
                crate::hql::row::opt_node_m(*subject),
                states_m(picked@).take(i as int),
            ),
        decreases picked.len() - i,
    {
        let s = crate::hql::row::clone_opt_node(subject);
        let d = picked[i].clone();
        let ghost before = selection_m(out@);
        out.push((s, d));
        assert(selection_m(out@) =~= before.push((crate::hql::row::opt_node_m(s), d@)));
        assert(states_m(picked@).take(i + 1) =~= states_m(picked@).take(i as int).push(
            picked@[i as int]@,
        ));
        assert(with_subject(crate::hql::row::opt_node_m(*subject), states_m(picked@).take(i + 1))
            =~= with_subject(
            crate::hql::row::opt_node_m(*subject),
            states_m(picked@).take(i as int),
        ).push((crate::hql::row::opt_node_m(*subject), picked@[i as int]@)));
        i = i + 1;
    }
    assert(states_m(picked@).take(picked@.len() as int) =~= states_m(picked@));
}

/// The states of `all` in vault `vid`.
fn states_of_vault(all: &Vec<DesiredStateView>, vid: &[char]) -> (r: Vec<DesiredStateView>)
    ensures
        states_m(r@) == keep(states_m(all@), in_vault_pred(vid@)),
{
    let ghost sm = states_m(all@);
    let mut mid: Vec<DesiredStateView> = Vec::new();
    let mut i: usize = 0;
    assert(sm.take(0) =~= Seq::<StateM>::empty());
    assert(states_m(mid@) =~= Seq::<StateM>::empty());
    while i < all.len()
        invariant
            i <= all@.len() == sm.len(),
            sm == states_m(all@),
            states_m(mid@) == keep(sm.take(i as int), in_vault_pred(vid@)),
        decreases all.len() - i,
    {
        proof {
            lemma_keep_step(sm, i as int, in_vault_pred(vid@));
        }
        let v = chars_of(all[i].vault_id.as_str());
        if chars_eq(&v, vid) {
            let d = all[i].clone();
            let ghost before = states_m(mid@);
            mid.push(d);
            assert(states_m(mid@) =~= before.push(d@));
        }
        i = i + 1;
    }
    assert(sm.take(sm.len() as int) =~= sm);
    mid
}

pub open spec fn name_m(name: Option<Vec<char>>) -> Option<Seq<char>> {
    match name {
        Some(n) => Some(n@),
        None => None,
    }
}

/// The states of `v` called `name`, or all of them when no name is given.
fn states_named(v: &Vec<DesiredStateView>, name: &Option<Vec<char>>) -> (r: Vec<DesiredStateView>)
    ensures
        states_m(r@) == keep(states_m(v@), wanted_pred(name_m(*name))),
{
    let ghost mm = states_m(v@);
    let ghost nm = name_m(*name);
    let mut out: Vec<DesiredStateView> = Vec::new();
    let mut j: usize = 0;
    assert(mm.take(0) =~= Seq::<StateM>::empty());
    assert(states_m(out@) =~= Seq::<StateM>::empty());
    while j < v.len()
        invariant
            j <= v@.len() == mm.len(),
            mm == states_m(v@),
            states_m(out@) == keep(mm.take(j as int), wanted_pred(nm)),
            nm == name_m(*name),
        decreases v.len() - j,
    {
        proof {
            lemma_keep_step(mm, j as int, wanted_pred(nm));
        }
        let ok = match name {
            Some(n) => {
                let dn = chars_of(v[j].name.as_str());
                chars_eq(&dn, n)
            },
            None => true,
        };
        if ok {
            let d = v[j].clone();
            let ghost before = states_m(out@);
            out.push(d);
            assert(states_m(out@) =~= before.push(d@));
        }
        j = j + 1;
    }
    assert(mm.take(mm.len() as int) =~= mm);
    out
}

pub(crate) fn keys_contain(keys: &Vec<Vec<char>>, s: &[char]) -> (r: bool)
    ensures
        r == crate::text::views_of(keys@).contains(s@),
{
    let ghost ks = crate::text::views_of(keys@);
    let mut i: usize = 0;
    while i < keys.len()
        invariant
            i <= keys@.len() == ks.len(),
            ks == crate::text::views_of(keys@),
            forall|k: int| 0 <= k < i ==> ks[k] != s@,
        decreases keys.len() - i,
    {
        if chars_eq(&keys[i], s) {
            assert(ks[i as int] == s@);
            return true;
        }
        i = i + 1;
    }
    false
}

fn keys_within(keys: &Vec<Vec<char>>, s: &[char]) -> (r: bool)
    ensures
        r == exists|i: int|
            0 <= i < keys@.len() && has_sub(s@, #[trigger] crate::text::views_of(keys@)[i]),
{
    let ghost ks = crate::text::views_of(keys@);
    let mut i: usize = 0;
    while i < keys.len()
        invariant
            i <= keys@.len() == ks.len(),
            ks == crate::text::views_of(keys@),
            forall|k: int| 0 <= k < i ==> !has_sub(s@, #[trigger] ks[k]),
        decreases keys.len() - i,
    {
        if contains(s, &keys[i]) {
            assert(has_sub(s@, ks[i as int]));
            return true;
        }
        i = i + 1;
    }
    false
}

fn push_key(keys: &mut Vec<Vec<char>>, k: Vec<char>)
    ensures
        crate::text::views_of(final(keys)@) == crate::text::views_of(old(keys)@) + (if k@.len() > 0 {
            seq![k@]
        } else {
            Seq::<Seq<char>>::empty()
        }),
{
    if k.len() > 0 {
        let ghost before = crate::text::views_of(keys@);
        let ghost kv = k@;
        keys.push(k);
        assert(crate::text::views_of(keys@) =~= before + seq![kv]);
    } else {
        assert(crate::text::views_of(keys@) + Seq::<Seq<char>>::empty() =~= crate::text::views_of(
            keys@,
        ));
    }
}

fn agent_key_list(n: &NodeView) -> (r: Vec<Vec<char>>)
    ensures
        crate::text::views_of(r@) == agent_keys(n@),
{
    let mut keys: Vec<Vec<char>> = Vec::new();
    assert(crate::text::views_of(keys@) =~= Seq::<Seq<char>>::empty());
    match extra_chars(n, "name") {
        Some(k) => push_key(&mut keys, k),
        None => {},
    }
    match extra_chars(n, "title") {
        Some(k) => push_key(&mut keys, k),
        None => {},
    }
    let path = path_chars(n);
    let b = path_basename(&path);
    push_key(&mut keys, b);
    assert(crate::text::views_of(keys@) =~= agent_keys(n@));
    keys
}

/// Desired states whose name matches the agent: exact on extra.name /
/// extra.title / path basename, else substring — the `agent` rule mirrored.
fn states_named_like(agent: &NodeView, candidates: &Vec<DesiredStateView>) -> (r: Vec<
    DesiredStateView,
>)
    ensures
        states_m(r@) == named_like_m(agent@, states_m(candidates@)),
{
    let keys = agent_key_list(agent);
    let ghost ks = agent_keys(agent@);
    let ghost cm = states_m(candidates@);
    let mut exact: Vec<DesiredStateView> = Vec::new();
    let mut loose: Vec<DesiredStateView> = Vec::new();
    let mut i: usize = 0;
    assert(cm.take(0) =~= Seq::<StateM>::empty());
    assert(states_m(exact@) =~= Seq::<StateM>::empty());
    assert(states_m(loose@) =~= Seq::<StateM>::empty());
    while i < candidates.len()
        invariant
            i <= candidates@.len() == cm.len(),
            cm == states_m(candidates@),
            ks == crate::text::views_of(keys@),
            ks == agent_keys(agent@),
            states_m(exact@) == keep(cm.take(i as int), named_exact_pred(ks)),
            states_m(loose@) == keep(cm.take(i as int), named_sub_pred(ks)),
        decreases candidates.len() - i,
    {
        proof {
            lemma_keep_step(cm, i as int, named_exact_pred(ks));
            lemma_keep_step(cm, i as int, named_sub_pred(ks));
        }
        let dn = chars_of(candidates[i].name.as_str());
        if keys_contain(&keys, &dn) {
            let d = candidates[i].clone();
            let ghost before = states_m(exact@);
            exact.push(d);
            assert(states_m(exact@) =~= before.push(d@));
        }
        if keys_within(&keys, &dn) {
            let d = candidates[i].clone();
            let ghost before = states_m(loose@);
            loose.push(d);
            assert(states_m(loose@) =~= before.push(d@));
        }
        i = i + 1;
    }
    assert(cm.take(cm.len() as int) =~= cm);
    if exact.len() > 0 {
        exact
    } else {
        loose
    }
}

fn nodes_typed(rows: &Vec<Row>, t: &str) -> (r: Vec<NodeView>)
    ensures
        r@.map_values(|n: NodeView| n@) == nodes_of_type(rows_m(rows@), t@),
{
    let ghost rs = rows_m(rows@);
    let tc = chars_of(t);
    let mut out: Vec<NodeView> = Vec::new();
    let mut i: usize = 0;
    assert(rs.take(0) =~= Seq::<RowM>::empty());
    assert(out@.map_values(|n: NodeView| n@) =~= Seq::<NodeM>::empty());
    while i < rows.len()
        invariant
            i <= rows@.len() == rs.len(),
            rs == rows_m(rows@),
            tc@ == t@,
            out@.map_values(|n: NodeView| n@) == nodes_of_type(rs.take(i as int), t@),
        decreases rows.len() - i,
    {
        assert(rs.take(i + 1).drop_last() =~= rs.take(i as int));
        assert(rs.take(i + 1).last() == rows@[i as int]@);
        match rows[i].node() {
            Some(n) => {
                let nt = chars_of(n.node_type.as_str());
                if chars_eq(&nt, &tc) {
                    let c = n.clone();
                    let ghost before = out@.map_values(|n: NodeView| n@);
                    out.push(c);
                    assert(out@.map_values(|n: NodeView| n@) =~= before.push(c@));
                }
            },
            None => {},
        }
        i = i + 1;
    }
    assert(rs.take(rs.len() as int) =~= rs);
    out
}

fn vaults_touched(rows: &Vec<Row>) -> (r: Vec<Vec<char>>)
    ensures
        crate::text::views_of(r@) == distinct_vaults(rows_m(rows@)),
{
    let ghost rs = rows_m(rows@);
    let mut out: Vec<Vec<char>> = Vec::new();
    let mut i: usize = 0;
    assert(rs.take(0) =~= Seq::<RowM>::empty());
    assert(crate::text::views_of(out@) =~= Seq::<Seq<char>>::empty());
    while i < rows.len()
        invariant
            i <= rows@.len() == rs.len(),
            rs == rows_m(rows@),
            crate::text::views_of(out@) == distinct_vaults(rs.take(i as int)),
        decreases rows.len() - i,
    {
        assert(rs.take(i + 1).drop_last() =~= rs.take(i as int));
        assert(rs.take(i + 1).last() == rows@[i as int]@);
        match rows[i].vault_id() {
            Some(v) => {
                let vc = chars_of(v);
                if !keys_contain(&out, &vc) {
                    let ghost before = crate::text::views_of(out@);
                    let ghost vv = vc@;
                    out.push(vc);
                    assert(crate::text::views_of(out@) =~= before.push(vv));
                }
            },
            None => {},
        }
        i = i + 1;
    }
    assert(rs.take(rs.len() as int) =~= rs);
    out
}

/// Which desired states a slice selects, with the node that selected each.
pub fn select_states(
    rows: &Vec<Row>,
    name: &Option<Vec<char>>,
    all: &Vec<DesiredStateView>,
) -> (r: Vec<(Option<NodeView>, DesiredStateView)>)
    ensures
        selection_m(r@) == select_states_m(rows_m(rows@), name_m(*name), states_m(all@)),
{
    let ghost sm = states_m(all@);
    let ghost nm = name_m(*name);
    let mut out: Vec<(Option<NodeView>, DesiredStateView)> = Vec::new();
    assert(selection_m(out@) =~= Seq::empty());
    let vaults = nodes_typed(rows, "Vault");
    let ghost vs = vaults@.map_values(|n: NodeView| n@);
    if vaults.len() > 0 {
        let mut i: usize = 0;
        assert(vs.take(0) =~= Seq::<NodeM>::empty());
        while i < vaults.len()
            invariant
                i <= vaults@.len() == vs.len(),
                vs == vaults@.map_values(|n: NodeView| n@),
                sm == states_m(all@),
                nm == name_m(*name),
                selection_m(out@) == sel_vaults(vs.take(i as int), sm, nm),
            decreases vaults.len() - i,
        {
            assert(vs.take(i + 1).drop_last() =~= vs.take(i as int));
            assert(vs.take(i + 1).last() == vaults@[i as int]@);
            let vid = chars_of(vaults[i].vault_id.as_str());
            let in_v = states_of_vault(all, &vid);
            let picked = states_named(&in_v, name);
            let subject = Some(vaults[i].clone());
            push_states(&mut out, &subject, &picked);
            i = i + 1;
        }
        assert(vs.take(vs.len() as int) =~= vs);
        return out;
    }
    let agents = nodes_typed(rows, "Agent");
    let ghost ags = agents@.map_values(|n: NodeView| n@);
    if agents.len() > 0 {
        let mut i: usize = 0;
        assert(ags.take(0) =~= Seq::<NodeM>::empty());
        while i < agents.len()
            invariant
                i <= agents@.len() == ags.len(),
                ags == agents@.map_values(|n: NodeView| n@),
                sm == states_m(all@),
                nm == name_m(*name),
                selection_m(out@) == sel_agents(ags.take(i as int), sm, nm),
            decreases agents.len() - i,
        {
            assert(ags.take(i + 1).drop_last() =~= ags.take(i as int));
            assert(ags.take(i + 1).last() == agents@[i as int]@);
            let vid = chars_of(agents[i].vault_id.as_str());
            let candidates = states_of_vault(all, &vid);
            let picked = match name {
                Some(_) => states_named(&candidates, name),
                None => states_named_like(&agents[i], &candidates),
            };
            let subject = Some(agents[i].clone());
            push_states(&mut out, &subject, &picked);
            i = i + 1;
        }
        assert(ags.take(ags.len() as int) =~= ags);
        return out;
    }
    let vids = vaults_touched(rows);
    let ghost vv = crate::text::views_of(vids@);
    let mut i: usize = 0;
    assert(vv.take(0) =~= Seq::<Seq<char>>::empty());
    while i < vids.len()
        invariant
            i <= vids@.len() == vv.len(),
            vv == crate::text::views_of(vids@),
            sm == states_m(all@),
            nm == name_m(*name),
            selection_m(out@) == sel_loose(vv.take(i as int), sm, nm),
        decreases vids.len() - i,
    {
        assert(vv.take(i + 1).drop_last() =~= vv.take(i as int));
        assert(vv.take(i + 1).last() == vids@[i as int]@);
        let in_v = states_of_vault(all, &vids[i]);
        let picked = states_named(&in_v, name);
        let subject: Option<NodeView> = None;
        push_states(&mut out, &subject, &picked);
        i = i + 1;
    }
    assert(vv.take(vv.len() as int) =~= vv);
    out
}


/// Index of the first state of vault `vid`.
pub open spec fn vault_index(v: Seq<StateM>, vid: Seq<char>) -> Option<int>
    decreases v.len(),
{
    if v.len() == 0 {
        None
    } else {
        match vault_index(v.drop_last(), vid) {
            Some(i) => Some(i),
            None => if v.last().vault_id == vid {
                Some(v.len() - 1)
            } else {
                None
            },
        }
    }
}

/// The newest desired state of each vault: the first row with the highest
/// `state_version` among the vault's rows; vaults in order of first
/// appearance.
pub open spec fn latest_m(states: Seq<StateM>) -> Seq<StateM>
    decreases states.len(),
{
    if states.len() == 0 {
        Seq::empty()
    } else {
        let prev = latest_m(states.drop_last());
        let r = states.last();
        match vault_index(prev, r.vault_id) {
            Some(i) => if r.state_version > prev[i].state_version {
                prev.update(i, r)
            } else {
                prev
            },
            None => prev.push(r),
        }
    }
}

proof fn lemma_vault_index_bounds(v: Seq<StateM>, vid: Seq<char>)
    ensures
        vault_index(v, vid) matches Some(i) ==> 0 <= i < v.len() && v[i].vault_id == vid,
        vault_index(v, vid) is None ==> forall|j: int| 0 <= j < v.len() ==> v[j].vault_id != vid,
    decreases v.len(),
{
    if v.len() > 0 {
        lemma_vault_index_bounds(v.drop_last(), vid);
        if vault_index(v, vid) is None {
            assert forall|j: int| 0 <= j < v.len() implies v[j].vault_id != vid by {
                if j < v.len() - 1 {
                    assert(v.drop_last()[j] == v[j]);
                }
            }
        }
    }
}

fn find_vault(v: &Vec<DesiredStateView>, vid: &[char]) -> (r: Option<usize>)
    ensures
        r matches Some(k) ==> vault_index(states_m(v@), vid@) == Some(k as int),
        r is None ==> vault_index(states_m(v@), vid@) is None,
{
    let ghost sv = states_m(v@);
    let mut i: usize = 0;
    while i < v.len()
        invariant
            i <= v@.len(),
            sv == states_m(v@),
            vault_index(sv.take(i as int), vid@) is None,
        decreases v.len() - i,
    {
        assert(sv.take(i + 1).drop_last() =~= sv.take(i as int));
        let c = chars_of(v[i].vault_id.as_str());
        if chars_eq(&c, vid) {
            assert(vault_index(sv.take(i + 1), vid@) == Some(i as int));
            proof {
                lemma_vault_index_prefix(sv, vid@, i as int + 1);
            }
            return Some(i);
        }
        i = i + 1;
    }
    assert(sv.take(sv.len() as int) =~= sv);
    None
}

proof fn lemma_vault_index_prefix(v: Seq<StateM>, vid: Seq<char>, k: int)
    requires
        0 <= k <= v.len(),
        vault_index(v.take(k), vid) is Some,
    ensures
        vault_index(v, vid) == vault_index(v.take(k), vid),
    decreases v.len() - k,
{
    if k == v.len() {
        assert(v.take(k) =~= v);
    } else {
        assert(v.take(k + 1).drop_last() =~= v.take(k));
        lemma_vault_index_prefix(v, vid, k + 1);
    }
}

/// The newest desired state of each vault, in order of the vaults' first
/// rows.
pub fn latest_desired_states(states: &Vec<DesiredStateView>) -> (r: Vec<DesiredStateView>)
    ensures
        states_m(r@) == latest_m(states_m(states@)),
{
    let ghost sv = states_m(states@);
    let mut out: Vec<DesiredStateView> = Vec::new();
    let mut i: usize = 0;
    assert(states_m(out@) =~= latest_m(sv.take(0)));
    while i < states.len()
        invariant
            i <= states@.len(),
            sv == states_m(states@),
            states_m(out@) == latest_m(sv.take(i as int)),
        decreases states.len() - i,
    {
        assert(sv.take(i + 1).drop_last() =~= sv.take(i as int));
        assert(sv.take(i + 1).last() == states@[i as int]@);
        let row = &states[i];
        let vid = chars_of(row.vault_id.as_str());
        let ghost prev = states_m(out@);
        proof {
            lemma_vault_index_bounds(prev, vid@);
        }
        assert(row@.vault_id == vid@);
        assert(sv[i as int] == row@);
        match find_vault(&out, vid.as_slice()) {
            Some(k) => {
                assert(prev[k as int].state_version == out@[k as int].state_version);
                assert(vault_index(prev, vid@) == Some(k as int));
                if row.state_version > out[k].state_version {
                    out.set(k, row.clone());
                    assert(states_m(out@) =~= prev.update(k as int, row@));
                    assert(states_m(out@) == latest_m(sv.take(i + 1)));
                } else {
                    assert(states_m(out@) == latest_m(sv.take(i + 1)));
                }
            },
            None => {
                out.push(row.clone());
                assert(states_m(out@) =~= prev.push(row@));
                assert(states_m(out@) == latest_m(sv.take(i + 1)));
            },
        }
        i = i + 1;
    }
    assert(sv.take(sv.len() as int) =~= sv);
    out
}

} // verus!
