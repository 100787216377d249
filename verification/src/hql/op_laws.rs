//! What `search`, `agent` and `state` do to a slice, stated over the stored
//! values themselves: the text a row, its edges and their targets hold, the
//! names an agent carries, the names of the desired states.

use vstd::prelude::*;

use crate::hql::laws::lemma_keep_within;
use crate::hql::ops::{
    agent_exact_m, agent_substring_m, basename_m, edge_text_m, extra_val, filter_agents_m, keep,
    last_index, node_by_id, node_text_m, search_hit_m, SnapM,
};
use crate::hql::query::OpM;
use crate::hql::row::{from_id_m, lookup, node_m, searchable_m, unwrap_text, vault_m, NodeM, RowM, StateM};
use crate::hql::run::{op_step, search_pred, state_rows_m};
use crate::hql::states::{
    in_vault_pred, nodes_of_type, sel_agents, sel_loose, sel_vaults, select_states_m, wanted_pred,
    with_subject, named_like_m,
};
use crate::text::{has_sub, occurs_at};

verus! {

/// What satisfies `p` in `s` is in `keep(s, p)`.
pub proof fn lemma_keep_keeps<A>(s: Seq<A>, p: spec_fn(A) -> bool, x: A)
    requires
        s.contains(x),
        p(x),
    ensures
        keep(s, p).contains(x),
    decreases s.len(),
{
    let i = choose|i: int| 0 <= i < s.len() && s[i] == x;
    if i == s.len() - 1 {
        assert(keep(s, p).last() == x);
    } else {
        assert(s.drop_last()[i] == x);
        lemma_keep_keeps(s.drop_last(), p, x);
        let k = keep(s.drop_last(), p);
        let j = choose|j: int| 0 <= j < k.len() && k[j] == x;
        if p(s.last()) {
            assert(keep(s, p)[j] == x);
        }
    }
}

/// Text found in one part of a concatenation is found in the whole.
pub proof fn lemma_has_sub_concat(a: Seq<char>, b: Seq<char>, n: Seq<char>)
    ensures
        has_sub(a, n) ==> has_sub(a + b, n),
        has_sub(b, n) ==> has_sub(a + b, n),
{
    if has_sub(a, n) {
        let i = choose|i: int| occurs_at(a, i, n);
        assert((a + b).subrange(i, i + n.len()) =~= a.subrange(i, i + n.len()));
        assert(occurs_at(a + b, i, n));
    }
    if has_sub(b, n) {
        let i = choose|i: int| occurs_at(b, i, n);
        let j = a.len() + i;
        assert((a + b).subrange(j, j + n.len()) =~= b.subrange(i, i + n.len()));
        assert(occurs_at(a + b, j, n));
    }
}

// ---------------------------------------------------------------- search

/// `search` keeps a row whose own text holds the needle.
pub proof fn law_search_keeps_own_text(snap: SnapM, rows: Seq<RowM>, needle: Seq<char>, i: int)
    requires
        0 <= i < rows.len(),
        has_sub(searchable_m(rows[i]), needle),
    ensures
        op_step(snap, rows, OpM::Search(needle)) matches Ok(out) && out.contains(rows[i]),
{
    assert(search_pred(snap, needle)(rows[i]));
    lemma_keep_keeps(rows, search_pred(snap, needle), rows[i]);
}

/// `search` keeps a row when an edge leaving the row's node (for a row with
/// no node, the source of its walk) holds the needle in its raw target or
/// its properties, or resolves to a node whose path or extra holds it, even
/// when the row's own text does not.
pub proof fn law_search_reads_outgoing_edges(snap: SnapM, rows: Seq<RowM>, needle: Seq<char>, i: int, e: int)
    requires
        0 <= i < rows.len(),
        0 <= e < snap.edges.len(),
        (node_m(rows[i]) matches Some(n) && snap.edges[e].from_id == n.id) || (node_m(rows[i]) is None
            && from_id_m(rows[i]) == Some(snap.edges[e].from_id)),
        ({
            let edge = snap.edges[e];
            ||| has_sub(unwrap_text(edge.to_raw), needle)
            ||| has_sub(edge.properties, needle)
            ||| edge.to_id matches Some(t) && node_by_id(snap.nodes, t) matches Some(d) && (has_sub(
                unwrap_text(d.path),
                needle,
            ) || has_sub(d.extra, needle))
        }),
    ensures
        op_step(snap, rows, OpM::Search(needle)) matches Ok(out) && out.contains(rows[i]),
{
    let edge = snap.edges[e];
    let raw = unwrap_text(edge.to_raw);
    lemma_has_sub_concat(raw, seq!['\n'], needle);
    lemma_has_sub_concat(raw + seq!['\n'], edge.properties, needle);
    assert(edge_text_m(edge) == raw + seq!['\n'] + edge.properties);
    if let Some(t) = edge.to_id {
        if let Some(d) = node_by_id(snap.nodes, t) {
            let p = unwrap_text(d.path);
            lemma_has_sub_concat(p, seq!['\n'], needle);
            lemma_has_sub_concat(p + seq!['\n'], d.extra, needle);
            lemma_has_sub_concat(p + seq!['\n'] + d.extra, seq!['\n', '\n'], needle);
            assert(node_text_m(d) == p + seq!['\n'] + d.extra + seq!['\n', '\n']);
        }
    }
    assert(search_hit_m(snap, rows[i], needle));
    assert(search_pred(snap, needle)(rows[i]));
    lemma_keep_keeps(rows, search_pred(snap, needle), rows[i]);
}

/// `search` drops a row whose own text lacks the needle and whose node (or
/// walk source) has no edge leaving it; what it keeps are rows of the slice.
pub proof fn law_search_drops_what_holds_no_needle(snap: SnapM, rows: Seq<RowM>, needle: Seq<char>, i: int)
    requires
        0 <= i < rows.len(),
        !has_sub(searchable_m(rows[i]), needle),
        forall|e: int|
            0 <= e < snap.edges.len() ==> !((node_m(rows[i]) matches Some(n) && (#[trigger] snap.edges[e]).from_id
                == n.id) || (node_m(rows[i]) is None && from_id_m(rows[i]) == Some(snap.edges[e].from_id))),
    ensures
        !search_hit_m(snap, rows[i], needle),
        op_step(snap, rows, OpM::Search(needle)) matches Ok(out) && (forall|k: int|
            0 <= k < out.len() ==> rows.contains(#[trigger] out[k])),
{
    let out = keep(rows, search_pred(snap, needle));
    assert forall|k: int| 0 <= k < out.len() implies rows.contains(#[trigger] out[k]) by {
        lemma_keep_within(rows, search_pred(snap, needle), k);
    }
}

// ---------------------------------------------------------------- agent

/// `p` ends in a segment after a `/` that reads `name`.
pub open spec fn ends_in_segment(p: Seq<char>, name: Seq<char>) -> bool {
    exists|k: int|
        0 <= k < p.len() && p[k] == '/' && (forall|j: int| k < j < p.len() ==> p[j] != '/') && #[trigger] p.skip(
            k + 1,
        ) == name
}

/// An agent node carries `name` exactly: as its extra `name` or `title`, as
/// its path, or as the last segment of its path.
pub open spec fn carries_name(n: NodeM, name: Seq<char>) -> bool {
    ||| lookup(n.extra_map, "name"@) == Some(Some(name))
    ||| lookup(n.extra_map, "title"@) == Some(Some(name))
    ||| unwrap_text(n.path) == name
    ||| ends_in_segment(unwrap_text(n.path), name)
}

/// The text of an extra key, empty when absent or null.
pub open spec fn extra_text(n: NodeM, key: Seq<char>) -> Seq<char> {
    match lookup(n.extra_map, key) {
        Some(Some(v)) => v,
        _ => Seq::empty(),
    }
}

/// An agent node holds `name` somewhere in its extra `name`, its extra
/// `title` or its path.
pub open spec fn holds_name(n: NodeM, name: Seq<char>) -> bool {
    ||| has_sub(extra_text(n, "name"@), name)
    ||| has_sub(extra_text(n, "title"@), name)
    ||| has_sub(unwrap_text(n.path), name)
}

pub open spec fn is_agent_with(r: RowM, name: Seq<char>, exact: bool) -> bool {
    node_m(r) matches Some(n) && n.node_type == "Agent"@ && (if exact {
        carries_name(n, name)
    } else {
        holds_name(n, name)
    })
}

proof fn lemma_last_index(p: Seq<char>, c: char)
    ensures
        last_index(p, c) matches Some(k) ==> 0 <= k < p.len() && p[k] == c && (forall|j: int|
            k < j < p.len() ==> p[j] != c),
        last_index(p, c) is None ==> forall|j: int| 0 <= j < p.len() ==> p[j] != c,
    decreases p.len(),
{
    if p.len() > 0 {
        lemma_last_index(p.drop_last(), c);
        if p.last() != c {
            assert forall|j: int| 0 <= j < p.len() - 1 implies p[j] == p.drop_last()[j] by {}
        }
    }
}

proof fn lemma_exact_is_carried(n: NodeM, name: Seq<char>)
    ensures
        agent_exact_m(n, name) <==> carries_name(n, name),
{
    let p = unwrap_text(n.path);
    lemma_last_index(p, '/');
    match last_index(p, '/') {
        Some(k) => {
            if basename_m(p) == name {
                assert(p.skip(k + 1) == name);
                assert(ends_in_segment(p, name));
            }
            if ends_in_segment(p, name) {
                let k2 = choose|k2: int|
                    0 <= k2 < p.len() && p[k2] == '/' && (forall|j: int| k2 < j < p.len() ==> p[j] != '/')
                        && #[trigger] p.skip(k2 + 1) == name;
                assert(k2 == k);
            }
        },
        None => {
            if ends_in_segment(p, name) {
                let k2 = choose|k2: int|
                    0 <= k2 < p.len() && p[k2] == '/' && (forall|j: int| k2 < j < p.len() ==> p[j] != '/')
                        && #[trigger] p.skip(k2 + 1) == name;
                assert(p[k2] != '/');
            }
        },
    }
}

proof fn lemma_substring_is_held(n: NodeM, name: Seq<char>)
    ensures
        agent_substring_m(n, name) <==> holds_name(n, name),
{
    assert(unwrap_text(extra_val(n, "name"@)) == extra_text(n, "name"@));
    assert(unwrap_text(extra_val(n, "title"@)) == extra_text(n, "title"@));
}

/// `agent NAME`, when some Agent row of the slice carries `NAME` exactly
/// (extra `name` or `title`, path, or last path segment): every row it
/// returns is an Agent row of the slice that carries `NAME` exactly, and
/// every such row is returned; rows that merely hold `NAME` are not.
pub proof fn law_agent_prefers_exact_names(snap: SnapM, rows: Seq<RowM>, name: Seq<char>, i: int)
    requires
        0 <= i < rows.len(),
        is_agent_with(rows[i], name, true),
    ensures
        op_step(snap, rows, OpM::Agent(name)) matches Ok(out) && (forall|r: RowM| #[trigger] out.contains(r)
            <==> (rows.contains(r) && is_agent_with(r, name, true))),
{
    let agents = keep(rows, crate::hql::ops::agent_pred());
    let exact = keep(agents, crate::hql::ops::exact_pred(name));
    lemma_keep_keeps(rows, crate::hql::ops::agent_pred(), rows[i]);
    if let Some(n) = node_m(rows[i]) {
        lemma_exact_is_carried(n, name);
    }
    lemma_keep_keeps(agents, crate::hql::ops::exact_pred(name), rows[i]);
    assert(exact.len() > 0);
    assert forall|r: RowM| #[trigger] filter_agents_m(rows, name).contains(r) <==> (rows.contains(r)
        && is_agent_with(r, name, true)) by {
        if exact.contains(r) {
            let k = choose|k: int| 0 <= k < exact.len() && exact[k] == r;
            lemma_keep_within(agents, crate::hql::ops::exact_pred(name), k);
            let j = choose|j: int| 0 <= j < agents.len() && agents[j] == r;
            lemma_keep_within(rows, crate::hql::ops::agent_pred(), j);
            lemma_exact_is_carried(node_m(r)->0, name);
        }
        if rows.contains(r) && is_agent_with(r, name, true) {
            lemma_keep_keeps(rows, crate::hql::ops::agent_pred(), r);
            lemma_exact_is_carried(node_m(r)->0, name);
            lemma_keep_keeps(agents, crate::hql::ops::exact_pred(name), r);
        }
    }
}

/// `agent NAME`, when no Agent row of the slice carries `NAME` exactly:
/// exactly the Agent rows of the slice that hold `NAME` in their extra
/// `name`, extra `title` or path.
pub proof fn law_agent_falls_back_to_held_names(snap: SnapM, rows: Seq<RowM>, name: Seq<char>)
    requires
        forall|i: int| 0 <= i < rows.len() ==> !is_agent_with(#[trigger] rows[i], name, true),
    ensures
        op_step(snap, rows, OpM::Agent(name)) matches Ok(out) && (forall|r: RowM| #[trigger] out.contains(r)
            <==> (rows.contains(r) && is_agent_with(r, name, false))),
{
    let agents = keep(rows, crate::hql::ops::agent_pred());
    let exact = keep(agents, crate::hql::ops::exact_pred(name));
    if exact.len() > 0 {
        lemma_keep_within(agents, crate::hql::ops::exact_pred(name), 0);
        let j = choose|j: int| 0 <= j < agents.len() && agents[j] == exact[0];
        lemma_keep_within(rows, crate::hql::ops::agent_pred(), j);
        let i = choose|i: int| 0 <= i < rows.len() && rows[i] == exact[0];
        lemma_exact_is_carried(node_m(exact[0])->0, name);
        assert(is_agent_with(rows[i], name, true));
    }
    let held = keep(agents, crate::hql::ops::substring_pred(name));
    assert forall|r: RowM| #[trigger] filter_agents_m(rows, name).contains(r) <==> (rows.contains(r)
        && is_agent_with(r, name, false)) by {
        if held.contains(r) {
            let k = choose|k: int| 0 <= k < held.len() && held[k] == r;
            lemma_keep_within(agents, crate::hql::ops::substring_pred(name), k);
            let j = choose|j: int| 0 <= j < agents.len() && agents[j] == r;
            lemma_keep_within(rows, crate::hql::ops::agent_pred(), j);
            lemma_substring_is_held(node_m(r)->0, name);
        }
        if rows.contains(r) && is_agent_with(r, name, false) {
            lemma_keep_keeps(rows, crate::hql::ops::agent_pred(), r);
            lemma_substring_is_held(node_m(r)->0, name);
            lemma_keep_keeps(agents, crate::hql::ops::substring_pred(name), r);
        }
    }
}

// ---------------------------------------------------------------- state

/// An entry of a selection is sound: its state is one of the store's, of
/// its subject's vault when it has one, and called `name` when one is given.
pub open spec fn entry_sound(
    p: (Option<NodeM>, StateM),
    states: Seq<StateM>,
    name: Option<Seq<char>>,
) -> bool {
    &&& states.contains(p.1)
    &&& name matches Some(n) ==> p.1.name == n
    &&& p.0 matches Some(s) ==> p.1.vault_id == s.vault_id
}

proof fn lemma_picked_sound(
    states: Seq<StateM>,
    picked: Seq<StateM>,
    subject: Option<NodeM>,
    vid: Seq<char>,
    name: Option<Seq<char>>,
)
    requires
        forall|k: int|
            0 <= k < picked.len() ==> states.contains(#[trigger] picked[k]) && picked[k].vault_id == vid
                && (name matches Some(n) ==> picked[k].name == n),
        subject matches Some(s) ==> s.vault_id == vid,
    ensures
        forall|k: int|
            0 <= k < with_subject(subject, picked).len() ==> entry_sound(
                #[trigger] with_subject(subject, picked)[k],
                states,
                name,
            ),
{
}

proof fn lemma_in_vault_named(states: Seq<StateM>, vid: Seq<char>, name: Option<Seq<char>>)
    ensures
        ({
            let picked = keep(keep(states, in_vault_pred(vid)), wanted_pred(name));
            forall|k: int|
                0 <= k < picked.len() ==> states.contains(#[trigger] picked[k]) && picked[k].vault_id == vid
                    && (name matches Some(n) ==> picked[k].name == n)
        }),
{
    let inv = keep(states, in_vault_pred(vid));
    let picked = keep(inv, wanted_pred(name));
    assert forall|k: int| 0 <= k < picked.len() implies states.contains(#[trigger] picked[k])
        && picked[k].vault_id == vid && (name matches Some(n) ==> picked[k].name == n) by {
        lemma_keep_within(inv, wanted_pred(name), k);
        let j = choose|j: int| 0 <= j < inv.len() && inv[j] == picked[k];
        lemma_keep_within(states, in_vault_pred(vid), j);
    }
}

proof fn lemma_concat_sound(
    a: Seq<(Option<NodeM>, StateM)>,
    b: Seq<(Option<NodeM>, StateM)>,
    states: Seq<StateM>,
    name: Option<Seq<char>>,
)
    requires
        forall|k: int| 0 <= k < a.len() ==> entry_sound(#[trigger] a[k], states, name),
        forall|k: int| 0 <= k < b.len() ==> entry_sound(#[trigger] b[k], states, name),
    ensures
        forall|k: int| 0 <= k < (a + b).len() ==> entry_sound(#[trigger] (a + b)[k], states, name),
{
    assert forall|k: int| 0 <= k < (a + b).len() implies entry_sound(#[trigger] (a + b)[k], states, name) by {
        if k < a.len() {
            assert((a + b)[k] == a[k]);
        } else {
            assert((a + b)[k] == b[k - a.len()]);
        }
    }
}

proof fn lemma_vaults_sound(vs: Seq<NodeM>, states: Seq<StateM>, name: Option<Seq<char>>)
    ensures
        forall|k: int|
            0 <= k < sel_vaults(vs, states, name).len() ==> entry_sound(
                #[trigger] sel_vaults(vs, states, name)[k],
                states,
                name,
            ),
    decreases vs.len(),
{
    if vs.len() > 0 {
        let v = vs.last();
        lemma_vaults_sound(vs.drop_last(), states, name);
        lemma_in_vault_named(states, v.vault_id, name);
        let picked = keep(keep(states, in_vault_pred(v.vault_id)), wanted_pred(name));
        lemma_picked_sound(states, picked, Some(v), v.vault_id, name);
        lemma_concat_sound(
            sel_vaults(vs.drop_last(), states, name),
            with_subject(Some(v), picked),
            states,
            name,
        );
    }
}

proof fn lemma_loose_sound(vids: Seq<Seq<char>>, states: Seq<StateM>, name: Option<Seq<char>>)
    ensures
        forall|k: int|
            0 <= k < sel_loose(vids, states, name).len() ==> entry_sound(
                #[trigger] sel_loose(vids, states, name)[k],
                states,
                name,
            ),
    decreases vids.len(),
{
    if vids.len() > 0 {
        let vid = vids.last();
        lemma_loose_sound(vids.drop_last(), states, name);
        lemma_in_vault_named(states, vid, name);
        let picked = keep(keep(states, in_vault_pred(vid)), wanted_pred(name));
        lemma_picked_sound(states, picked, None, vid, name);
        lemma_concat_sound(sel_loose(vids.drop_last(), states, name), with_subject(None, picked), states, name);
    }
}

proof fn lemma_agents_sound(ags: Seq<NodeM>, states: Seq<StateM>, name: Option<Seq<char>>)
    ensures
        forall|k: int|
            0 <= k < sel_agents(ags, states, name).len() ==> entry_sound(
                #[trigger] sel_agents(ags, states, name)[k],
                states,
                name,
            ),
    decreases ags.len(),
{
    if ags.len() > 0 {
        let a = ags.last();
        lemma_agents_sound(ags.drop_last(), states, name);
        let candidates = keep(states, in_vault_pred(a.vault_id));
        let picked = match name {
            Some(n) => keep(candidates, wanted_pred(name)),
            None => named_like_m(a, candidates),
        };
        assert forall|k: int| 0 <= k < picked.len() implies states.contains(#[trigger] picked[k])
            && picked[k].vault_id == a.vault_id && (name matches Some(n) ==> picked[k].name == n) by {
            match name {
                Some(n) => {
                    lemma_in_vault_named(states, a.vault_id, name);
                },
                None => {
                    let keys = crate::hql::states::agent_keys(a);
                    let exact = keep(candidates, crate::hql::states::named_exact_pred(keys));
                    if exact.len() > 0 {
                        lemma_keep_within(candidates, crate::hql::states::named_exact_pred(keys), k);
                    } else {
                        lemma_keep_within(candidates, crate::hql::states::named_sub_pred(keys), k);
                    }
                    let j = choose|j: int| 0 <= j < candidates.len() && candidates[j] == picked[k];
                    lemma_keep_within(states, in_vault_pred(a.vault_id), j);
                },
            }
        }
        lemma_picked_sound(states, picked, Some(a), a.vault_id, name);
        lemma_concat_sound(sel_agents(ags.drop_last(), states, name), with_subject(Some(a), picked), states, name);
    }
}

/// `state` and `state NAME`: every row they give is a State row whose
/// desired state is one of the store's, belongs to the vault of the node
/// that selected it, and, for `state NAME`, is called `NAME`, whatever the
/// slice holds.
pub proof fn law_state_selects_only_named_states(snap: SnapM, rows: Seq<RowM>, name: Option<Seq<char>>)
    ensures
        op_step(snap, rows, OpM::State(name)) matches Ok(out) && (forall|k: int|
            0 <= k < out.len() ==> (#[trigger] out[k] matches RowM::State { subject, ds } && entry_sound(
                (subject, ds),
                snap.states,
                name,
            ))),
{
    let sel = select_states_m(rows, name, snap.states);
    lemma_vaults_sound(nodes_of_type(rows, "Vault"@), snap.states, name);
    lemma_agents_sound(nodes_of_type(rows, "Agent"@), snap.states, name);
    lemma_loose_sound(crate::hql::states::distinct_vaults(rows), snap.states, name);
    let out = state_rows_m(sel);
    assert forall|k: int| 0 <= k < out.len() implies (#[trigger] out[k] matches RowM::State { subject, ds }
        && entry_sound((subject, ds), snap.states, name)) by {
        assert(entry_sound(sel[k], snap.states, name));
    }
}

proof fn lemma_typed_nodes_hold(rows: Seq<RowM>, t: Seq<char>, i: int)
    requires
        0 <= i < rows.len(),
        node_m(rows[i]) matches Some(v) && v.node_type == t,
    ensures
        nodes_of_type(rows, t).contains(node_m(rows[i])->0),
    decreases rows.len(),
{
    let v = node_m(rows[i])->0;
    if i == rows.len() - 1 {
        assert(nodes_of_type(rows, t).last() == v);
    } else {
        assert(rows.drop_last()[i] == rows[i]);
        lemma_typed_nodes_hold(rows.drop_last(), t, i);
        let prev = nodes_of_type(rows.drop_last(), t);
        let j = choose|j: int| 0 <= j < prev.len() && prev[j] == v;
        assert(nodes_of_type(rows, t)[j] == v);
    }
}

proof fn lemma_no_typed_nodes(rows: Seq<RowM>, t: Seq<char>)
    requires
        forall|i: int| 0 <= i < rows.len() ==> !(#[trigger] node_m(rows[i]) matches Some(v) && v.node_type == t),
    ensures
        nodes_of_type(rows, t).len() == 0,
    decreases rows.len(),
{
    if rows.len() > 0 {
        assert forall|i: int| 0 <= i < rows.drop_last().len() implies !(#[trigger] node_m(rows.drop_last()[i]) matches Some(v)
            && v.node_type == t) by {
            assert(rows.drop_last()[i] == rows[i]);
        }
        lemma_no_typed_nodes(rows.drop_last(), t);
        assert(node_m(rows[rows.len() - 1]) == node_m(rows.last()));
    }
}

proof fn lemma_vaults_touched(rows: Seq<RowM>, i: int)
    requires
        0 <= i < rows.len(),
        vault_m(rows[i]) is Some,
    ensures
        crate::hql::states::distinct_vaults(rows).contains(vault_m(rows[i])->0),
    decreases rows.len(),
{
    let vid = vault_m(rows[i])->0;
    let prev = crate::hql::states::distinct_vaults(rows.drop_last());
    if i == rows.len() - 1 {
        if !prev.contains(vid) {
            assert(crate::hql::states::distinct_vaults(rows).last() == vid);
        }
    } else {
        assert(rows.drop_last()[i] == rows[i]);
        lemma_vaults_touched(rows.drop_last(), i);
        let j = choose|j: int| 0 <= j < prev.len() && prev[j] == vid;
        assert(crate::hql::states::distinct_vaults(rows)[j] == vid);
    }
}

proof fn lemma_loose_complete(vids: Seq<Seq<char>>, states: Seq<StateM>, name: Option<Seq<char>>, vid: Seq<char>, ds: StateM)
    requires
        vids.contains(vid),
        states.contains(ds),
        ds.vault_id == vid,
        name matches Some(n) ==> ds.name == n,
    ensures
        sel_loose(vids, states, name).contains((None::<NodeM>, ds)),
    decreases vids.len(),
{
    let prev = sel_loose(vids.drop_last(), states, name);
    let picked = keep(keep(states, in_vault_pred(vids.last())), wanted_pred(name));
    if vids.last() == vid {
        lemma_keep_keeps(states, in_vault_pred(vid), ds);
        lemma_keep_keeps(keep(states, in_vault_pred(vid)), wanted_pred(name), ds);
        let j = choose|j: int| 0 <= j < picked.len() && picked[j] == ds;
        assert((prev + with_subject(None, picked))[prev.len() + j] == (None::<NodeM>, ds));
    } else {
        let i = choose|i: int| 0 <= i < vids.len() && vids[i] == vid;
        assert(vids.drop_last()[i] == vid);
        lemma_loose_complete(vids.drop_last(), states, name, vid, ds);
        let j = choose|j: int| 0 <= j < prev.len() && prev[j] == (None::<NodeM>, ds);
        assert((prev + with_subject(None, picked))[j] == (None::<NodeM>, ds));
    }
}

proof fn lemma_agents_complete(ags: Seq<NodeM>, states: Seq<StateM>, n: Seq<char>, a: NodeM, ds: StateM)
    requires
        ags.contains(a),
        states.contains(ds),
        ds.vault_id == a.vault_id,
        ds.name == n,
    ensures
        sel_agents(ags, states, Some(n)).contains((Some(a), ds)),
    decreases ags.len(),
{
    let name = Some(n);
    let prev = sel_agents(ags.drop_last(), states, name);
    let l = ags.last();
    let picked = keep(keep(states, in_vault_pred(l.vault_id)), wanted_pred(name));
    if l == a {
        lemma_keep_keeps(states, in_vault_pred(a.vault_id), ds);
        lemma_keep_keeps(keep(states, in_vault_pred(a.vault_id)), wanted_pred(name), ds);
        let j = choose|j: int| 0 <= j < picked.len() && picked[j] == ds;
        assert((prev + with_subject(Some(a), picked))[prev.len() + j] == (Some(a), ds));
    } else {
        let i = choose|i: int| 0 <= i < ags.len() && ags[i] == a;
        assert(ags.drop_last()[i] == a);
        lemma_agents_complete(ags.drop_last(), states, n, a, ds);
        let j = choose|j: int| 0 <= j < prev.len() && prev[j] == (Some(a), ds);
        assert((prev + with_subject(Some(l), picked))[j] == (Some(a), ds));
    }
}

/// `state NAME` over a slice of Agent nodes and no Vault node: every desired
/// state called `NAME` in an agent's vault comes out, with that agent as its
/// subject.
pub proof fn law_state_name_under_agents(snap: SnapM, rows: Seq<RowM>, n: Seq<char>, i: int, ds: StateM)
    requires
        forall|j: int| 0 <= j < rows.len() ==> !(#[trigger] node_m(rows[j]) matches Some(v) && v.node_type == "Vault"@),
        0 <= i < rows.len(),
        node_m(rows[i]) matches Some(a) && a.node_type == "Agent"@,
        snap.states.contains(ds),
        ds.vault_id == node_m(rows[i])->0.vault_id,
        ds.name == n,
    ensures
        op_step(snap, rows, OpM::State(Some(n))) matches Ok(out) && out.contains(
            RowM::State { subject: node_m(rows[i]), ds },
        ),
{
    let a = node_m(rows[i])->0;
    lemma_no_typed_nodes(rows, "Vault"@);
    lemma_typed_nodes_hold(rows, "Agent"@, i);
    lemma_agents_complete(nodes_of_type(rows, "Agent"@), snap.states, n, a, ds);
    let sel = select_states_m(rows, Some(n), snap.states);
    let j = choose|j: int| 0 <= j < sel.len() && sel[j] == (Some(a), ds);
    assert(state_rows_m(sel)[j] == RowM::State { subject: Some(a), ds });
}

/// `state` (or `state NAME`) over a slice with no Vault or Agent node: every
/// desired state (called `NAME`, when given) of a vault some row belongs to
/// comes out, with no subject.
pub proof fn law_state_over_other_rows(snap: SnapM, rows: Seq<RowM>, name: Option<Seq<char>>, i: int, ds: StateM)
    requires
        forall|j: int| 0 <= j < rows.len() ==> !(#[trigger] node_m(rows[j]) matches Some(v) && v.node_type == "Vault"@),
        forall|j: int| 0 <= j < rows.len() ==> !(#[trigger] node_m(rows[j]) matches Some(v) && v.node_type == "Agent"@),
        0 <= i < rows.len(),
        vault_m(rows[i]) == Some(ds.vault_id),
        snap.states.contains(ds),
        name matches Some(n) ==> ds.name == n,
    ensures
        op_step(snap, rows, OpM::State(name)) matches Ok(out) && out.contains(
            RowM::State { subject: None, ds },
        ),
{
    lemma_no_typed_nodes(rows, "Vault"@);
    lemma_no_typed_nodes(rows, "Agent"@);
    lemma_vaults_touched(rows, i);
    lemma_loose_complete(crate::hql::states::distinct_vaults(rows), snap.states, name, ds.vault_id, ds);
    let sel = select_states_m(rows, name, snap.states);
    let j = choose|j: int| 0 <= j < sel.len() && sel[j] == (None::<NodeM>, ds);
    assert(state_rows_m(sel)[j] == RowM::State { subject: None, ds });
}

proof fn lemma_vaults_complete(vs: Seq<NodeM>, states: Seq<StateM>, name: Option<Seq<char>>, v: NodeM, ds: StateM)
    requires
        vs.contains(v),
        states.contains(ds),
        ds.vault_id == v.vault_id,
        name matches Some(n) ==> ds.name == n,
    ensures
        sel_vaults(vs, states, name).contains((Some(v), ds)),
    decreases vs.len(),
{
    let prev = sel_vaults(vs.drop_last(), states, name);
    let picked = keep(keep(states, in_vault_pred(v.vault_id)), wanted_pred(name));
    if vs.last() == v {
        lemma_keep_keeps(states, in_vault_pred(v.vault_id), ds);
        lemma_keep_keeps(keep(states, in_vault_pred(v.vault_id)), wanted_pred(name), ds);
        let j = choose|j: int| 0 <= j < picked.len() && picked[j] == ds;
        assert((prev + with_subject(Some(v), picked))[prev.len() + j] == (Some(v), ds));
    } else {
        let i = choose|i: int| 0 <= i < vs.len() && vs[i] == v;
        assert(vs.drop_last()[i] == v);
        lemma_vaults_complete(vs.drop_last(), states, name, v, ds);
        let j = choose|j: int| 0 <= j < prev.len() && prev[j] == (Some(v), ds);
        let w = vs.last();
        let pw = keep(keep(states, in_vault_pred(w.vault_id)), wanted_pred(name));
        assert((prev + with_subject(Some(w), pw))[j] == (Some(v), ds));
    }
}

/// `state` (or `state NAME`) over a slice holding a Vault node: every desired
/// state of that vault (called `NAME`, when given) comes out, with the vault
/// node as its subject.
pub proof fn law_state_lists_the_vaults_states(snap: SnapM, rows: Seq<RowM>, name: Option<Seq<char>>, i: int, ds: StateM)
    requires
        0 <= i < rows.len(),
        node_m(rows[i]) matches Some(v) && v.node_type == "Vault"@,
        snap.states.contains(ds),
        ds.vault_id == node_m(rows[i])->0.vault_id,
        name matches Some(n) ==> ds.name == n,
    ensures
        op_step(snap, rows, OpM::State(name)) matches Ok(out) && out.contains(
            RowM::State { subject: node_m(rows[i]), ds },
        ),
{
    let v = node_m(rows[i])->0;
    let vs = nodes_of_type(rows, "Vault"@);
    lemma_typed_nodes_hold(rows, "Vault"@, i);
    lemma_vaults_complete(vs, snap.states, name, v, ds);
    let sel = select_states_m(rows, name, snap.states);
    let j = choose|j: int| 0 <= j < sel.len() && sel[j] == (Some(v), ds);
    assert(state_rows_m(sel)[j] == RowM::State { subject: Some(v), ds });
}

} // verus!
