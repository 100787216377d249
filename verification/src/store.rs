//! Who may do what in the store: sessions by token, vault isolation, the checks each
//! write passes, and what a reconcile changes and appends.
//!
//! The SQLite file itself is read and written around this module; every
//! decision about who may do what, and what a reconcile records, is here.

use vstd::prelude::*;

use crate::error::{Error, Result};
use crate::hql::yaml::Yaml;
use crate::ids::{issue_token, token_m, version_ref, version_ref_m};
use crate::reconcile::{found_view, status_from_docs, status_is};
use crate::text::{chars_of, is_lit, string_of, strings_view};
use crate::types::{
    causal_type, holds_secret, is_causal_type, reject_secrets, DocsEodSpec, NodeType, Status,
    CAUSAL_CAUSED_BY, CAUSAL_RECONCILES, CAUSAL_SUPERSEDES, EDGE_GRANT,
};

verus! {

/// Who a token speaks for: an agent, bound to its home vault.
#[derive(Clone, Copy, Debug, PartialEq, Eq, Structural)]
pub struct Session {
    pub agent_id: u128,
    pub vault_id: u128,
}

/// The map that a list of `(token, session)` entries denotes.
pub open spec fn session_map(s: Seq<(Seq<char>, Session)>) -> Map<Seq<char>, Session>
    decreases s.len(),
{
    if s.len() == 0 {
        Map::empty()
    } else {
        session_map(s.drop_last()).insert(s.last().0, s.last().1)
    }
}

/// No token occurs twice.
pub open spec fn distinct_tokens(s: Seq<(Seq<char>, Session)>) -> bool {
    forall|i: int, j: int| 0 <= i < s.len() && 0 <= j < s.len() && i != j ==> s[i].0 != s[j].0
}

pub open spec fn entries_view(v: Seq<(String, Session)>) -> Seq<(Seq<char>, Session)> {
    v.map_values(|e: (String, Session)| (e.0@, e.1))
}

proof fn lemma_map_absent(s: Seq<(Seq<char>, Session)>, t: Seq<char>)
    requires
        forall|i: int| 0 <= i < s.len() ==> s[i].0 != t,
    ensures
        !session_map(s).contains_key(t),
    decreases s.len(),
{
    if s.len() > 0 {
        lemma_map_absent(s.drop_last(), t);
    }
}

proof fn lemma_map_lookup(s: Seq<(Seq<char>, Session)>, i: int)
    requires
        distinct_tokens(s),
        0 <= i < s.len(),
    ensures
        session_map(s).contains_key(s[i].0),
        session_map(s)[s[i].0] == s[i].1,
    decreases s.len(),
{
    if i < s.len() - 1 {
        lemma_map_lookup(s.drop_last(), i);
    }
}

proof fn lemma_map_remove(s: Seq<(Seq<char>, Session)>, i: int)
    requires
        distinct_tokens(s),
        0 <= i < s.len(),
    ensures
        session_map(s.remove(i)) =~= session_map(s).remove(s[i].0),
    decreases s.len(),
{
    if i == s.len() - 1 {
        assert(s.remove(i) =~= s.drop_last());
        lemma_map_absent(s.drop_last(), s[i].0);
    } else {
        lemma_map_remove(s.drop_last(), i);
        assert(s.remove(i).drop_last() =~= s.drop_last().remove(i));
        assert(s.remove(i).last() == s.last());
    }
}

/// The live sessions, by token. Tokens live only in this process.
#[derive(Debug)]
pub struct Sessions {
    entries: Vec<(String, Session)>,
}

impl View for Sessions {
    type V = Map<Seq<char>, Session>;

    closed spec fn view(&self) -> Map<Seq<char>, Session> {
        session_map(entries_view(self.entries@))
    }
}

impl Sessions {
    /// Every token occurs once.
    pub closed spec fn wf(&self) -> bool {
        distinct_tokens(entries_view(self.entries@))
    }

    pub fn new() -> (r: Sessions)
        ensures
            r.wf(),
            r@ == Map::<Seq<char>, Session>::empty(),
    {
        let r = Sessions { entries: Vec::new() };
        assert(entries_view(r.entries@) =~= Seq::<(Seq<char>, Session)>::empty());
        r
    }

    fn position(&self, token: &[char]) -> (r: Option<usize>)
        requires
            self.wf(),
        ensures
            match r {
                Some(i) => i < self.entries@.len() && self.entries@[i as int].0@ == token@,
                None => forall|i: int| 0 <= i < self.entries@.len() ==> self.entries@[i].0@ != token@,
            },
    {
        let mut i: usize = 0;
        while i < self.entries.len()
            invariant
                i <= self.entries@.len(),
                forall|j: int| 0 <= j < i ==> self.entries@[j].0@ != token@,
            decreases self.entries.len() - i,
        {
            let c = chars_of(self.entries[i].0.as_str());
            if crate::text::chars_eq(&c, token) {
                return Some(i);
            }
            i = i + 1;
        }
        None
    }

    /// The session a token speaks for; an unknown token is `Unauthorized`.
    pub fn auth(&self, token: &str) -> (r: Result<Session>)
        requires
            self.wf(),
        ensures
            self@.contains_key(token@) ==> (r matches Ok(s) && s == self@[token@]),
            !self@.contains_key(token@) ==> r matches Err(Error::Unauthorized),
    {
        let c = chars_of(token);
        match self.position(&c) {
            Some(i) => {
                proof {
                    lemma_map_lookup(entries_view(self.entries@), i as int);
                }
                Ok(self.entries[i].1)
            },
            None => {
                proof {
                    lemma_map_absent(entries_view(self.entries@), token@);
                }
                Err(Error::Unauthorized)
            },
        }
    }

    /// Bind `token` to `session`, replacing what it was bound to.
    pub fn insert(&mut self, token: String, session: Session)
        requires
            old(self).wf(),
        ensures
            final(self).wf(),
            final(self)@ == old(self)@.insert(token@, session),
    {
        let c = chars_of(token.as_str());
        match self.position(&c) {
            Some(i) => {
                proof {
                    lemma_map_remove(entries_view(self.entries@), i as int);
                }
                let ghost before = entries_view(self.entries@);
                self.entries.remove(i);
                assert(entries_view(self.entries@) =~= before.remove(i as int));
            },
            None => {
                proof {
                    lemma_map_absent(entries_view(self.entries@), token@);
                }
            },
        }
        let ghost mid = entries_view(self.entries@);
        assert(forall|j: int| 0 <= j < mid.len() ==> mid[j].0 != token@);
        self.entries.push((token, session));
        assert(entries_view(self.entries@) =~= mid.push((token@, session)));
        assert(entries_view(self.entries@).drop_last() =~= mid);
    }

    /// Open a session: a fresh token for an agent in its home vault.
    pub fn open(&mut self, session: Session) -> (r: String)
        requires
            old(self).wf(),
        ensures
            final(self).wf(),
            final(self)@ == old(self)@.insert(r@, session),
            exists|u: u128| r@ == #[trigger] token_m(u),
    {
        let token = issue_token();
        let t = chars_of(token.as_str());
        let kept = string_of(&t);
        self.insert(kept, session);
        token
    }

    /// Replace a token with a fresh one for the same session; the old token
    /// no longer authorizes anything. An unknown token is `Unauthorized`.
    pub fn rotate_token(&mut self, token: &str) -> (r: Result<String>)
        requires
            old(self).wf(),
        ensures
            final(self).wf(),
            !old(self)@.contains_key(token@) ==> (r matches Err(Error::Unauthorized) && final(self)@
                == old(self)@),
            old(self)@.contains_key(token@) ==> (r matches Ok(next) && final(self)@ == old(
                self,
            )@.remove(token@).insert(next@, old(self)@[token@]) && exists|u: u128|
                next@ == #[trigger] token_m(u)),
    {
        let c = chars_of(token);
        match self.position(&c) {
            None => {
                proof {
                    lemma_map_absent(entries_view(self.entries@), token@);
                }
                Err(Error::Unauthorized)
            },
            Some(i) => {
                proof {
                    lemma_map_lookup(entries_view(self.entries@), i as int);
                    lemma_map_remove(entries_view(self.entries@), i as int);
                }
                let session = self.entries[i].1;
                let ghost before = entries_view(self.entries@);
                self.entries.remove(i);
                assert(entries_view(self.entries@) =~= before.remove(i as int));
                let next = issue_token();
                let t = chars_of(next.as_str());
                let kept = string_of(&t);
                self.insert(kept, session);
                Ok(next)
            },
        }
    }
}

/// After a rotation, the old token is refused and the new one speaks for
/// the same session, unless the two tokens coincide.
pub proof fn lemma_rotation_retires_token(
    before: Map<Seq<char>, Session>,
    after: Map<Seq<char>, Session>,
    old_token: Seq<char>,
    new_token: Seq<char>,
)
    requires
        before.contains_key(old_token),
        after == before.remove(old_token).insert(new_token, before[old_token]),
        old_token != new_token,
    ensures
        !after.contains_key(old_token),
        after.contains_key(new_token),
        after[new_token] == before[old_token],
        forall|t: Seq<char>|
            t != old_token && t != new_token ==> (after.contains_key(t) == before.contains_key(t)
                && (before.contains_key(t) ==> after[t] == before[t])),
{
}

/// A session may touch a vault that is its home vault, or one it was
/// granted.
pub open spec fn may_access(session: Session, vault_id: u128, granted: bool) -> bool {
    session.vault_id == vault_id || granted
}

/// Whether reaching `vault_id` takes a grant: it is not the session's home.
pub fn needs_grant(session: &Session, vault_id: u128) -> (r: bool)
    ensures
        r == (session.vault_id != vault_id),
{
    session.vault_id != vault_id
}

/// Refuse a session access to another vault unless it holds a grant for
/// it; `granted` is whether such a grant edge exists.
pub fn ensure_access(session: &Session, vault_id: u128, granted: bool) -> (r: Result<()>)
    ensures
        may_access(*session, vault_id, granted) ==> r is Ok,
        !may_access(*session, vault_id, granted) ==> crate::error::is_denied_for(r, vault_id),
{
    if session.vault_id == vault_id || granted {
        Ok(())
    } else {
        Err(Error::VaultDenied { vault_id })
    }
}

/// Refuse a bootstrap that leaves a name or the H.TEC path empty.
pub fn check_bootstrap(vault_name: &str, agent_name: &str, htec_path: &str) -> (r: Result<()>)
    ensures
        vault_name@.len() == 0 || agent_name@.len() == 0 || htec_path@.len() == 0
            ==> crate::error::is_invalid_with(r, "vault name, agent name, and htec path are required"@),
        vault_name@.len() > 0 && agent_name@.len() > 0 && htec_path@.len() > 0 ==> r is Ok,
{
    let v = chars_of(vault_name);
    let a = chars_of(agent_name);
    let h = chars_of(htec_path);
    if v.len() == 0 || a.len() == 0 || h.len() == 0 {
        let m = chars_of("vault name, agent name, and htec path are required");
        Err(Error::Invalid(string_of(&m)))
    } else {
        Ok(())
    }
}

/// Why a node that the session may touch is refused, in the order the
/// checks run.
pub open spec fn node_refusal(
    session: Session,
    node_vault: u128,
    node_type: NodeType,
    importance_ok: bool,
    extra: Yaml,
    has_htec_path: bool,
) -> Option<Seq<char>> {
    if node_vault != session.vault_id && node_type == NodeType::Agent {
        Some("agents can only be created in their home vault"@)
    } else if !importance_ok {
        Some("importance must be in 0..=1"@)
    } else if holds_secret(extra) {
        Some("secrets must not be stored in YAML/frontmatter"@)
    } else if node_type == NodeType::Agent && !has_htec_path {
        Some("agent nodes require htec_path"@)
    } else {
        None
    }
}

/// The checks a node passes before it is written: vault access, agents only
/// in their home vault, an importance in `0..=1` (`importance_ok`), no
/// secrets in its extra document, and an H.TEC path for an agent.
pub fn check_node(
    session: &Session,
    node_vault: u128,
    granted: bool,
    node_type: NodeType,
    importance_ok: bool,
    extra: &Yaml,
    has_htec_path: bool,
) -> (r: Result<()>)
    ensures
        !may_access(*session, node_vault, granted) ==> crate::error::is_denied_for(r, node_vault),
        may_access(*session, node_vault, granted) ==> match node_refusal(
            *session,
            node_vault,
            node_type,
            importance_ok,
            *extra,
            has_htec_path,
        ) {
            Some(m) => crate::error::is_invalid_with(r, m),
            None => r is Ok,
        },
{
    match ensure_access(session, node_vault, granted) {
        Ok(()) => {},
        Err(e) => {
            return Err(e);
        },
    }
    let is_agent = match node_type {
        NodeType::Agent => true,
        _ => false,
    };
    if node_vault != session.vault_id && is_agent {
        let m = chars_of("agents can only be created in their home vault");
        return Err(Error::Invalid(string_of(&m)));
    }
    if !importance_ok {
        let m = chars_of("importance must be in 0..=1");
        return Err(Error::Invalid(string_of(&m)));
    }
    match reject_secrets(extra) {
        Ok(()) => {},
        Err(e) => {
            return Err(e);
        },
    }
    if is_agent && !has_htec_path {
        let m = chars_of("agent nodes require htec_path");
        return Err(Error::Invalid(string_of(&m)));
    }
    Ok(())
}

/// Why an edge that the session may touch is refused.
pub open spec fn edge_refusal(edge_type: Seq<char>) -> Option<Seq<char>> {
    if causal_type(edge_type) {
        Some("causal edges are a projection of the event row; append an event instead"@)
    } else if edge_type == EDGE_GRANT@ {
        Some("grants must be written through grant_access"@)
    } else {
        None
    }
}

/// The checks an edge passes before it is written: vault access, no causal
/// edge (those are projections of event rows) and no grant (those go
/// through `check_grant`).
pub fn check_edge(session: &Session, edge_vault: u128, granted: bool, edge_type: &str) -> (r: Result<()>)
    ensures
        !may_access(*session, edge_vault, granted) ==> crate::error::is_denied_for(r, edge_vault),
        may_access(*session, edge_vault, granted) ==> match edge_refusal(edge_type@) {
            Some(m) => crate::error::is_invalid_with(r, m),
            None => r is Ok,
        },
{
    match ensure_access(session, edge_vault, granted) {
        Ok(()) => {},
        Err(e) => {
            return Err(e);
        },
    }
    if is_causal_type(edge_type) {
        let m = chars_of("causal edges are a projection of the event row; append an event instead");
        return Err(Error::Invalid(string_of(&m)));
    }
    let c = chars_of(edge_type);
    if is_lit(&c, EDGE_GRANT) {
        let m = chars_of("grants must be written through grant_access");
        return Err(Error::Invalid(string_of(&m)));
    }
    Ok(())
}

/// Only the owner of a vault grants access to it.
pub fn check_grant(session: &Session, vault_id: u128) -> (r: Result<()>)
    ensures
        session.vault_id == vault_id ==> r is Ok,
        session.vault_id != vault_id ==> crate::error::is_denied_for(r, vault_id),
{
    if session.vault_id != vault_id {
        Err(Error::VaultDenied { vault_id })
    } else {
        Ok(())
    }
}

/// The target of a new edge: an empty raw string counts as none, and an edge
/// needs a destination id, a raw string, or both.
pub fn edge_target(to_id: Option<u128>, to_raw: Option<String>) -> (r: Result<(Option<u128>, Option<String>)>)
    ensures
        ({
            let raw = match to_raw {
                Some(s) => if s@.len() > 0 {
                    Some(s@)
                } else {
                    None
                },
                None => None,
            };
            if to_id is None && raw is None {
                crate::error::is_invalid_with(
                    r,
                    "edge target needs a dest UUID, a raw string, or both"@,
                )
            } else {
                r matches Ok(t) && t.0 == to_id && crate::hql::row::opt_view(t.1) == raw
            }
        }),
{
    let raw = match to_raw {
        Some(s) => {
            let c = chars_of(s.as_str());
            if c.len() > 0 {
                Some(s)
            } else {
                None
            }
        },
        None => None,
    };
    if to_id.is_none() && raw.is_none() {
        let m = chars_of("edge target needs a dest UUID, a raw string, or both");
        return Err(Error::Invalid(string_of(&m)));
    }
    Ok((to_id, raw))
}

/// An event row as the reconcile loop appends it. Its data is the status's
/// observed document.
#[derive(Debug)]
pub struct EventRecord {
    pub vault_id: u128,
    pub ts: i64,
    pub actor: u128,
    pub event_type: String,
    pub caused_by: Vec<u128>,
    pub reconciles: Option<u128>,
    pub supersedes: Option<String>,
}

/// What a reconcile changes in a desired state, and the event it appends.
#[derive(Debug)]
pub struct Reconciled {
    pub state_version: u64,
    pub last_reconciled: i64,
    pub reconciled_by: u128,
    pub status: Status,
    pub event: EventRecord,
}

/// The ids of found documents, in order.
pub open spec fn found_ids(found: Seq<(u128, Seq<char>)>) -> Seq<u128> {
    found.map_values(|p: (u128, Seq<char>)| p.0)
}

/// What reconciling the desired state `state_id` of `state_vault` at
/// `state_version` gives: the next version, who reconciled it and when, the
/// status drawn from the documents found for the required briefs, and a
/// `Reconciled` event of the session's agent, caused by those documents,
/// that reconciles the state and supersedes `id@version`.
pub open spec fn reconcile_outcome(
    state_id: u128,
    state_vault: u128,
    state_version: u64,
    session: Session,
    required: Seq<Seq<char>>,
    found: Seq<(u128, Seq<char>)>,
    reconciled_at: i64,
    event_ts: i64,
    r: Reconciled,
) -> bool {
    &&& r.state_version == state_version + 1
    &&& r.last_reconciled == reconciled_at
    &&& r.reconciled_by == session.agent_id
    &&& status_is(r.status, required, found)
    &&& r.event.vault_id == state_vault
    &&& r.event.ts == event_ts
    &&& r.event.actor == session.agent_id
    &&& r.event.event_type@ == "Reconciled"@
    &&& r.event.caused_by@ == found_ids(found)
    &&& r.event.reconciles == Some(state_id)
    &&& r.event.supersedes matches Some(p) && p@ == version_ref_m(state_id, state_version)
}

/// Reconcile a desired state: refresh its status from the documents found
/// for its spec, bump its version, record who reconciled it and when, and
/// append a `Reconciled` event caused by those documents that supersedes
/// the previous version.
pub fn reconcile_step(
    state_id: u128,
    state_vault: u128,
    state_version: u64,
    session: &Session,
    spec: &DocsEodSpec,
    found: &[(u128, String)],
    reconciled_at: i64,
    event_ts: i64,
) -> (r: Reconciled)
    requires
        state_version < u64::MAX,
    ensures
        reconcile_outcome(
            state_id,
            state_vault,
            state_version,
            *session,
            strings_view(spec.required_briefs@),
            found_view(found@),
            reconciled_at,
            event_ts,
            r,
        ),
{
    let previous = version_ref(state_id, state_version);
    let status = status_from_docs(spec, found);
    let mut ids: Vec<u128> = Vec::new();
    let ghost fv = found_view(found@);
    let mut i: usize = 0;
    while i < found.len()
        invariant
            i <= found@.len(),
            fv == found_view(found@),
            ids@ == found_ids(fv.take(i as int)),
        decreases found.len() - i,
    {
        ids.push(found[i].0);
        assert(fv.take(i + 1) =~= fv.take(i as int).push(fv[i as int]));
        assert(ids@ =~= found_ids(fv.take(i + 1)));
        i = i + 1;
    }
    assert(fv.take(fv.len() as int) =~= fv);
    let kind = chars_of("Reconciled");
    let event = EventRecord {
        vault_id: state_vault,
        ts: event_ts,
        actor: session.agent_id,
        event_type: string_of(&kind),
        caused_by: ids,
        reconciles: Some(state_id),
        supersedes: Some(previous),
    };
    Reconciled {
        state_version: state_version + 1,
        last_reconciled: reconciled_at,
        reconciled_by: session.agent_id,
        status,
        event,
    }
}

/// A graph edge that an event row projects.
#[derive(Debug)]
pub struct CausalEdge {
    pub from: u128,
    pub to_id: Option<u128>,
    pub to_raw: Option<String>,
    pub edge_type: &'static str,
}

/// The view of a causal edge: source, target id, raw target, type.
pub open spec fn causal_view(e: CausalEdge) -> (u128, Option<u128>, Option<Seq<char>>, Seq<char>) {
    (e.from, e.to_id, crate::hql::row::opt_view(e.to_raw), e.edge_type@)
}

/// The edges an event row projects onto the graph: one `caused_by` edge
/// from each cause to the reconciled state, a `reconciles` edge from the
/// actor, and a `supersedes` edge from the state to the version it
/// superseded.
pub open spec fn projection_m(
    caused_by: Seq<u128>,
    actor: u128,
    state: u128,
    supersedes: Option<Seq<char>>,
) -> Seq<(u128, Option<u128>, Option<Seq<char>>, Seq<char>)> {
    let causes = caused_by.map_values(
        |c: u128| (c, Some(state), None::<Seq<char>>, CAUSAL_CAUSED_BY@),
    );
    let with_actor = causes.push((actor, Some(state), None, CAUSAL_RECONCILES@));
    match supersedes {
        Some(p) => with_actor.push((state, None, Some(p), CAUSAL_SUPERSEDES@)),
        None => with_actor,
    }
}

/// The causal edges of an event row; an event that reconciles nothing is
/// refused.
pub fn project_causal_edges(event: &EventRecord) -> (r: Result<Vec<CausalEdge>>)
    ensures
        event.reconciles is None ==> crate::error::is_invalid_with(
            r,
            "reconcile event must set reconciles"@,
        ),
        event.reconciles matches Some(state) ==> r matches Ok(edges) && edges@.map_values(
            |e: CausalEdge| causal_view(e),
        ) == projection_m(
            event.caused_by@,
            event.actor,
            state,
            crate::hql::row::opt_view(event.supersedes),
        ),
{
    let state = match event.reconciles {
        Some(s) => s,
        None => {
            let m = chars_of("reconcile event must set reconciles");
            return Err(Error::Invalid(string_of(&m)));
        },
    };
    let ghost causes = event.caused_by@.map_values(
        |c: u128| (c, Some(state), None::<Seq<char>>, CAUSAL_CAUSED_BY@),
    );
    let mut edges: Vec<CausalEdge> = Vec::new();
    let mut i: usize = 0;
    while i < event.caused_by.len()
        invariant
            i <= event.caused_by@.len(),
            causes == event.caused_by@.map_values(
                |c: u128| (c, Some(state), None::<Seq<char>>, CAUSAL_CAUSED_BY@),
            ),
            edges@.map_values(|e: CausalEdge| causal_view(e)) == causes.take(i as int),
        decreases event.caused_by.len() - i,
    {
        let ghost before = edges@.map_values(|e: CausalEdge| causal_view(e));
        let edge = CausalEdge {
            from: event.caused_by[i],
            to_id: Some(state),
            to_raw: None,
            edge_type: CAUSAL_CAUSED_BY,
        };
        assert(causal_view(edge) == causes[i as int]);
        edges.push(edge);
        assert(edges@.map_values(|e: CausalEdge| causal_view(e)) =~= before.push(causes[i as int]));
        assert(causes.take(i + 1) =~= causes.take(i as int).push(causes[i as int]));
        i = i + 1;
    }
    assert(causes.take(causes.len() as int) =~= causes);
    let ghost with_causes = edges@.map_values(|e: CausalEdge| causal_view(e));
    edges.push(
        CausalEdge { from: event.actor, to_id: Some(state), to_raw: None, edge_type: CAUSAL_RECONCILES },
    );
    assert(edges@.map_values(|e: CausalEdge| causal_view(e)) =~= with_causes.push(
        (event.actor, Some(state), None, CAUSAL_RECONCILES@),
    ));
    match &event.supersedes {
        Some(p) => {
            let ghost with_actor = edges@.map_values(|e: CausalEdge| causal_view(e));
            let c = chars_of(p.as_str());
            edges.push(
                CausalEdge {
                    from: state,
                    to_id: None,
                    to_raw: Some(string_of(&c)),
                    edge_type: CAUSAL_SUPERSEDES,
                },
            );
            assert(edges@.map_values(|e: CausalEdge| causal_view(e)) =~= with_actor.push(
                (state, None, Some(p@), CAUSAL_SUPERSEDES@),
            ));
        },
        None => {},
    }
    Ok(edges)
}

} // verus!
