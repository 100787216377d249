//! HQL pipelines over in-memory snapshots holding the same rows as the
//! store fixtures: the demo vault, and the `prod` session vault.

use hedron_core::hql::cli::fields_of;
use hedron_core::hql::ops::Snapshot;
use hedron_core::hql::query::Query;
use hedron_core::hql::row::{DesiredStateView, EdgeView, HistoryEventView, NodeView, Row, Value};
use hedron_core::hql::run::run_pipeline;
use hedron_core::hql::states::latest_desired_states;
use hedron_core::hql::yaml::{parse_extra, Yaml};
use hedron_core::Error;

const VAULT_PIPE: &str = "11111111-1111-1111-1111-111111111111";
const FOUNDRY: &str = "22222222-2222-2222-2222-222222222222";
const LATTICE: &str = "33333333-3333-3333-3333-333333333333";
const RESOLVED: &str = "44444444-4444-4444-4444-444444444444";
const EDGE_D1: &str = "55555555-5555-5555-5555-555555555555";
const EDGE_D2: &str = "66666666-6666-6666-6666-666666666666";
const EDGE_R: &str = "77777777-7777-7777-7777-777777777777";

const PIPE_FOUNDRY: &str = r#"vault demo-vault | search "HedronDB" | filter extra.domain == "foundry" | select path, extra.name | limit 20"#;
const PIPE_DANGLING: &str = r#"vault demo-vault | search "lattice edges" | traverse --edge mentions --hops 1 | filter to_id == null | select path, to_raw"#;
const PIPE_RESOLVED: &str = r#"vault demo-vault | filter path ^= "inbox/" && path !^= "inbox/private/" | traverse --edge mentions --hops 1 | filter to_id != null | select from.path, to.path"#;

const VAULT_SESSION: &str = "aaaaaaaa-aaaa-aaaa-aaaa-aaaaaaaaaaaa";
const AGENT: &str = "bbbbbbbb-bbbb-bbbb-bbbb-bbbbbbbbbbbb";
const DOC: &str = "cccccccc-cccc-cccc-cccc-cccccccccccc";
const DS_V1: &str = "dddddddd-dddd-dddd-dddd-dddddddddddd";
const DS_V2: &str = "eeeeeeee-eeee-eeee-eeee-eeeeeeeeeeee";
const EVENT: &str = "ffffffff-ffff-ffff-ffff-ffffffffffff";
const EVENT2: &str = "99999999-9999-9999-9999-999999999999";

const PIPE_SESSION: &str =
    "vault prod | agent deploy | state | select path, extra.name, extra.title, state_version, status";
const STATUS_V1: &str = "conditions:\n- type: Pending\n";
const STATUS_V2: &str = "conditions:\n- type: Reconciled\n";
const SPEC: &str = "date: 2026-08-25\nrequired_briefs:\n- alpha\n";

fn ys(s: &str) -> Yaml {
    Yaml::Str(s.to_string())
}

fn mapping(pairs: &[(&str, &str)]) -> Yaml {
    Yaml::Mapping(pairs.iter().map(|(k, v)| (ys(k), ys(v))).collect())
}

fn node(id: &str, vault: &str, ty: &str, path: &str, extra: &str, doc: &[(&str, &str)]) -> NodeView {
    let parsed = mapping(doc);
    NodeView {
        id: id.to_string(),
        vault_id: vault.to_string(),
        node_type: ty.to_string(),
        path: Some(path.to_string()),
        extra: extra.to_string(),
        extra_map: parse_extra(Some(&parsed)),
    }
}

fn edge(id: &str, from: &str, to: Option<&str>, to_raw: &str) -> EdgeView {
    EdgeView {
        id: id.to_string(),
        from_id: from.to_string(),
        to_id: to.map(|s| s.to_string()),
        to_raw: Some(to_raw.to_string()),
        edge_type: "mentions".to_string(),
        properties: "{}".to_string(),
    }
}

fn tiny_db() -> Snapshot {
    Snapshot {
        nodes: vec![
            node(VAULT_PIPE, VAULT_PIPE, "Vault", "demo-vault", "name: demo-vault\n", &[("name", "demo-vault")]),
            node(
                FOUNDRY,
                VAULT_PIPE,
                "Document",
                "inbox/hedron-foundry.md",
                "name: HedronDB kernel notes\ndomain: foundry\n",
                &[("name", "HedronDB kernel notes"), ("domain", "foundry")],
            ),
            node(
                LATTICE,
                VAULT_PIPE,
                "Document",
                "notes/lattice-edges.md",
                "name: lattice edges walk\n",
                &[("name", "lattice edges walk")],
            ),
            node(
                RESOLVED,
                VAULT_PIPE,
                "Document",
                "inbox/resolved-mention.md",
                "name: resolved mention note\n",
                &[("name", "resolved mention note")],
            ),
        ],
        edges: vec![
            edge(EDGE_D1, LATTICE, None, "GhostLink"),
            edge(EDGE_D2, LATTICE, None, "OtherGhost"),
            edge(EDGE_R, RESOLVED, Some(FOUNDRY), "hedron-foundry"),
        ],
        desired_states: vec![],
        events: vec![],
    }
}

fn state(id: &str, name: &str, version: i64, by: Option<&str>, importance: &str, status: &str) -> DesiredStateView {
    DesiredStateView {
        id: id.to_string(),
        vault_id: VAULT_SESSION.to_string(),
        name: name.to_string(),
        state_version: version,
        reconciled_by: by.map(|s| s.to_string()),
        importance: importance.to_string(),
        spec: SPEC.to_string(),
        status: status.to_string(),
    }
}

fn event(id: &str, ts: i64, supersedes: String) -> HistoryEventView {
    HistoryEventView {
        id: id.to_string(),
        vault_id: VAULT_SESSION.to_string(),
        ts,
        actor: AGENT.to_string(),
        event_type: "Reconciled".to_string(),
        caused_by: None,
        reconciles: Some(DS_V2.to_string()),
        supersedes: Some(supersedes),
    }
}

fn session_db() -> Snapshot {
    Snapshot {
        nodes: vec![
            node(VAULT_SESSION, VAULT_SESSION, "Vault", "prod", "name: prod\n", &[("name", "prod")]),
            node(AGENT, VAULT_SESSION, "Agent", "agents/deploy", "title: deploy\n", &[("title", "deploy")]),
            node(DOC, VAULT_SESSION, "Document", "notes/hello.md", "name: hello\n", &[("name", "hello")]),
        ],
        edges: vec![],
        desired_states: vec![
            state(DS_V1, "deploy-v1", 1, None, "0.5", STATUS_V1),
            state(DS_V2, "deploy", 2, Some(AGENT), "0.8", STATUS_V2),
        ],
        events: vec![
            event(EVENT, 1, format!("{DS_V1}@1")),
            event(EVENT2, 2, format!("{DS_V2}@2")),
        ],
    }
}

fn s(row: &Row, field: &str) -> Option<String> {
    match row.get(field) {
        Value::Null => None,
        other => Some(other.to_display()),
    }
}

fn is_null(v: Value) -> bool {
    matches!(v, Value::Null)
}

fn blob(row: &Row) -> String {
    row.as_dict(None)
        .into_iter()
        .map(|(_, v)| v.to_display())
        .collect::<Vec<_>>()
        .join(" ")
}

#[test]
fn pipe_foundry_hedron() {
    let rows = run_pipeline(&tiny_db(), PIPE_FOUNDRY).unwrap();
    assert_eq!(rows.len(), 1);
    assert_eq!(s(&rows[0], "path").as_deref(), Some("inbox/hedron-foundry.md"));
    assert!(s(&rows[0], "extra.name").unwrap_or_default().contains("HedronDB"));
}

#[test]
fn pipe_dangling_lattice_mentions() {
    let rows = run_pipeline(&tiny_db(), PIPE_DANGLING).unwrap();
    let raws: std::collections::HashSet<String> =
        rows.iter().map(|row| s(row, "to_raw").unwrap_or_default()).collect();
    assert_eq!(
        raws,
        ["GhostLink".to_string(), "OtherGhost".to_string()].into_iter().collect()
    );
    assert!(rows
        .iter()
        .all(|row| s(row, "path").as_deref() == Some("notes/lattice-edges.md")));
}

#[test]
fn pipe_resolved_inbox_mention() {
    let rows = run_pipeline(&tiny_db(), PIPE_RESOLVED).unwrap();
    assert_eq!(rows.len(), 1);
    assert_eq!(s(&rows[0], "from.path").as_deref(), Some("inbox/resolved-mention.md"));
    assert_eq!(s(&rows[0], "to.path").as_deref(), Some("inbox/hedron-foundry.md"));
}

#[test]
fn missing_domain_dropped_by_filter_kept_by_search() {
    let db = tiny_db();
    let kept = Query::new()
        .vault("demo-vault")
        .search("lattice edges")
        .select(&["path", "extra.domain"])
        .run(&db)
        .unwrap();
    assert_eq!(kept.len(), 1);
    assert_eq!(s(&kept[0], "path").as_deref(), Some("notes/lattice-edges.md"));
    assert!(is_null(kept[0].get("extra.domain")));

    let dropped = Query::new()
        .vault("demo-vault")
        .search("lattice edges")
        .filter(r#"extra.domain == "foundry""#)
        .run(&db)
        .unwrap();
    assert!(dropped.is_empty());
}

#[test]
fn fluent_matches_foundry_pipe() {
    let db = tiny_db();
    let rows = Query::new()
        .vault("demo-vault")
        .search("HedronDB")
        .filter(r#"extra.domain == "foundry""#)
        .select(&["path", "extra.name"])
        .limit(20)
        .run(&db)
        .unwrap();
    assert_eq!(
        rows.iter().map(|row| s(row, "path").unwrap_or_default()).collect::<Vec<_>>(),
        vec!["inbox/hedron-foundry.md".to_string()]
    );
}

#[test]
fn agent_state_pipe_returns_latest_version_only() {
    let rows = run_pipeline(&session_db(), "agent deploy | state").unwrap();
    assert_eq!(rows.len(), 1);
    assert!(matches!(rows[0].get("state_version"), Value::Int(2)));
    let status = s(&rows[0], "status").unwrap_or_default();
    assert!(status.contains("Reconciled"));
    assert!(!status.contains("Pending"));
    assert_eq!(s(&rows[0], "id").as_deref(), Some(DS_V2));
    assert_eq!(s(&rows[0], "reconciled_by").as_deref(), Some(AGENT));
    assert!(matches!(rows[0].get("importance"), Value::Float(t) if t == "0.8"));
}

#[test]
fn session_pipe_selects_agent_title() {
    let rows = run_pipeline(&session_db(), PIPE_SESSION).unwrap();
    assert_eq!(rows.len(), 1);
    assert_eq!(s(&rows[0], "path").as_deref(), Some("agents/deploy"));
    assert!(is_null(rows[0].get("extra.name")));
    assert_eq!(s(&rows[0], "extra.title").as_deref(), Some("deploy"));
    assert!(matches!(rows[0].get("state_version"), Value::Int(2)));
    assert!(s(&rows[0], "status").unwrap_or_default().contains("Reconciled"));
}

#[test]
fn fluent_matches_session_pipe() {
    let db = session_db();
    let rows = Query::new()
        .vault("prod")
        .agent("deploy")
        .state()
        .select(&["path", "extra.name", "extra.title", "state_version", "status"])
        .run(&db)
        .unwrap();
    let piped = run_pipeline(&db, PIPE_SESSION).unwrap();
    assert_eq!(rows.len(), 1);
    assert_eq!(s(&rows[0], "path"), s(&piped[0], "path"));
    assert_eq!(s(&rows[0], "extra.name"), s(&piped[0], "extra.name"));
    assert!(is_null(rows[0].get("extra.name")) && is_null(piped[0].get("extra.name")));
    assert_eq!(s(&rows[0], "extra.title"), s(&piped[0], "extra.title"));
    assert_eq!(s(&rows[0], "state_version"), s(&piped[0], "state_version"));
    assert_eq!(s(&rows[0], "status"), s(&piped[0], "status"));
}

#[test]
fn agent_stays_inside_vault_slice() {
    let db = session_db();
    let inside = run_pipeline(&db, "vault prod | agent deploy").unwrap();
    assert_eq!(inside.len(), 1);
    let outside = run_pipeline(&db, "vault no-such-vault | agent deploy").unwrap();
    assert!(outside.is_empty());
    let global_hit = run_pipeline(&db, "agent deploy").unwrap();
    assert_eq!(global_hit.len(), 1);
}

#[test]
fn agent_prefers_exact_title_and_accepts_substring() {
    let db = session_db();
    let exact = run_pipeline(&db, "agent deploy").unwrap();
    assert_eq!(exact.len(), 1);
    assert_eq!(s(&exact[0], "extra.title").as_deref(), Some("deploy"));
    let substr = run_pipeline(&db, "agent dep").unwrap();
    assert_eq!(substr.len(), 1);
    assert_eq!(s(&substr[0], "path").as_deref(), Some("agents/deploy"));
}

#[test]
fn agent_does_not_match_document() {
    assert!(run_pipeline(&session_db(), "agent hello").unwrap().is_empty());
}

#[test]
fn state_does_not_pull_event_log_or_tokens() {
    let rows = run_pipeline(
        &session_db(),
        "vault prod | agent deploy | state | select path, spec, status, state_version, id",
    )
    .unwrap();
    assert_eq!(rows.len(), 1);
    let text = blob(&rows[0]);
    assert!(!text.contains("hdt_"));
    assert!(!text.contains(EVENT));
}

#[test]
fn default_columns_hide_spec_and_status() {
    let rows = run_pipeline(&session_db(), "agent deploy | state").unwrap();
    let fields = fields_of(&rows);
    assert!(!fields.iter().any(|f| f == "spec" || f == "status"));
    assert!(s(&rows[0], "status").unwrap_or_default().contains("Reconciled"));
}

#[test]
fn causal_operator_is_out_of_scope() {
    let err = run_pipeline(&session_db(), "agent deploy | causal").unwrap_err();
    match err {
        Error::Invalid(m) => assert!(m.contains("unknown operator")),
        other => panic!("expected Invalid, got {other:?}"),
    }
}

#[test]
fn history_shows_latest_and_superseded_versions() {
    let db = session_db();
    let state = run_pipeline(&db, "vault prod | agent deploy | state").unwrap();
    assert_eq!(state.len(), 1);
    assert!(matches!(state[0].get("state_version"), Value::Int(2)));
    assert_eq!(s(&state[0], "id").as_deref(), Some(DS_V2));

    let rows = run_pipeline(&db, "vault prod | agent deploy | history").unwrap();
    assert_eq!(rows.len(), 2);
    let ids: Vec<String> = rows.iter().map(|row| s(row, "id").unwrap_or_default()).collect();
    assert_eq!(ids, vec![EVENT.to_string(), EVENT2.to_string()]);
    let supersedes: Vec<String> =
        rows.iter().map(|row| s(row, "supersedes").unwrap_or_default()).collect();
    assert!(supersedes.iter().any(|v| v.contains(DS_V1)));
    assert!(supersedes.iter().any(|v| v.contains(DS_V2)));
    assert!(rows.iter().all(|row| s(row, "reconciles").as_deref() == Some(DS_V2)));
}

#[test]
fn history_does_not_bleed_spec_status_or_payloads() {
    let rows = run_pipeline(
        &session_db(),
        "vault prod | agent deploy | history | select id, spec, status, state_version, data, reconciles, supersedes",
    )
    .unwrap();
    assert_eq!(rows.len(), 2);
    for row in &rows {
        assert!(is_null(row.get("spec")));
        assert!(is_null(row.get("status")));
        assert!(is_null(row.get("state_version")));
        assert!(is_null(row.get("data")));
        let text = blob(row);
        assert!(!text.contains("hdt_"));
        assert!(!text.contains("raw_event_payload"));
        assert!(!text.contains("Pending"));
        assert!(!text.contains("Reconciled\n") && !text.contains("conditions:"));
    }
}

#[test]
fn fluent_matches_history_pipe() {
    let db = session_db();
    let rows = Query::new()
        .vault("prod")
        .agent("deploy")
        .history()
        .select(&["id", "ts", "reconciles", "supersedes"])
        .run(&db)
        .unwrap();
    let piped = run_pipeline(
        &db,
        "vault prod | agent deploy | history | select id, ts, reconciles, supersedes",
    )
    .unwrap();
    assert_eq!(rows.len(), 2);
    assert_eq!(s(&rows[0], "id"), s(&piped[0], "id"));
    assert_eq!(s(&rows[0], "ts"), s(&piped[0], "ts"));
    assert_eq!(s(&rows[1], "id"), s(&piped[1], "id"));
}

#[test]
fn state_answer_ignores_the_event_log() {
    let with_events = session_db();
    let mut without_events = session_db();
    without_events.events.clear();
    let pipe = "vault prod | agent deploy | state | select id, state_version, status";
    let a = run_pipeline(&with_events, pipe).unwrap();
    let b = run_pipeline(&without_events, pipe).unwrap();
    assert_eq!(a.len(), b.len());
    assert_eq!(blob(&a[0]), blob(&b[0]));
}

#[test]
fn selecting_twice_reads_the_source_row() {
    let db = session_db();
    let twice = run_pipeline(&db, "vault prod | agent deploy | select id | select path, id").unwrap();
    let once = run_pipeline(&db, "vault prod | agent deploy | select path, id").unwrap();
    assert_eq!(s(&twice[0], "path"), s(&once[0], "path"));
    assert_eq!(s(&twice[0], "path").as_deref(), Some("agents/deploy"));
    assert_eq!(s(&twice[0], "id").as_deref(), Some(AGENT));
}

#[test]
fn limit_keeps_a_prefix() {
    let db = tiny_db();
    let all = run_pipeline(&db, "vault demo-vault").unwrap();
    let two = run_pipeline(&db, "vault demo-vault | limit 2").unwrap();
    assert_eq!(all.len(), 4);
    assert_eq!(two.len(), 2);
    assert_eq!(s(&two[0], "id"), s(&all[0], "id"));
    assert_eq!(s(&two[1], "id"), s(&all[1], "id"));
    let none = run_pipeline(&db, "vault demo-vault | limit 0").unwrap();
    assert!(none.is_empty());
}

#[test]
fn traverse_needs_a_positive_hop_count() {
    let err = run_pipeline(&tiny_db(), "traverse --edge mentions --hops 0").unwrap_err();
    match err {
        Error::Invalid(m) => assert_eq!(m, "traverse --hops must be >= 1"),
        other => panic!("expected Invalid, got {other:?}"),
    }
}

#[test]
fn history_refuses_a_state_whose_id_is_not_a_uuid() {
    let mut db = session_db();
    db.desired_states[1].id = "not-a-uuid".to_string();
    match run_pipeline(&db, "vault prod | agent deploy | history") {
        Err(Error::Invalid(m)) => assert!(!m.is_empty()),
        other => panic!("expected Invalid, got {other:?}"),
    }
    let state = run_pipeline(&db, "vault prod | agent deploy | state").unwrap();
    assert_eq!(state.len(), 1);
}

#[test]
fn history_matches_events_by_the_uuid_not_its_spelling() {
    let mut db = session_db();
    db.desired_states[1].id = DS_V2.to_uppercase();
    let rows = run_pipeline(&db, "vault prod | agent deploy | history").unwrap();
    assert_eq!(rows.len(), 2);
    assert_eq!(s(&rows[0], "id").as_deref(), Some(EVENT));
}

#[test]
fn latest_desired_states_keeps_the_highest_version_of_each_vault() {
    let mut a1 = state("a1", "briefs", 1, None, "0.5", "");
    a1.vault_id = "vault-a".to_string();
    let mut b1 = state("b1", "briefs", 4, None, "0.5", "");
    b1.vault_id = "vault-b".to_string();
    let mut a3 = state("a3", "briefs", 3, None, "0.5", "");
    a3.vault_id = "vault-a".to_string();
    let mut a3_again = state("a3-again", "briefs", 3, None, "0.5", "");
    a3_again.vault_id = "vault-a".to_string();
    let mut a2 = state("a2", "briefs", 2, None, "0.5", "");
    a2.vault_id = "vault-a".to_string();
    let latest = latest_desired_states(&vec![a1, b1, a3, a3_again, a2]);
    let ids: Vec<&str> = latest.iter().map(|d| d.id.as_str()).collect();
    assert_eq!(ids, vec!["a3", "b1"]);
    assert!(latest_desired_states(&vec![]).is_empty());
}
