//! Who may do what in the store, and its reconcile loop: sessions and tokens, vault
//! isolation and grants, the checks on writes, and what a reconcile records.

use hedron_core::digest::{content_hash, desired_state_hash};
use hedron_core::hql::yaml::Yaml;
use hedron_core::ids::{issue_token, token_for, version_ref};
use hedron_core::nodes::{brief_extra, brief_path, docs_eod_spec, document_node, name_extra, vault_node};
use hedron_core::reconcile::{reconciler_for, status_from_docs, DocsEod, NodeFacts, Reconciler, DOCS_EOD_KIND};
use hedron_core::store::{
    check_bootstrap, check_edge, check_grant, check_node, edge_target, ensure_access, needs_grant,
    project_causal_edges, reconcile_step, Session, Sessions,
};
use hedron_core::types::reject_secrets;
use hedron_core::{
    ConditionKind, DocsEodSpec, Error, NodeType, Status, Tier, CAUSAL_CAUSED_BY, CAUSAL_RECONCILES,
    CAUSAL_SUPERSEDES, EDGE_GRANT,
};

const DS: u128 = 0x67e55044_10b1_426f_9247_bb680e5fe0c8;

fn spec(date: &str, names: &[&str]) -> DocsEodSpec {
    DocsEodSpec {
        date: date.to_string(),
        required_briefs: names.iter().map(|s| s.to_string()).collect(),
    }
}

fn brief(id: u128, name: &str, date: &str) -> NodeFacts {
    NodeFacts { id, node_type: NodeType::Document, extra: brief_extra(name, date) }
}

fn str_list(y: &Yaml) -> Vec<String> {
    match y {
        Yaml::List(items) => items
            .iter()
            .map(|i| match i {
                Yaml::Str(s) => s.clone(),
                other => panic!("not a string: {other:?}"),
            })
            .collect(),
        other => panic!("not a list: {other:?}"),
    }
}

fn observed(st: &Status, key: &str) -> Vec<String> {
    match &st.observed {
        Yaml::Mapping(m) => {
            for (k, v) in m {
                if matches!(k, Yaml::Str(s) if s == key) {
                    return str_list(v);
                }
            }
            panic!("no key {key}")
        },
        other => panic!("not a mapping: {other:?}"),
    }
}

#[test]
fn uuid_text_and_version_reference() {
    assert_eq!(version_ref(DS, 1), "67e55044-10b1-426f-9247-bb680e5fe0c8@1");
    assert_eq!(version_ref(0, 42), "00000000-0000-0000-0000-000000000000@42");
}

#[test]
fn tokens_are_prefixed_hex() {
    assert_eq!(token_for(DS), "hdt_67e5504410b1426f9247bb680e5fe0c8");
    let t = issue_token();
    assert!(t.starts_with("hdt_"));
    assert_eq!(t.len(), 36);
    assert!(t[4..].chars().all(|c| c.is_ascii_hexdigit() && !c.is_ascii_uppercase()));
}

#[test]
fn rotation_retires_the_old_token() {
    let mut sessions = Sessions::new();
    let me = Session { agent_id: 7, vault_id: 9 };
    let first = sessions.open(me);
    assert_eq!(sessions.auth(&first).unwrap(), me);
    let second = sessions.rotate_token(&first).unwrap();
    assert_ne!(first, second);
    assert!(matches!(sessions.auth(&first), Err(Error::Unauthorized)));
    assert_eq!(sessions.auth(&second).unwrap(), me);
    assert!(matches!(sessions.rotate_token(&first), Err(Error::Unauthorized)));
    assert!(matches!(sessions.auth("hdt_unknown"), Err(Error::Unauthorized)));
}

#[test]
fn inserting_a_token_again_rebinds_it() {
    let mut sessions = Sessions::new();
    sessions.insert("t".to_string(), Session { agent_id: 1, vault_id: 1 });
    sessions.insert("u".to_string(), Session { agent_id: 2, vault_id: 2 });
    sessions.insert("t".to_string(), Session { agent_id: 3, vault_id: 3 });
    assert_eq!(sessions.auth("t").unwrap(), Session { agent_id: 3, vault_id: 3 });
    assert_eq!(sessions.auth("u").unwrap(), Session { agent_id: 2, vault_id: 2 });
}

#[test]
fn vault_isolation_denies_cross_vault_read() {
    let mut sessions = Sessions::new();
    let a = sessions.open(Session { agent_id: 10, vault_id: 1 });
    let b = sessions.open(Session { agent_id: 20, vault_id: 2 });
    let state_vault = sessions.auth(&a).unwrap().vault_id;
    let reader = sessions.auth(&b).unwrap();
    assert!(needs_grant(&reader, state_vault));
    match ensure_access(&reader, state_vault, false) {
        Err(Error::VaultDenied { vault_id }) => assert_eq!(vault_id, 1),
        other => panic!("expected VaultDenied, got {other:?}"),
    }
    assert!(ensure_access(&sessions.auth(&a).unwrap(), state_vault, false).is_ok());
}

#[test]
fn hivemind_and_shared_are_deny_by_default_until_grant() {
    let hive = Session { agent_id: 1, vault_id: 100 };
    let outsider = Session { agent_id: 3, vault_id: 300 };
    assert!(matches!(ensure_access(&outsider, 100, false), Err(Error::VaultDenied { .. })));
    assert!(check_grant(&hive, 100).is_ok());
    assert!(matches!(check_grant(&outsider, 100), Err(Error::VaultDenied { vault_id: 100 })));
    assert!(ensure_access(&outsider, 100, true).is_ok());
    assert!(matches!(ensure_access(&outsider, 200, false), Err(Error::VaultDenied { vault_id: 200 })));
}

#[test]
fn unresolved_edge_target_allowed() {
    let me = Session { agent_id: 1, vault_id: 5 };
    let (to_id, to_raw) = edge_target(None, Some("briefs/2026-08-25/gamma".to_string())).unwrap();
    assert!(to_id.is_none());
    assert_eq!(to_raw.as_deref(), Some("briefs/2026-08-25/gamma"));
    assert!(check_edge(&me, 5, false, "mentions").is_ok());
    assert!(matches!(check_edge(&me, 5, false, CAUSAL_SUPERSEDES), Err(Error::Invalid(_))));
    match edge_target(None, Some(String::new())) {
        Err(Error::Invalid(m)) => assert_eq!(m, "edge target needs a dest UUID, a raw string, or both"),
        other => panic!("expected Invalid, got {other:?}"),
    }
}

#[test]
fn edge_checks_in_order() {
    let me = Session { agent_id: 1, vault_id: 5 };
    assert!(matches!(check_edge(&me, 6, false, CAUSAL_CAUSED_BY), Err(Error::VaultDenied { vault_id: 6 })));
    for t in [CAUSAL_CAUSED_BY, CAUSAL_RECONCILES, CAUSAL_SUPERSEDES] {
        match check_edge(&me, 5, false, t) {
            Err(Error::Invalid(m)) => {
                assert_eq!(m, "causal edges are a projection of the event row; append an event instead")
            },
            other => panic!("expected Invalid, got {other:?}"),
        }
    }
    match check_edge(&me, 6, true, EDGE_GRANT) {
        Err(Error::Invalid(m)) => assert_eq!(m, "grants must be written through grant_access"),
        other => panic!("expected Invalid, got {other:?}"),
    }
}

#[test]
fn node_checks_in_order() {
    let me = Session { agent_id: 1, vault_id: 5 };
    let clean = name_extra("x");
    let secret = Yaml::Mapping(vec![(Yaml::Str("API_Key".into()), Yaml::Str("v".into()))]);
    let msg = |r: Result<(), Error>| match r {
        Err(Error::Invalid(m)) => m,
        other => panic!("expected Invalid, got {other:?}"),
    };
    assert!(matches!(
        check_node(&me, 6, false, NodeType::Document, true, &clean, false),
        Err(Error::VaultDenied { vault_id: 6 })
    ));
    assert_eq!(
        msg(check_node(&me, 6, true, NodeType::Agent, true, &clean, true)),
        "agents can only be created in their home vault"
    );
    assert_eq!(
        msg(check_node(&me, 5, false, NodeType::Document, false, &secret, false)),
        "importance must be in 0..=1"
    );
    assert_eq!(
        msg(check_node(&me, 5, false, NodeType::Document, true, &secret, false)),
        "secrets must not be stored in YAML/frontmatter"
    );
    assert_eq!(
        msg(check_node(&me, 5, false, NodeType::Agent, true, &clean, false)),
        "agent nodes require htec_path"
    );
    assert!(check_node(&me, 5, false, NodeType::Agent, true, &clean, true).is_ok());
    assert!(check_node(&me, 6, true, NodeType::Document, true, &clean, false).is_ok());
}

#[test]
fn secrets_are_refused_in_any_case_and_only_as_string_keys() {
    let doc = |k: Yaml| Yaml::Mapping(vec![(k, Yaml::Str("v".into()))]);
    assert!(reject_secrets(&doc(Yaml::Str("Password".into()))).is_err());
    assert!(reject_secrets(&doc(Yaml::Str("TOKEN".into()))).is_err());
    assert!(reject_secrets(&doc(Yaml::Tagged(Box::new(Yaml::Str("secret".into()))))).is_err());
    assert!(reject_secrets(&doc(Yaml::Str("tokens".into()))).is_ok());
    assert!(reject_secrets(&doc(Yaml::Int(1))).is_ok());
    assert!(reject_secrets(&Yaml::Str("token".into())).is_ok());
    assert!(reject_secrets(&Yaml::Tagged(Box::new(doc(Yaml::Str("authorization".into()))))).is_err());
}

#[test]
fn bootstrap_needs_every_name() {
    assert!(check_bootstrap("v", "a", "agents/a").is_ok());
    match check_bootstrap("", "a", "agents/a") {
        Err(Error::Invalid(m)) => assert_eq!(m, "vault name, agent name, and htec path are required"),
        other => panic!("expected Invalid, got {other:?}"),
    }
    assert!(check_bootstrap("v", "a", "").is_err());
}

#[test]
fn node_and_tier_names_round_trip() {
    for t in [NodeType::Agent, NodeType::Document, NodeType::Vault] {
        assert_eq!(NodeType::parse(t.as_str()).unwrap(), t);
    }
    for t in [Tier::Hot, Tier::Warm, Tier::Cool, Tier::Cold] {
        assert_eq!(Tier::parse(t.as_str()).unwrap(), t);
    }
    match NodeType::parse("Folder") {
        Err(Error::Invalid(m)) => assert_eq!(m, "unknown node type Folder"),
        other => panic!("expected Invalid, got {other:?}"),
    }
    match Tier::parse("frozen") {
        Err(Error::Invalid(m)) => assert_eq!(m, "unknown tier frozen"),
        other => panic!("expected Invalid, got {other:?}"),
    }
}

#[test]
fn empty_status() {
    let st = Status::empty();
    assert!(matches!(st.observed, Yaml::Mapping(ref m) if m.is_empty()));
    assert!(st.conditions.is_empty());
}

#[test]
fn docs_eod_observes_present_and_missing_briefs() {
    let sp = spec("2026-08-25", &["alpha", "beta", "gamma"]);
    let docs = vec![
        brief(1, "alpha", "2026-08-25"),
        brief(2, "beta", "2026-08-25"),
        brief(3, "gamma", "2026-08-24"),
        brief(4, "delta", "2026-08-25"),
        NodeFacts { id: 5, node_type: NodeType::Agent, extra: brief_extra("gamma", "2026-08-25") },
    ];
    let obs = DocsEod.observe(&docs, &sp);
    assert_eq!(obs.caused_by, vec![1, 2]);
    assert_eq!(observed(&obs.status, "present"), vec!["alpha", "beta"]);
    assert_eq!(observed(&obs.status, "missing"), vec!["gamma"]);
    assert_eq!(obs.status.conditions.len(), 1);
    assert_eq!(obs.status.conditions[0].kind, ConditionKind::Pending);
    assert_eq!(obs.status.conditions[0].message.as_deref(), Some("missing briefs: gamma"));

    let none = DocsEod.observe(&[], &sp);
    assert_eq!(observed(&none.status, "missing"), vec!["alpha", "beta", "gamma"]);
    assert_eq!(
        none.status.conditions[0].message.as_deref(),
        Some("missing briefs: alpha, beta, gamma")
    );

    let all = status_from_docs(&spec("d", &["alpha"]), &[(9, "alpha".to_string())]);
    assert_eq!(all.conditions[0].kind, ConditionKind::Reconciled);
    assert_eq!(all.conditions[0].message.as_deref(), Some("all required briefs are present"));
    assert!(observed(&all, "missing").is_empty());
}

#[test]
fn reconciler_is_chosen_by_kind() {
    let sp = docs_eod_spec("2026-08-25", &["alpha"]);
    let r = reconciler_for(&sp).unwrap();
    assert_eq!(r.kind(), DOCS_EOD_KIND);
    let no_kind = Yaml::Mapping(vec![(Yaml::Str("date".into()), Yaml::Str("x".into()))]);
    match reconciler_for(&no_kind) {
        Err(Error::Invalid(m)) => assert_eq!(m, "desired state spec requires kind: <string>"),
        other => panic!("expected Invalid, got {other:?}"),
    }
    let other = Yaml::Mapping(vec![(Yaml::Str("kind".into()), Yaml::Str("weekly".into()))]);
    match reconciler_for(&other) {
        Err(Error::Invalid(m)) => assert_eq!(m, "unknown desired state kind \"weekly\""),
        other => panic!("expected Invalid, got {other:?}"),
    }
}

#[test]
fn recon_loop_option_b_current_state_and_causal_chain() {
    let mut sessions = Sessions::new();
    let me = Session { agent_id: 77, vault_id: 5 };
    let boot_token = sessions.open(me);
    let token = sessions.rotate_token(&boot_token).unwrap();
    assert!(matches!(sessions.auth(&boot_token), Err(Error::Unauthorized)));
    let session = sessions.auth(&token).unwrap();

    let sp = spec("2026-08-25", &["alpha", "beta", "gamma"]);
    let observed_first = DocsEod.observe(&[], &sp);
    assert!(observed_first.status.conditions.iter().any(|c| c.kind == ConditionKind::Pending));
    assert_eq!(observed(&observed_first.status, "missing").len(), 3);

    let docs = vec![brief(1, "alpha", "2026-08-25"), brief(2, "beta", "2026-08-25")];
    let found = hedron_core::reconcile::matching_briefs(&docs, &sp);
    let step = reconcile_step(DS, 5, 1, &session, &sp, &found, 1000, 1001);
    assert_eq!(step.state_version, 2);
    assert_eq!(step.reconciled_by, 77);
    assert_eq!(step.last_reconciled, 1000);
    assert_eq!(step.event.reconciles, Some(DS));
    assert_eq!(step.event.supersedes.as_deref(), Some(format!("{}@1", "67e55044-10b1-426f-9247-bb680e5fe0c8").as_str()));
    assert_eq!(step.event.caused_by.len(), 2);
    assert_eq!(step.event.event_type, "Reconciled");
    assert_eq!(step.event.ts, 1001);
    assert_eq!(observed(&step.status, "present").len(), 2);
    assert_eq!(observed(&step.status, "missing"), vec!["gamma"]);
    assert!(step.status.conditions.iter().any(|c| c.kind == ConditionKind::Pending));

    let first_hash = desired_state_hash("spec", "status-1", 1);
    let second_hash = desired_state_hash("spec", "status-2", 2);
    assert_ne!(first_hash, second_hash);

    let edges = project_causal_edges(&step.event).unwrap();
    assert_eq!(edges.len(), 4);
    assert_eq!((edges[0].from, edges[0].to_id, edges[0].edge_type), (1, Some(DS), CAUSAL_CAUSED_BY));
    assert_eq!((edges[1].from, edges[1].to_id, edges[1].edge_type), (2, Some(DS), CAUSAL_CAUSED_BY));
    assert_eq!((edges[2].from, edges[2].to_id, edges[2].edge_type), (77, Some(DS), CAUSAL_RECONCILES));
    assert_eq!(edges[3].from, DS);
    assert_eq!(edges[3].to_id, None);
    assert_eq!(edges[3].to_raw.as_deref(), Some("67e55044-10b1-426f-9247-bb680e5fe0c8@1"));
    assert_eq!(edges[3].edge_type, CAUSAL_SUPERSEDES);
}

#[test]
fn an_event_that_reconciles_nothing_projects_no_edges() {
    let me = Session { agent_id: 1, vault_id: 1 };
    let mut step = reconcile_step(DS, 1, 3, &me, &spec("d", &[]), &[], 0, 0);
    step.event.reconciles = None;
    match project_causal_edges(&step.event) {
        Err(Error::Invalid(m)) => assert_eq!(m, "reconcile event must set reconciles"),
        other => panic!("expected Invalid, got {other:?}"),
    }
}

#[test]
fn hashes_are_64_hex_and_follow_their_input() {
    let a = content_hash(NodeType::Document, Some("a.md"), None, Some("name: a\n"));
    let b = content_hash(NodeType::Document, Some("a.md"), None, Some("name: a\n"));
    let c = content_hash(NodeType::Document, Some("b.md"), None, Some("name: a\n"));
    assert_eq!(a.len(), 64);
    assert_eq!(a, b);
    assert_ne!(a, c);
    let framed = content_hash(NodeType::Document, Some("a"), Some("b"), None);
    let shifted = content_hash(NodeType::Document, Some("ab"), None, None);
    assert_ne!(framed, shifted);
    assert_eq!(desired_state_hash("s", "t", 1), desired_state_hash("s", "t", 1));
}

#[test]
fn node_plans() {
    let v = vault_node(9, "demo", name_extra("demo"), Some("name: demo\n"));
    assert_eq!(v.id, 9);
    assert_eq!(v.vault_id, 9);
    assert_eq!(v.tier, Tier::Cool);
    assert_eq!(v.content_hash, content_hash(NodeType::Vault, Some("demo"), None, Some("name: demo\n")));
    let d = document_node(3, 9, Some(&brief_path("alpha", "2026-08-25")), brief_extra("alpha", "2026-08-25"), None).unwrap();
    assert_eq!(d.path.as_deref(), Some("briefs/2026-08-25/alpha"));
    assert_eq!(d.tier, Tier::Warm);
    assert_eq!(d.version, 1);
    let secret = Yaml::Mapping(vec![(Yaml::Str("token".into()), Yaml::Str("x".into()))]);
    assert!(document_node(4, 9, None, secret, None).is_err());
}
