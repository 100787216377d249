//! The HQL surface: pipelines split into stages, stage arguments, filter
//! expressions, `hedron hql` flags and the three output formats.

use hedron_core::hql::cli::{json_string, pad_right, parse_hql_args, render_output, OutputFormat};
use hedron_core::hql::expr::{parse_filter, tokenize, FilterExpr};
use hedron_core::hql::ops::{path_basename, Snapshot};
use hedron_core::hql::pipe::{optional_name, parse_traverse, split_fields, split_pipeline, unquote_arg};
use hedron_core::hql::query::Query;
use hedron_core::hql::row::{default_history_fields, default_output_fields, default_state_fields, NodeView};
use hedron_core::hql::run::run_pipeline;
use hedron_core::hql::yaml::{parse_extra, yaml_flow, yaml_text, Yaml};
use hedron_core::Error;

fn chars(s: &str) -> Vec<char> {
    s.chars().collect()
}

fn invalid(r: Result<impl std::fmt::Debug, Error>) -> String {
    match r {
        Err(Error::Invalid(m)) => m,
        other => panic!("expected Invalid, got {other:?}"),
    }
}

#[test]
fn split_pipeline_respects_quotes() {
    let stages = split_pipeline(r#"vault demo | search "a | b" | limit 2"#);
    assert_eq!(stages, vec!["vault demo", r#"search "a | b""#, "limit 2"]);
    let single = split_pipeline("search 'x|y'");
    assert_eq!(single, vec!["search 'x|y'"]);
}

#[test]
fn unquote_strips_one_pair_of_matching_quotes() {
    assert_eq!(unquote_arg(r#""HedronDB""#), "HedronDB");
    assert_eq!(unquote_arg("'lattice edges'"), "lattice edges");
    assert_eq!(unquote_arg("plain"), "plain");
    assert_eq!(unquote_arg(r#""open"#), r#""open"#);
}

#[test]
fn split_fields_trims_and_drops_blanks() {
    assert_eq!(split_fields(" path , extra.name ,, "), vec!["path", "extra.name"]);
    assert!(split_fields("   ").is_empty());
}

#[test]
fn optional_name_is_the_first_word() {
    assert_eq!(optional_name(&chars("  deploy ")), Some("deploy".to_string()));
    assert_eq!(optional_name(&chars("   ")), Some(String::new()));
    assert_eq!(optional_name(&chars("")), None);
}

#[test]
fn traverse_arguments() {
    let (edge, hops) = parse_traverse(&chars("--edge mentions --hops 2")).unwrap();
    assert_eq!(edge, "mentions");
    assert_eq!(hops, 2);
    assert!(parse_traverse(&chars("--hops 1")).is_err());
}

#[test]
fn unknown_operator_is_refused() {
    let m = invalid(Query::new().pipe("agent deploy | causal"));
    assert!(m.contains("unknown operator"));
    let db = Snapshot { nodes: vec![], edges: vec![], desired_states: vec![], events: vec![] };
    assert!(run_pipeline(&db, "causal").is_err());
}

#[test]
fn filter_tokens_and_parse() {
    let toks = tokenize(r#"path ^= "inbox/" && extra.domain != null"#).unwrap();
    assert_eq!(toks, vec!["path", "^=", "inbox/", "&&", "extra.domain", "!=", "null"]);
    match parse_filter(r#"extra.domain == "foundry""#).unwrap() {
        FilterExpr::Comparison(c) => {
            assert_eq!(c.field, "extra.domain");
            assert_eq!(c.op, "==");
            assert_eq!(c.value.as_deref(), Some("foundry"));
        },
        other => panic!("expected one comparison, got {other:?}"),
    }
    match parse_filter("to_id == null").unwrap() {
        FilterExpr::Comparison(c) => assert_eq!(c.value, None),
        other => panic!("expected one comparison, got {other:?}"),
    }
    match parse_filter(r#"a == "1" && b != "2""#).unwrap() {
        FilterExpr::And(cs) => assert_eq!(cs.len(), 2),
        other => panic!("expected a conjunction, got {other:?}"),
    }
    assert!(parse_filter("path").is_err());
}

#[test]
fn output_format_names() {
    assert!(matches!(OutputFormat::parse("tsv"), Ok(OutputFormat::Tsv)));
    assert!(matches!(OutputFormat::parse("table"), Ok(OutputFormat::Table)));
    assert!(matches!(OutputFormat::parse("json"), Ok(OutputFormat::Json)));
    assert_eq!(
        invalid(OutputFormat::parse("xml")),
        r#"unknown format "xml" (expected tsv, table, or json)"#
    );
}

#[test]
fn hql_flags() {
    let raw: Vec<String> = ["--db", "x.db", "--format", "json", "vault", "prod"]
        .iter()
        .map(|s| s.to_string())
        .collect();
    let args = parse_hql_args(&raw).unwrap();
    assert_eq!(args.db, "x.db");
    assert!(matches!(args.format, OutputFormat::Json));
    assert_eq!(args.pipeline, "vault prod");

    let missing_db: Vec<String> = vec!["vault".to_string()];
    assert_eq!(invalid(parse_hql_args(&missing_db)), "--db FILE is required");
    let no_value: Vec<String> = vec!["--db".to_string()];
    assert_eq!(invalid(parse_hql_args(&no_value)), "--db needs a value");
    let no_pipe: Vec<String> = vec!["--db".to_string(), "x".to_string()];
    assert_eq!(invalid(parse_hql_args(&no_pipe)), "PIPELINE is required");
    let unknown: Vec<String> = vec!["--db".to_string(), "x".to_string(), "--nope".to_string()];
    assert_eq!(invalid(parse_hql_args(&unknown)), "unknown argument --nope");
}

#[test]
fn json_strings_escape_quotes_controls_and_non_ascii() {
    assert_eq!(json_string("a\"b\\c"), r#""a\"b\\c""#);
    assert_eq!(json_string("tab\tnl\n"), r#""tab\tnl\n""#);
    assert_eq!(json_string("\u{1}"), r#""\u0001""#);
    assert_eq!(json_string("é"), r#""\u00e9""#);
    assert_eq!(json_string("😀"), r#""\ud83d\ude00""#);
}

#[test]
fn pad_right_counts_bytes() {
    assert_eq!(pad_right("ab", 4), "ab  ");
    assert_eq!(pad_right("abcdef", 3), "abcdef");
    assert_eq!(pad_right("é", 3), "é ");
}

#[test]
fn default_columns() {
    assert!(!default_state_fields().contains(&"spec"));
    assert!(!default_state_fields().contains(&"status"));
    assert!(default_history_fields().contains(&"supersedes"));
    assert!(default_output_fields().contains(&"path"));
}

#[test]
fn basename_of_a_path() {
    assert_eq!(path_basename(&chars("agents/deploy")), chars("deploy"));
    assert_eq!(path_basename(&chars("deploy")), chars("deploy"));
}

#[test]
fn yaml_renders_in_flow_style() {
    let list = Yaml::List(vec![Yaml::Str("a".into()), Yaml::Int(-3), Yaml::Bool(true)]);
    assert_eq!(yaml_flow(&list), chars("[a, -3, true]"));
    let map = Yaml::Mapping(vec![(Yaml::Str("k".into()), Yaml::UInt(18446744073709551615))]);
    assert_eq!(yaml_flow(&map), chars("{k: 18446744073709551615}"));
    assert_eq!(yaml_text(&Yaml::Null), None);
    assert_eq!(yaml_text(&Yaml::Float("1.5".into())), Some("1.5".to_string()));
}

#[test]
fn extra_map_keeps_the_last_duplicate_and_null_values() {
    let doc = Yaml::Mapping(vec![
        (Yaml::Str("name".into()), Yaml::Str("a".into())),
        (Yaml::Null, Yaml::Str("x".into())),
        (Yaml::Str("gone".into()), Yaml::Null),
        (Yaml::Str("name".into()), Yaml::Str("b".into())),
    ]);
    let node = NodeView {
        id: "n".into(),
        vault_id: "v".into(),
        node_type: "Document".into(),
        path: None,
        extra: String::new(),
        extra_map: parse_extra(Some(&doc)),
    };
    assert_eq!(node.extra_get("name"), Some("b"));
    assert_eq!(node.extra_get("null"), Some("x"));
    assert_eq!(node.extra_get("gone"), None);
    assert!(parse_extra(None).is_empty());
    assert!(parse_extra(Some(&Yaml::Str("text".into()))).is_empty());
}

#[test]
fn render_tsv_table_and_json() {
    let doc = Yaml::Mapping(vec![(Yaml::Str("name".into()), Yaml::Str("n\"1".into()))]);
    let snap = Snapshot {
        nodes: vec![NodeView {
            id: "id-1".into(),
            vault_id: "v".into(),
            node_type: "Document".into(),
            path: Some("a.md".into()),
            extra: "name: n1\n".into(),
            extra_map: parse_extra(Some(&doc)),
        }],
        edges: vec![],
        desired_states: vec![],
        events: vec![],
    };
    let rows = run_pipeline(&snap, "select path, extra.name, extra.none").unwrap();
    assert_eq!(
        render_output(&OutputFormat::Tsv, &rows),
        "path\textra.name\textra.none\na.md\tn\"1\t\n"
    );
    assert_eq!(
        render_output(&OutputFormat::Json, &rows),
        "[{\"path\": \"a.md\", \"extra.name\": \"n\\\"1\", \"extra.none\": null}]\n"
    );
    let table = render_output(&OutputFormat::Table, &rows);
    let lines: Vec<&str> = table.lines().collect();
    assert_eq!(lines[0].trim_end(), "path  extra.name  extra.none");
    assert_eq!(lines.len(), 2);
    assert_eq!(lines[1], "a.md  n\"1         ".to_string() + "          ");
    assert_eq!(render_output(&OutputFormat::Json, &[]), "[]\n");
    assert_eq!(render_output(&OutputFormat::Tsv, &[]), "");
}

#[test]
fn negated_operators_split_the_rows() {
    let node = |id: &str, path: Option<&str>| NodeView {
        id: id.into(),
        vault_id: "v".into(),
        node_type: "Document".into(),
        path: path.map(|p| p.to_string()),
        extra: String::new(),
        extra_map: parse_extra(None),
    };
    let snap = Snapshot {
        nodes: vec![node("1", Some("inbox/a.md")), node("2", Some("notes/b.md")), node("3", None)],
        edges: vec![],
        desired_states: vec![],
        events: vec![],
    };
    for (op, neg, value) in [("==", "!=", r#""inbox/a.md""#), ("^=", "!^=", r#""inbox/""#), ("==", "!=", "null")] {
        let yes = run_pipeline(&snap, &format!("filter path {op} {value}")).unwrap();
        let no = run_pipeline(&snap, &format!("filter path {neg} {value}")).unwrap();
        assert_eq!(yes.len() + no.len(), 3, "{op} / {neg} {value}");
        assert!(!yes.is_empty() && !no.is_empty());
    }
}
