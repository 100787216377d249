//! The schema drift report.

use hedron_core::schema::{schema_mismatches, store_schema, Columns};

fn cols(pairs: &[(&str, &str)]) -> Columns {
    pairs.iter().map(|(n, t)| (n.to_string(), t.to_string())).collect()
}

#[test]
fn pipe_schema_matches_crate() {
    let expected = store_schema();
    let mut existing = store_schema();
    existing.insert(0, ("sqlite_sequence".to_string(), cols(&[("name", ""), ("seq", "")])));
    assert_eq!(schema_mismatches(&expected, &existing), Vec::<String>::new());
}

#[test]
fn session_schema_matches_crate() {
    let expected = store_schema();
    let mut existing = store_schema();
    for (_, columns) in existing.iter_mut() {
        for (_, ty) in columns.iter_mut() {
            *ty = ty.to_lowercase();
        }
    }
    assert!(schema_mismatches(&expected, &existing).is_empty());
}

#[test]
fn drift_is_reported_not_repaired() {
    let expected = vec![
        ("nodes".to_string(), cols(&[("id", "TEXT"), ("extra", "TEXT")])),
        ("edges".to_string(), cols(&[("id", "TEXT")])),
    ];
    let existing = vec![
        ("nodes".to_string(), cols(&[("id", "INTEGER"), ("data", "TEXT")])),
        ("scratch".to_string(), cols(&[("x", "TEXT")])),
    ];
    assert_eq!(
        schema_mismatches(&expected, &existing),
        vec![
            r#"table nodes columns ["id", "data"] != ["id", "extra"]"#.to_string(),
            r#"table nodes column id type "INTEGER" != "TEXT""#.to_string(),
            "missing table edges".to_string(),
            "unexpected table scratch".to_string(),
        ]
    );
}
