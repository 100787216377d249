//! The store's schema, and the drift report of a file against it: missing
//! tables, columns out of order or renamed, columns of another type, and
//! tables the store does not write. Drift is reported, never migrated.

use vstd::prelude::*;

use crate::text::{chars_eq, chars_of, debug_quoted, debug_str, join, join_m, push_all, string_of, views_of};
use crate::types::{eq_ignore_case, fold_case};

verus! {

/// A table's columns: name and declared type, in order.
pub type Columns = Vec<(String, String)>;

/// The view of a table's columns.
pub open spec fn columns_m(c: Seq<(String, String)>) -> Seq<(Seq<char>, Seq<char>)> {
    c.map_values(|p: (String, String)| (p.0@, p.1@))
}

/// The view of tables with their columns.
pub open spec fn tables_m(t: Seq<(String, Columns)>) -> Seq<(Seq<char>, Seq<(Seq<char>, Seq<char>)>)> {
    t.map_values(|p: (String, Columns)| (p.0@, columns_m(p.1@)))
}

/// The column names of a table.
pub open spec fn names_m(c: Seq<(Seq<char>, Seq<char>)>) -> Seq<Seq<char>> {
    c.map_values(|p: (Seq<char>, Seq<char>)| p.0)
}

/// `{:?}` of a list of names: `["a", "b"]`.
pub open spec fn debug_list(names: Seq<Seq<char>>) -> Seq<char> {
    seq!['['] + join_m(names.map_values(|n: Seq<char>| debug_str(n)), ", "@) + seq![']']
}

/// The columns of the first table called `name`.
pub open spec fn table_columns(
    tables: Seq<(Seq<char>, Seq<(Seq<char>, Seq<char>)>)>,
    name: Seq<char>,
) -> Option<Seq<(Seq<char>, Seq<char>)>>
    decreases tables.len(),
{
    if tables.len() == 0 {
        None
    } else if tables[0].0 == name {
        Some(tables[0].1)
    } else {
        table_columns(tables.drop_first(), name)
    }
}

/// One report line per column at the same place in both lists, with the
/// same name and a type that differs beyond ASCII case.
pub open spec fn type_report(
    table: Seq<char>,
    want: Seq<(Seq<char>, Seq<char>)>,
    got: Seq<(Seq<char>, Seq<char>)>,
    k: nat,
) -> Seq<Seq<char>>
    decreases k,
{
    if k == 0 {
        Seq::empty()
    } else {
        let i = k - 1;
        let prev = type_report(table, want, got, (k - 1) as nat);
        if want[i].0 == got[i].0 && !eq_ignore_case(want[i].1, got[i].1) {
            prev.push(
                "table "@ + table + " column "@ + want[i].0 + " type "@ + debug_str(got[i].1)
                    + " != "@ + debug_str(want[i].1),
            )
        } else {
            prev
        }
    }
}

/// What is wrong with one expected table.
pub open spec fn table_report(
    table: Seq<char>,
    want: Seq<(Seq<char>, Seq<char>)>,
    got: Option<Seq<(Seq<char>, Seq<char>)>>,
) -> Seq<Seq<char>> {
    match got {
        None => seq!["missing table "@ + table],
        Some(g) => {
            let names = if names_m(g) != names_m(want) {
                seq![
                    "table "@ + table + " columns "@ + debug_list(names_m(g)) + " != "@
                        + debug_list(names_m(want)),
                ]
            } else {
                Seq::empty()
            };
            let n = if want.len() < g.len() {
                want.len()
            } else {
                g.len()
            };
            names + type_report(table, want, g, n)
        },
    }
}

/// The reports of the expected tables, in order.
pub open spec fn expected_report(
    expected: Seq<(Seq<char>, Seq<(Seq<char>, Seq<char>)>)>,
    existing: Seq<(Seq<char>, Seq<(Seq<char>, Seq<char>)>)>,
) -> Seq<Seq<char>>
    decreases expected.len(),
{
    if expected.len() == 0 {
        Seq::empty()
    } else {
        let t = expected.last();
        expected_report(expected.drop_last(), existing) + table_report(
            t.0,
            t.1,
            table_columns(existing, t.0),
        )
    }
}

/// Whether a table is SQLite's own.
pub open spec fn internal_table(t: Seq<char>) -> bool {
    t.len() >= 7 && t.take(7) == "sqlite_"@
}

/// The tables of the file that the store does not write, in order.
pub open spec fn unexpected_report(
    expected: Seq<(Seq<char>, Seq<(Seq<char>, Seq<char>)>)>,
    existing: Seq<(Seq<char>, Seq<(Seq<char>, Seq<char>)>)>,
) -> Seq<Seq<char>>
    decreases existing.len(),
{
    if existing.len() == 0 {
        Seq::empty()
    } else {
        let t = existing.last().0;
        let prev = unexpected_report(expected, existing.drop_last());
        if !internal_table(t) && table_columns(expected, t) is None {
            prev.push("unexpected table "@ + t)
        } else {
            prev
        }
    }
}

/// The drift report of a file's tables against the expected schema.
pub open spec fn mismatches_m(
    expected: Seq<(Seq<char>, Seq<(Seq<char>, Seq<char>)>)>,
    existing: Seq<(Seq<char>, Seq<(Seq<char>, Seq<char>)>)>,
) -> Seq<Seq<char>> {
    expected_report(expected, existing) + unexpected_report(expected, existing)
}

fn debug_names(c: &Columns) -> (r: Vec<char>)
    ensures
        r@ == debug_list(names_m(columns_m(c@))),
{
    let ghost names = names_m(columns_m(c@));
    let mut parts: Vec<Vec<char>> = Vec::new();
    let mut i: usize = 0;
    while i < c.len()
        invariant
            i <= c@.len(),
            names == names_m(columns_m(c@)),
            views_of(parts@) == names.take(i as int).map_values(|n: Seq<char>| debug_str(n)),
        decreases c.len() - i,
    {
        let n = chars_of(c[i].0.as_str());
        let q = debug_quoted(&n);
        let qc = chars_of(q.as_str());
        let ghost before = views_of(parts@);
        parts.push(qc);
        assert(views_of(parts@) =~= before.push(debug_str(names[i as int])));
        assert(names.take(i + 1) =~= names.take(i as int).push(names[i as int]));
        assert(views_of(parts@) =~= names.take(i + 1).map_values(|n: Seq<char>| debug_str(n)));
        i = i + 1;
    }
    assert(names.take(names.len() as int) =~= names);
    let sep = chars_of(", ");
    let body = join(&parts, &sep);
    let mut out: Vec<char> = Vec::new();
    out.push('[');
    push_all(&mut out, &body);
    out.push(']');
    assert(out@ =~= debug_list(names));
    out
}

fn same_names(a: &Columns, b: &Columns) -> (r: bool)
    ensures
        r == (names_m(columns_m(a@)) == names_m(columns_m(b@))),
{
    if a.len() != b.len() {
        assert(names_m(columns_m(a@)).len() != names_m(columns_m(b@)).len());
        return false;
    }
    let mut i: usize = 0;
    while i < a.len()
        invariant
            i <= a@.len() == b@.len(),
            forall|j: int| 0 <= j < i ==> a@[j].0@ == b@[j].0@,
        decreases a.len() - i,
    {
        let x = chars_of(a[i].0.as_str());
        let y = chars_of(b[i].0.as_str());
        if !chars_eq(&x, &y) {
            assert(names_m(columns_m(a@))[i as int] != names_m(columns_m(b@))[i as int]);
            return false;
        }
        i = i + 1;
    }
    assert(names_m(columns_m(a@)) =~= names_m(columns_m(b@)));
    true
}

fn same_ignoring_case(a: &[char], b: &[char]) -> (r: bool)
    ensures
        r == eq_ignore_case(a@, b@),
{
    if a.len() != b.len() {
        return false;
    }
    let mut i: usize = 0;
    while i < a.len()
        invariant
            i <= a@.len() == b@.len(),
            forall|j: int| 0 <= j < i ==> fold_case(a@[j]) == fold_case(b@[j]),
        decreases a.len() - i,
    {
        let x = a[i];
        let y = b[i];
        let lx: u32 = if 'A' <= x && x <= 'Z' {
            (x as u32) + 32
        } else {
            x as u32
        };
        let ly: u32 = if 'A' <= y && y <= 'Z' {
            (y as u32) + 32
        } else {
            y as u32
        };
        if lx != ly {
            return false;
        }
        i = i + 1;
    }
    true
}

fn find_table<'a>(tables: &'a Vec<(String, Columns)>, name: &[char]) -> (r: Option<&'a Columns>)
    ensures
        match r {
            Some(c) => table_columns(tables_m(tables@), name@) == Some(columns_m(c@)),
            None => table_columns(tables_m(tables@), name@) is None,
        },
{
    let ghost tm = tables_m(tables@);
    let mut i: usize = 0;
    assert(tm.skip(0) =~= tm);
    while i < tables.len()
        invariant
            i <= tables@.len(),
            tm == tables_m(tables@),
            table_columns(tm, name@) == table_columns(tm.skip(i as int), name@),
        decreases tables.len() - i,
    {
        assert(tm.skip(i as int).drop_first() =~= tm.skip(i + 1));
        let t = chars_of(tables[i].0.as_str());
        if chars_eq(&t, name) {
            return Some(&tables[i].1);
        }
        i = i + 1;
    }
    None
}

fn report_table(table: &Vec<char>, want: &Columns, got: Option<&Columns>, out: &mut Vec<String>)
    ensures
        strings_of(final(out)@) == strings_of(old(out)@) + table_report(
            table@,
            columns_m(want@),
            match got {
                Some(g) => Some(columns_m(g@)),
                None => None,
            },
        ),
{
    match got {
        None => {
            let mut line = chars_of("missing table ");
            push_all(&mut line, table);
            let ghost before = strings_of(out@);
            out.push(string_of(&line));
            assert(strings_of(out@) =~= before + seq!["missing table "@ + table@]);
        },
        Some(g) => {
            let ghost wm = columns_m(want@);
            let ghost gm = columns_m(g@);
            let ghost start = strings_of(out@);
            if !same_names(g, want) {
                let got_names = debug_names(g);
                let want_names = debug_names(want);
                let mut line = chars_of("table ");
                push_all(&mut line, table);
                let cols = chars_of(" columns ");
                push_all(&mut line, &cols);
                push_all(&mut line, &got_names);
                let neq = chars_of(" != ");
                push_all(&mut line, &neq);
                push_all(&mut line, &want_names);
                let ghost lv = line@;
                assert(lv =~= "table "@ + table@ + " columns "@ + debug_list(names_m(gm)) + " != "@
                    + debug_list(names_m(wm)));
                out.push(string_of(&line));
                assert(strings_of(out@) =~= start.push(lv));
            }
            let ghost mid = strings_of(out@);
            assert(mid =~= start + (if names_m(gm) != names_m(wm) {
                seq![
                    "table "@ + table@ + " columns "@ + debug_list(names_m(gm)) + " != "@
                        + debug_list(names_m(wm)),
                ]
            } else {
                Seq::<Seq<char>>::empty()
            }));
            let n = if want.len() < g.len() {
                want.len()
            } else {
                g.len()
            };
            let mut k: usize = 0;
            while k < n
                invariant
                    k <= n,
                    n <= want@.len(),
                    n <= g@.len(),
                    n == (if wm.len() < gm.len() {
                        wm.len()
                    } else {
                        gm.len()
                    }),
                    wm == columns_m(want@),
                    gm == columns_m(g@),
                    strings_of(out@) == mid + type_report(table@, wm, gm, k as nat),
                decreases n - k,
            {
                let wn = chars_of(want[k].0.as_str());
                let gn = chars_of(g[k].0.as_str());
                let wt = chars_of(want[k].1.as_str());
                let gt = chars_of(g[k].1.as_str());
                assert(wm[k as int] == (wn@, wt@));
                assert(gm[k as int] == (gn@, gt@));
                let ghost before = strings_of(out@);
                if chars_eq(&wn, &gn) && !same_ignoring_case(&wt, &gt) {
                    let gq = debug_quoted(&gt);
                    let wq = debug_quoted(&wt);
                    let gqc = chars_of(gq.as_str());
                    let wqc = chars_of(wq.as_str());
                    let mut line = chars_of("table ");
                    push_all(&mut line, table);
                    let col = chars_of(" column ");
                    push_all(&mut line, &col);
                    push_all(&mut line, &wn);
                    let ty = chars_of(" type ");
                    push_all(&mut line, &ty);
                    push_all(&mut line, &gqc);
                    let neq = chars_of(" != ");
                    push_all(&mut line, &neq);
                    push_all(&mut line, &wqc);
                    let ghost lv = line@;
                    assert(lv =~= "table "@ + table@ + " column "@ + wm[k as int].0 + " type "@
                        + debug_str(gm[k as int].1) + " != "@ + debug_str(wm[k as int].1));
                    out.push(string_of(&line));
                    assert(strings_of(out@) =~= before.push(lv));
                    assert(strings_of(out@) =~= mid + type_report(table@, wm, gm, (k + 1) as nat));
                } else {
                    assert(strings_of(out@) =~= mid + type_report(table@, wm, gm, (k + 1) as nat));
                }
                k = k + 1;
            }
            assert(strings_of(out@) =~= start + table_report(table@, wm, Some(gm)));
        },
    }
}

/// The view of a list of lines.
pub open spec fn strings_of(v: Seq<String>) -> Seq<Seq<char>> {
    v.map_values(|s: String| s@)
}

/// The drift report of a file's tables, `existing`, against `expected`:
/// for each expected table in order, that it is missing, that its column
/// names differ, or which same-named columns have another type; then each
/// table of the file, in order, that the store does not write, SQLite's
/// own tables aside.
pub fn schema_mismatches(expected: &Vec<(String, Columns)>, existing: &Vec<(String, Columns)>) -> (r: Vec<String>)
    ensures
        strings_of(r@) == mismatches_m(tables_m(expected@), tables_m(existing@)),
{
    let ghost em = tables_m(expected@);
    let ghost xm = tables_m(existing@);
    let mut out: Vec<String> = Vec::new();
    let mut i: usize = 0;
    assert(strings_of(out@) =~= Seq::<Seq<char>>::empty());
    while i < expected.len()
        invariant
            i <= expected@.len(),
            em == tables_m(expected@),
            xm == tables_m(existing@),
            strings_of(out@) == expected_report(em.take(i as int), xm),
        decreases expected.len() - i,
    {
        let name = chars_of(expected[i].0.as_str());
        let got = find_table(existing, &name);
        report_table(&name, &expected[i].1, got, &mut out);
        assert(em.take(i + 1).drop_last() =~= em.take(i as int));
        assert(em.take(i + 1).last() == em[i as int]);
        i = i + 1;
    }
    assert(em.take(em.len() as int) =~= em);
    let ghost head = strings_of(out@);
    let prefix = chars_of("sqlite_");
    let mut j: usize = 0;
    while j < existing.len()
        invariant
            j <= existing@.len(),
            em == tables_m(expected@),
            xm == tables_m(existing@),
            prefix@ == "sqlite_"@,
            strings_of(out@) == head + unexpected_report(em, xm.take(j as int)),
        decreases existing.len() - j,
    {
        let t = chars_of(existing[j].0.as_str());
        assert(xm.take(j + 1).drop_last() =~= xm.take(j as int));
        assert(xm.take(j + 1).last().0 == t@);
        let internal = t.len() >= 7 && crate::text::starts_with(&t, &prefix);
        assert(internal == internal_table(t@)) by {
            if t@.len() >= 7 {
                reveal_strlit("sqlite_");
                assert(crate::text::is_prefix(prefix@, t@) == (t@.take(7) =~= prefix@));
            }
        }
        if !internal && find_table(expected, &t).is_none() {
            let mut line = chars_of("unexpected table ");
            push_all(&mut line, &t);
            let ghost before = strings_of(out@);
            let ghost lv = line@;
            out.push(string_of(&line));
            assert(strings_of(out@) =~= before.push(lv));
        }
        j = j + 1;
    }
    assert(xm.take(xm.len() as int) =~= xm);
    out
}

fn table(name: &str, cols: &[(&str, &str)]) -> (r: (String, Columns))
    ensures
        r.0@ == name@,
        columns_m(r.1@) == cols@.map_values(|p: (&str, &str)| (p.0@, p.1@)),
{
    let mut out: Columns = Vec::new();
    let mut i: usize = 0;
    while i < cols.len()
        invariant
            i <= cols@.len(),
            columns_m(out@) == cols@.take(i as int).map_values(|p: (&str, &str)| (p.0@, p.1@)),
        decreases cols.len() - i,
    {
        let a = chars_of(cols[i].0);
        let b = chars_of(cols[i].1);
        let ghost before = columns_m(out@);
        let entry = (string_of(&a), string_of(&b));
        assert((entry.0@, entry.1@) == (cols@[i as int].0@, cols@[i as int].1@));
        out.push(entry);
        assert(columns_m(out@) =~= before.push((cols@[i as int].0@, cols@[i as int].1@)));
        assert(cols@.take(i + 1) =~= cols@.take(i as int).push(cols@[i as int]));
        assert(columns_m(out@) =~= cols@.take(i + 1).map_values(|p: (&str, &str)| (p.0@, p.1@)));
        i = i + 1;
    }
    assert(cols@.take(cols@.len() as int) =~= cols@);
    let n = chars_of(name);
    (string_of(&n), out)
}

/// The tables the store writes, with their columns in order.
pub fn store_schema() -> (r: Vec<(String, Columns)>)
    ensures
        r@.len() == 4,
        r@[0].0@ == "nodes"@,
        r@[1].0@ == "edges"@,
        r@[2].0@ == "desired_states"@,
        r@[3].0@ == "events"@,
        columns_m(r@[0].1@) == seq![
            ("id"@, "TEXT"@),
            ("vault_id"@, "TEXT"@),
            ("type"@, "TEXT"@),
            ("content_hash"@, "TEXT"@),
            ("path"@, "TEXT"@),
            ("version"@, "INTEGER"@),
            ("tier"@, "TEXT"@),
            ("importance"@, "REAL"@),
            ("htec_path"@, "TEXT"@),
            ("extra"@, "TEXT"@),
        ],
        columns_m(r@[1].1@) == seq![
            ("id"@, "TEXT"@),
            ("vault_id"@, "TEXT"@),
            ("from_id"@, "TEXT"@),
            ("to_id"@, "TEXT"@),
            ("to_raw"@, "TEXT"@),
            ("type"@, "TEXT"@),
            ("properties"@, "TEXT"@),
        ],
        columns_m(r@[2].1@) == seq![
            ("id"@, "TEXT"@),
            ("vault_id"@, "TEXT"@),
            ("name"@, "TEXT"@),
            ("state_version"@, "INTEGER"@),
            ("content_hash"@, "TEXT"@),
            ("last_reconciled"@, "INTEGER"@),
            ("reconciled_by"@, "TEXT"@),
            ("importance"@, "REAL"@),
            ("spec"@, "TEXT"@),
            ("status"@, "TEXT"@),
        ],
        columns_m(r@[3].1@) == seq![
            ("id"@, "TEXT"@),
            ("vault_id"@, "TEXT"@),
            ("ts"@, "INTEGER"@),
            ("actor"@, "TEXT"@),
            ("type"@, "TEXT"@),
            ("data"@, "TEXT"@),
            ("caused_by"@, "TEXT"@),
            ("reconciles"@, "TEXT"@),
            ("supersedes"@, "TEXT"@),
        ],
{
    let mut out: Vec<(String, Columns)> = Vec::new();
    out.push(
        table(
            "nodes",
            &[
                ("id", "TEXT"),
                ("vault_id", "TEXT"),
                ("type", "TEXT"),
                ("content_hash", "TEXT"),
                ("path", "TEXT"),
                ("version", "INTEGER"),
                ("tier", "TEXT"),
                ("importance", "REAL"),
                ("htec_path", "TEXT"),
                ("extra", "TEXT"),
            ],
        ),
    );
    out.push(
        table(
            "edges",
            &[
                ("id", "TEXT"),
                ("vault_id", "TEXT"),
                ("from_id", "TEXT"),
                ("to_id", "TEXT"),
                ("to_raw", "TEXT"),
                ("type", "TEXT"),
                ("properties", "TEXT"),
            ],
        ),
    );
    out.push(
        table(
            "desired_states",
            &[
                ("id", "TEXT"),
                ("vault_id", "TEXT"),
                ("name", "TEXT"),
                ("state_version", "INTEGER"),
                ("content_hash", "TEXT"),
                ("last_reconciled", "INTEGER"),
                ("reconciled_by", "TEXT"),
                ("importance", "REAL"),
                ("spec", "TEXT"),
                ("status", "TEXT"),
            ],
        ),
    );
    out.push(
        table(
            "events",
            &[
                ("id", "TEXT"),
                ("vault_id", "TEXT"),
                ("ts", "INTEGER"),
                ("actor", "TEXT"),
                ("type", "TEXT"),
                ("data", "TEXT"),
                ("caused_by", "TEXT"),
                ("reconciles", "TEXT"),
                ("supersedes", "TEXT"),
            ],
        ),
    );
    out
}

/// No table name occurs twice.
pub open spec fn distinct_tables(t: Seq<(Seq<char>, Seq<(Seq<char>, Seq<char>)>)>) -> bool {
    forall|i: int, j: int| 0 <= i < j < t.len() ==> t[i].0 != t[j].0
}

proof fn lemma_find_own(t: Seq<(Seq<char>, Seq<(Seq<char>, Seq<char>)>)>, i: int)
    requires
        distinct_tables(t),
        0 <= i < t.len(),
    ensures
        table_columns(t, t[i].0) == Some(t[i].1),
    decreases i,
{
    if i > 0 {
        assert(t[0].0 != t[i].0);
        let rest = t.drop_first();
        assert(distinct_tables(rest)) by {
            assert forall|a: int, b: int| 0 <= a < b < rest.len() implies rest[a].0 != rest[b].0 by {
                assert(rest[a] == t[a + 1] && rest[b] == t[b + 1]);
            }
        }
        lemma_find_own(rest, i - 1);
        assert(rest[i - 1] == t[i]);
    }
}

proof fn lemma_types_agree(table: Seq<char>, c: Seq<(Seq<char>, Seq<char>)>, k: nat)
    requires
        k <= c.len(),
    ensures
        type_report(table, c, c, k) == Seq::<Seq<char>>::empty(),
    decreases k,
{
    if k > 0 {
        lemma_types_agree(table, c, (k - 1) as nat);
        assert(eq_ignore_case(c[k - 1].1, c[k - 1].1));
    }
}

proof fn lemma_expected_clean(
    e: Seq<(Seq<char>, Seq<(Seq<char>, Seq<char>)>)>,
    all: Seq<(Seq<char>, Seq<(Seq<char>, Seq<char>)>)>,
    n: int,
)
    requires
        distinct_tables(all),
        0 <= n <= all.len(),
        e == all.take(n),
    ensures
        expected_report(e, all) == Seq::<Seq<char>>::empty(),
    decreases n,
{
    if n > 0 {
        assert(e.drop_last() =~= all.take(n - 1));
        lemma_expected_clean(e.drop_last(), all, n - 1);
        let t = e.last();
        assert(t == all[n - 1]);
        lemma_find_own(all, n - 1);
        lemma_types_agree(t.0, t.1, t.1.len());
        assert(table_report(t.0, t.1, Some(t.1)) =~= Seq::<Seq<char>>::empty());
        assert(expected_report(e, all) =~= Seq::<Seq<char>>::empty());
    }
}

proof fn lemma_nothing_unexpected(
    x: Seq<(Seq<char>, Seq<(Seq<char>, Seq<char>)>)>,
    all: Seq<(Seq<char>, Seq<(Seq<char>, Seq<char>)>)>,
    n: int,
)
    requires
        distinct_tables(all),
        0 <= n <= all.len(),
        x == all.take(n),
    ensures
        unexpected_report(all, x) == Seq::<Seq<char>>::empty(),
    decreases n,
{
    if n > 0 {
        assert(x.drop_last() =~= all.take(n - 1));
        lemma_nothing_unexpected(x.drop_last(), all, n - 1);
        lemma_find_own(all, n - 1);
        assert(x.last() == all[n - 1]);
    }
}

/// A file whose tables are exactly the expected ones, columns and types
/// included, has no drift.
pub proof fn law_exact_schema_has_no_drift(expected: Seq<(Seq<char>, Seq<(Seq<char>, Seq<char>)>)>)
    requires
        distinct_tables(expected),
    ensures
        mismatches_m(expected, expected) == Seq::<Seq<char>>::empty(),
{
    assert(expected.take(expected.len() as int) =~= expected);
    lemma_expected_clean(expected, expected, expected.len() as int);
    lemma_nothing_unexpected(expected, expected, expected.len() as int);
    assert(mismatches_m(expected, expected) =~= Seq::<Seq<char>>::empty());
}

} // verus!
