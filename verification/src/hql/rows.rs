//! What a row answers: its node, vault and edge ends, the cell for a
//! field, a projection, its columns, the text `search` scans; and the
//! history row of an event.

use vstd::prelude::*;

use crate::hql::row::{
    base_m, clone_columns, clone_opt, default_m, display_m, from_id_m, get_m, history_fields_m,
    lookup, node_field_m, node_m, opt_cell, opt_view, output_fields_m, project_m, searchable_m,
    state_fields_m, to_id_m, unwrap_text, vault_m, CellM, EdgeView, HistoryEventView, NodeM,
    NodeView, Row, RowM, Value, default_history_fields, default_output_fields,
    default_state_fields, cols_m, clone_opt_node, find_extra, strs_m,
};
use crate::text::{
    chars_eq, chars_of, copy_range, i64_text, int_text, is_lit, is_prefix, join, join_m, push_all,
    starts_with, string_of, strings_view, views_of,
};

verus! {

fn opt_chars(o: &Option<String>) -> (r: Vec<char>)
    ensures
        r@ == unwrap_text(opt_view(*o)),
{
    match o {
        Some(s) => chars_of(s.as_str()),
        None => Vec::new(),
    }
}

fn opt_value(o: &Option<String>) -> (r: Value)
    ensures
        r@ == opt_cell(opt_view(*o)),
{
    match o {
        Some(s) => Value::Str(s.clone()),
        None => Value::Null,
    }
}

fn node_field(node: &NodeView, f: &[char]) -> (r: Value)
    ensures
        r@ == node_field_m(node@, f@),
{
    let prefix = chars_of("extra.");
    if starts_with(f, &prefix) {
        let key = copy_range(f, prefix.len(), f.len());
        assert(key@ =~= f@.skip("extra."@.len() as int));
        return match find_extra(&node.extra_map, &key) {
            Some(i) => match &node.extra_map[i].1 {
                Some(s) => Value::Str(s.clone()),
                None => Value::Null,
            },
            None => Value::Null,
        };
    }
    if is_lit(f, "path") {
        opt_value(&node.path)
    } else if is_lit(f, "id") {
        Value::Str(node.id.clone())
    } else if is_lit(f, "vault_id") {
        Value::Str(node.vault_id.clone())
    } else if is_lit(f, "node_type") {
        Value::Str(node.node_type.clone())
    } else {
        Value::Null
    }
}

fn column_lookup(columns: &Vec<(String, Value)>, f: &[char]) -> (r: Value)
    ensures
        r@ == (match lookup(cols_m(columns@), f@) {
            Some(v) => v,
            None => CellM::Null,
        }),
{
    let ghost mm = cols_m(columns@);
    let mut i: usize = 0;
    assert(mm.skip(0) =~= mm);
    while i < columns.len()
        invariant
            i <= columns@.len() == mm.len(),
            mm == cols_m(columns@),
            lookup(mm, f@) == lookup(mm.skip(i as int), f@),
        decreases columns.len() - i,
    {
        let key = chars_of(columns[i].0.as_str());
        assert(mm.skip(i as int)[0] == mm[i as int]);
        if chars_eq(&key, f) {
            return columns[i].1.clone();
        }
        assert(mm.skip(i as int).drop_first() =~= mm.skip(i + 1));
        i = i + 1;
    }
    Value::Null
}

impl Row {
    pub fn node(&self) -> (r: Option<&NodeView>)
        ensures
            match r {
                Some(n) => node_m(self@) == Some(n@),
                None => node_m(self@) is None,
            },
        decreases self,
    {
        match self {
            Row::Node(node) => Some(node),
            Row::Walk { from, .. } => Some(from),
            Row::State { subject, .. } => match subject {
                Some(n) => Some(n),
                None => None,
            },
            Row::History { .. } => None,
            Row::Selected { source, .. } => {
                let inner: &Row = source;
                inner.node()
            },
        }
    }

    pub fn node_id(&self) -> (r: Option<&str>)
        ensures
            match r {
                Some(s) => node_m(self@) matches Some(n) && n.id == s@,
                None => node_m(self@) is None,
            },
    {
        match self.node() {
            Some(n) => Some(n.id.as_str()),
            None => None,
        }
    }

    pub fn node_type(&self) -> (r: Option<&str>)
        ensures
            match r {
                Some(s) => node_m(self@) matches Some(n) && n.node_type == s@,
                None => node_m(self@) is None,
            },
    {
        match self.node() {
            Some(n) => Some(n.node_type.as_str()),
            None => None,
        }
    }

    /// Vault the row belongs to.
    pub fn vault_id(&self) -> (r: Option<&str>)
        ensures
            match r {
                Some(s) => vault_m(self@) == Some(s@),
                None => vault_m(self@) is None,
            },
        decreases self,
    {
        match self {
            Row::State { ds, .. } => Some(ds.vault_id.as_str()),
            Row::History { event } => Some(event.vault_id.as_str()),
            Row::Selected { source, .. } => {
                let inner: &Row = source;
                inner.vault_id()
            },
            _ => match self.node() {
                Some(n) => Some(n.vault_id.as_str()),
                None => None,
            },
        }
    }

    pub fn to_id(&self) -> (r: Option<&str>)
        ensures
            match r {
                Some(s) => to_id_m(self@) == Some(s@),
                None => to_id_m(self@) is None,
            },
        decreases self,
    {
        match self {
            Row::Walk { edge, .. } => match &edge.to_id {
                Some(s) => Some(s.as_str()),
                None => None,
            },
            Row::Selected { source, .. } => {
                let inner: &Row = source;
                inner.to_id()
            },
            _ => None,
        }
    }

    pub fn from_id(&self) -> (r: Option<&str>)
        ensures
            match r {
                Some(s) => from_id_m(self@) == Some(s@),
                None => from_id_m(self@) is None,
            },
        decreases self,
    {
        match self {
            Row::Walk { edge, .. } => Some(edge.from_id.as_str()),
            Row::Selected { source, .. } => {
                let inner: &Row = source;
                inner.from_id()
            },
            _ => None,
        }
    }

    /// The column names of a selected row.
    pub fn selected_fields(&self) -> (r: Option<Vec<String>>)
        ensures
            match self@ {
                RowM::Selected { columns, .. } => r matches Some(v) && crate::text::strings_view(v@)
                    == columns.map_values(|c: (Seq<char>, CellM)| c.0),
                _ => r is None,
            },
    {
        match self {
            Row::Selected { columns, .. } => {
                let mut out: Vec<String> = Vec::new();
                let mut i: usize = 0;
                while i < columns.len()
                    invariant
                        i <= columns@.len(),
                        crate::text::strings_view(out@) == cols_m(columns@).take(i as int).map_values(
                            |c: (Seq<char>, CellM)| c.0,
                        ),
                    decreases columns.len() - i,
                {
                    let k = columns[i].0.clone();
                    let ghost before = out@;
                    out.push(k);
                    assert(crate::text::strings_view(out@) =~= crate::text::strings_view(before).push(
                        k@,
                    ));
                    assert(cols_m(columns@).take(i + 1) =~= cols_m(columns@).take(i as int).push(
                        cols_m(columns@)[i as int],
                    ));
                    assert(crate::text::strings_view(out@) =~= cols_m(columns@).take(
                        i + 1,
                    ).map_values(|c: (Seq<char>, CellM)| c.0));
                    i = i + 1;
                }
                assert(cols_m(columns@).take(columns@.len() as int) =~= cols_m(columns@));
                Some(out)
            },
            _ => None,
        }
    }

    fn get_chars(&self, f: &[char]) -> (r: Value)
        ensures
            r@ == get_m(self@, f@),
    {
        match self {
            Row::Selected { columns, .. } => column_lookup(columns, f),
            Row::Node(node) => node_field(node, f),
            Row::Walk { from, edge, to } => {
                if is_lit(f, "from_id") {
                    Value::Str(edge.from_id.clone())
                } else if is_lit(f, "from.path") {
                    opt_value(&from.path)
                } else if is_lit(f, "to_id") {
                    opt_value(&edge.to_id)
                } else if is_lit(f, "to_raw") {
                    opt_value(&edge.to_raw)
                } else if is_lit(f, "to.path") {
                    match to {
                        Some(dest) => opt_value(&dest.path),
                        None => Value::Null,
                    }
                } else if is_lit(f, "type") {
                    Value::Str(edge.edge_type.clone())
                } else {
                    node_field(from, f)
                }
            },
            Row::State { subject, ds } => {
                if is_lit(f, "id") {
                    Value::Str(ds.id.clone())
                } else if is_lit(f, "vault_id") {
                    Value::Str(ds.vault_id.clone())
                } else if is_lit(f, "name") {
                    Value::Str(ds.name.clone())
                } else if is_lit(f, "state_version") {
                    Value::Int(ds.state_version)
                } else if is_lit(f, "reconciled_by") {
                    opt_value(&ds.reconciled_by)
                } else if is_lit(f, "importance") {
                    Value::Float(ds.importance.clone())
                } else if is_lit(f, "spec") {
                    Value::Str(ds.spec.clone())
                } else if is_lit(f, "status") {
                    Value::Str(ds.status.clone())
                } else {
                    match subject {
                        Some(node) => node_field(node, f),
                        None => Value::Null,
                    }
                }
            },
            Row::History { event } => {
                if is_lit(f, "id") {
                    Value::Str(event.id.clone())
                } else if is_lit(f, "vault_id") {
                    Value::Str(event.vault_id.clone())
                } else if is_lit(f, "ts") {
                    Value::Int(event.ts)
                } else if is_lit(f, "actor") {
                    Value::Str(event.actor.clone())
                } else if is_lit(f, "type") {
                    Value::Str(event.event_type.clone())
                } else if is_lit(f, "caused_by") {
                    opt_value(&event.caused_by)
                } else if is_lit(f, "reconciles") {
                    opt_value(&event.reconciles)
                } else if is_lit(f, "supersedes") {
                    opt_value(&event.supersedes)
                } else {
                    Value::Null
                }
            },
        }
    }

    /// Cell for `field`. A selected row answers only for its columns.
    pub fn get(&self, field: &str) -> (r: Value)
        ensures
            r@ == get_m(self@, field@),
    {
        let f = chars_of(field);
        self.get_chars(&f)
    }

    /// `select fields`: fixed columns read from the row's source.
    pub fn project(&self, fields: &[String]) -> (r: Row)
        ensures
            r@ == project_m(self@, crate::text::strings_view(fields@)),
    {
        let source: &Row = match self {
            Row::Selected { source, .. } => source,
            other => other,
        };
        assert(source@ == base_m(self@));
        let ghost fs = crate::text::strings_view(fields@);
        let mut columns: Vec<(String, Value)> = Vec::new();
        let mut i: usize = 0;
        while i < fields.len()
            invariant
                i <= fields@.len() == fs.len(),
                fs == crate::text::strings_view(fields@),
                source@ == base_m(self@),
                cols_m(columns@) == fs.take(i as int).map_values(
                    |f: Seq<char>| (f, get_m(base_m(self@), f)),
                ),
            decreases fields.len() - i,
        {
            let name = fields[i].clone();
            let v = source.get(fields[i].as_str());
            let ghost before = columns@;
            columns.push((name, v));
            assert(fs.take(i + 1) =~= fs.take(i as int).push(fs[i as int]));
            assert(cols_m(columns@) =~= cols_m(before).push((name@, v@)));
            assert(cols_m(columns@) =~= fs.take(i + 1).map_values(
                |f: Seq<char>| (f, get_m(base_m(self@), f)),
            ));
            i = i + 1;
        }
        assert(fs.take(fs.len() as int) =~= fs);
        Row::Selected { columns, source: Box::new(source.clone()) }
    }

    /// Columns shown when nothing was selected.
    pub fn default_fields(&self) -> (r: &'static [&'static str])
        ensures
            strs_m(r@) == default_m(self@),
        decreases self,
    {
        match self {
            Row::History { .. } => default_history_fields(),
            Row::State { .. } => default_state_fields(),
            Row::Selected { source, .. } => {
                let inner: &Row = source;
                inner.default_fields()
            },
            _ => default_output_fields(),
        }
    }

    /// The row as `(field, cell)` pairs: a selected row's columns, else the
    /// given fields (or the defaults) read from the row.
    pub fn as_dict(&self, fields: Option<&[String]>) -> (r: Vec<(String, Value)>)
        ensures
            cols_m(r@) == (match self@ {
                RowM::Selected { columns, .. } => columns,
                _ => {
                    let fs = match fields {
                        Some(f) => crate::text::strings_view(f@),
                        None => default_m(self@),
                    };
                    fs.map_values(|f: Seq<char>| (f, get_m(self@, f)))
                },
            }),
    {
        if let Row::Selected { columns, .. } = self {
            return clone_columns(columns);
        }
        let owned: Vec<String> = match fields {
            Some(f) => {
                let mut v: Vec<String> = Vec::new();
                let mut i: usize = 0;
                while i < f.len()
                    invariant
                        i <= f@.len(),
                        crate::text::strings_view(v@) == crate::text::strings_view(f@).take(
                            i as int,
                        ),
                    decreases f.len() - i,
                {
                    let x = f[i].clone();
                    let ghost before = v@;
                    v.push(x);
                    assert(crate::text::strings_view(v@) =~= crate::text::strings_view(before).push(
                        x@,
                    ));
                    assert(crate::text::strings_view(v@) =~= crate::text::strings_view(f@).take(
                        i + 1,
                    ));
                    i = i + 1;
                }
                assert(crate::text::strings_view(f@).take(f@.len() as int)
                    =~= crate::text::strings_view(f@));
                v
            },
            None => {
                let d = self.default_fields();
                let mut v: Vec<String> = Vec::new();
                let mut i: usize = 0;
                while i < d.len()
                    invariant
                        i <= d@.len(),
                        crate::text::strings_view(v@) == strs_m(d@).take(i as int),
                    decreases d.len() - i,
                {
                    let c = chars_of(d[i]);
                    let x = string_of(&c);
                    let ghost before = v@;
                    v.push(x);
                    assert(crate::text::strings_view(v@) =~= crate::text::strings_view(before).push(
                        x@,
                    ));
                    assert(crate::text::strings_view(v@) =~= strs_m(d@).take(i + 1));
                    i = i + 1;
                }
                assert(strs_m(d@).take(d@.len() as int) =~= strs_m(d@));
                v
            },
        };
        let ghost fs = crate::text::strings_view(owned@);
        let mut out: Vec<(String, Value)> = Vec::new();
        let mut i: usize = 0;
        while i < owned.len()
            invariant
                i <= owned@.len() == fs.len(),
                fs == crate::text::strings_view(owned@),
                cols_m(out@) == fs.take(i as int).map_values(|f: Seq<char>| (f, get_m(self@, f))),
            decreases owned.len() - i,
        {
            let name = owned[i].clone();
            let v = self.get(owned[i].as_str());
            let ghost before = out@;
            out.push((name, v));
            assert(cols_m(out@) =~= cols_m(before).push((name@, v@)));
            assert(fs.take(i + 1) =~= fs.take(i as int).push(fs[i as int]));
            assert(cols_m(out@) =~= fs.take(i + 1).map_values(
                |f: Seq<char>| (f, get_m(self@, f)),
            ));
            i = i + 1;
        }
        assert(fs.take(fs.len() as int) =~= fs);
        out
    }

    /// What `search` scans: the node's path + extra, plus a walk's edge text.
    pub fn searchable_text(&self) -> (r: String)
        ensures
            r@ == searchable_m(self@),
        decreases self,
    {
        let (to_raw, properties): (Vec<char>, Vec<char>) = match self {
            Row::Walk { edge, .. } => (opt_chars(&edge.to_raw), chars_of(edge.properties.as_str())),
            Row::Selected { source, .. } => {
                let inner: &Row = source;
                return inner.searchable_text();
            },
            _ => (Vec::new(), Vec::new()),
        };
        let (path, extra): (Vec<char>, Vec<char>) = match self.node() {
            Some(node) => (opt_chars(&node.path), chars_of(node.extra.as_str())),
            None => (Vec::new(), Vec::new()),
        };
        let mut out: Vec<char> = Vec::new();
        push_all(&mut out, &path);
        out.push('\n');
        push_all(&mut out, &extra);
        out.push('\n');
        push_all(&mut out, &to_raw);
        out.push('\n');
        push_all(&mut out, &properties);
        assert(out@ =~= searchable_m(self@));
        string_of(&out)
    }
}

/// The causes of an event as a history row shows them: their ids joined by
/// commas, or nothing when there are none.
pub open spec fn causes_text(caused_by: Seq<Seq<char>>) -> Option<Seq<char>> {
    if caused_by.len() == 0 {
        None
    } else {
        Some(join_m(caused_by, seq![',']))
    }
}

/// The history row of an event row; its data is left behind.
pub fn history_row(
    id: String,
    vault_id: String,
    ts: i64,
    actor: String,
    event_type: String,
    caused_by: &Vec<String>,
    reconciles: Option<String>,
    supersedes: Option<String>,
) -> (r: HistoryEventView)
    ensures
        r.id@ == id@,
        r.vault_id@ == vault_id@,
        r.ts == ts,
        r.actor@ == actor@,
        r.event_type@ == event_type@,
        opt_view(r.caused_by) == causes_text(strings_view(caused_by@)),
        opt_view(r.reconciles) == opt_view(reconciles),
        opt_view(r.supersedes) == opt_view(supersedes),
{
    let causes = if caused_by.len() == 0 {
        None
    } else {
        let mut parts: Vec<Vec<char>> = Vec::new();
        let mut i: usize = 0;
        while i < caused_by.len()
            invariant
                i <= caused_by@.len(),
                views_of(parts@) == strings_view(caused_by@).take(i as int),
            decreases caused_by.len() - i,
        {
            let c = chars_of(caused_by[i].as_str());
            let ghost before = views_of(parts@);
            let ghost cv = c@;
            assert(cv == strings_view(caused_by@)[i as int]);
            parts.push(c);
            assert(views_of(parts@) =~= before.push(cv));
            assert(strings_view(caused_by@).take(i + 1) =~= strings_view(caused_by@).take(i as int).push(cv));
            i = i + 1;
        }
        assert(strings_view(caused_by@).take(caused_by@.len() as int) =~= strings_view(caused_by@));
        let comma: Vec<char> = vec![','];
        assert(comma@ =~= seq![',']);
        let joined = join(&parts, &comma);
        Some(string_of(&joined))
    };
    HistoryEventView { id, vault_id, ts, actor, event_type, caused_by: causes, reconciles, supersedes }
}

} // verus!
