//! Typed query rows. Each variant owns exactly the fields it can answer for;
//! nothing falls back from one kind to another.

use vstd::prelude::*;

use crate::text::{
    chars_eq, chars_of, copy_range, i64_text, int_text, is_lit, is_prefix, join, join_m, push_all,
    starts_with, string_of, strings_view, views_of,
};

verus! {

/// Scalar cell. Missing extra keys and absent fields are `Null`. A float cell
/// carries the text that the store's number renders to.
#[derive(Debug)]
pub enum Value {
    Null,
    Str(String),
    Int(i64),
    Float(String),
}

/// What a cell holds, as characters.
pub enum CellM {
    Null,
    Str(Seq<char>),
    Int(i64),
    Float(Seq<char>),
}

impl View for Value {
    type V = CellM;

    open spec fn view(&self) -> CellM {
        match self {
            Value::Null => CellM::Null,
            Value::Str(s) => CellM::Str(s@),
            Value::Int(n) => CellM::Int(*n),
            Value::Float(t) => CellM::Float(t@),
        }
    }
}

/// The characters of an optional string.
pub open spec fn opt_view(o: Option<String>) -> Option<Seq<char>> {
    match o {
        Some(s) => Some(s@),
        None => None,
    }
}

/// The text a cell displays as: empty for `Null`, decimal for integers.
pub open spec fn display_m(v: CellM) -> Seq<char> {
    match v {
        CellM::Null => Seq::empty(),
        CellM::Str(s) => s,
        CellM::Int(n) => int_text(n as int),
        CellM::Float(t) => t,
    }
}

pub fn clone_opt(o: &Option<String>) -> (r: Option<String>)
    ensures
        opt_view(r) == opt_view(*o),
{
    match o {
        Some(s) => Some(s.clone()),
        None => None,
    }
}

impl Clone for Value {
    fn clone(&self) -> (r: Self)
        ensures
            r@ == self@,
    {
        match self {
            Value::Null => Value::Null,
            Value::Str(s) => Value::Str(s.clone()),
            Value::Int(n) => Value::Int(*n),
            Value::Float(t) => Value::Float(t.clone()),
        }
    }
}

impl Value {
    pub fn is_null(&self) -> (r: bool)
        ensures
            r == (self@ is Null),
    {
        match self {
            Value::Null => true,
            _ => false,
        }
    }

    pub fn as_str(&self) -> (r: Option<&str>)
        ensures
            r is Some <==> self@ is Str,
            r matches Some(s) ==> self@ == CellM::Str(s@),
    {
        match self {
            Value::Str(s) => Some(s.as_str()),
            _ => None,
        }
    }

    /// The cell as text; `Null` is empty.
    pub fn to_display(&self) -> (r: String)
        ensures
            r@ == display_m(self@),
    {
        match self {
            Value::Null => string_of(&[]),
            Value::Str(s) => s.clone(),
            Value::Int(n) => string_of(&i64_text(*n)),
            Value::Float(t) => t.clone(),
        }
    }

    /// The text a filter compares a present value by.
    pub fn py_str(&self) -> (r: String)
        ensures
            r@ == display_m(self@),
    {
        self.to_display()
    }
}

/// `nodes.extra` as a map from key to rendered value (`None` for a YAML null).
pub type ExtraMap = Vec<(String, Option<String>)>;

/// The characters of an extra map's entries.
pub open spec fn extra_m(m: Seq<(String, Option<String>)>) -> Seq<(Seq<char>, Option<Seq<char>>)> {
    m.map_values(|p: (String, Option<String>)| (p.0@, opt_view(p.1)))
}

/// The value of the first entry with key `k`.
pub open spec fn lookup<V>(m: Seq<(Seq<char>, V)>, k: Seq<char>) -> Option<V>
    decreases m.len(),
{
    if m.len() == 0 {
        None
    } else if m[0].0 == k {
        Some(m[0].1)
    } else {
        lookup(m.drop_first(), k)
    }
}

/// Index of the first entry with key `k`.
pub fn find_extra(m: &ExtraMap, k: &[char]) -> (r: Option<usize>)
    ensures
        match r {
            Some(i) => i < m@.len() && lookup(extra_m(m@), k@) == Some(opt_view(m@[i as int].1)),
            None => lookup(extra_m(m@), k@) is None,
        },
{
    let ghost mm = extra_m(m@);
    let mut i: usize = 0;
    assert(mm.skip(0) =~= mm);
    while i < m.len()
        invariant
            i <= m@.len() == mm.len(),
            mm == extra_m(m@),
            lookup(mm, k@) == lookup(mm.skip(i as int), k@),
        decreases m.len() - i,
    {
        let key = chars_of(m[i].0.as_str());
        assert(mm.skip(i as int)[0] == mm[i as int]);
        if chars_eq(&key, k) {
            return Some(i);
        }
        assert(mm.skip(i as int).drop_first() =~= mm.skip(i + 1));
        i = i + 1;
    }
    None
}

pub fn clone_extra(m: &ExtraMap) -> (r: ExtraMap)
    ensures
        extra_m(r@) == extra_m(m@),
{
    let mut r: ExtraMap = Vec::new();
    let mut i: usize = 0;
    while i < m.len()
        invariant
            i <= m@.len(),
            extra_m(r@) == extra_m(m@).take(i as int),
        decreases m.len() - i,
    {
        let k = m[i].0.clone();
        let v = clone_opt(&m[i].1);
        let ghost before = r@;
        r.push((k, v));
        assert(extra_m(r@) =~= extra_m(before).push((k@, opt_view(v))));
        assert(extra_m(m@).take(i + 1) =~= extra_m(m@).take(i as int).push(extra_m(m@)[i as int]));
        i = i + 1;
    }
    assert(extra_m(m@).take(m@.len() as int) =~= extra_m(m@));
    r
}

/// A `nodes` row.
#[derive(Debug)]
pub struct NodeView {
    pub id: String,
    pub vault_id: String,
    pub node_type: String,
    pub path: Option<String>,
    pub extra: String,
    pub extra_map: ExtraMap,
}

pub struct NodeM {
    pub id: Seq<char>,
    pub vault_id: Seq<char>,
    pub node_type: Seq<char>,
    pub path: Option<Seq<char>>,
    pub extra: Seq<char>,
    pub extra_map: Seq<(Seq<char>, Option<Seq<char>>)>,
}

impl View for NodeView {
    type V = NodeM;

    open spec fn view(&self) -> NodeM {
        NodeM {
            id: self.id@,
            vault_id: self.vault_id@,
            node_type: self.node_type@,
            path: opt_view(self.path),
            extra: self.extra@,
            extra_map: extra_m(self.extra_map@),
        }
    }
}

impl Clone for NodeView {
    fn clone(&self) -> (r: Self)
        ensures
            r@ == self@,
    {
        NodeView {
            id: self.id.clone(),
            vault_id: self.vault_id.clone(),
            node_type: self.node_type.clone(),
            path: clone_opt(&self.path),
            extra: self.extra.clone(),
            extra_map: clone_extra(&self.extra_map),
        }
    }
}

impl NodeView {
    /// The rendered value of extra key `key`; `None` when missing or null.
    pub fn extra_get(&self, key: &str) -> (r: Option<&str>)
        ensures
            match lookup(self@.extra_map, key@) {
                Some(Some(v)) => r matches Some(s) && s@ == v,
                _ => r is None,
            },
    {
        let k = chars_of(key);
        match find_extra(&self.extra_map, &k) {
            Some(i) => match &self.extra_map[i].1 {
                Some(s) => Some(s.as_str()),
                None => None,
            },
            None => None,
        }
    }
}

/// An `edges` row.
#[derive(Debug)]
pub struct EdgeView {
    pub id: String,
    pub from_id: String,
    pub to_id: Option<String>,
    pub to_raw: Option<String>,
    pub edge_type: String,
    pub properties: String,
}

pub struct EdgeM {
    pub id: Seq<char>,
    pub from_id: Seq<char>,
    pub to_id: Option<Seq<char>>,
    pub to_raw: Option<Seq<char>>,
    pub edge_type: Seq<char>,
    pub properties: Seq<char>,
}

impl View for EdgeView {
    type V = EdgeM;

    open spec fn view(&self) -> EdgeM {
        EdgeM {
            id: self.id@,
            from_id: self.from_id@,
            to_id: opt_view(self.to_id),
            to_raw: opt_view(self.to_raw),
            edge_type: self.edge_type@,
            properties: self.properties@,
        }
    }
}

impl Clone for EdgeView {
    fn clone(&self) -> (r: Self)
        ensures
            r@ == self@,
    {
        EdgeView {
            id: self.id.clone(),
            from_id: self.from_id.clone(),
            to_id: clone_opt(&self.to_id),
            to_raw: clone_opt(&self.to_raw),
            edge_type: self.edge_type.clone(),
            properties: self.properties.clone(),
        }
    }
}

/// Warm `desired_states` row. Never carries events. `importance` is the
/// text the stored number renders to.
#[derive(Debug)]
pub struct DesiredStateView {
    pub id: String,
    pub vault_id: String,
    pub name: String,
    pub state_version: i64,
    pub reconciled_by: Option<String>,
    pub importance: String,
    pub spec: String,
    pub status: String,
}

pub struct StateM {
    pub id: Seq<char>,
    pub vault_id: Seq<char>,
    pub name: Seq<char>,
    pub state_version: i64,
    pub reconciled_by: Option<Seq<char>>,
    pub importance: Seq<char>,
    pub spec: Seq<char>,
    pub status: Seq<char>,
}

impl View for DesiredStateView {
    type V = StateM;

    open spec fn view(&self) -> StateM {
        StateM {
            id: self.id@,
            vault_id: self.vault_id@,
            name: self.name@,
            state_version: self.state_version,
            reconciled_by: opt_view(self.reconciled_by),
            importance: self.importance@,
            spec: self.spec@,
            status: self.status@,
        }
    }
}

impl Clone for DesiredStateView {
    fn clone(&self) -> (r: Self)
        ensures
            r@ == self@,
    {
        DesiredStateView {
            id: self.id.clone(),
            vault_id: self.vault_id.clone(),
            name: self.name.clone(),
            state_version: self.state_version,
            reconciled_by: clone_opt(&self.reconciled_by),
            importance: self.importance.clone(),
            spec: self.spec.clone(),
            status: self.status.clone(),
        }
    }
}

/// Cool `events` row. Drops `data`; never carries spec / status.
#[derive(Debug)]
pub struct HistoryEventView {
    pub id: String,
    pub vault_id: String,
    pub ts: i64,
    pub actor: String,
    pub event_type: String,
    pub caused_by: Option<String>,
    pub reconciles: Option<String>,
    pub supersedes: Option<String>,
}

pub struct EventM {
    pub id: Seq<char>,
    pub vault_id: Seq<char>,
    pub ts: i64,
    pub actor: Seq<char>,
    pub event_type: Seq<char>,
    pub caused_by: Option<Seq<char>>,
    pub reconciles: Option<Seq<char>>,
    pub supersedes: Option<Seq<char>>,
}

impl View for HistoryEventView {
    type V = EventM;

    open spec fn view(&self) -> EventM {
        EventM {
            id: self.id@,
            vault_id: self.vault_id@,
            ts: self.ts,
            actor: self.actor@,
            event_type: self.event_type@,
            caused_by: opt_view(self.caused_by),
            reconciles: opt_view(self.reconciles),
            supersedes: opt_view(self.supersedes),
        }
    }
}

impl Clone for HistoryEventView {
    fn clone(&self) -> (r: Self)
        ensures
            r@ == self@,
    {
        HistoryEventView {
            id: self.id.clone(),
            vault_id: self.vault_id.clone(),
            ts: self.ts,
            actor: self.actor.clone(),
            event_type: self.event_type.clone(),
            caused_by: clone_opt(&self.caused_by),
            reconciles: clone_opt(&self.reconciles),
            supersedes: clone_opt(&self.supersedes),
        }
    }
}


/// The characters of each static string.
pub open spec fn strs_m(v: Seq<&'static str>) -> Seq<Seq<char>> {
    v.map_values(|s: &'static str| s@)
}

/// Columns shown for node and walk rows when nothing was selected.
pub open spec fn output_fields_m() -> Seq<Seq<char>> {
    seq!["path"@, "from.path"@, "to.path"@, "to_id"@, "to_raw"@, "from_id"@]
}

/// Warm default columns: identity and version; spec / status only on request.
pub open spec fn state_fields_m() -> Seq<Seq<char>> {
    seq!["path"@, "name"@, "state_version"@, "reconciled_by"@, "importance"@, "id"@]
}

/// Cool default columns: event metadata only; no spec / status / data.
pub open spec fn history_fields_m() -> Seq<Seq<char>> {
    seq!["id"@, "ts"@, "actor"@, "type"@, "caused_by"@, "reconciles"@, "supersedes"@]
}

pub fn default_output_fields() -> (r: &'static [&'static str])
    ensures
        strs_m(r@) == output_fields_m(),
{
    let r: &'static [&'static str] = &["path", "from.path", "to.path", "to_id", "to_raw", "from_id"];
    assert(strs_m(r@) =~= output_fields_m());
    r
}


pub fn default_state_fields() -> (r: &'static [&'static str])
    ensures
        strs_m(r@) == state_fields_m(),
{
    let r: &'static [&'static str] = &[
        "path",
        "name",
        "state_version",
        "reconciled_by",
        "importance",
        "id",
    ];
    assert(strs_m(r@) =~= state_fields_m());
    r
}

pub fn default_history_fields() -> (r: &'static [&'static str])
    ensures
        strs_m(r@) == history_fields_m(),
{
    let r: &'static [&'static str] = &[
        "id",
        "ts",
        "actor",
        "type",
        "caused_by",
        "reconciles",
        "supersedes",
    ];
    assert(strs_m(r@) =~= history_fields_m());
    r
}

/// One pipeline row.
#[derive(Debug)]
pub enum Row {
    Node(NodeView),
    /// One traverse step: `from` node, the edge, and the resolved `to` node.
    Walk { from: NodeView, edge: EdgeView, to: Option<NodeView> },
    /// Warm overlay: a named desired state, optionally under the Agent / Vault
    /// node that selected it.
    State { subject: Option<NodeView>, ds: DesiredStateView },
    /// Cool: one causal event.
    History { event: HistoryEventView },
    /// Output of `select`: fixed columns over `source`; later stages still see
    /// the source node for traverse / search.
    Selected { columns: Vec<(String, Value)>, source: Box<Row> },
}

pub enum RowM {
    Node(NodeM),
    Walk { from: NodeM, edge: EdgeM, to: Option<NodeM> },
    State { subject: Option<NodeM>, ds: StateM },
    History { event: EventM },
    Selected { columns: Seq<(Seq<char>, CellM)>, source: Box<RowM> },
}

pub open spec fn opt_node_m(o: Option<NodeView>) -> Option<NodeM> {
    match o {
        Some(n) => Some(n@),
        None => None,
    }
}

pub open spec fn cols_m(c: Seq<(String, Value)>) -> Seq<(Seq<char>, CellM)> {
    c.map_values(|p: (String, Value)| (p.0@, p.1@))
}

pub open spec fn row_m(r: Row) -> RowM
    decreases r,
{
    match r {
        Row::Node(n) => RowM::Node(n@),
        Row::Walk { from, edge, to } => RowM::Walk { from: from@, edge: edge@, to: opt_node_m(to) },
        Row::State { subject, ds } => RowM::State { subject: opt_node_m(subject), ds: ds@ },
        Row::History { event } => RowM::History { event: event@ },
        Row::Selected { columns, source } => RowM::Selected {
            columns: cols_m(columns@),
            source: Box::new(row_m(*source)),
        },
    }
}

impl View for Row {
    type V = RowM;

    open spec fn view(&self) -> RowM {
        row_m(*self)
    }
}

pub fn clone_opt_node(o: &Option<NodeView>) -> (r: Option<NodeView>)
    ensures
        opt_node_m(r) == opt_node_m(*o),
{
    match o {
        Some(n) => Some(n.clone()),
        None => None,
    }
}

pub fn clone_columns(c: &Vec<(String, Value)>) -> (r: Vec<(String, Value)>)
    ensures
        cols_m(r@) == cols_m(c@),
{
    let mut r: Vec<(String, Value)> = Vec::new();
    let mut i: usize = 0;
    while i < c.len()
        invariant
            i <= c@.len(),
            cols_m(r@) == cols_m(c@).take(i as int),
        decreases c.len() - i,
    {
        let k = c[i].0.clone();
        let v = c[i].1.clone();
        let ghost before = r@;
        r.push((k, v));
        assert(cols_m(r@) =~= cols_m(before).push((k@, v@)));
        assert(cols_m(c@).take(i + 1) =~= cols_m(c@).take(i as int).push(cols_m(c@)[i as int]));
        i = i + 1;
    }
    assert(cols_m(c@).take(c@.len() as int) =~= cols_m(c@));
    r
}

impl Clone for Row {
    fn clone(&self) -> (r: Self)
        ensures
            r@ == self@,
        decreases self,
    {
        match self {
            Row::Node(n) => Row::Node(n.clone()),
            Row::Walk { from, edge, to } => Row::Walk {
                from: from.clone(),
                edge: edge.clone(),
                to: clone_opt_node(to),
            },
            Row::State { subject, ds } => Row::State {
                subject: clone_opt_node(subject),
                ds: ds.clone(),
            },
            Row::History { event } => Row::History { event: event.clone() },
            Row::Selected { columns, source } => {
                let inner: &Row = source;
                let copy = inner.clone();
                Row::Selected { columns: clone_columns(columns), source: Box::new(copy) }
            },
        }
    }
}

/// The node a row stands on: the node itself, a walk's `from`, a state's
/// subject; history rows stand on nothing.
pub open spec fn node_m(r: RowM) -> Option<NodeM>
    decreases r,
{
    match r {
        RowM::Node(n) => Some(n),
        RowM::Walk { from, .. } => Some(from),
        RowM::State { subject, .. } => subject,
        RowM::History { .. } => None,
        RowM::Selected { source, .. } => node_m(*source),
    }
}

/// The vault a row belongs to.
pub open spec fn vault_m(r: RowM) -> Option<Seq<char>>
    decreases r,
{
    match r {
        RowM::State { ds, .. } => Some(ds.vault_id),
        RowM::History { event } => Some(event.vault_id),
        RowM::Selected { source, .. } => vault_m(*source),
        _ => match node_m(r) {
            Some(n) => Some(n.vault_id),
            None => None,
        },
    }
}

pub open spec fn to_id_m(r: RowM) -> Option<Seq<char>>
    decreases r,
{
    match r {
        RowM::Walk { edge, .. } => edge.to_id,
        RowM::Selected { source, .. } => to_id_m(*source),
        _ => None,
    }
}

pub open spec fn from_id_m(r: RowM) -> Option<Seq<char>>
    decreases r,
{
    match r {
        RowM::Walk { edge, .. } => Some(edge.from_id),
        RowM::Selected { source, .. } => from_id_m(*source),
        _ => None,
    }
}

pub open spec fn opt_cell(o: Option<Seq<char>>) -> CellM {
    match o {
        Some(s) => CellM::Str(s),
        None => CellM::Null,
    }
}

/// A node's answer for `field`: `extra.KEY` reads the extra map; `path`,
/// `id`, `vault_id`, `node_type` read the row; anything else is null.
pub open spec fn node_field_m(n: NodeM, f: Seq<char>) -> CellM {
    if is_prefix("extra."@, f) {
        match lookup(n.extra_map, f.skip("extra."@.len() as int)) {
            Some(Some(s)) => CellM::Str(s),
            _ => CellM::Null,
        }
    } else if f == "path"@ {
        opt_cell(n.path)
    } else if f == "id"@ {
        CellM::Str(n.id)
    } else if f == "vault_id"@ {
        CellM::Str(n.vault_id)
    } else if f == "node_type"@ {
        CellM::Str(n.node_type)
    } else {
        CellM::Null
    }
}

/// The cell a row answers for `f`. A selected row answers only for its
/// columns; a history row only for event metadata.
pub open spec fn get_m(r: RowM, f: Seq<char>) -> CellM {
    match r {
        RowM::Selected { columns, .. } => match lookup(columns, f) {
            Some(v) => v,
            None => CellM::Null,
        },
        RowM::Node(n) => node_field_m(n, f),
        RowM::Walk { from, edge, to } => if f == "from_id"@ {
            CellM::Str(edge.from_id)
        } else if f == "from.path"@ {
            opt_cell(from.path)
        } else if f == "to_id"@ {
            opt_cell(edge.to_id)
        } else if f == "to_raw"@ {
            opt_cell(edge.to_raw)
        } else if f == "to.path"@ {
            match to {
                Some(d) => opt_cell(d.path),
                None => CellM::Null,
            }
        } else if f == "type"@ {
            CellM::Str(edge.edge_type)
        } else {
            node_field_m(from, f)
        },
        RowM::State { subject, ds } => if f == "id"@ {
            CellM::Str(ds.id)
        } else if f == "vault_id"@ {
            CellM::Str(ds.vault_id)
        } else if f == "name"@ {
            CellM::Str(ds.name)
        } else if f == "state_version"@ {
            CellM::Int(ds.state_version)
        } else if f == "reconciled_by"@ {
            opt_cell(ds.reconciled_by)
        } else if f == "importance"@ {
            CellM::Float(ds.importance)
        } else if f == "spec"@ {
            CellM::Str(ds.spec)
        } else if f == "status"@ {
            CellM::Str(ds.status)
        } else {
            match subject {
                Some(n) => node_field_m(n, f),
                None => CellM::Null,
            }
        },
        RowM::History { event } => if f == "id"@ {
            CellM::Str(event.id)
        } else if f == "vault_id"@ {
            CellM::Str(event.vault_id)
        } else if f == "ts"@ {
            CellM::Int(event.ts)
        } else if f == "actor"@ {
            CellM::Str(event.actor)
        } else if f == "type"@ {
            CellM::Str(event.event_type)
        } else if f == "caused_by"@ {
            opt_cell(event.caused_by)
        } else if f == "reconciles"@ {
            opt_cell(event.reconciles)
        } else if f == "supersedes"@ {
            opt_cell(event.supersedes)
        } else {
            CellM::Null
        },
    }
}

/// The row a projection reads from: a selected row's source, else the row.
pub open spec fn base_m(r: RowM) -> RowM {
    match r {
        RowM::Selected { source, .. } => *source,
        _ => r,
    }
}

/// `select fields` over `r`.
pub open spec fn project_m(r: RowM, fields: Seq<Seq<char>>) -> RowM {
    RowM::Selected {
        columns: fields.map_values(|f: Seq<char>| (f, get_m(base_m(r), f))),
        source: Box::new(base_m(r)),
    }
}

/// Columns shown when nothing was selected.
pub open spec fn default_m(r: RowM) -> Seq<Seq<char>>
    decreases r,
{
    match r {
        RowM::History { .. } => history_fields_m(),
        RowM::State { .. } => state_fields_m(),
        RowM::Selected { source, .. } => default_m(*source),
        _ => output_fields_m(),
    }
}

pub open spec fn unwrap_text(o: Option<Seq<char>>) -> Seq<char> {
    match o {
        Some(s) => s,
        None => Seq::empty(),
    }
}

/// What `search` scans: the node's path and extra, plus a walk's edge text,
/// joined by newlines.
pub open spec fn searchable_m(r: RowM) -> Seq<char>
    decreases r,
{
    match r {
        RowM::Selected { source, .. } => searchable_m(*source),
        _ => {
            let to_raw = match r {
                RowM::Walk { edge, .. } => unwrap_text(edge.to_raw),
                _ => Seq::empty(),
            };
            let props = match r {
                RowM::Walk { edge, .. } => edge.properties,
                _ => Seq::empty(),
            };
            let path = match node_m(r) {
                Some(n) => unwrap_text(n.path),
                None => Seq::empty(),
            };
            let extra = match node_m(r) {
                Some(n) => n.extra,
                None => Seq::empty(),
            };
            path + seq!['\n'] + extra + seq!['\n'] + to_raw + seq!['\n'] + props
        },
    }
}

} // verus!
