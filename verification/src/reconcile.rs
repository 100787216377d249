//! Kind-dispatched reconcilers.
//!
//! The store persists, isolates, versions and appends events; a reconciler
//! only turns the vault's documents and a spec into an observation. Which
//! one runs is decided by the spec's `kind`.

use vstd::prelude::*;

use crate::error::{Error, Result};
use crate::hql::ops::{keep, lemma_keep_step};
use crate::hql::yaml::Yaml;
use crate::text::{chars_of, debug_quoted, debug_str, is_lit, join, join_m, push_all, string_of, strings_view, views_of};
use crate::types::{as_str, str_of, untag, untag_ref, Condition, ConditionKind, DocsEodSpec, NodeType, Status};

verus! {

/// The `kind` of a spec that `DocsEod` handles.
pub const DOCS_EOD_KIND: &'static str = "docs_eod";

/// What a reconciler reads of a node: its id, its type and its extra
/// document.
#[derive(Debug)]
pub struct NodeFacts {
    pub id: u128,
    pub node_type: NodeType,
    pub extra: Yaml,
}

/// What a reconciler saw: the status to persist and the ids of the documents
/// that produced it.
#[derive(Debug)]
pub struct Observation {
    pub status: Status,
    pub caused_by: Vec<u128>,
}

/// Whether a value is the string `k`.
pub open spec fn is_str(y: Yaml, k: Seq<char>) -> bool {
    match y {
        Yaml::Str(s) => s@ == k,
        _ => false,
    }
}

/// The value of the first entry whose key is the string `k`.
pub open spec fn entry_value(pairs: Seq<(Yaml, Yaml)>, k: Seq<char>) -> Option<Yaml>
    decreases pairs.len(),
{
    if pairs.len() == 0 {
        None
    } else if is_str(pairs[0].0, k) {
        Some(pairs[0].1)
    } else {
        entry_value(pairs.drop_first(), k)
    }
}

/// `value.get(k)`: the value under the string key `k` of a mapping, tags
/// removed; nothing for any other value.
pub open spec fn yaml_get(y: Yaml, k: Seq<char>) -> Option<Yaml> {
    match untag(y) {
        Yaml::Mapping(pairs) => entry_value(pairs@, k),
        _ => None,
    }
}

/// The string under key `k`, when there is one.
pub open spec fn str_field(y: Yaml, k: Seq<char>) -> Option<Seq<char>> {
    match yaml_get(y, k) {
        Some(v) => str_of(v),
        None => None,
    }
}

fn entry_index(pairs: &Vec<(Yaml, Yaml)>, k: &[char]) -> (r: Option<usize>)
    ensures
        match r {
            Some(i) => i < pairs@.len() && entry_value(pairs@, k@) == Some(pairs@[i as int].1),
            None => entry_value(pairs@, k@) is None,
        },
{
    let mut i: usize = 0;
    assert(pairs@.skip(0) =~= pairs@);
    while i < pairs.len()
        invariant
            i <= pairs@.len(),
            entry_value(pairs@, k@) == entry_value(pairs@.skip(i as int), k@),
        decreases pairs.len() - i,
    {
        assert(pairs@.skip(i as int).drop_first() =~= pairs@.skip(i + 1));
        let hit = match &pairs[i].0 {
            Yaml::Str(s) => {
                let c = chars_of(s.as_str());
                crate::text::chars_eq(&c, k)
            },
            _ => false,
        };
        if hit {
            return Some(i);
        }
        i = i + 1;
    }
    None
}

/// `value.get(k)`.
pub fn yaml_get_exec<'a>(y: &'a Yaml, k: &str) -> (r: Option<&'a Yaml>)
    ensures
        match r {
            Some(v) => yaml_get(*y, k@) == Some(*v),
            None => yaml_get(*y, k@) is None,
        },
{
    match untag_ref(y) {
        Yaml::Mapping(pairs) => {
            let kc = chars_of(k);
            match entry_index(pairs, &kc) {
                Some(i) => Some(&pairs[i].1),
                None => None,
            }
        },
        _ => None,
    }
}

/// `value.get(k).and_then(Value::as_str)`.
pub fn str_field_exec<'a>(y: &'a Yaml, k: &str) -> (r: Option<&'a str>)
    ensures
        match r {
            Some(s) => str_field(*y, k@) == Some(s@),
            None => str_field(*y, k@) is None,
        },
{
    match yaml_get_exec(y, k) {
        Some(v) => as_str(v),
        None => None,
    }
}

/// The brief a document answers for a spec: a document whose `extra.brief`
/// is one of the required names and whose `extra.date` is the spec's date.
pub open spec fn brief_of(doc: NodeFacts, date: Seq<char>, required: Seq<Seq<char>>) -> Option<Seq<char>> {
    if doc.node_type != NodeType::Document {
        None
    } else {
        match str_field(doc.extra, "brief"@) {
            Some(b) => if str_field(doc.extra, "date"@) == Some(date) && required.contains(b) {
                Some(b)
            } else {
                None
            },
            None => None,
        }
    }
}

/// The documents that answer a spec, in order, with the brief each names.
pub open spec fn found_m(docs: Seq<NodeFacts>, date: Seq<char>, required: Seq<Seq<char>>) -> Seq<(u128, Seq<char>)>
    decreases docs.len(),
{
    if docs.len() == 0 {
        Seq::empty()
    } else {
        let f = found_m(docs.drop_last(), date, required);
        match brief_of(docs.last(), date, required) {
            Some(b) => f.push((docs.last().id, b)),
            None => f,
        }
    }
}

/// The view of found `(id, brief)` pairs.
pub open spec fn found_view(v: Seq<(u128, String)>) -> Seq<(u128, Seq<char>)> {
    v.map_values(|p: (u128, String)| (p.0, p.1@))
}

fn contains_name(names: &Vec<String>, n: &[char]) -> (r: bool)
    ensures
        r == strings_view(names@).contains(n@),
{
    let mut i: usize = 0;
    while i < names.len()
        invariant
            i <= names@.len(),
            forall|j: int| 0 <= j < i ==> names@[j]@ != n@,
        decreases names.len() - i,
    {
        let c = chars_of(names[i].as_str());
        if crate::text::chars_eq(&c, n) {
            assert(strings_view(names@)[i as int] == n@);
            return true;
        }
        i = i + 1;
    }
    assert(!strings_view(names@).contains(n@)) by {
        if strings_view(names@).contains(n@) {
            let j = choose|j: int| 0 <= j < strings_view(names@).len() && strings_view(names@)[j] == n@;
            assert(names@[j]@ == n@);
        }
    }
    false
}

/// The documents among `docs` that answer `spec`, in order, with the brief
/// each names.
pub fn matching_briefs(docs: &[NodeFacts], spec: &DocsEodSpec) -> (r: Vec<(u128, String)>)
    ensures
        found_view(r@) == found_m(docs@, spec.date@, strings_view(spec.required_briefs@)),
{
    let ghost req = strings_view(spec.required_briefs@);
    let mut out: Vec<(u128, String)> = Vec::new();
    let mut i: usize = 0;
    while i < docs.len()
        invariant
            i <= docs@.len(),
            req == strings_view(spec.required_briefs@),
            found_view(out@) == found_m(docs@.take(i as int), spec.date@, req),
        decreases docs.len() - i,
    {
        let d = &docs[i];
        assert(docs@.take(i + 1).drop_last() =~= docs@.take(i as int));
        assert(docs@.take(i + 1).last() == docs@[i as int]);
        let is_doc = match d.node_type {
            NodeType::Document => true,
            _ => false,
        };
        if is_doc {
            match str_field_exec(&d.extra, "brief") {
                Some(b) => {
                    let date_ok = match str_field_exec(&d.extra, "date") {
                        Some(dt) => {
                            let a = chars_of(dt);
                            let e = chars_of(spec.date.as_str());
                            crate::text::chars_eq(&a, &e)
                        },
                        None => false,
                    };
                    let bc = chars_of(b);
                    if date_ok && contains_name(&spec.required_briefs, &bc) {
                        let ghost before = out@;
                        out.push((d.id, string_of(&bc)));
                        assert(found_view(out@) =~= found_view(before).push((d.id, b@)));
                    }
                },
                None => {},
            }
        }
        i = i + 1;
    }
    assert(docs@.take(docs@.len() as int) =~= docs@);
    out
}

/// The names of found briefs.
pub open spec fn found_names(found: Seq<(u128, Seq<char>)>) -> Seq<Seq<char>> {
    found.map_values(|p: (u128, Seq<char>)| p.1)
}

/// The required briefs that some found document names, in the spec's order.
pub open spec fn present_m(required: Seq<Seq<char>>, found: Seq<(u128, Seq<char>)>) -> Seq<Seq<char>> {
    keep(required, |n: Seq<char>| found_names(found).contains(n))
}

/// The required briefs that are not present, in the spec's order.
pub open spec fn missing_m(required: Seq<Seq<char>>, present: Seq<Seq<char>>) -> Seq<Seq<char>> {
    keep(required, |n: Seq<char>| !present.contains(n))
}

/// Whether a value is the list of strings `s`.
pub open spec fn is_str_list(y: Yaml, s: Seq<Seq<char>>) -> bool {
    match y {
        Yaml::List(items) => items@.len() == s.len() && forall|i: int|
            0 <= i < s.len() ==> is_str(#[trigger] items@[i], s[i]),
        _ => false,
    }
}

/// The observed document of a `docs_eod` status: `{present: [..], missing: [..]}`.
pub open spec fn observed_is(y: Yaml, present: Seq<Seq<char>>, missing: Seq<Seq<char>>) -> bool {
    match y {
        Yaml::Mapping(m) => {
            &&& m@.len() == 2
            &&& is_str(m@[0].0, "present"@)
            &&& is_str_list(m@[0].1, present)
            &&& is_str(m@[1].0, "missing"@)
            &&& is_str_list(m@[1].1, missing)
        },
        _ => false,
    }
}

/// Whether an optional message is the text `t`.
pub open spec fn message_is(o: Option<String>, t: Seq<char>) -> bool {
    match o {
        Some(m) => m@ == t,
        None => false,
    }
}

/// The condition a `docs_eod` status carries: reconciled when nothing is
/// missing, else pending with the missing names.
pub open spec fn condition_is(c: Condition, missing: Seq<Seq<char>>) -> bool {
    if missing.len() == 0 {
        c.kind == ConditionKind::Reconciled && message_is(c.message, "all required briefs are present"@)
    } else {
        c.kind == ConditionKind::Pending && message_is(
            c.message,
            "missing briefs: "@ + join_m(missing, ", "@),
        )
    }
}

/// The status of a `docs_eod` spec given the documents found for it.
pub open spec fn status_is(st: Status, required: Seq<Seq<char>>, found: Seq<(u128, Seq<char>)>) -> bool {
    let present = present_m(required, found);
    let missing = missing_m(required, present);
    &&& observed_is(st.observed, present, missing)
    &&& st.conditions@.len() == 1
    &&& condition_is(st.conditions@[0], missing)
}

fn contains_found(found: &[(u128, String)], n: &[char]) -> (r: bool)
    ensures
        r == found_names(found_view(found@)).contains(n@),
{
    let ghost names = found_names(found_view(found@));
    let mut i: usize = 0;
    while i < found.len()
        invariant
            i <= found@.len(),
            names == found_names(found_view(found@)),
            forall|j: int| 0 <= j < i ==> names[j] != n@,
        decreases found.len() - i,
    {
        let c = chars_of(found[i].1.as_str());
        if crate::text::chars_eq(&c, n) {
            assert(names[i as int] == n@);
            return true;
        }
        i = i + 1;
    }
    assert(!names.contains(n@)) by {
        if names.contains(n@) {
            let j = choose|j: int| 0 <= j < names.len() && names[j] == n@;
        }
    }
    false
}

fn contains_chars(names: &Vec<Vec<char>>, n: &[char]) -> (r: bool)
    ensures
        r == views_of(names@).contains(n@),
{
    let mut i: usize = 0;
    while i < names.len()
        invariant
            i <= names@.len(),
            forall|j: int| 0 <= j < i ==> names@[j]@ != n@,
        decreases names.len() - i,
    {
        if crate::text::chars_eq(&names[i], n) {
            assert(views_of(names@)[i as int] == n@);
            return true;
        }
        i = i + 1;
    }
    assert(!views_of(names@).contains(n@)) by {
        if views_of(names@).contains(n@) {
            let j = choose|j: int| 0 <= j < views_of(names@).len() && views_of(names@)[j] == n@;
            assert(names@[j]@ == n@);
        }
    }
    false
}

fn str_list(names: &Vec<Vec<char>>) -> (r: Yaml)
    ensures
        is_str_list(r, views_of(names@)),
{
    let mut items: Vec<Yaml> = Vec::new();
    let mut i: usize = 0;
    while i < names.len()
        invariant
            i <= names@.len(),
            items@.len() == i,
            forall|j: int| 0 <= j < i ==> is_str(#[trigger] items@[j], names@[j]@),
        decreases names.len() - i,
    {
        items.push(Yaml::Str(string_of(&names[i])));
        i = i + 1;
    }
    Yaml::List(items)
}

fn key(k: &str) -> (r: Yaml)
    ensures
        is_str(r, k@),
{
    let c = chars_of(k);
    Yaml::Str(string_of(&c))
}

/// The status of `spec` given the documents found for it: which required
/// briefs are present and which are missing, and one condition.
pub fn status_from_docs(spec: &DocsEodSpec, found: &[(u128, String)]) -> (r: Status)
    ensures
        status_is(r, strings_view(spec.required_briefs@), found_view(found@)),
{
    let ghost req = strings_view(spec.required_briefs@);
    let ghost fv = found_view(found@);
    let n = spec.required_briefs.len();
    let mut present: Vec<Vec<char>> = Vec::new();
    let mut i: usize = 0;
    while i < n
        invariant
            i <= n == req.len(),
            req == strings_view(spec.required_briefs@),
            fv == found_view(found@),
            views_of(present@) == keep(req.take(i as int), |m: Seq<char>| found_names(fv).contains(m)),
        decreases n - i,
    {
        let c = chars_of(spec.required_briefs[i].as_str());
        proof {
            lemma_keep_step(req, i as int, |m: Seq<char>| found_names(fv).contains(m));
        }
        if contains_found(found, &c) {
            let ghost before = views_of(present@);
            present.push(c);
            assert(views_of(present@) =~= before.push(req[i as int]));
        }
        i = i + 1;
    }
    assert(req.take(req.len() as int) =~= req);
    let ghost pv = views_of(present@);
    let mut missing: Vec<Vec<char>> = Vec::new();
    let mut i: usize = 0;
    while i < n
        invariant
            i <= n == req.len(),
            req == strings_view(spec.required_briefs@),
            pv == views_of(present@),
            views_of(missing@) == keep(req.take(i as int), |m: Seq<char>| !pv.contains(m)),
        decreases n - i,
    {
        let c = chars_of(spec.required_briefs[i].as_str());
        proof {
            lemma_keep_step(req, i as int, |m: Seq<char>| !pv.contains(m));
        }
        if !contains_chars(&present, &c) {
            let ghost before = views_of(missing@);
            missing.push(c);
            assert(views_of(missing@) =~= before.push(req[i as int]));
        }
        i = i + 1;
    }
    let message = if missing.len() == 0 {
        let m = chars_of("all required briefs are present");
        Condition { kind: ConditionKind::Reconciled, message: Some(string_of(&m)) }
    } else {
        let mut m = chars_of("missing briefs: ");
        let sep = chars_of(", ");
        let body = join(&missing, &sep);
        push_all(&mut m, &body);
        Condition { kind: ConditionKind::Pending, message: Some(string_of(&m)) }
    };
    let mut entries: Vec<(Yaml, Yaml)> = Vec::new();
    entries.push((key("present"), str_list(&present)));
    entries.push((key("missing"), str_list(&missing)));
    let mut conditions: Vec<Condition> = Vec::new();
    conditions.push(message);
    Status { observed: Yaml::Mapping(entries), conditions }
}

/// A kind of desired state: it turns the vault's documents and a spec of its
/// kind into an observation, with no store access and no clock. Each kind
/// is an impl of its own, and states what it observes in its impl.
pub trait Reconciler {
    /// The spec this kind reads.
    type Spec;

    /// The `spec.kind` it handles.
    fn kind(&self) -> &'static str;

    /// Observe `vault_docs` against `spec`.
    fn observe(&self, vault_docs: &[NodeFacts], spec: &Self::Spec) -> Observation;
}

/// The reconciler for `kind: docs_eod`: named briefs that should exist for a
/// date, matched on the documents' `extra.brief` and `extra.date`.
#[derive(Debug)]
pub struct DocsEod;

impl Reconciler for DocsEod {
    type Spec = DocsEodSpec;

    fn kind(&self) -> (r: &'static str)
        ensures
            r@ == DOCS_EOD_KIND@,
    {
        DOCS_EOD_KIND
    }

    /// Observe the vault's documents against a spec: the documents that
    /// answer it cause the observation.
    fn observe(&self, vault_docs: &[NodeFacts], spec: &DocsEodSpec) -> (r: Observation)
        ensures
            status_is(
                r.status,
                strings_view(spec.required_briefs@),
                found_m(vault_docs@, spec.date@, strings_view(spec.required_briefs@)),
            ),
            r.caused_by@ == found_m(
                vault_docs@,
                spec.date@,
                strings_view(spec.required_briefs@),
            ).map_values(|p: (u128, Seq<char>)| p.0),
            observation_view(r) == expected_observation(
                vault_docs@,
                spec.date@,
                strings_view(spec.required_briefs@),
            ),
    {
        let found = matching_briefs(vault_docs, spec);
        let status = status_from_docs(spec, &found);
        let ghost fm = found_m(vault_docs@, spec.date@, strings_view(spec.required_briefs@));
        let mut ids: Vec<u128> = Vec::new();
        let mut i: usize = 0;
        while i < found.len()
            invariant
                i <= found@.len(),
                found_view(found@) == fm,
                ids@ == fm.take(i as int).map_values(|p: (u128, Seq<char>)| p.0),
            decreases found.len() - i,
        {
            ids.push(found[i].0);
            assert(fm.take(i + 1) =~= fm.take(i as int).push(fm[i as int]));
            assert(ids@ =~= fm.take(i + 1).map_values(|p: (u128, Seq<char>)| p.0));
            i = i + 1;
        }
        assert(fm.take(fm.len() as int) =~= fm);
        let r = Observation { status, caused_by: ids };
        proof {
            law_observation_is_determined(
                vault_docs@,
                spec.date@,
                strings_view(spec.required_briefs@),
                r,
            );
        }
        r
    }
}

/// The reconciler a spec's `kind` selects: a spec without a string `kind`,
/// or with a kind no reconciler handles, is refused.
pub open spec fn reconciler_result(spec: Yaml) -> core::result::Result<(), Seq<char>> {
    match str_field(spec, "kind"@) {
        None => Err("desired state spec requires kind: <string>"@),
        Some(k) => if k == DOCS_EOD_KIND@ {
            Ok(())
        } else {
            Err("unknown desired state kind "@ + debug_str(k))
        },
    }
}

/// The reconciler for `spec.kind`.
pub fn reconciler_for(spec: &Yaml) -> (r: Result<DocsEod>)
    ensures
        match reconciler_result(*spec) {
            Ok(()) => r is Ok,
            Err(m) => crate::error::is_invalid_with(r, m),
        },
{
    match str_field_exec(spec, "kind") {
        None => {
            let m = chars_of("desired state spec requires kind: <string>");
            Err(Error::Invalid(string_of(&m)))
        },
        Some(k) => {
            let c = chars_of(k);
            if is_lit(&c, DOCS_EOD_KIND) {
                Ok(DocsEod)
            } else {
                let mut m = chars_of("unknown desired state kind ");
                let q = debug_quoted(&c);
                let qc = chars_of(q.as_str());
                push_all(&mut m, &qc);
                Err(Error::Invalid(string_of(&m)))
            }
        },
    }
}

/// The text of a string value; empty for any other value.
pub open spec fn str_text(y: Yaml) -> Seq<char> {
    match y {
        Yaml::Str(s) => s@,
        _ => Seq::empty(),
    }
}

/// The texts of a list of strings.
pub open spec fn list_view(y: Yaml) -> Seq<Seq<char>> {
    match y {
        Yaml::List(items) => items@.map_values(|i: Yaml| str_text(i)),
        _ => Seq::empty(),
    }
}

/// An observed document read as keys with lists of names.
pub open spec fn observed_view(y: Yaml) -> Seq<(Seq<char>, Seq<Seq<char>>)> {
    match y {
        Yaml::Mapping(m) => m@.map_values(|p: (Yaml, Yaml)| (str_text(p.0), list_view(p.1))),
        _ => Seq::empty(),
    }
}

/// Conditions as kinds and message texts.
pub open spec fn conditions_view(c: Seq<Condition>) -> Seq<(ConditionKind, Option<Seq<char>>)> {
    c.map_values(|x: Condition| (x.kind, crate::hql::row::opt_view(x.message)))
}

/// An observation as plain values: the observed lists, the conditions and
/// the causing documents.
pub open spec fn observation_view(o: Observation) -> (
    Seq<(Seq<char>, Seq<Seq<char>>)>,
    Seq<(ConditionKind, Option<Seq<char>>)>,
    Seq<u128>,
) {
    (observed_view(o.status.observed), conditions_view(o.status.conditions@), o.caused_by@)
}

/// The observation of documents against a `docs_eod` spec, as plain values.
/// It depends on the documents and the spec alone.
pub open spec fn expected_observation(docs: Seq<NodeFacts>, date: Seq<char>, required: Seq<Seq<char>>) -> (
    Seq<(Seq<char>, Seq<Seq<char>>)>,
    Seq<(ConditionKind, Option<Seq<char>>)>,
    Seq<u128>,
) {
    let found = found_m(docs, date, required);
    let present = present_m(required, found);
    let missing = missing_m(required, present);
    let condition = if missing.len() == 0 {
        (ConditionKind::Reconciled, Some("all required briefs are present"@))
    } else {
        (ConditionKind::Pending, Some("missing briefs: "@ + join_m(missing, ", "@)))
    };
    (
        seq![("present"@, present), ("missing"@, missing)],
        seq![condition],
        found.map_values(|p: (u128, Seq<char>)| p.0),
    )
}

/// What an observation's contract pins is all of it: an observation of
/// `docs` against a spec equals the one the documents and the spec give.
pub proof fn law_observation_is_determined(
    docs: Seq<NodeFacts>,
    date: Seq<char>,
    required: Seq<Seq<char>>,
    o: Observation,
)
    requires
        status_is(o.status, required, found_m(docs, date, required)),
        o.caused_by@ == found_m(docs, date, required).map_values(|p: (u128, Seq<char>)| p.0),
    ensures
        observation_view(o) == expected_observation(docs, date, required),
{
    let found = found_m(docs, date, required);
    let present = present_m(required, found);
    let missing = missing_m(required, present);
    match o.status.observed {
        Yaml::Mapping(m) => {
            assert(list_view(m@[0].1) =~= present);
            assert(list_view(m@[1].1) =~= missing);
            assert(str_text(m@[0].0) == "present"@);
            assert(str_text(m@[1].0) == "missing"@);
            assert(observed_view(o.status.observed) =~= seq![("present"@, present), ("missing"@, missing)]);
        },
        _ => {},
    }
    assert(conditions_view(o.status.conditions@) =~= expected_observation(docs, date, required).1);
}

/// Two observations of the same documents against the same spec agree.
pub proof fn law_observe_twice_agrees(
    docs: Seq<NodeFacts>,
    date: Seq<char>,
    required: Seq<Seq<char>>,
    a: Observation,
    b: Observation,
)
    requires
        status_is(a.status, required, found_m(docs, date, required)),
        a.caused_by@ == found_m(docs, date, required).map_values(|p: (u128, Seq<char>)| p.0),
        status_is(b.status, required, found_m(docs, date, required)),
        b.caused_by@ == found_m(docs, date, required).map_values(|p: (u128, Seq<char>)| p.0),
    ensures
        observation_view(a) == observation_view(b),
{
    law_observation_is_determined(docs, date, required, a);
    law_observation_is_determined(docs, date, required, b);
}

} // verus!
