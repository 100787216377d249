//! The nodes the store writes: a vault and its first agent at bootstrap,
//! documents, and the brief documents a `docs_eod` spec asks for; and the
//! spec documents of desired states.

use vstd::prelude::*;

use crate::digest::{blake3_hex_of, content_hash, content_message, opt_str};
use crate::error::Result;
use crate::hql::yaml::Yaml;
use crate::reconcile::{is_str, is_str_list, DOCS_EOD_KIND};
use crate::text::{chars_of, push_all, string_of};
use crate::types::{holds_secret, reject_secrets, NodeType, Tier};

verus! {

/// A node as the store writes it, but for its importance.
#[derive(Debug)]
pub struct NodePlan {
    pub id: u128,
    pub vault_id: u128,
    pub node_type: NodeType,
    pub content_hash: String,
    pub path: Option<String>,
    pub version: u64,
    pub tier: Tier,
    pub htec_path: Option<String>,
    pub extra: Yaml,
}

/// Whether a value is the mapping `{k1: v1, ..}` of strings, in that order.
pub open spec fn is_str_mapping(y: Yaml, entries: Seq<(Seq<char>, Seq<char>)>) -> bool {
    match y {
        Yaml::Mapping(m) => m@.len() == entries.len() && forall|i: int|
            0 <= i < entries.len() ==> is_str(#[trigger] m@[i].0, entries[i].0) && is_str(
                m@[i].1,
                entries[i].1,
            ),
        _ => false,
    }
}

fn str_value(s: &str) -> (r: Yaml)
    ensures
        is_str(r, s@),
{
    let c = chars_of(s);
    Yaml::Str(string_of(&c))
}

fn owned(s: &str) -> (r: String)
    ensures
        r@ == s@,
{
    let c = chars_of(s);
    string_of(&c)
}

/// `{name: NAME}`, the extra document of a vault or an agent.
pub fn name_extra(name: &str) -> (r: Yaml)
    ensures
        is_str_mapping(r, seq![("name"@, name@)]),
{
    let mut m: Vec<(Yaml, Yaml)> = Vec::new();
    m.push((str_value("name"), str_value(name)));
    Yaml::Mapping(m)
}

/// The vault node of a bootstrap: its own vault, named by its path, in the
/// cool tier. `extra_yaml` is the YAML text of `extra`.
pub fn vault_node(vault_id: u128, vault_name: &str, extra: Yaml, extra_yaml: Option<&str>) -> (r: NodePlan)
    ensures
        r.id == vault_id,
        r.vault_id == vault_id,
        r.node_type == NodeType::Vault,
        r.content_hash@ == blake3_hex_of(
            content_message(NodeType::Vault, Some(vault_name@), None, opt_str(extra_yaml)),
        ),
        crate::hql::row::opt_view(r.path) == Some(vault_name@),
        r.version == 1,
        r.tier == Tier::Cool,
        r.htec_path is None,
        r.extra == extra,
{
    let hash = content_hash(NodeType::Vault, Some(vault_name), None, extra_yaml);
    NodePlan {
        id: vault_id,
        vault_id,
        node_type: NodeType::Vault,
        content_hash: hash,
        path: Some(owned(vault_name)),
        version: 1,
        tier: Tier::Cool,
        htec_path: None,
        extra,
    }
}

/// The agent node of a bootstrap: in the new vault, named by its path, with
/// its H.TEC path, in the hot tier.
pub fn agent_node(
    agent_id: u128,
    vault_id: u128,
    agent_name: &str,
    htec_path: &str,
    extra: Yaml,
    extra_yaml: Option<&str>,
) -> (r: NodePlan)
    ensures
        r.id == agent_id,
        r.vault_id == vault_id,
        r.node_type == NodeType::Agent,
        r.content_hash@ == blake3_hex_of(
            content_message(
                NodeType::Agent,
                Some(agent_name@),
                Some(htec_path@),
                opt_str(extra_yaml),
            ),
        ),
        crate::hql::row::opt_view(r.path) == Some(agent_name@),
        r.version == 1,
        r.tier == Tier::Hot,
        crate::hql::row::opt_view(r.htec_path) == Some(htec_path@),
        r.extra == extra,
{
    let hash = content_hash(NodeType::Agent, Some(agent_name), Some(htec_path), extra_yaml);
    NodePlan {
        id: agent_id,
        vault_id,
        node_type: NodeType::Agent,
        content_hash: hash,
        path: Some(owned(agent_name)),
        version: 1,
        tier: Tier::Hot,
        htec_path: Some(owned(htec_path)),
        extra,
    }
}

/// A document node, in the warm tier; a document whose extra would store a
/// secret is refused.
pub fn document_node(
    id: u128,
    vault_id: u128,
    path: Option<&str>,
    extra: Yaml,
    extra_yaml: Option<&str>,
) -> (r: Result<NodePlan>)
    ensures
        holds_secret(extra) ==> crate::error::is_invalid_with(
            r,
            "secrets must not be stored in YAML/frontmatter"@,
        ),
        !holds_secret(extra) ==> (r matches Ok(n) && {
            &&& n.id == id
            &&& n.vault_id == vault_id
            &&& n.node_type == NodeType::Document
            &&& n.content_hash@ == blake3_hex_of(
                content_message(NodeType::Document, opt_str(path), None, opt_str(extra_yaml)),
            )
            &&& crate::hql::row::opt_view(n.path) == opt_str(path)
            &&& n.version == 1
            &&& n.tier == Tier::Warm
            &&& n.htec_path is None
            &&& n.extra == extra
        }),
{
    match reject_secrets(&extra) {
        Ok(()) => {},
        Err(e) => {
            return Err(e);
        },
    }
    let hash = content_hash(NodeType::Document, path, None, extra_yaml);
    let p = match path {
        Some(s) => Some(owned(s)),
        None => None,
    };
    Ok(
        NodePlan {
            id,
            vault_id,
            node_type: NodeType::Document,
            content_hash: hash,
            path: p,
            version: 1,
            tier: Tier::Warm,
            htec_path: None,
            extra,
        },
    )
}

/// `{brief: NAME, date: DATE}`, the extra document of a brief.
pub fn brief_extra(name: &str, date: &str) -> (r: Yaml)
    ensures
        is_str_mapping(r, seq![("brief"@, name@), ("date"@, date@)]),
{
    let mut m: Vec<(Yaml, Yaml)> = Vec::new();
    m.push((str_value("brief"), str_value(name)));
    m.push((str_value("date"), str_value(date)));
    Yaml::Mapping(m)
}

/// `briefs/DATE/NAME`, the path of a brief.
pub fn brief_path(name: &str, date: &str) -> (r: String)
    ensures
        r@ == "briefs/"@ + date@ + "/"@ + name@,
{
    let mut out = chars_of("briefs/");
    let d = chars_of(date);
    push_all(&mut out, &d);
    let slash = chars_of("/");
    push_all(&mut out, &slash);
    let n = chars_of(name);
    push_all(&mut out, &n);
    string_of(&out)
}

/// The spec document of a `docs_eod` desired state:
/// `{kind: docs_eod, date: DATE, required_briefs: [..]}`.
pub fn docs_eod_spec(date: &str, required_briefs: &[&str]) -> (r: Yaml)
    ensures
        r matches Yaml::Mapping(m) && m@.len() == 3 && is_str(m@[0].0, "kind"@) && is_str(
            m@[0].1,
            DOCS_EOD_KIND@,
        ) && is_str(m@[1].0, "date"@) && is_str(m@[1].1, date@) && is_str(
            m@[2].0,
            "required_briefs"@,
        ) && is_str_list(m@[2].1, required_briefs@.map_values(|s: &str| s@)),
{
    let mut items: Vec<Yaml> = Vec::new();
    let mut i: usize = 0;
    while i < required_briefs.len()
        invariant
            i <= required_briefs@.len(),
            items@.len() == i,
            forall|j: int| 0 <= j < i ==> is_str(#[trigger] items@[j], required_briefs@[j]@),
        decreases required_briefs.len() - i,
    {
        items.push(str_value(required_briefs[i]));
        i = i + 1;
    }
    let mut m: Vec<(Yaml, Yaml)> = Vec::new();
    m.push((str_value("kind"), str_value(DOCS_EOD_KIND)));
    m.push((str_value("date"), str_value(date)));
    m.push((str_value("required_briefs"), Yaml::List(items)));
    Yaml::Mapping(m)
}

} // verus!
