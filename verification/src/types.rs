//! The store's vocabulary: node types, tiers, conditions, the status of a
//! desired state, the `docs_eod` spec, and the checks every write passes.

use vstd::prelude::*;

use crate::error::{Error, Result};
use crate::hql::yaml::Yaml;
use crate::text::{chars_of, is_lit, push_all, string_of};

verus! {

/// Edge type of the event rows' `caused_by` projection.
pub const CAUSAL_CAUSED_BY: &'static str = "caused_by";

/// Edge type of the event rows' `reconciles` projection.
pub const CAUSAL_RECONCILES: &'static str = "reconciles";

/// Edge type of the event rows' `supersedes` projection.
pub const CAUSAL_SUPERSEDES: &'static str = "supersedes";

/// Edge type of an access grant from an agent to a vault.
pub const EDGE_GRANT: &'static str = "grant";

#[derive(Clone, Copy, Debug, PartialEq, Eq, Structural)]
pub enum NodeType {
    Agent,
    Document,
    Vault,
}

/// The stored name of a node type.
pub open spec fn node_type_name(t: NodeType) -> Seq<char> {
    match t {
        NodeType::Agent => "Agent"@,
        NodeType::Document => "Document"@,
        NodeType::Vault => "Vault"@,
    }
}

/// The node type a stored name denotes.
pub open spec fn node_type_named(s: Seq<char>) -> Option<NodeType> {
    if s == "Agent"@ {
        Some(NodeType::Agent)
    } else if s == "Document"@ {
        Some(NodeType::Document)
    } else if s == "Vault"@ {
        Some(NodeType::Vault)
    } else {
        None
    }
}

impl NodeType {
    pub fn as_str(self) -> (r: &'static str)
        ensures
            r@ == node_type_name(self),
    {
        match self {
            NodeType::Agent => "Agent",
            NodeType::Document => "Document",
            NodeType::Vault => "Vault",
        }
    }

    /// `Agent`, `Document` or `Vault`; anything else is `Invalid`.
    pub fn parse(raw: &str) -> (r: Result<NodeType>)
        ensures
            match node_type_named(raw@) {
                Some(t) => r matches Ok(x) && x == t,
                None => crate::error::is_invalid_with(r, "unknown node type "@ + raw@),
            },
    {
        let c = chars_of(raw);
        if is_lit(&c, "Agent") {
            Ok(NodeType::Agent)
        } else if is_lit(&c, "Document") {
            Ok(NodeType::Document)
        } else if is_lit(&c, "Vault") {
            Ok(NodeType::Vault)
        } else {
            let mut m = chars_of("unknown node type ");
            push_all(&mut m, &c);
            Err(Error::Invalid(string_of(&m)))
        }
    }
}

/// Parsing the stored name of a node type gives the type back.
pub proof fn lemma_node_type_round_trip(t: NodeType)
    ensures
        node_type_named(node_type_name(t)) == Some(t),
{
    reveal_strlit("Agent");
    reveal_strlit("Document");
    reveal_strlit("Vault");
    assert("Agent"@[0] != "Document"@[0]);
    assert("Agent"@[0] != "Vault"@[0]);
    assert("Document"@[0] != "Vault"@[0]);
}

#[derive(Clone, Copy, Debug, PartialEq, Eq, Structural)]
pub enum Tier {
    Hot,
    Warm,
    Cool,
    Cold,
}

/// The stored name of a tier.
pub open spec fn tier_name(t: Tier) -> Seq<char> {
    match t {
        Tier::Hot => "hot"@,
        Tier::Warm => "warm"@,
        Tier::Cool => "cool"@,
        Tier::Cold => "cold"@,
    }
}

/// The tier a stored name denotes.
pub open spec fn tier_named(s: Seq<char>) -> Option<Tier> {
    if s == "hot"@ {
        Some(Tier::Hot)
    } else if s == "warm"@ {
        Some(Tier::Warm)
    } else if s == "cool"@ {
        Some(Tier::Cool)
    } else if s == "cold"@ {
        Some(Tier::Cold)
    } else {
        None
    }
}

impl Tier {
    pub fn as_str(self) -> (r: &'static str)
        ensures
            r@ == tier_name(self),
    {
        match self {
            Tier::Hot => "hot",
            Tier::Warm => "warm",
            Tier::Cool => "cool",
            Tier::Cold => "cold",
        }
    }

    /// `hot`, `warm`, `cool` or `cold`; anything else is `Invalid`.
    pub fn parse(raw: &str) -> (r: Result<Tier>)
        ensures
            match tier_named(raw@) {
                Some(t) => r matches Ok(x) && x == t,
                None => crate::error::is_invalid_with(r, "unknown tier "@ + raw@),
            },
    {
        let c = chars_of(raw);
        if is_lit(&c, "hot") {
            Ok(Tier::Hot)
        } else if is_lit(&c, "warm") {
            Ok(Tier::Warm)
        } else if is_lit(&c, "cool") {
            Ok(Tier::Cool)
        } else if is_lit(&c, "cold") {
            Ok(Tier::Cold)
        } else {
            let mut m = chars_of("unknown tier ");
            push_all(&mut m, &c);
            Err(Error::Invalid(string_of(&m)))
        }
    }
}

/// Parsing the stored name of a tier gives the tier back.
pub proof fn lemma_tier_round_trip(t: Tier)
    ensures
        tier_named(tier_name(t)) == Some(t),
{
    reveal_strlit("hot");
    reveal_strlit("warm");
    reveal_strlit("cool");
    reveal_strlit("cold");
    assert("hot"@[0] != "warm"@[0]);
    assert("hot"@[0] != "cool"@[0]);
    assert("hot"@[0] != "cold"@[0]);
    assert("warm"@[0] != "cool"@[0]);
    assert("warm"@[0] != "cold"@[0]);
    assert("cool"@[2] != "cold"@[2]);
}

#[derive(Clone, Copy, Debug, PartialEq, Eq, Structural)]
pub enum ConditionKind {
    Reconciled,
    Pending,
    Failed,
}

/// One condition of a status, with an optional message.
#[derive(Debug)]
pub struct Condition {
    pub kind: ConditionKind,
    pub message: Option<String>,
}

/// What a reconcile last observed, and the conditions drawn from it.
#[derive(Debug)]
pub struct Status {
    pub observed: Yaml,
    pub conditions: Vec<Condition>,
}

impl Status {
    /// An empty mapping observed, and no conditions.
    pub fn empty() -> (r: Status)
        ensures
            r.observed matches Yaml::Mapping(m) && m@.len() == 0,
            r.conditions@.len() == 0,
    {
        Status { observed: Yaml::Mapping(Vec::new()), conditions: Vec::new() }
    }
}

/// The spec of a `docs_eod` desired state: the named briefs that should
/// exist for a date.
#[derive(Debug)]
pub struct DocsEodSpec {
    pub date: String,
    pub required_briefs: Vec<String>,
}

/// The edge types that only an event row may write.
pub open spec fn causal_type(t: Seq<char>) -> bool {
    t == CAUSAL_CAUSED_BY@ || t == CAUSAL_RECONCILES@ || t == CAUSAL_SUPERSEDES@
}

/// Whether an edge type is one of the causal projections.
pub fn is_causal_type(edge_type: &str) -> (r: bool)
    ensures
        r == causal_type(edge_type@),
{
    let c = chars_of(edge_type);
    is_lit(&c, CAUSAL_CAUSED_BY) || is_lit(&c, CAUSAL_RECONCILES) || is_lit(&c, CAUSAL_SUPERSEDES)
}

/// A value with its tags removed.
pub open spec fn untag(y: Yaml) -> Yaml
    decreases y,
{
    match y {
        Yaml::Tagged(inner) => untag(*inner),
        _ => y,
    }
}

/// A value with its tags removed.
pub fn untag_ref(y: &Yaml) -> (r: &Yaml)
    ensures
        *r == untag(*y),
    decreases y,
{
    match y {
        Yaml::Tagged(inner) => untag_ref(inner),
        _ => y,
    }
}

/// The text of a string value, tags removed.
pub open spec fn str_of(y: Yaml) -> Option<Seq<char>> {
    match untag(y) {
        Yaml::Str(s) => Some(s@),
        _ => None,
    }
}

/// The text of a string value, tags removed.
pub fn as_str(y: &Yaml) -> (r: Option<&str>)
    ensures
        match r {
            Some(s) => str_of(*y) == Some(s@),
            None => str_of(*y) is None,
        },
{
    match untag_ref(y) {
        Yaml::Str(s) => Some(s.as_str()),
        _ => None,
    }
}

/// The code of a character with ASCII upper-case letters folded to lower
/// case.
pub open spec fn fold_case(c: char) -> u32 {
    if 'A' <= c && c <= 'Z' {
        (c as u32 + 32) as u32
    } else {
        c as u32
    }
}

/// Equal up to ASCII case, as `str::eq_ignore_ascii_case` compares.
pub open spec fn eq_ignore_case(a: Seq<char>, b: Seq<char>) -> bool {
    a.len() == b.len() && forall|i: int| 0 <= i < a.len() ==> fold_case(a[i]) == fold_case(b[i])
}

fn eq_ignore_case_exec(a: &[char], b: &str) -> (r: bool)
    ensures
        r == eq_ignore_case(a@, b@),
{
    let bc = chars_of(b);
    if a.len() != bc.len() {
        return false;
    }
    let mut i: usize = 0;
    while i < a.len()
        invariant
            i <= a@.len() == bc@.len(),
            bc@ == b@,
            forall|j: int| 0 <= j < i ==> fold_case(a@[j]) == fold_case(bc@[j]),
        decreases a.len() - i,
    {
        let x = a[i];
        let y = bc[i];
        let lx: u32 = if 'A' <= x && x <= 'Z' {
            (x as u32) + 32
        } else {
            x as u32
        };
        let ly: u32 = if 'A' <= y && y <= 'Z' {
            (y as u32) + 32
        } else {
            y as u32
        };
        if lx != ly {
            return false;
        }
        i = i + 1;
    }
    true
}

/// Keys that must never be stored in YAML, in any ASCII case.
pub open spec fn secret_key(k: Seq<char>) -> bool {
    ||| eq_ignore_case(k, "token"@)
    ||| eq_ignore_case(k, "api_key"@)
    ||| eq_ignore_case(k, "secret"@)
    ||| eq_ignore_case(k, "password"@)
    ||| eq_ignore_case(k, "authorization"@)
}

/// Whether an entry's key is a string naming a secret.
pub open spec fn secret_entry(p: (Yaml, Yaml)) -> bool {
    match str_of(p.0) {
        Some(k) => secret_key(k),
        None => false,
    }
}

/// Whether some entry's key is a string naming a secret.
pub open spec fn has_secret_entry(pairs: Seq<(Yaml, Yaml)>) -> bool {
    exists|i: int| 0 <= i < pairs.len() && #[trigger] secret_entry(pairs[i])
}

/// Whether a document is a mapping with a string key naming a secret.
pub open spec fn holds_secret(extra: Yaml) -> bool {
    match untag(extra) {
        Yaml::Mapping(pairs) => has_secret_entry(pairs@),
        _ => false,
    }
}

fn is_secret_key(k: &[char]) -> (r: bool)
    ensures
        r == secret_key(k@),
{
    eq_ignore_case_exec(k, "token") || eq_ignore_case_exec(k, "api_key") || eq_ignore_case_exec(
        k,
        "secret",
    ) || eq_ignore_case_exec(k, "password") || eq_ignore_case_exec(k, "authorization")
}

/// Refuse a document that would store a secret: a mapping with a string key
/// `token`, `api_key`, `secret`, `password` or `authorization`, in any
/// ASCII case.
pub fn reject_secrets(extra: &Yaml) -> (r: Result<()>)
    ensures
        holds_secret(*extra) ==> crate::error::is_invalid_with(
            r,
            "secrets must not be stored in YAML/frontmatter"@,
        ),
        !holds_secret(*extra) ==> r is Ok,
{
    match untag_ref(extra) {
        Yaml::Mapping(pairs) => {
            let mut i: usize = 0;
            while i < pairs.len()
                invariant
                    i <= pairs@.len(),
                    untag(*extra) == Yaml::Mapping(*pairs),
                    forall|j: int| 0 <= j < i ==> !#[trigger] secret_entry(pairs@[j]),
                decreases pairs.len() - i,
            {
                match as_str(&pairs[i].0) {
                    Some(name) => {
                        let c = chars_of(name);
                        if is_secret_key(&c) {
                            assert(secret_entry(pairs@[i as int]));
                            let m = chars_of("secrets must not be stored in YAML/frontmatter");
                            return Err(Error::Invalid(string_of(&m)));
                        }
                    },
                    None => {},
                }
                i = i + 1;
            }
            Ok(())
        },
        _ => Ok(()),
    }
}

} // verus!
