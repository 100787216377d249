//! HedronDB core: desired state, a causal event log, vault isolation, and
//! HQL, a read-only pipe language over a snapshot of the store.

pub mod digest;
pub mod error;
pub mod hql;
pub mod ids;
pub mod nodes;
pub mod reconcile;
pub mod schema;
pub mod store;
pub mod text;
pub mod types;

pub use error::{Error, Result};
pub use reconcile::{DocsEod, NodeFacts, Observation, Reconciler, DOCS_EOD_KIND};
pub use types::{
    Condition, ConditionKind, DocsEodSpec, NodeType, Status, Tier, CAUSAL_CAUSED_BY,
    CAUSAL_RECONCILES, CAUSAL_SUPERSEDES, EDGE_GRANT,
};
