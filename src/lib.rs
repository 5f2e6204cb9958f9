//! Resource aggregation and the interactive table engine of a cluster
//! resource dashboard: quantity parsing and formatting, per-entity totals,
//! sorting, filtering and the view state machine.

pub mod error;
pub mod quantity;
pub mod format;
pub mod resource;
pub mod table;
pub mod config;
pub mod aggregate;
pub mod app;
pub mod laws;

pub use aggregate::{
    handle_namespace_command, handle_node_command, handle_pod_command, NamespaceRecord,
    NodeRecord, PodRecord,
};
pub use app::{handle_event, AppState, Command, RequestToken};
pub use config::{SearchConfig, SortConfig, MAX_WORD_BYTES, NO_FILTER};
pub use error::AppError;
pub use format::{format_cpu, format_memory};
pub use quantity::{parse_cpu, parse_memory, ResourceValue};
pub use resource::{
    extract_quantity, NamespaceResources, NodeResources, QuantityEntry, QuantityKind,
    ResourceRequirements, Resources,
};
pub use table::{build_table, filter_rows, sort_rows, Row, ViewMode};
