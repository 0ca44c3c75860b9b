//! Security-flow summaries of source code: per-function control-flow graphs
//! with security tags, and a repository-wide aggregate of their edges.
pub mod cfg;
pub mod extract;
pub mod flow;
pub mod syntax;
pub mod tag;
pub mod text;

pub use cfg::{SimpleCfg, build_structured_cfg, dedupe_cfg_edges, function_cfg};
pub use extract::{CfgMap, decimal_text, extract_cfgs_from_tree};
pub use flow::{SecEdge, SecIndex, SecurityFlow, edge_kind, edge_sensitive, to_security_flow};
pub use syntax::SyntaxNode;
pub use tag::{EdgeKind, call_name, classify_call, is_secretish, snippet};
