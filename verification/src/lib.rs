//! Graphify: the verified core of an AST semantic-graph toolkit.
//!
//! The crate holds the graph data model, the `.toon` serialization format,
//! assembly-manifest validation and workspace composition, the plugin
//! contracts, the plugin-subprocess framing and circuit breaker, the memory
//! and LLM configuration logic, and the decision logic that the command-line
//! front end and the MCP gateway drive.

pub mod text;
pub mod types;
pub mod json;
pub mod toon;
pub mod toon_laws;
pub mod manifest;
pub mod clock;
pub mod plugin;
pub mod plugin_memory;
pub mod breaker;
pub mod host;
pub mod framing;
pub mod memory;
pub mod domain_memory;
pub mod snapshot;
pub mod compose;
pub mod manifest_check;
pub mod llm_config;
pub mod mcp;
pub mod skill;
pub mod pipeline;
pub mod legacy;
pub mod browse;
pub mod graph;
pub mod local_process;
pub mod memory_query;
pub mod compose_render;
pub mod graph_state;
pub mod extract_plan;
pub mod extract;
pub mod parse;
pub mod extract_laws;
