//! The symbol graph, the pattern compiler and the query evaluator.

pub mod find_node;
pub mod graph;
pub mod language_config;
pub mod laws;
pub mod loader;
pub mod method_query;
pub mod namespace_query;
pub mod pattern;
pub mod query;
pub mod results;
pub mod stack_graph;
pub mod walk;
