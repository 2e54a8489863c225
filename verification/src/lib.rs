//! Symbol-graph queries for C# projects: dotted patterns with `*` wildcards
//! are evaluated against a graph of symbols, scopes and source positions.

pub mod c_sharp_graph;
pub mod provider;
pub mod text;
