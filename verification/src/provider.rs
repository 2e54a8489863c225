//! The project that is analysed: its tools, its dependencies and its
//! lifecycle.

pub mod csharp;
pub mod dependency_resolution;
pub mod errors;
pub mod project;
