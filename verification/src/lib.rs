//! Language tooling for Crystal: the logic of a language server and of its editor extension.

pub mod analyzer;
pub mod completion;
pub mod crystal_cli;
pub mod definition;
pub mod diagnostics;
pub mod extension;
pub mod extract;
pub mod hover;
pub mod index;
pub mod laws;
pub mod literals;
pub mod order;
pub mod path_map;
pub mod paths;
pub mod protocol;
pub mod require_glob;
pub mod require_graph;
pub mod resolver;
pub mod semantic;
pub mod server;
pub mod spec_runner;
pub mod symbols;
pub mod syntax;
pub mod text;
pub mod uri;
pub mod workspace;
