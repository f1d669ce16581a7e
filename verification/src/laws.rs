//! What the library promises of its operations, stated over what goes in and what comes out.

pub mod analyzer;
pub mod completion;
pub mod definition;
pub mod diagnostics;
pub mod extension;
pub mod extract;
pub mod hover;
pub mod index;
pub mod inherited;
pub mod ivars;
pub mod literals;
pub mod paths;
pub mod receivers;
pub mod resolver;
pub mod server;
pub mod spec_runner;
pub mod symbols;
pub mod syntax;
pub mod text;
pub mod uri;
