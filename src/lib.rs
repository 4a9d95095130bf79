//! Core of a typed query-execution engine: the schema type registry, the
//! per-request execution context, the extension pipeline and lookahead.

pub mod ast;
pub mod context;
pub mod error;
pub mod extensions;
pub mod indexed;
pub mod input;
pub mod look_ahead;
pub mod model;
pub mod name_map;
pub mod registry;
pub mod resolve;
pub mod scalars;
pub mod type_ref;
pub mod value;
pub mod var_path;
