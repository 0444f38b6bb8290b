//! A schema compiler core: it resolves dotted type references inside a tree
//! of parsed interface-definition declarations (packages, files, messages,
//! enums, fields, imports) and lowers them into a tree of generated
//! TypeScript modules, synthesizing minimal, deduplicated relative imports
//! between the generated files.

pub mod args;
pub mod ast;
pub mod errors;
pub mod model;
pub mod paths;
pub mod imports;
pub mod scope;
pub mod mapper;
pub mod compiler;
