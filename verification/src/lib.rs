//! A verified reader for the "mail" finite-element mesh text format.
//!
//! The crate parses the line-oriented, section-structured text format into an
//! intermediate parse output, and builds an identifier-indexed mesh graph
//! (nodes, cells, groups) from it, enforcing connectivity-arity and
//! reference-integrity invariants.

pub mod byte_ops;
pub mod cell;
pub mod grammar;
pub mod index;
pub mod mail_parser;
pub mod mesh;
pub mod mesh_enums;
pub mod node;
pub mod tokens;

pub use cell::MeshCell;
pub use mesh::Mesh;
pub use mesh_enums::CellType;
pub use mesh_enums::MeshFormat;
pub use node::Node;
