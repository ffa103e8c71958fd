//! Planning of Go code for a source-to-Go compiler: the Go expression tree,
//! value plans, the lowered statement IR, renaming, the cleanup rewrites
//! that run over a lowered body before it is rendered, and the small pieces
//! that placing values and lowering patterns assemble statements from;
//! beside them, the editor side (line index, document state, diagnostics,
//! protocol state and framing) and the reference graph of the unused-code
//! lints.

pub mod text;
pub mod model;
pub mod go_expression;
pub mod values;
pub mod bodies;
pub mod render;
pub mod walk;
pub mod visit;
pub mod lists;
pub mod cleanup;
pub mod aliases;
pub mod temps;
pub mod found;
pub mod placement;
pub mod patterns;
pub mod laws;
pub mod counting;
pub mod protocol;
pub mod document;
pub mod position;
pub mod diagnostic;
pub mod reference_graph;
pub mod framing;
pub mod printf;
pub mod escapes;
pub mod constant_fold;
pub mod analysis;
pub mod source_lines;
pub mod params;
pub mod nesting;
pub mod collect;
pub mod held;
pub mod copy;
