//! A structural editor core for a small Lisp-like expression language:
//! an expression tree of uniquely identified nodes, a layout engine that
//! turns a tree into positioned visual primitives, and an editor state
//! machine that routes queued input events to tree and selection mutations.
pub mod builder;
pub mod editor;
pub mod expr;
pub mod render;
pub mod text;
pub mod view;
