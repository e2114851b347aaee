//! A minimal reactive rendering engine.
//!
//! An application describes its interface as a tree of elements and stateful
//! components. One render pass resolves that tree against a path-keyed state
//! store into a component-free tree that a frontend can draw. A component is
//! the same instance from one pass to the next where it stands at the same
//! structural path; its state is kept in the store under that path.
//!
//! - `path`: decimal numerals and structural paths.
//! - `engine`: the element tree, the state store, the component contract and
//!   the render pass.
//! - `isolation`, `persistence`, `structure`: what holds of every render
//!   pass.
//! - `frontend`: drawing and input for plain text and for the terminal grid.
//! - `term`: the terminal's control sequences.
//! - `component`: the components of the demonstrations.

pub mod component;
pub mod engine;
pub mod frontend;
pub mod isolation;
pub mod path;
pub mod persistence;
pub mod structure;
pub mod term;
