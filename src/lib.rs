//! Per-scope editing metadata (indentation rules, comment markers and shell
//! variables): merging raw per-file fragments into one canonical set keyed by
//! scope selector, and resolving each field for a stack of scopes by a
//! specificity-ranked cascade.

pub mod pattern;
pub mod text;
pub mod raw;
pub mod items;
pub mod metadata;
pub mod scoped;
pub mod laws;
