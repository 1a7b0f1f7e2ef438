//! Layer-tree data model for a compositing engine.
//!
//! A scene is a tree of drawable layers - plain containers, single images,
//! or tiled image grids - each carrying a local transform. The tree is held
//! in an arena ([`tree::LayerTree`]): every cross-reference between layers
//! (parent, siblings, children) is an index into the arena, which keeps the
//! intrusive, mutually-referential structure free of ownership cycles.
//! Images own an optional GPU texture handle whose release is reported
//! exactly once when the image is destroyed.

pub mod geometry;
pub mod image;
pub mod tree;
