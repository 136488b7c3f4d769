//! A dialogue-tree player: a graph of nodes keyed by integer id, each showing
//! some lines and leading to a next id, walked from a fixed entry node.
//!
//! The library decides; the caller prints what a turn shows and, where a
//! choice is asked, reads a reply and hands it back.

pub mod text;
pub mod node;
pub mod dialogue;
