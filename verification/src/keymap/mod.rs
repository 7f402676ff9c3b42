//! Modes, actions, key events, key tries and the default keymap.

pub mod actions;
pub mod input;
pub mod trie;
pub mod default;
