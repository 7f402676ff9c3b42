//! A modal text-editing library: character classes, selections, a text
//! buffer model with cursor motions and edits, bracket matching, text
//! objects, surround operations, keymaps and presentation helpers.

pub mod text;
pub mod keymap;
pub mod components;
pub mod editor;
pub mod config;
pub mod commands;
