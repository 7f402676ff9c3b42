//! Presentation models of the editor's user interface parts.

pub mod which_key;
pub mod statusline;
pub mod palette;
pub mod controller;
pub mod shell;
pub mod status;
