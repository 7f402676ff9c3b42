//! Documents, registers, themes and workspaces.

pub mod theme;
pub mod document;
pub mod register;
pub mod workspace;
pub mod state;
