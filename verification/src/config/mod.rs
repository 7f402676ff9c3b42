//! The editor configuration.

pub mod editor;
pub mod merge;
