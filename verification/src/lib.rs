//! Verified core of the ruse terminal frontend.
pub mod input;
pub mod json;
pub mod keys;
pub mod line_index;
pub mod lsp;
pub mod org;
pub mod persist;
pub mod pty;
pub mod recover;
pub mod remote;
pub mod screen;
pub mod shell;
pub mod text;
pub mod words;
