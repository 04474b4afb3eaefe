//! Review uncommitted Git changes and turn selected diff lines into inline comments.

pub mod app;
pub mod app_laws;
pub mod clipboard;
pub mod clipboard_laws;
pub mod commenting;
pub mod comments;
pub mod control;
pub mod diff_parser;
pub mod diff_read;
pub mod editor;
pub mod events;
pub mod git_diff;
pub mod identity;
pub mod key_laws;
pub mod line_laws;
pub mod number;
pub mod parser_laws;
pub mod payload;
pub mod payload_laws;
pub mod place_laws;
pub mod read_laws;
pub mod render;
pub mod screen_laws;
pub mod selection;
pub mod settings;
pub mod text;
pub mod untracked;
pub mod untracked_laws;
