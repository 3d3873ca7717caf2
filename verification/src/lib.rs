//! Core of a modal, client/server terminal text editor: positions and ranges,
//! edit history, path globs, and the state machines built on top of them.

pub mod application;
pub mod args;
pub mod buf_pool;
pub mod buffer;
pub mod buffer_content;
pub mod buffer_position;
pub mod buffer_view;
pub mod client;
pub mod client_application;
pub mod client_collection;
pub mod command;
pub mod connection;
pub mod cursor;
pub mod dispatch;
pub mod editor;
pub mod events;
pub mod glob;
pub mod history;
pub mod json;
pub mod json_parser;
pub mod keymap;
pub mod lsp;
pub mod mode;
pub mod picker;
pub mod platform;
pub mod register;
pub mod select;
pub mod serialization;
pub mod text;
