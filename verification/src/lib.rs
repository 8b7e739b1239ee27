//! Browsing the commands of a tmux pane's scrollback: the application state
//! with its fuzzy search, the text helpers behind copying and the debug view,
//! JSON highlighting, and the decisions around the tmux commands.

pub mod app;
pub mod block;
pub mod json_highlight;
pub mod matcher;
pub mod styled;
pub mod text;
pub mod tmux;
pub mod ui;
pub mod utils;
