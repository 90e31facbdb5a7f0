//! Document, outline and terminal-protocol logic of the mdterm editor.
pub mod text;
pub mod tmux_parser;
pub mod html;
pub mod state;
pub mod outline;
pub mod markdown;
pub mod tmux;
pub mod config;
pub mod pty;
pub mod term_rec;
pub mod stats;
pub mod document;
pub mod files;
