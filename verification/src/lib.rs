//! Logic of a coding agent: message history, tools, permissions, the model
//! protocol, sessions and the terminal transcript.
pub mod agent;
pub mod app_state;
pub mod builtin;
pub mod cli;
pub mod config;
pub mod context;
pub mod drive;
pub mod duration;
pub mod export;
pub mod git;
pub mod ids;
pub mod json;
pub mod keys;
pub mod llm;
pub mod markdown;
pub mod markdown_render;
pub mod number;
pub mod pattern;
pub mod permission;
pub mod prelude;
pub mod run;
pub mod snapshot;
pub mod sse;
pub mod storage;
pub mod style;
pub mod table;
pub mod text;
pub mod theme;
pub mod tool;
pub mod tools;
pub mod tui;
pub mod turn;
pub mod types;
pub mod view;
pub mod width;
