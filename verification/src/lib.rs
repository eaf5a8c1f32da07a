//! Decisions, parsers and bookkeeping behind a desktop front-end for yt-dlp.

pub mod text;
pub mod num;
pub mod parse;
pub mod job;
pub mod update;
pub mod config;
pub mod dnd;
pub mod about;
pub mod bootstrap;
pub mod theme;
pub mod panel;
