//! A terminal MUD client's core logic: configuration model, telnet stream
//! handling, ANSI styling, the automap world graph and the screen state machines.

pub mod app;
pub mod clipboard;
pub mod text;
pub mod config;
pub mod matching;
pub mod json;
pub mod map;
pub mod ui;
pub mod net;
