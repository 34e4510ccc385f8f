//! Fono's voice assistant, the parts that decide.
//!
//! A spoken sentence becomes a tool call, a tool call becomes something that
//! happens in a home, and somebody has to notice when it did not. This library
//! holds the decisions on that way and none of the plumbing: what is sent to a
//! server and what is held back, what a reply is worth, when a command may be
//! tried again, what is written down, and how a whole assistant is measured
//! against a real home.
//!
//! * [`actions`] runs one tool call honestly.
//! * [`bench_actions`] measures whether spoken commands work.
//! * [`conversation_log`] decides what is kept of a conversation.
//! * [`models`] decides which local models are fetched and what is said of it.
//! * [`json`], [`value`], [`decimal`], [`order`] and [`text`] are what the rest
//!   is written in.
//!
//! Whoever uses the library performs what is decided — calls the server, reads
//! the house, writes the row — and hands back what came of it.

pub mod actions;
pub mod bench_actions;
pub mod conversation_log;
pub mod decimal;
pub mod json;
pub mod models;
pub mod order;
pub mod text;
pub mod value;
