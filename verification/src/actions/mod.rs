//! Run one tool call, and say honestly what came of it.
//!
//! The one rule this module exists to enforce is honesty about outcomes. A server
//! can answer cheerfully and have done nothing at all — a home does exactly that
//! when a command names an area it does not have — so the wording of every
//! summary is capped by how well the effect could actually be checked.
//!
//! Deciding *how well* means reading a server's own payloads, which is knowledge
//! of that particular software. All of it lives in [`vendor`]; the [`ladder`]
//! knows no vendor's name.
//!
//! * [`catalogue`] assembles what the model may call, and the rails it is held
//!   to.
//! * [`hint`] writes what the model is told about the home.
//! * [`arguments`] mends and checks what the model sends.
//! * [`ladder`] takes one call from attempt to verdict.
//! * [`learning`] keeps what worked, and replays it.

pub mod arguments;
pub mod call;
pub mod catalogue;
pub mod hint;
pub mod ladder;
pub mod learning;
pub mod vendor;
