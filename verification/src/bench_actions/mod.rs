//! Measure whether spoken commands actually work, against the home they will be
//! used in.
//!
//! Three decisions shape everything here.
//!
//! **It runs against the real house, not a simulator.** The difficulty in routing
//! a command comes from the real catalogue size, the real device names, two lamps
//! in different rooms called almost the same. Recreate the house and you recreate
//! only the parts you already thought of.
//!
//! **It goes through the production turn.** The utterance arrives as text, and
//! from there nothing is swapped out. A harness that posted its own request would
//! grade the model; this grades what the user will experience.
//!
//! **The fixtures name no device.** They state a requirement, and it is resolved
//! against whatever house the suite is pointed at. Results are split so that the
//! shareable half carries verdicts and timings and never a device name.

pub mod fixture;
pub mod house;
pub mod language;
pub mod requirement;
pub mod runner;
pub mod scoring;
pub mod staging;
pub mod suite;
pub mod summary;
pub mod turn;
