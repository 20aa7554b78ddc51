//! A small closed-loop control system over a set of numeric buckets.
//!
//! Buckets drift upward over time, a sensor exposes their levels, a policy
//! decides corrective transfers between buckets, and an actuator applies them.
//! Everything here is verified; timers, channels, locks and rendering live in
//! the application around this library.

pub mod actuator;
pub mod buckets;
pub mod cli;
pub mod error;
pub mod events;
pub mod policy;
pub mod sensor;
