//! Decision core of a battery monitor: classifies power-supply readings,
//! raises each alert once per change of condition, and guards the alert
//! sound against overlapping playback.

pub mod charge;
pub mod condition;
pub mod decimal;
pub mod event;
pub mod host;
pub mod monitor;
pub mod player;
