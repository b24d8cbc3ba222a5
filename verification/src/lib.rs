//! A real-time multi-track audio mixing and automation engine.
//!
//! The engine takes a project description (tracks, audio clips on a timeline,
//! per-parameter automation curves, a master bus, a transport clock) and
//! renders sample-accurate stereo audio blocks. All audio values are
//! fixed-point integers: `sample::UNIT` stands for 1.0, so the render path
//! is exact integer arithmetic and every stage carries a proved contract.
//!
//! The control side mutates project state only through the command channel
//! (`command::Command`, given meaning by `command::step`); the render side
//! (`engine::AudioService`) applies queued commands at block boundaries and
//! pulls audio through the mixing graph.

pub mod automation;
pub mod block;
pub mod command;
pub mod engine;
pub mod model;
pub mod sample;
pub mod transport;
