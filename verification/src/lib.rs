//! Simulation assets for the quadruped namiashi.
//!
//! Every physical quantity is an integer in billionths of its unit: lengths
//! in nanometres, angles in nanoradians, times in nanoseconds, and so on.
//! [`fixed`] says how they are multiplied, divided and rounded.
pub mod actuation;
pub mod attack;
pub mod decimal;
pub mod fixed;
pub mod gait;
pub mod harness;
pub mod hud;
pub mod levelling;
pub mod opponent;
pub mod recovery;
pub mod replay;
pub mod ring;
pub mod sample;
pub mod scene;
pub mod schedule;
pub mod self_righting;
pub mod session;
pub mod setup;
pub mod swing;
pub mod teleop;
pub mod text;
pub mod trial;
