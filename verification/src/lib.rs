//! Exploration of Android applications: the widget tree and its signatures, the
//! choice of the next action, the reading of log lines, scripted cases and reports.
//!
//! Everything here works on plain values. Talking to a device, to files and to the
//! clock is left to the caller.

pub mod annotate;
pub mod annotate_law;
pub mod cli;
pub mod cli_law;
pub mod decimal;
pub mod device;
pub mod dump;
pub mod dump_law;
pub mod lettering;
pub mod markup;
pub mod model;
pub mod monitor;
pub mod outside;
pub mod quotient;
pub mod report;
pub mod report_law;
pub mod runner;
pub mod script;
pub mod session;
pub mod single;
pub mod sketch;
pub mod sketch_law;
pub mod strategy;
pub mod text;
pub mod util;
pub mod util_law;
