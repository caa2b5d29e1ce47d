//! Running test cases on a device.
//!
//! - Every widget that a case refers to is looked up in the registry of elements before the case
//!   runs; a case that refers to something else is blocked and does not run.
//! - Whether a widget is there is never decided by its place or its number: these say where to
//!   tap, not what is there, and would let a test pass that has seen nothing.
//! - What is expected comes from the case alone.

pub mod case;
pub mod check;
pub mod course;
pub mod gate;
pub mod html;
pub mod html_law;
pub mod ir;
pub mod law;
pub mod locate;
pub mod rules;
pub mod steps;
pub mod suite;

pub use case::CaseResult;
pub use check::no_crash_outcome;
pub use check::AssertResult;
pub use check::AssertStatus;
pub use check::AttemptOutcome;
pub use gate::gate_case;
pub use gate::GateIssue;
pub use ir::Assertion;
pub use ir::Case;
pub use ir::ElemRef;
pub use ir::ElementDef;
pub use ir::LocatorDef;
pub use ir::Registry;
pub use ir::Step;
pub use ir::Trace;
pub use steps::StepResult;
pub use suite::ScriptRun;
pub use suite::Summary;
