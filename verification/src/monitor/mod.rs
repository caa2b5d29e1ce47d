//! Finding crashes and blocks of an app in the log of a device.
//!
//! - A Java crash shows as `FATAL EXCEPTION` or, among the events, as `am_crash`.
//! - A native crash shows as `FATAL SIGNAL`, `tombstone` or `*** ***`.
//! - An app that does not respond shows as `ANR in `, `am_anr` or `Input dispatching timed out`.

pub mod collect;
pub mod evidence;
pub mod evidence_law;
pub mod law;
pub mod line;

pub use collect::Collector;
pub use collect::Incident;
pub use collect::IncidentKind;
