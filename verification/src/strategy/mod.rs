//! Exploring an app: which actions a screen offers, which one is next, which states and widgets
//! have been met, and how much of them has been covered.
//!
//! - A state is told by the activity and the identities of its interactive widgets.
//! - For each state the actions tried in it are kept; one that was not tried yet comes first.
//! - A widget that nothing was done with yet weighs more than one that was used before.
//! - Where all actions of a state were tried, one of them is taken by its weight; a run of the
//!   same state is noticed, so that the caller can go back.

pub mod candidate;
pub mod config;
pub mod coverage;
pub mod explorer;
pub mod law;
pub mod measure;
pub mod offering;
pub mod record;
pub mod states;
pub mod weight;

pub use candidate::swipe_points;
pub use candidate::Candidate;
pub use config::default_text_pool;
pub use config::ExplorerConfig;
pub use config::StateMode;
pub use coverage::ActivityCoverage;
pub use coverage::CoverageReport;
pub use explorer::Explorer;
pub use record::ActivityRecord;
pub use record::NodeStat;
pub use record::StateRecord;
pub use record::Transition;
