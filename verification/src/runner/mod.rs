//! Walking through an app: look, decide, act, take a picture, keep a record, watch for incidents.
//!
//! What is decided stands here; it does not matter where the program runs. The device is reached
//! by the caller, who does what is asked for and says what came of it.

pub mod act;
pub mod incident;
pub mod law;
pub mod options;
pub mod rules;
pub mod travel;

pub use options::default_output_dir;
pub use options::default_session_name;
pub use options::RunOptions;
