//! What a run is asked to do, and where its results go.

use vstd::prelude::*;

use crate::monitor::line::option_text;
use crate::script::ir::copy_option;
use crate::session::RunConfig;
use crate::strategy::config::default_text_pool;
use crate::strategy::config::mode_text;
use crate::strategy::config::pool_texts;
use crate::strategy::config::ConfigView;
use crate::strategy::config::ExplorerConfig;
use crate::strategy::config::StateMode;
use crate::strategy::record::copy_texts;
use crate::text::basic::texts;
use crate::util::now_file_str;
use crate::util::slug;
use crate::util::slug_of;

verus! {

/// What a run is asked to do.
#[derive(Debug)]
pub struct RunOptions {
    pub package: String,
    /// The activity to open; the one that opens the app where there is none.
    pub activity: Option<String>,
    /// The directory for the results.
    pub output: String,
    /// How long to run at most; zero for no limit.
    pub duration_secs: u64,
    /// How many steps to do at most; zero for no limit.
    pub max_steps: usize,
    /// How long to wait between two steps.
    pub interval_ms: u64,
    /// How long to wait for the screen to settle before a picture is taken.
    pub settle_ms: u64,
    pub seed: u64,
    pub screenshot: bool,
    pub annotate: bool,
    /// The pictures without marks are kept as well.
    pub keep_raw: bool,
    pub text_pool: Vec<String>,
    pub max_same_state: usize,
    pub state_mode: StateMode,
    pub max_relaunch: usize,
    pub verbose: bool,
}

/// The settings of the exploration that a run is asked for: the built-in texts where none are
/// given, and a state may be met twice in a row in any case.
pub open spec fn config_of(o: RunOptions) -> ConfigView {
    ConfigView {
        package: o.package@,
        pool: if o.text_pool@.len() == 0 {
            pool_texts()
        } else {
            texts(o.text_pool@)
        },
        max_same_state: if o.max_same_state < 2 {
            2
        } else {
            o.max_same_state as int
        },
        long_click: true,
        input: true,
        horizontal: true,
        mode: o.state_mode,
    }
}

impl RunOptions {
    /// The settings of the exploration.
    pub fn explorer_config(&self) -> (r: ExplorerConfig)
        ensures
            r@ == config_of(*self),
    {
        let mut cfg = ExplorerConfig::default();
        cfg.package = self.package.clone();
        cfg.text_pool = if self.text_pool.len() == 0 {
            default_text_pool()
        } else {
            copy_texts(&self.text_pool)
        };
        cfg.max_same_state = if self.max_same_state < 2 {
            2
        } else {
            self.max_same_state
        };
        cfg.state_mode = self.state_mode;
        cfg
    }

    /// What is kept of the options with the results.
    pub fn run_config(&self) -> (r: RunConfig)
        ensures
            r.package@ == self.package@,
            option_text(r.activity) == option_text(self.activity),
            r.duration_secs == self.duration_secs,
            r.max_steps == self.max_steps,
            r.interval_ms == self.interval_ms,
            r.seed == self.seed,
            r.screenshot == self.screenshot,
            r.annotate == self.annotate,
            r.state_mode@ == mode_text(self.state_mode),
    {
        RunConfig {
            package: self.package.clone(),
            activity: copy_option(&self.activity),
            duration_secs: self.duration_secs,
            max_steps: self.max_steps,
            interval_ms: self.interval_ms,
            seed: self.seed,
            screenshot: self.screenshot,
            annotate: self.annotate,
            state_mode: self.state_mode.as_str().to_string(),
        }
    }
}

/// The name of the directory for the results: the app and the time.
pub open spec fn session_name_of(package: Seq<char>, stamp: Seq<char>) -> Seq<char> {
    slug_of(package) + "_"@ + stamp
}

/// The name of the directory for the results, at the given time.
pub fn session_name(package: &str, stamp: &str) -> (r: String)
    ensures
        r@ == session_name_of(package@, stamp@),
{
    let mut h = slug(package);
    h.append("_");
    h.append(stamp);
    h
}

/// The name of the directory for the results, at this time.
pub fn default_session_name(package: &str) -> (r: String)
    ensures
        exists|stamp: Seq<char>| r@ == #[trigger] session_name_of(package@, stamp),
{
    let stamp = now_file_str();
    session_name(package, stamp.as_str())
}

/// The directory for the results on a computer, at this time.
pub fn default_output_dir(package: &str) -> (r: String)
    ensures
        exists|stamp: Seq<char>| r@ == "sessions/"@ + #[trigger] session_name_of(package@, stamp),
{
    let mut h = "sessions/".to_string();
    h.append(default_session_name(package).as_str());
    h
}

/// The directory for the results on a phone.
pub open spec fn device_dir(base: Seq<char>, name: Seq<char>) -> Seq<char> {
    base + "/"@ + name
}

fn join_dir(base: &str, name: &str) -> (r: String)
    ensures
        r@ == device_dir(base@, name@),
{
    let mut h = base.to_string();
    h.append("/");
    h.append(name);
    h
}

/// The directory for the results on a phone: the one that a user can look into, unless it cannot
/// be written; then the other, whether it can be written or not.
pub fn pick_device_output(name: &str, sdcard_writable: bool) -> (r: String)
    ensures
        r@ == if sdcard_writable {
            device_dir("/sdcard/atraverse"@, name@)
        } else {
            device_dir("/data/local/tmp/atraverse"@, name@)
        },
{
    if sdcard_writable {
        join_dir("/sdcard/atraverse", name)
    } else {
        join_dir("/data/local/tmp/atraverse", name)
    }
}

} // verus!
