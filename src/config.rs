//! Where the application keeps its files, and how the command line chooses them.
use vstd::prelude::*;
use crate::text::{join_path, joined};

verus! {

pub const CONFIG_FILENAME: &'static str = "config.json";

pub const LOGS_FILENAME: &'static str = "application.log";

pub const THEMES_FILENAME: &'static str = "themes.json";

pub const FILTERS_DIRECTORY: &'static str = "filters";

/// How the consumer pulls records: at most `buffer_capacity` records per
/// batch, or what came within `timeout_in_ms`.
#[derive(Debug, Clone, Copy, PartialEq, Eq, Structural)]
pub struct ConsumerConfig {
    pub buffer_capacity: usize,
    pub timeout_in_ms: u64,
}

impl Default for ConsumerConfig {
    fn default() -> (r: ConsumerConfig)
        ensures
            r.buffer_capacity == 1000 && r.timeout_in_ms == 10,
    {
        ConsumerConfig { buffer_capacity: 1000, timeout_in_ms: 10 }
    }
}

/// How timestamps are shown.
#[derive(Debug, Clone, Copy, PartialEq, Eq, Structural, Default)]
pub enum TimestampFormat {
    #[default]
    DateTime,
    Ago,
}

/// The directory holding the configuration, logs, themes and filters, and the
/// configuration file in use.
#[derive(Debug, Clone, PartialEq, Eq)]
pub struct Workspace {
    pub path: String,
    pub config_file: String,
}

fn copy_str(s: &str) -> (r: String)
    ensures
        r@ == s@,
{
    let mut r = String::new();
    crate::text::push_str(&mut r, s);
    r
}

impl Workspace {
    pub closed spec fn config_file_view(&self) -> Seq<char> {
        self.config_file@
    }

    pub fn new(directory: &str, config_file: &str) -> (r: Workspace)
        ensures
            r.path@ == directory@,
            r.config_file_view() == config_file@,
    {
        Workspace { path: copy_str(directory), config_file: copy_str(config_file) }
    }

    pub fn config_file(&self) -> (r: String)
        ensures
            r@ == self.config_file_view(),
    {
        self.config_file.clone()
    }

    pub fn logs_file(&self) -> (r: String)
        ensures
            r@ == joined(self.path@, LOGS_FILENAME@),
    {
        join_path(self.path.as_str(), LOGS_FILENAME)
    }

    pub fn themes_file(&self) -> (r: String)
        ensures
            r@ == joined(self.path@, THEMES_FILENAME@),
    {
        join_path(self.path.as_str(), THEMES_FILENAME)
    }

    /// The directory of the filter modules.
    pub fn filters_dir(&self) -> (r: String)
        ensures
            r@ == joined(self.path@, FILTERS_DIRECTORY@),
    {
        join_path(self.path.as_str(), FILTERS_DIRECTORY)
    }
}

/// The options of the command line that choose the files.
#[derive(Debug, Clone, PartialEq, Eq, Default)]
pub struct GlobalArgs {
    /// A specific configuration file.
    pub config_file: Option<String>,
    /// A specific directory for the configuration, logs and filters.
    pub config_dir: Option<String>,
    /// A specific log file.
    pub log_file: Option<String>,
}

impl GlobalArgs {
    /// The workspace that the options choose; `default_dir` is the directory
    /// used when none is given.
    pub fn workspace(&self, default_dir: &str) -> (r: Workspace)
        ensures
            r.path@ == match self.config_dir {
                Some(d) => d@,
                None => default_dir@,
            },
            r.config_file_view() == match (self.config_dir, self.config_file) {
                (_, Some(f)) => f@,
                (Some(d), None) => joined(d@, CONFIG_FILENAME@),
                (None, None) => joined(default_dir@, CONFIG_FILENAME@),
            },
    {
        let dir: &str = match &self.config_dir {
            Some(d) => d.as_str(),
            None => default_dir,
        };
        let file = match &self.config_file {
            Some(f) => f.clone(),
            None => join_path(dir, CONFIG_FILENAME),
        };
        Workspace::new(dir, file.as_str())
    }

    /// The log file: the option, else the one the configuration names, else
    /// the one of the workspace.
    pub fn log_file_in(&self, ws: &Workspace, configured: &Option<String>) -> (r: String)
        ensures
            r@ == match (self.log_file, *configured) {
                (Some(f), _) => f@,
                (None, Some(c)) => c@,
                (None, None) => joined(ws.path@, LOGS_FILENAME@),
            },
    {
        match (&self.log_file, configured) {
            (Some(f), _) => f.clone(),
            (None, Some(c)) => c.clone(),
            (None, None) => ws.logs_file(),
        }
    }
}

} // verus!
