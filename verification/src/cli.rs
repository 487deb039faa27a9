//! What the command line asks for.

use crate::backup::{prepare_live_environment, preparing, run_backup, running};
use crate::config::{validating, Config, Setup};
#[allow(unused_imports)]
use crate::journal::{drive, group_plan, say, shown, then, Session, Stop, Tone, Try};
use vstd::prelude::*;

verus! {

/// Btrfs subvolume backup with live boot environment support.
#[derive(Debug)]
pub struct Cli {
    /// Whether all details are shown.
    pub verbose: bool,
    /// Whether only errors are shown.
    pub quiet: bool,
    /// What to do.
    pub command: Commands,
}

/// What to do.
#[derive(Debug)]
pub enum Commands {
    /// Run a backup, or only show what it would do.
    Backup { config: String, dry_run: bool },
    /// Set up the live boot environment.
    PrepareLive { config: String },
    /// Check the configuration.
    Validate { config: String },
}

/// Checks a configuration and says that it is valid.
pub open spec fn checking(c: Setup) -> Try<()> {
    then(validating(c), |u: ()| say(Tone::Success, "Configuration is valid"@))
}

impl Commands {
    /// The configuration file.
    pub open spec fn file(self) -> Seq<char> {
        match self {
            Commands::Backup { config, .. } => config@,
            Commands::PrepareLive { config } => config@,
            Commands::Validate { config } => config@,
        }
    }

    /// What is done with a configuration.
    pub open spec fn executing(self, c: Setup) -> Try<()> {
        match self {
            Commands::Backup { dry_run, .. } => running(c, dry_run),
            Commands::PrepareLive { .. } => preparing(c),
            Commands::Validate { .. } => checking(c),
        }
    }

    /// The configuration file.
    pub fn config_path(&self) -> (r: &str)
        ensures
            r@ == self.file(),
    {
        match self {
            Commands::Backup { config, .. } => config.as_str(),
            Commands::PrepareLive { config } => config.as_str(),
            Commands::Validate { config } => config.as_str(),
        }
    }

    /// Does what is asked for with the configuration from the file.
    pub fn execute(&self, s: &mut Session, config: &Config) -> (r: Result<(), Stop>)
        requires
            config.sources@.len() + 3 <= usize::MAX,
        ensures
            drive(self.executing(config.deep_view()), old(s)@) == (final(s)@, shown(r)),
    {
        broadcast use group_plan;

        match self {
            Commands::Backup { dry_run, .. } => run_backup(s, config, *dry_run),
            Commands::PrepareLive { .. } => prepare_live_environment(s, config),
            Commands::Validate { .. } => {
                config.validate(s)?;
                s.say(Tone::Success, "Configuration is valid")
            },
        }
    }
}

}
