//! Incremental backups of Btrfs subvolumes, with an optional live boot environment.

pub mod text;
pub mod path;
pub mod spelling;
pub mod error;
pub mod journal;
pub mod trace;
pub mod change;
pub mod ui;
pub mod command_runner;
pub mod btrfs;
pub mod config;
pub mod device;
pub mod hooks;
pub mod liveboot;
pub mod snapshot;
pub mod backup;
pub mod cli;
pub mod holding;
pub mod course;
pub mod restraint;
pub mod usability;
pub mod disk;
pub mod delivery;
pub mod undoing;
pub mod rotation;
pub mod environment;
pub mod sparing;
pub mod preparation;
pub mod snapper;
pub mod exclusion;
pub mod unlocking;
pub mod tidying;
pub mod orders;
pub mod lineage;
pub mod booting;
pub mod access;
pub mod finishing;
pub mod promises;
pub mod finding;
pub mod reading;
pub mod telling;
pub mod naming;
pub mod owing;

pub use cli::Cli;
pub use config::Config;
pub use error::BackupError;
