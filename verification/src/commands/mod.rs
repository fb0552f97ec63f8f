//! The commands of the host manager, as decisions on plain values.
use vstd::prelude::*;

use crate::error::AppError;
use crate::storage::{Storage, home_dir_spec, joined_path, no_home_error, storage_relative_path};
use crate::text::opt_view;

pub mod add;
pub mod connect;
pub mod doctor;
pub mod edit;
pub mod import;
pub mod list;
pub mod remove;

use add::AddCommand;
use connect::ConnectCommand;
use doctor::DoctorCommand;
use import::ImportCommand;
use list::ListCommand;

verus! {

/// What every command works with.
#[derive(Debug)]
pub struct CommandContext {
    pub storage: Storage,
}

impl CommandContext {
    /// The context for the home directory that the environment names, given
    /// the values of `HOME`, `USERPROFILE`, `HOMEDRIVE` and `HOMEPATH`.
    pub fn new(
        home: Option<String>,
        user_profile: Option<String>,
        home_drive: Option<String>,
        home_path: Option<String>,
    ) -> (r: Result<CommandContext, AppError>)
        ensures
            match home_dir_spec(
                opt_view(home),
                opt_view(user_profile),
                opt_view(home_drive),
                opt_view(home_path),
            ) {
                Some(h) => r matches Ok(c) && c.storage@.home == h && c.storage@.path
                    == joined_path(h, storage_relative_path()),
                None => r matches Err(e) && e@ == no_home_error(),
            },
    {
        let storage = Storage::new_default(home, user_profile, home_drive, home_path)?;
        Ok(CommandContext { storage })
    }
}

/// The parsed command line.
#[derive(Debug)]
pub struct Cli {
    pub command: Command,
}

/// One of the commands.
#[derive(Debug)]
pub enum Command {
    /// Import host entries from ~/.ssh/config
    Import(ImportCommand),
    /// Add a host entry manually
    Add(AddCommand),
    /// List stored host entries
    List(ListCommand),
    /// Connect to a stored host using system ssh
    Connect(ConnectCommand),
    /// Run environment and host health checks
    Doctor(DoctorCommand),
}

} // verus!
