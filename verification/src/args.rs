//! The parsed command line: which operation one invocation performs, on which
//! targets, under which flags.
//!
//! Parsing itself happens outside the crate; this model receives the parsed
//! values and answers the dispatcher's questions: which command is active,
//! which name or window it was given, and which targets a remove works on.

use vstd::prelude::*;

verus! {

/// The subcommands besides the default remove.
pub enum Commands {
    /// Show the holding-area contents.
    List,
    /// Permanently delete entries older than the window (days); the window
    /// defaults to 30 days.
    Tidy { time: Option<i64> },
    /// Restore all entries, or those deleted within the window (days).
    RecoverAll { time: Option<i64> },
    /// Restore the entries stored under exactly this name.
    Recover { name: String },
    /// Permanently delete the entries stored under exactly this name.
    Purge { name: String },
}

/// One invocation: targets, selected subcommand, and the remove flags.
pub struct Args {
    /// Paths to remove when no subcommand is used.
    pub file: Vec<String>,
    /// The selected subcommand; `None` means remove.
    pub command: Option<Commands>,
    /// Do not use the holding area: delete permanently.
    pub ignore: bool,
    /// Remove directories and their contents recursively.
    pub recursive: bool,
    /// Force removal without the per-directory diagnostic.
    pub force: bool,
    /// Remove empty directories directly, without the holding area.
    pub dir: bool,
}

impl Args {
    /// The paths a remove works on: the positional arguments, or nothing
    /// when a subcommand is active.
    pub fn get_files(&self) -> (r: Vec<String>)
        ensures
            self.command is Some ==> r@.len() == 0,
            self.command is None ==> r@ == self.file@,
    {
        match &self.command {
            Some(_) => Vec::new(),
            None => {
                let mut out: Vec<String> = Vec::new();
                let mut i: usize = 0;
                while i < self.file.len()
                    invariant
                        i <= self.file@.len(),
                        out@.len() == i,
                        forall|j: int| 0 <= j < i ==> out@[j] == self.file@[j],
                    decreases self.file@.len() - i,
                {
                    out.push(self.file[i].clone());
                    i = i + 1;
                }
                proof {
                    assert(out@ =~= self.file@);
                }
                out
            },
        }
    }

    /// Whether the list command is active.
    pub fn is_list(&self) -> (r: bool)
        ensures
            r == (self.command matches Some(Commands::List)),
    {
        matches!(self.command, Some(Commands::List))
    }

    /// Whether the tidy command is active.
    pub fn is_tidy(&self) -> (r: bool)
        ensures
            r == (self.command matches Some(Commands::Tidy { .. })),
    {
        matches!(self.command, Some(Commands::Tidy { .. }))
    }

    /// Whether the recover-all command is active.
    pub fn is_recover_all(&self) -> (r: bool)
        ensures
            r == (self.command matches Some(Commands::RecoverAll { .. })),
    {
        matches!(self.command, Some(Commands::RecoverAll { .. }))
    }

    /// Whether the recover command is active.
    pub fn is_recover(&self) -> (r: bool)
        ensures
            r == (self.command matches Some(Commands::Recover { .. })),
    {
        matches!(self.command, Some(Commands::Recover { .. }))
    }

    /// The name to recover, when the recover command is active.
    pub fn get_recover_name(&self) -> (r: Option<&str>)
        ensures
            self.command matches Some(Commands::Recover { name }) ==> (r matches Some(s) && s@
                == name@),
            !(self.command matches Some(Commands::Recover { .. })) ==> r is None,
    {
        match &self.command {
            Some(Commands::Recover { name }) => Some(name.as_str()),
            _ => None,
        }
    }

    /// Whether the purge command is active.
    pub fn is_purge(&self) -> (r: bool)
        ensures
            r == (self.command matches Some(Commands::Purge { .. })),
    {
        matches!(self.command, Some(Commands::Purge { .. }))
    }

    /// The name to purge, when the purge command is active.
    pub fn get_purge_name(&self) -> (r: Option<&str>)
        ensures
            self.command matches Some(Commands::Purge { name }) ==> (r matches Some(s) && s@
                == name@),
            !(self.command matches Some(Commands::Purge { .. })) ==> r is None,
    {
        match &self.command {
            Some(Commands::Purge { name }) => Some(name.as_str()),
            _ => None,
        }
    }

    /// Whether the default remove behaviour is active: no subcommand given.
    pub fn is_remove(&self) -> (r: bool)
        ensures
            r == (self.command is None),
    {
        self.command.is_none()
    }

    /// The retention window of the tidy command, in days; 30 when not given.
    pub fn get_time_tidy(&self) -> (r: i64)
        ensures
            r == (match self.command {
                Some(Commands::Tidy { time: Some(t) }) => t,
                _ => 30i64,
            }),
    {
        match &self.command {
            Some(Commands::Tidy { time }) => time.unwrap_or(30),
            _ => 30,
        }
    }

    /// The window of the recover-all command, in days; 0, meaning all
    /// entries, when not given.
    pub fn get_time_recover(&self) -> (r: i64)
        ensures
            r == (match self.command {
                Some(Commands::RecoverAll { time: Some(t) }) => t,
                _ => 0i64,
            }),
    {
        match &self.command {
            Some(Commands::RecoverAll { time }) => time.unwrap_or(0),
            _ => 0,
        }
    }
}

} // verus!
