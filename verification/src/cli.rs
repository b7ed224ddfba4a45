//! The command-line surface, as plain data.
//!
//! Argument parsing itself happens outside the library; what arrives here are
//! the parsed values each command works from.
use vstd::prelude::*;

verus! {

pub struct Cli {
    pub command: Command,
}

pub enum Command {
    /// Adds a new parameter to the config; can replace an existing one.
    Add(Add),
    /// Updates an existing parameter.
    Update(Update),
    /// Deletes a parameter.
    Delete(Delete),
    /// Moves a parameter into a group.
    MoveTo(MoveTo),
    /// Moves a parameter out of its group.
    MoveOut(MoveOut),
    /// Shows parameters and conditions.
    Show(Project),
    /// Works on the stored project configuration.
    Config(Config),
    /// Migrates parameters from one project to others.
    Migrate(Migrate),
}

pub struct Add {
    pub name: Option<String>,
    pub description: Option<String>,
    pub project: Project,
}

pub struct Update {
    pub name: String,
    pub project: Project,
}

pub struct MoveOut {
    pub name: String,
    pub project: Project,
}

pub struct MoveTo {
    pub name: String,
    pub group: Option<String>,
    pub project: Project,
}

pub struct Delete {
    pub name: String,
    pub project: Project,
}

pub struct Migrate {
    pub source: String,
    pub projects: Option<Vec<String>>,
}

pub enum Config {
    /// Loads the configuration from a file at a path.
    Store { path: String },
    /// Adds a project to the configuration.
    Add(AddProject),
    /// Removes a project from the configuration.
    Remove { name: String },
    /// Shows the configuration.
    Show(Project),
}

pub struct AddProject {
    pub name: String,
    pub app_ids: Option<Vec<String>>,
    pub project_number: String,
}

/// Selects which stored projects a command runs for: one project, several
/// with a chosen main project, or all of them.
pub struct Project {
    pub project: Option<String>,
    pub main: Option<String>,
}

} // verus!
