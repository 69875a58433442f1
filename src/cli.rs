//! The commands and their options, as plain values.
use vstd::prelude::*;

verus! {

/// A '/' separated value of the form project/subproject/.../nodo_name
#[derive(Debug, Default, PartialEq, Clone)]
pub struct Target {
    pub inner: String,
}

impl Target {
    pub fn is_empty(&self) -> (r: bool)
        ensures
            r == (self.inner@.len() == 0),
    {
        self.inner.as_str().unicode_len() == 0
    }
}

/// The template file to create a nodo from, if any
#[derive(Debug, Default, PartialEq, Clone)]
pub struct Template {
    pub inner: Option<String>,
}

/// A task and notes tracker, combined
#[derive(Debug)]
pub struct Cli {
    pub sub_command: Option<SubCommand>,
    /// Suppress logging completely
    pub quiet: bool,
    /// How verbose logging is
    pub log_level: usize,
    /// The filetype to use for this command
    pub filetype: Option<String>,
    pub target: Target,
}

#[derive(Debug)]
pub enum SubCommand {
    /// Create a new nodo
    New(New),
    /// Show available projects and nodos
    Show(Show),
    /// Remove a nodo
    Remove(Remove),
    /// Edit a nodo in the editor
    Edit(Edit),
    /// Clean up the temporary directory
    Clean(Clean),
    /// Format nodos or a target
    Format(Format),
    /// Archive a nodo or project tree
    Archive(Archive),
}

#[derive(Debug)]
pub struct New {
    pub target: Target,
    pub template: Template,
}

#[derive(Debug)]
pub struct Show {
    pub target: Target,
    /// The max depth to show for a list or the tree
    pub depth: Option<u32>,
    /// Filter task lists to show only complete tasks
    pub complete: Option<bool>,
}

#[derive(Debug)]
pub struct Remove {
    pub target: Target,
    /// Force removal of the target, allows removal of projects
    pub force: bool,
}

#[derive(Debug)]
pub struct Edit {
    pub target: Target,
    pub template: Template,
    /// Use a temporary file
    pub temp: bool,
    /// Create the file if it doesn't already exist
    pub create: bool,
}

#[derive(Debug)]
pub struct Clean {}

#[derive(Debug)]
pub struct Format {
    pub target: Target,
    /// Don't apply the formatting, instead write the formatted file out
    pub dry_run: bool,
    /// Show output of files being formatted
    pub verbose: bool,
}

#[derive(Debug)]
pub struct Archive {
    pub target: Target,
}

} // verus!
