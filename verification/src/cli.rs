use vstd::prelude::*;

verus! {

// The command-line surface. Parsing the arguments is the caller's concern;
// what is decided here is which operations the parsed arguments call for,
// and to which project the tool changes afterwards.

/// The parsed command line: an optional subcommand, and an optional bare
/// project name (a shorthand for changing to that project).
pub struct Args {
    pub command: Option<Command>,
    pub project_name: Option<String>,
}

/// The subcommands the tool offers.
pub enum Command {
    /// Change the active project.
    Change { project_name: String },
    /// Create a new project, then change to it.
    New { project_name: String, parent: Option<String>, folders: Option<Vec<String>> },
    /// Initialize the setup, then change to the root project.
    Init { yes: bool },
    /// Report the project tree.
    Tree { folders: bool },
}

/// What a command line asks for.
pub enum CliPlan {
    /// Neither a command nor a project name was given: report usage and
    /// fail.
    Usage,
    /// Change to the named project.
    Change { project_name: String },
    /// Create the named project under the given parent with the given
    /// folders, then change to it.
    New { project_name: String, parent: Option<String>, folders: Option<Vec<String>> },
    /// Initialize, then change to the root project.
    Init { yes: bool },
    /// Report the tree; afterwards change to the bare project name, if one
    /// was given besides.
    Tree { folders: bool, then_change: Option<String> },
}

/// Decide what the parsed arguments ask for: a subcommand wins over the
/// bare project name, which alone means a change, and neither is an error.
pub fn main_with_args(args: Args) -> (r: CliPlan)
    ensures
        r == (match args.command {
            Some(Command::Change { project_name }) => CliPlan::Change { project_name },
            Some(Command::New { project_name, parent, folders }) => CliPlan::New {
                project_name,
                parent,
                folders,
            },
            Some(Command::Init { yes }) => CliPlan::Init { yes },
            Some(Command::Tree { folders }) => CliPlan::Tree {
                folders,
                then_change: args.project_name,
            },
            None => match args.project_name {
                Some(project_name) => CliPlan::Change { project_name },
                None => CliPlan::Usage,
            },
        }),
{
    match args.command {
        Some(Command::Change { project_name }) => CliPlan::Change { project_name },
        Some(Command::New { project_name, parent, folders }) => CliPlan::New {
            project_name,
            parent,
            folders,
        },
        Some(Command::Init { yes }) => CliPlan::Init { yes },
        Some(Command::Tree { folders }) => CliPlan::Tree {
            folders,
            then_change: args.project_name,
        },
        None => match args.project_name {
            Some(project_name) => CliPlan::Change { project_name },
            None => CliPlan::Usage,
        },
    }
}

} // verus!
