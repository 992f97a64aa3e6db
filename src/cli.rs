//! The command-line request: which extraction to run, on which file, for which agent.
use vstd::prelude::*;

verus! {

/// Extraction to run.
#[derive(Debug, Clone)]
pub enum Command {
    /// All events of the selected agent.
    All,
    /// Casts and their hits, of one skill when a selector is given.
    Cast { skill: Option<String> },
    /// The skill catalog, of one skill when a selector is given.
    Skill { skill: Option<String> },
    /// Position samples.
    Position,
    /// Direct-damage hits grouped by weapon set; needs an agent.
    Hitmap,
    /// Gear of the point-of-view agent.
    Gear,
}

/// Arguments shared by every command.
#[derive(Debug, Clone)]
pub struct Args {
    /// Path to the input file.
    pub input: String,
    /// Path to the output file; the input's file name by default.
    pub output: Option<String>,
    /// Id or name of the agent to filter data for.
    pub agent: Option<String>,
}

/// A full command line.
#[derive(Debug, Clone)]
pub struct Cli {
    pub command: Command,
    pub args: Args,
}

} // verus!
