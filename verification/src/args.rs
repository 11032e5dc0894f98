//! Settings of the commands, as plain values.

use vstd::prelude::*;

use crate::diagnostic::Severity;

verus! {

/// The command to run, with its settings.
#[derive(Debug)]
pub struct Cli {
    pub command: Command,
}

/// The commands.
#[derive(Debug)]
pub enum Command {
    /// Check files.
    Check(CheckArgs),
    /// Display the rules used to check files.
    Rules(RulesArgs),
    /// Display statistics about files.
    Stats(StatsArgs),
}

/// Settings of the `check` command.
#[derive(Debug)]
pub struct CheckArgs {
    /// Files or directories.
    pub files: Vec<String>,
    /// Display the settings used to check files.
    pub show_settings: bool,
    /// Check fuzzy entries.
    pub fuzzy: bool,
    /// Check entries marked as "noqa".
    pub noqa: bool,
    /// Check obsolete entries.
    pub obsolete: bool,
    /// Rules to apply, separated by commas.
    pub select: Option<String>,
    /// Rules to leave out, separated by commas.
    pub ignore: Option<String>,
    /// Directory of the dictionaries.
    pub path_dicts: String,
    /// Directory of the lists of words to add, one file per language.
    pub path_words: Option<String>,
    /// Language of the source strings.
    pub lang_id: String,
    /// Severities to keep; all of them if empty.
    pub severity: Vec<Severity>,
    /// Do not display the errors found.
    pub no_errors: bool,
    /// Order of the errors displayed.
    pub sort: CheckSort,
    /// Display statistics about each rule that found something.
    pub rule_stats: bool,
    /// Display statistics for each file checked.
    pub file_stats: bool,
    /// Output format.
    pub output: CheckOutputFormat,
    /// Report nothing, only set the exit code.
    pub quiet: bool,
}

/// Order of the errors displayed.
#[derive(Clone, Copy, Debug, Default, PartialEq, Eq, Structural)]
pub enum CheckSort {
    /// By path, then line number.
    #[default]
    Line,
    /// By message, then path, then line number.
    Message,
    /// By rule, then path, then line number.
    Rule,
}

/// Settings of the `rules` command.
#[derive(Debug)]
pub struct RulesArgs;

/// Settings of the `stats` command.
#[derive(Debug)]
pub struct StatsArgs {
    /// Files or directories.
    pub files: Vec<String>,
    /// Output format.
    pub output: StatsOutputFormat,
    /// Order of the files displayed.
    pub sort: StatsSort,
    /// Display statistics on words and characters too.
    pub words: bool,
}

/// Output format of the `check` command.
#[derive(Clone, Copy, Debug, Default, PartialEq, Eq, Structural)]
pub enum CheckOutputFormat {
    /// Text for a reader.
    #[default]
    Human,
    /// JSON.
    Json,
    /// The misspelled words, one per line.
    Misspelled,
}

impl CheckOutputFormat {
    /// The word that names this format.
    pub open spec fn label(self) -> Seq<char> {
        match self {
            CheckOutputFormat::Human => "human"@,
            CheckOutputFormat::Json => "json"@,
            CheckOutputFormat::Misspelled => "misspelled"@,
        }
    }

    /// Returns the word that names this format.
    pub fn name(&self) -> (r: &'static str)
        ensures
            r@ == self.label(),
    {
        match self {
            CheckOutputFormat::Human => "human",
            CheckOutputFormat::Json => "json",
            CheckOutputFormat::Misspelled => "misspelled",
        }
    }
}

/// Output format of the `stats` command.
#[derive(Clone, Copy, Debug, Default, PartialEq, Eq, Structural)]
pub enum StatsOutputFormat {
    /// Text for a reader.
    #[default]
    Human,
    /// JSON.
    Json,
}

impl StatsOutputFormat {
    /// The word that names this format.
    pub open spec fn label(self) -> Seq<char> {
        match self {
            StatsOutputFormat::Human => "human"@,
            StatsOutputFormat::Json => "json"@,
        }
    }

    /// Returns the word that names this format.
    pub fn name(&self) -> (r: &'static str)
        ensures
            r@ == self.label(),
    {
        match self {
            StatsOutputFormat::Human => "human",
            StatsOutputFormat::Json => "json",
        }
    }
}

/// Order of the files in the output of `stats`.
#[derive(Clone, Copy, Debug, Default, PartialEq, Eq, Structural)]
pub enum StatsSort {
    /// By path.
    #[default]
    Path,
    /// By status, the most translated first, then by path.
    Status,
}

} // verus!
