//! The command-line arguments of each command, as plain values.

use crate::output::OutputFormat;
use vstd::prelude::*;

verus! {

/// The `--format` value.
#[derive(Clone, Copy, Debug, PartialEq, Eq, Structural)]
pub enum FormatArg {
    /// Human-readable terminal output with colour.
    Terminal,
    /// Machine-readable JSON.
    Json,
    /// GitHub Actions workflow commands.
    Github,
    /// Comma-separated values.
    Csv,
    /// A fixed-width table.
    Table,
}

impl FormatArg {
    /// The output format this value selects.
    pub fn to_output_format(&self) -> (r: OutputFormat)
        ensures
            r == match *self {
                FormatArg::Terminal => OutputFormat::Terminal,
                FormatArg::Json => OutputFormat::Json,
                FormatArg::Github => OutputFormat::GitHub,
                FormatArg::Csv => OutputFormat::Csv,
                FormatArg::Table => OutputFormat::Table,
            },
    {
        match self {
            FormatArg::Terminal => OutputFormat::Terminal,
            FormatArg::Json => OutputFormat::Json,
            FormatArg::Github => OutputFormat::GitHub,
            FormatArg::Csv => OutputFormat::Csv,
            FormatArg::Table => OutputFormat::Table,
        }
    }
}

/// The `--sort` value of `manifest`.
#[derive(Clone, Copy, Debug, PartialEq, Eq, Structural)]
pub enum SortBy {
    /// By expiry date (the order fuses come in).
    Date,
    /// By file, then line.
    File,
    /// By owner (none sorts as empty), then date.
    Owner,
    /// By status (detonated, ticking, inert), then date.
    Status,
}

/// The `--by` value of `intel`.
#[derive(Clone, Copy, Debug, PartialEq, Eq, Structural)]
pub enum GroupBy {
    Owner,
    Tag,
    Month,
}

/// Arguments of `sweep`.
#[derive(Debug)]
pub struct SweepArgs {
    /// The directory to sweep.
    pub path: String,
    /// The ticking window, e.g. `30d`.
    pub fuse: Option<String>,
    /// Ticking fuses fail the sweep too.
    pub fail_on_ticking: bool,
    pub format: Option<FormatArg>,
    /// A settings file to read instead of looking for one.
    pub config: Option<String>,
    /// Only files changed against this git ref are swept.
    pub since: Option<String>,
    /// Fuses without an owner get their git blame author.
    pub blame: bool,
    /// Only fuses on lines changed in the git diff are kept.
    pub changed: bool,
    /// The ref that `changed` diffs against (`HEAD` when absent).
    pub base: Option<String>,
    /// Only fuses of this owner (ignoring case).
    pub owner: Option<String>,
    /// Only fuses with this tag (ignoring case).
    pub tag: Option<String>,
    /// Nothing is printed; only the exit code tells.
    pub quiet: bool,
    /// Only the summary line is printed.
    pub summary: bool,
    /// Ceiling on detonated fuses, over the settings file's.
    pub max_detonated: Option<u32>,
    /// Ceiling on ticking fuses, over the settings file's.
    pub max_ticking: Option<u32>,
    /// A JSON report is also written to this file.
    pub output: Option<String>,
    pub no_inert: bool,
    pub stats: bool,
}

/// Arguments of `manifest`.
#[derive(Debug)]
pub struct ManifestArgs {
    pub path: String,
    /// Only detonated fuses.
    pub detonated: bool,
    /// Only fuses due within this window from today, e.g. `14d`.
    pub ticking: Option<String>,
    pub format: Option<FormatArg>,
    pub fuse: Option<String>,
    pub config: Option<String>,
    pub blame: bool,
    pub owner: Option<String>,
    pub tag: Option<String>,
    /// Only the first N after sorting.
    pub next: Option<usize>,
    pub sort: Option<SortBy>,
    /// Only fuses in a file matching one of these filters.
    pub file: Vec<String>,
    /// Only fuses dated from the first to the second date, inclusive.
    pub between: Option<Vec<String>>,
    /// Only the count of the fuses listed is printed.
    pub count: bool,
    /// Inert fuses are left out.
    pub no_inert: bool,
    /// Only fuses with neither an explicit nor a blamed owner.
    pub owner_missing: bool,
    pub output: Option<String>,
}

/// Arguments of `armory`.
#[derive(Debug)]
pub struct ArmoryArgs {
    pub path: String,
    /// How many fuses to show at most.
    pub limit: usize,
    pub fuse: Option<String>,
    pub config: Option<String>,
    pub blame: bool,
    pub owner: Option<String>,
    pub tag: Option<String>,
}

/// Arguments of `plant`.
#[derive(Debug)]
pub struct PlantArgs {
    /// `FILE:LINE`, or a file when `search` is given.
    pub target: String,
    pub message: String,
    /// Text that picks the line in the file.
    pub search: Option<String>,
    pub tag: String,
    pub owner: Option<String>,
    pub date: Option<String>,
    pub in_days: Option<u32>,
    pub yes: bool,
}

/// Arguments of `delay`.
#[derive(Debug)]
pub struct DelayArgs {
    pub target: String,
    pub date: Option<String>,
    pub in_days: Option<u32>,
    pub reason: Option<String>,
    pub search: Option<String>,
    pub yes: bool,
}

/// Arguments of `disarm`.
#[derive(Debug)]
pub struct DisarmArgs {
    pub target: Option<String>,
    pub search: Option<String>,
    /// Every detonated fuse under `path` is removed.
    pub all_detonated: bool,
    pub path: String,
    pub config: Option<String>,
    pub yes: bool,
}

/// Arguments of `intel`.
#[derive(Debug)]
pub struct IntelArgs {
    pub path: String,
    pub by: Option<GroupBy>,
    pub format: Option<FormatArg>,
    pub fuse: Option<String>,
    pub config: Option<String>,
    pub owner: Option<String>,
    pub tag: Option<String>,
}

/// Arguments of `tripwire`.
#[derive(Debug)]
pub struct TripwireArgs {
    pub command: TripwireCommand,
}

/// The `tripwire` subcommands.
#[derive(Debug)]
pub enum TripwireCommand {
    /// Install the pre-commit hook (`tripwire set`).
    Install(TripwireSetArgs),
    /// Uninstall it.
    Cut(TripwireSetArgs),
}

/// Arguments of `tripwire set` and `tripwire cut`.
#[derive(Debug)]
pub struct TripwireSetArgs {
    pub path: String,
    pub yes: bool,
}

/// Arguments of `fallout`.
#[derive(Debug)]
pub struct FalloutArgs {
    pub report_a: String,
    pub report_b: String,
    pub format: Option<FormatArg>,
}

/// Arguments of `defuse`.
#[derive(Debug)]
pub struct DefuseArgs {
    pub path: String,
    pub config: Option<String>,
    pub fuse: Option<String>,
}

/// Arguments of `bunker`.
#[derive(Debug)]
pub struct BunkerArgs {
    pub command: BaselineCommand,
}

/// The `bunker` subcommands.
#[derive(Debug)]
pub enum BaselineCommand {
    Save(BunkerSaveArgs),
    Show(BunkerShowArgs),
}

/// Arguments of `bunker save`.
#[derive(Debug)]
pub struct BunkerSaveArgs {
    pub path: String,
    pub config: Option<String>,
    pub baseline_file: String,
    pub fuse: Option<String>,
}

/// Arguments of `bunker show`.
#[derive(Debug)]
pub struct BunkerShowArgs {
    pub path: String,
    pub config: Option<String>,
    pub baseline_file: String,
    pub fuse: Option<String>,
}

} // verus!
