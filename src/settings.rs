use vstd::prelude::*;

verus! {

/// What the command line asks of a run.
pub struct Args {
    /// The files or directories to organise.
    pub targets: Vec<String>,
    /// Output directory; where absent, each file stays in its own directory.
    pub output: Option<String>,
    /// Organise files into subdirectories named after their series.
    pub series: bool,
    /// Move files instead of copying them.
    pub move_files: bool,
    /// Report the steps without changing the filesystem.
    pub dry_run: bool,
    /// Stop at the first error.
    pub exit: bool,
    /// Overwrite existing files at the destination.
    pub force: bool,
    /// Descend into subdirectories.
    pub recursive: bool,
    /// How many times verbose output was asked for.
    pub verbose: u8,
    /// Suppress all output.
    pub quiet: bool,
}

/// Settings for the organiser.
pub struct Settings {
    /// The output directory for the organised files; where absent, the
    /// directory of each file.
    pub output: Option<String>,
    /// Whether to output files in series subdirectories.
    pub series: bool,
    /// Whether to move files instead of copying them.
    pub move_files: bool,
    /// Whether to only report what would be done.
    pub dry_run: bool,
    /// Whether to stop at the first error.
    pub exit: bool,
    /// Whether to overwrite existing files.
    pub force: bool,
    /// Whether to organise subdirectories too.
    pub recursive: bool,
}

pub open spec fn opt_string_view(o: Option<String>) -> Option<Seq<char>> {
    match o {
        Some(s) => Some(s@),
        None => None,
    }
}

impl Settings {
    /// Settings with no output directory and every option off.
    pub fn new() -> (r: Settings)
        ensures
            r.output is None,
            !r.series && !r.move_files && !r.dry_run && !r.exit && !r.force && !r.recursive,
    {
        Settings {
            output: None,
            series: false,
            move_files: false,
            dry_run: false,
            exit: false,
            force: false,
            recursive: false,
        }
    }

    /// The settings that the command line asks for.
    pub fn from_args(args: &Args) -> (r: Settings)
        ensures
            opt_string_view(r.output) == opt_string_view(args.output),
            r.series == args.series,
            r.move_files == args.move_files,
            r.dry_run == args.dry_run,
            r.exit == args.exit,
            r.force == args.force,
            r.recursive == args.recursive,
    {
        let output = match &args.output {
            Some(o) => Some(o.clone()),
            None => None,
        };
        Settings {
            output,
            series: args.series,
            move_files: args.move_files,
            dry_run: args.dry_run,
            exit: args.exit,
            force: args.force,
            recursive: args.recursive,
        }
    }
}

} // verus!
