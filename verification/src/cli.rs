//! The two subcommands as plain data. Argument parsing happens in the
//! surrounding program, which hands the parsed values over in this form.
use vstd::prelude::*;

verus! {

/// What the tool was asked to do: download the rendered assets into a
/// directory, or convert the PNGs of one directory into another.
pub enum Commands {
    Download { download_dir: String },
    Convert { input_dir: String, output_dir: String, format: String },
}

/// The parsed command line: one command per invocation.
pub struct Cli {
    pub command: Commands,
}

} // verus!
