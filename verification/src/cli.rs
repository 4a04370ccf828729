//! Decision logic of the command-line front end.
//!
//! The front end itself (argument parsing, file and console I/O) lives
//! outside the library; these helpers only decide what a combination of
//! options means, so the decision is checked here and the caller merely
//! reports the error of an invalid combination.

use vstd::prelude::*;

verus! {

/// What an embed invocation should write into the carrier.
pub enum DataMode {
    /// Embed the contents of the named file.
    File(String),
    /// Strip any embedded data.
    Clear,
}

/// Where an embed invocation should write the resulting carrier.
pub enum OutputMode {
    /// Write to the named file.
    File(String),
    /// Overwrite the input file.
    Overwrite,
}

/// Decide the data mode from the `data` and `clear` options: a data file
/// wins, a lone clear flag means stripping, and neither is an invalid
/// combination (`None`).
pub fn get_data_mode(data: Option<String>, clear: bool) -> (r: Option<DataMode>)
    ensures
        match data {
            Some(d) => r matches Some(DataMode::File(f)) && f == d,
            None => if clear {
                r matches Some(DataMode::Clear)
            } else {
                r is None
            },
        },
{
    match data {
        Some(d) => Some(DataMode::File(d)),
        None => if clear {
            Some(DataMode::Clear)
        } else {
            None
        },
    }
}

/// Decide the output mode from the `output` and `overwrite` options: an
/// output path wins, a lone overwrite flag means writing the input path
/// back, and neither is an invalid combination (`None`).
pub fn get_output_mode(output: Option<String>, overwrite: bool) -> (r: Option<OutputMode>)
    ensures
        match output {
            Some(o) => r matches Some(OutputMode::File(f)) && f == o,
            None => if overwrite {
                r matches Some(OutputMode::Overwrite)
            } else {
                r is None
            },
        },
{
    match output {
        Some(o) => Some(OutputMode::File(o)),
        None => if overwrite {
            Some(OutputMode::Overwrite)
        } else {
            None
        },
    }
}

} // verus!
