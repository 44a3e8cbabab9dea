//! How the map data is fetched; the fetching itself is left to the program around the
//! library.

use vstd::prelude::*;

verus! {

/// Where the map data comes from.
#[derive(Debug, Clone, Copy, PartialEq, Eq, Structural)]
pub enum DataFetcher {
    File,
}

/// In which form the loaded data is handed on.
#[derive(Debug, Clone, Copy, PartialEq, Eq, Structural)]
pub enum OutputFormat {
    Json,
}

/// The settings of a load.
#[derive(Debug, Clone, Copy, PartialEq, Eq, Structural)]
pub struct Loader {
    pub fetch_strategy: DataFetcher,
    pub data_output_format: OutputFormat,
    pub merge_files: bool,
}

impl Loader {
    pub fn new(fetch_strategy: DataFetcher, data_output_format: OutputFormat, merge_files: bool)
        -> (l: Self)
        ensures
            l == (Loader { fetch_strategy, data_output_format, merge_files }),
    {
        Loader { fetch_strategy, data_output_format, merge_files }
    }
}

} // verus!
