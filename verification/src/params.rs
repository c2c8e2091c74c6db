//! The configuration record, the keys it is built from, and the parse errors.

use vstd::prelude::*;

verus! {

/// Configuration record for the agent. Each field has a default that stands
/// when the corresponding key is absent from the option string or is supplied
/// with an empty value.
#[derive(Debug, Copy, Clone, PartialEq, Eq, Structural)]
pub struct AgentParameters {
    /// Minimum time interval for sampling. Default 1.
    pub time_threshold: usize,
    /// Minimum event count for sampling. Default 0.
    pub count_threshold: usize,
    /// Whether to emit heap histogram diagnostics. Default false.
    pub print_heap_histogram: bool,
    /// Cap on histogram rows; 0 means unlimited. Default 100.
    pub heap_histogram_max_entries: usize,
    /// Whether to emit memory-usage diagnostics. Default true.
    pub print_memory_usage: bool,
}

/// The record every field of which holds its default.
pub open spec fn default_parameters() -> AgentParameters {
    AgentParameters {
        time_threshold: 1,
        count_threshold: 0,
        print_heap_histogram: false,
        heap_histogram_max_entries: 100,
        print_memory_usage: true,
    }
}

impl Default for AgentParameters {
    /// Returns the record with every field at its default.
    fn default() -> (d: Self)
        ensures
            d == default_parameters(),
    {
        AgentParameters {
            time_threshold: 1,
            count_threshold: 0,
            print_heap_histogram: false,
            heap_histogram_max_entries: 100,
            print_memory_usage: true,
        }
    }
}

/// The closed set of recognized option keys.
#[derive(Debug, Copy, Clone)]
pub enum ConfigKey {
    Time,
    Count,
    PrintHeapHistogram,
    HeapHistogramMaxEntries,
    PrintMemoryUsage,
}

/// Why a parse failed. Each variant carries the offending text verbatim.
#[derive(Debug, PartialEq, Eq)]
pub enum ParseError {
    /// An entry contains no `=` separator. Carries the whole entry.
    MalformedEntry(String),
    /// A key is not one of the recognized keys. Carries the key.
    UnknownKey(String),
    /// A non-empty value is not a valid unsigned integer literal. Carries the value.
    InvalidNumber(String),
}

/// Mathematical image of [`ParseError`]: the same three variants over
/// character sequences.
pub enum SpecError {
    MalformedEntry(Seq<char>),
    UnknownKey(Seq<char>),
    InvalidNumber(Seq<char>),
}

impl View for ParseError {
    type V = SpecError;

    open spec fn view(&self) -> SpecError {
        match self {
            ParseError::MalformedEntry(s) => SpecError::MalformedEntry(s@),
            ParseError::UnknownKey(s) => SpecError::UnknownKey(s@),
            ParseError::InvalidNumber(s) => SpecError::InvalidNumber(s@),
        }
    }
}

} // verus!
