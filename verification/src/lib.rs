//! Parser for a flat, comma-separated `key=value` configuration string that
//! drives an agent's sampling thresholds and diagnostic-output toggles.
//!
//! The whole observable behaviour is one function, [`AgentParameters::parse`]:
//! one string in, one configuration record out, or a hard failure. The spec
//! functions in [`model`] define the parse mathematically; the executable
//! parser in [`parser`] is proved to return exactly what the model says, and
//! [`laws`] states the general properties of the model.

pub mod laws;
pub mod model;
pub mod params;
pub mod parser;

pub use params::AgentParameters;
pub use params::ParseError;
