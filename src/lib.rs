//! Deterministic fan-in of several record streams into one output stream,
//! together with the text handling of the companion tools: entry-type
//! names, verbatim and regex substitution, and name matching.

pub mod bytes;
pub mod etype;
pub mod mux;
pub mod opts;
pub mod pattern;
pub mod session;
pub mod times;
pub mod verbatim;
