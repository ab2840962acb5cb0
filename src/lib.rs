//! Inspection and packaging tools for BPX containers: a printer for structured
//! data trees, the text reports of a container's headers, and the rules that map
//! package entries to files.

pub mod text;
pub mod sd;
pub mod report;
pub mod error;
pub mod dump;
pub mod package;
