//! Verified core of a `dd` front-end.
//!
//! The library distinguishes the copy tool's periodic progress reports from
//! its incidental diagnostic lines, parses the reports into numeric fields,
//! keeps a fixed-capacity rolling window of the most recent diagnostic lines
//! for redisplay, and plans the command line handed to the copy tool.  The
//! surrounding binary does the spawning, reading and terminal drawing; every
//! decision about what a line means and what to show lives here.

pub mod cli;
pub mod float_text;
pub mod laws;
pub mod numbers;
pub mod progress;
pub mod session;
pub mod text;
pub mod version;
pub mod window;
