//! Partitioned concurrent port-scan engine.
//!
//! The library holds the verified core of a TCP connect-scanner: how the
//! 16-bit port space is partitioned across a fixed number of workers, how a
//! worker's probe outcomes become reported ports, how the collected results
//! are sorted for the final report, and how the command-line arguments that
//! configure a scan are validated.  The surrounding binary performs the
//! actual network I/O and hands this library plain values.

pub mod args;
pub mod errors;
pub mod report;
pub mod scan;
pub mod text;
