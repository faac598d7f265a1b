//! List the operating-system processes that own open network ports, and
//! safely run a command against the owning processes.
//!
//! The pipeline is: enumerate sockets for the requested address families
//! and protocols (`port`), resolve the owning pids to process records
//! (`process`), then select by port, deduplicate the processes, gate bulk
//! actions, and build each command's argument vector (`action`).

pub mod action;
pub mod port;
pub mod process;
