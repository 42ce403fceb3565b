//! Compute drivers that run sandboxes: in LXD instances, on a remote host over SSH,
//! and as child processes on this host; and what brings the gateway up on a
//! cluster or prepares Podman.
//!
//! The library decides; of the outside world it asks only whether a path exists. A
//! task that waits for more is a machine that says what to do next and takes the
//! outcome: a request to the LXD daemon, a command to run, an object to apply.
use vstd::prelude::*;

pub mod bootstrap;
pub mod compute;
pub mod defaults;
pub mod environment;
pub mod host_laws;
pub mod json;
pub mod local;
pub mod lxd;
pub mod platform;
pub mod podman;
pub mod process;
pub mod registry;
pub mod shell;
pub mod ssh;
pub mod string_map;
pub mod text;

verus! {

} // verus!
