//! Default settings that the drivers share.
use vstd::prelude::*;

verus! {

/// Port on which the gateway server listens.
pub const DEFAULT_SERVER_PORT: u16 = 8080;

/// Name of the network to which sandboxes are attached.
pub const DEFAULT_NETWORK_NAME: &'static str = "openshell";

/// Port of the SSH server inside a sandbox.
pub const DEFAULT_SSH_PORT: u16 = 2222;

/// Largest clock skew that the SSH handshake accepts, in seconds.
pub const DEFAULT_SSH_HANDSHAKE_SKEW_SECS: u64 = 300;

/// How long a sandbox may take to stop, in seconds.
pub const DEFAULT_STOP_TIMEOUT_SECS: u32 = 10;

} // verus!
