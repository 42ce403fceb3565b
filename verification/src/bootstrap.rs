//! Brings the gateway up on a Kubernetes cluster.
use vstd::prelude::*;

pub mod apply;
pub mod constants;
pub mod k8s_init;
pub mod laws;

verus! {

/// Default host port of the gateway.
pub const DEFAULT_GATEWAY_PORT: u16 = 8080;

} // verus!
