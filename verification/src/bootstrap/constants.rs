//! Names that the cluster, the gateway and the command line agree on.
use vstd::prelude::*;

verus! {

/// Secret with the TLS certificate and private key of the server.
pub const SERVER_TLS_SECRET_NAME: &'static str = "openshell-server-tls";

/// Secret with the CA certificate that verifies client certificates.
pub const SERVER_CLIENT_CA_SECRET_NAME: &'static str = "openshell-server-client-ca";

/// Secret with the client TLS certificate, key and CA certificate, which the
/// command line and the sandboxes share.
pub const CLIENT_TLS_SECRET_NAME: &'static str = "openshell-client-tls";

/// Secret with the SSH handshake secret, which the gateway and the sandboxes
/// share.
pub const SSH_HANDSHAKE_SECRET_NAME: &'static str = "openshell-ssh-handshake";

/// Node port of the gateway. It matches the service definition of the chart.
pub const GATEWAY_NODE_PORT: u16 = 30051;

} // verus!
