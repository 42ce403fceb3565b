//! Settings of the LXD driver.
use vstd::prelude::*;
use vstd::string::*;
use crate::defaults;
use crate::platform;
use crate::text;

verus! {

/// Where the snap package of LXD puts its socket.
pub const SNAP_SOCKET_PATH: &'static str = "/var/snap/lxd/common/lxd/unix.socket";

/// Where the deb package of LXD puts its socket.
pub const DEB_SOCKET_PATH: &'static str = "/var/lib/lxd/unix.socket";

/// Settings of the LXD driver.
pub struct LxdComputeConfig {
    /// Path to the LXD API Unix socket.
    pub socket_path: String,
    /// LXD project in which instances are created, apart from other workloads.
    /// It is created when it does not exist.
    pub project: String,
    /// Default image alias or fingerprint for sandboxes.
    pub default_image: String,
    /// Gateway gRPC endpoint to which the sandbox connects back. When empty, it
    /// is made from `gateway_port` and the host bridge address.
    pub grpc_endpoint: String,
    /// Port on which the gateway server listens.
    pub gateway_port: u16,
    /// Unix socket path to which the supervisor in the instance bridges traffic.
    pub sandbox_ssh_socket_path: String,
    /// Name of the LXD network (bridge) to which instances are attached.
    pub network_name: String,
    /// SSH listen address that is passed to the sandbox binary.
    pub ssh_listen_addr: String,
    /// SSH port inside the instance.
    pub ssh_port: u16,
    /// Shared secret of the SSH handshake.
    pub ssh_handshake_secret: String,
    /// Largest clock skew of SSH handshake timestamps, in seconds.
    pub ssh_handshake_skew_secs: u64,
    /// How long an instance may take to stop, in seconds.
    pub stop_timeout_secs: u32,
}

pub struct LxdComputeConfigView {
    pub socket_path: Seq<char>,
    pub project: Seq<char>,
    pub default_image: Seq<char>,
    pub grpc_endpoint: Seq<char>,
    pub gateway_port: u16,
    pub sandbox_ssh_socket_path: Seq<char>,
    pub network_name: Seq<char>,
    pub ssh_listen_addr: Seq<char>,
    pub ssh_port: u16,
    pub ssh_handshake_secret: Seq<char>,
    pub ssh_handshake_skew_secs: u64,
    pub stop_timeout_secs: u32,
}

impl View for LxdComputeConfig {
    type V = LxdComputeConfigView;

    open spec fn view(&self) -> LxdComputeConfigView {
        LxdComputeConfigView {
            socket_path: self.socket_path@,
            project: self.project@,
            default_image: self.default_image@,
            grpc_endpoint: self.grpc_endpoint@,
            gateway_port: self.gateway_port,
            sandbox_ssh_socket_path: self.sandbox_ssh_socket_path@,
            network_name: self.network_name@,
            ssh_listen_addr: self.ssh_listen_addr@,
            ssh_port: self.ssh_port,
            ssh_handshake_secret: self.ssh_handshake_secret@,
            ssh_handshake_skew_secs: self.ssh_handshake_skew_secs,
            stop_timeout_secs: self.stop_timeout_secs,
        }
    }
}

impl Clone for LxdComputeConfig {
    fn clone(&self) -> (r: Self)
        ensures
            r@ == self@,
    {
        LxdComputeConfig {
            socket_path: self.socket_path.clone(),
            project: self.project.clone(),
            default_image: self.default_image.clone(),
            grpc_endpoint: self.grpc_endpoint.clone(),
            gateway_port: self.gateway_port,
            sandbox_ssh_socket_path: self.sandbox_ssh_socket_path.clone(),
            network_name: self.network_name.clone(),
            ssh_listen_addr: self.ssh_listen_addr.clone(),
            ssh_port: self.ssh_port,
            ssh_handshake_secret: self.ssh_handshake_secret.clone(),
            ssh_handshake_skew_secs: self.ssh_handshake_skew_secs,
            stop_timeout_secs: self.stop_timeout_secs,
        }
    }
}

/// The socket path to use: the one of the snap package when it is there.
pub open spec fn detected_socket_path(snap_exists: bool) -> Seq<char> {
    if snap_exists {
        SNAP_SOCKET_PATH@
    } else {
        DEB_SOCKET_PATH@
    }
}

/// The settings that hold where nothing else is said.
pub open spec fn default_config(socket_path: Seq<char>) -> LxdComputeConfigView {
    LxdComputeConfigView {
        socket_path,
        project: "openshell"@,
        default_image: Seq::empty(),
        grpc_endpoint: Seq::empty(),
        gateway_port: defaults::DEFAULT_SERVER_PORT,
        sandbox_ssh_socket_path: "/run/openshell/ssh.sock"@,
        network_name: defaults::DEFAULT_NETWORK_NAME@,
        ssh_listen_addr: Seq::empty(),
        ssh_port: defaults::DEFAULT_SSH_PORT,
        ssh_handshake_secret: Seq::empty(),
        ssh_handshake_skew_secs: defaults::DEFAULT_SSH_HANDSHAKE_SKEW_SECS,
        stop_timeout_secs: defaults::DEFAULT_STOP_TIMEOUT_SECS,
    }
}

/// The socket path to use, given whether the one of the snap package is there.
pub fn socket_path_for(snap_exists: bool) -> (r: String)
    ensures
        r@ == detected_socket_path(snap_exists),
{
    if snap_exists {
        SNAP_SOCKET_PATH.to_owned()
    } else {
        DEB_SOCKET_PATH.to_owned()
    }
}

/// The text that `{:?}` shows for the settings, with the secret left out.
pub open spec fn config_text(c: LxdComputeConfigView) -> Seq<char> {
    "LxdComputeConfig { socket_path: "@ + platform::debug_text(c.socket_path) + ", project: "@
        + platform::debug_text(c.project) + ", default_image: "@ + platform::debug_text(
        c.default_image,
    ) + ", grpc_endpoint: "@ + platform::debug_text(c.grpc_endpoint) + ", gateway_port: "@
        + text::decimal(c.gateway_port as nat) + ", sandbox_ssh_socket_path: "@
        + platform::debug_text(c.sandbox_ssh_socket_path) + ", network_name: "@
        + platform::debug_text(c.network_name) + ", ssh_listen_addr: "@ + platform::debug_text(
        c.ssh_listen_addr,
    ) + ", ssh_port: "@ + text::decimal(c.ssh_port as nat)
        + ", ssh_handshake_secret: \"[REDACTED]\", ssh_handshake_skew_secs: "@ + text::decimal(
        c.ssh_handshake_skew_secs as nat,
    ) + ", stop_timeout_secs: "@ + text::decimal(c.stop_timeout_secs as nat) + " }"@
}

impl LxdComputeConfig {
    /// Resolves the default socket path: the snap socket when it exists, and
    /// otherwise the deb path.
    pub fn default_socket_path() -> (r: String)
        ensures
            exists|snap_exists: bool|
                platform::looked_for(SNAP_SOCKET_PATH@, snap_exists) && r@
                    == #[trigger] detected_socket_path(snap_exists),
    {
        socket_path_for(platform::look_for(SNAP_SOCKET_PATH))
    }

    /// The default settings with a given socket path.
    pub fn with_socket_path(socket_path: String) -> (r: Self)
        ensures
            r@ == default_config(socket_path@),
    {
        LxdComputeConfig {
            socket_path,
            project: "openshell".to_owned(),
            default_image: String::new(),
            grpc_endpoint: String::new(),
            gateway_port: defaults::DEFAULT_SERVER_PORT,
            sandbox_ssh_socket_path: "/run/openshell/ssh.sock".to_owned(),
            network_name: defaults::DEFAULT_NETWORK_NAME.to_owned(),
            ssh_listen_addr: String::new(),
            ssh_port: defaults::DEFAULT_SSH_PORT,
            ssh_handshake_secret: String::new(),
            ssh_handshake_skew_secs: defaults::DEFAULT_SSH_HANDSHAKE_SKEW_SECS,
            stop_timeout_secs: defaults::DEFAULT_STOP_TIMEOUT_SECS,
        }
    }

    /// The settings as a text for logs. The secret is not in it.
    pub fn debug_text(&self) -> (r: String)
        ensures
            r@ == config_text(self@),
    {
        "LxdComputeConfig { socket_path: ".to_owned().concat(
            platform::quoted(self.socket_path.as_str()).as_str(),
        ).concat(", project: ").concat(platform::quoted(self.project.as_str()).as_str()).concat(
            ", default_image: ",
        ).concat(platform::quoted(self.default_image.as_str()).as_str()).concat(
            ", grpc_endpoint: ",
        ).concat(platform::quoted(self.grpc_endpoint.as_str()).as_str()).concat(
            ", gateway_port: ",
        ).concat(text::u64_text(self.gateway_port as u64).as_str()).concat(
            ", sandbox_ssh_socket_path: ",
        ).concat(platform::quoted(self.sandbox_ssh_socket_path.as_str()).as_str()).concat(
            ", network_name: ",
        ).concat(platform::quoted(self.network_name.as_str()).as_str()).concat(
            ", ssh_listen_addr: ",
        ).concat(platform::quoted(self.ssh_listen_addr.as_str()).as_str()).concat(
            ", ssh_port: ",
        ).concat(text::u64_text(self.ssh_port as u64).as_str()).concat(
            ", ssh_handshake_secret: \"[REDACTED]\", ssh_handshake_skew_secs: ",
        ).concat(text::u64_text(self.ssh_handshake_skew_secs).as_str()).concat(
            ", stop_timeout_secs: ",
        ).concat(text::u64_text(self.stop_timeout_secs as u64).as_str()).concat(" }")
    }
}

impl Default for LxdComputeConfig {
    fn default() -> (r: Self)
        ensures
            exists|snap_exists: bool|
                platform::looked_for(SNAP_SOCKET_PATH@, snap_exists) && r@ == default_config(
                    #[trigger] detected_socket_path(snap_exists),
                ),
    {
        LxdComputeConfig::with_socket_path(LxdComputeConfig::default_socket_path())
    }
}

/// The text for logs does not depend on the secret.
pub proof fn secret_is_not_logged(c: LxdComputeConfigView, secret: Seq<char>)
    ensures
        config_text(LxdComputeConfigView { ssh_handshake_secret: secret, ..c }) == config_text(c),
{
}

} // verus!
