//! The SSH driver: the sandbox of a remote host.
//!
//! The driver copies the supervisor binary to the host, starts it over SSH and
//! notes its process. The supervisor connects outbound to the gateway; SSH is
//! needed only to bring it up and to stop it. The functions here build the
//! commands and read their output; running them is left to the caller.
use vstd::prelude::*;
use vstd::string::*;
use crate::compute;
use crate::compute::{
    DriverSandbox, DriverSandboxView, GetCapabilitiesResponse, Status, StatusCode, StatusView,
    WatchSandboxesEvent, WatchSandboxesEventView,
};
use crate::environment;
use crate::platform;
use crate::process;
use crate::process::{Command, CommandOutput, CommandView};
use crate::registry;
use crate::registry::{Registry, SandboxModel, SandboxState, Subscribing, WatchStep};
use crate::shell;
use crate::string_map;
use crate::text;

pub use crate::registry::{
    find_sandbox, find_sandbox_key, require_sandbox_identifier, SupervisorReadiness,
};

verus! {

/// How many events a watch may lag behind.
pub const WATCH_BUFFER: usize = 128;

/// How often the supervisors are looked at, in seconds.
pub const WATCH_POLL_INTERVAL: u64 = 5;

/// Remote path where the supervisor binary is deployed.
pub const REMOTE_SUPERVISOR_PATH: &'static str = "/opt/openshell/bin/openshell-sandbox";

/// Default SSH port.
pub const DEFAULT_SSH_PORT: u16 = 22;

// ---------------------------------------------------------------------------
// Settings
// ---------------------------------------------------------------------------

/// Settings of the SSH driver.
#[derive(Debug)]
pub struct SshComputeConfig {
    /// Remote host.
    pub host: String,
    /// SSH port on the remote host.
    pub port: u16,
    /// SSH user name (typically "root").
    pub user: String,
    /// Path to the SSH private key.
    pub identity_file: String,
    /// Local path to the supervisor binary.
    pub supervisor_bin: String,
    /// Gateway gRPC endpoint to which the supervisor connects back.
    pub grpc_endpoint: String,
    /// SSH socket path of the sandbox.
    pub ssh_socket_path: String,
    /// Log level of the supervisor.
    pub log_level: String,
}

pub struct SshComputeConfigView {
    pub host: Seq<char>,
    pub port: u16,
    pub user: Seq<char>,
    pub identity_file: Seq<char>,
    pub supervisor_bin: Seq<char>,
    pub grpc_endpoint: Seq<char>,
    pub ssh_socket_path: Seq<char>,
    pub log_level: Seq<char>,
}

impl View for SshComputeConfig {
    type V = SshComputeConfigView;

    open spec fn view(&self) -> SshComputeConfigView {
        SshComputeConfigView {
            host: self.host@,
            port: self.port,
            user: self.user@,
            identity_file: self.identity_file@,
            supervisor_bin: self.supervisor_bin@,
            grpc_endpoint: self.grpc_endpoint@,
            ssh_socket_path: self.ssh_socket_path@,
            log_level: self.log_level@,
        }
    }
}

impl Clone for SshComputeConfig {
    fn clone(&self) -> (r: Self)
        ensures
            r@ == self@,
    {
        SshComputeConfig {
            host: self.host.clone(),
            port: self.port,
            user: self.user.clone(),
            identity_file: self.identity_file.clone(),
            supervisor_bin: self.supervisor_bin.clone(),
            grpc_endpoint: self.grpc_endpoint.clone(),
            ssh_socket_path: self.ssh_socket_path.clone(),
            log_level: self.log_level.clone(),
        }
    }
}

impl Default for SshComputeConfig {
    fn default() -> (r: Self)
        ensures
            r@ == (SshComputeConfigView {
                host: Seq::empty(),
                port: DEFAULT_SSH_PORT,
                user: "root"@,
                identity_file: Seq::empty(),
                supervisor_bin: Seq::empty(),
                grpc_endpoint: Seq::empty(),
                ssh_socket_path: Seq::empty(),
                log_level: "info"@,
            }),
    {
        SshComputeConfig {
            host: String::new(),
            port: DEFAULT_SSH_PORT,
            user: "root".to_owned(),
            identity_file: String::new(),
            supervisor_bin: String::new(),
            grpc_endpoint: String::new(),
            ssh_socket_path: String::new(),
            log_level: "info".to_owned(),
        }
    }
}

/// What is said of settings with which the driver cannot work, given whether the
/// two files that they name are there.
pub open spec fn config_check(
    config: SshComputeConfigView,
    key_exists: bool,
    bin_exists: bool,
) -> Result<(), Seq<char>> {
    if config.host.len() == 0 {
        Err("SSH host is required (--ssh-host or OPENSHELL_SSH_HOST)"@)
    } else if config.identity_file.len() == 0 {
        Err("SSH identity file is required (--ssh-key or OPENSHELL_SSH_KEY)"@)
    } else if !key_exists {
        Err("SSH identity file not found: "@ + config.identity_file)
    } else if config.supervisor_bin.len() == 0 {
        Err(
            "SSH supervisor binary path is required (--ssh-supervisor-bin or OPENSHELL_SSH_SUPERVISOR_BIN)"@,
        )
    } else if !bin_exists {
        Err("SSH supervisor binary not found: "@ + config.supervisor_bin)
    } else {
        Ok(())
    }
}

/// The view of a result whose error is a text.
pub open spec fn text_outcome<T>(r: Result<T, String>) -> Result<T, Seq<char>> {
    match r {
        Ok(t) => Ok(t),
        Err(m) => Err(m@),
    }
}

/// Checks the settings, given whether the two files that they name are there.
pub fn check_config(config: &SshComputeConfig, key_exists: bool, bin_exists: bool) -> (r: Result<
    (),
    String,
>)
    ensures
        text_outcome(r) == config_check(config@, key_exists, bin_exists),
{
    if config.host.as_str().is_empty() {
        return Err("SSH host is required (--ssh-host or OPENSHELL_SSH_HOST)".to_owned());
    }
    if config.identity_file.as_str().is_empty() {
        return Err("SSH identity file is required (--ssh-key or OPENSHELL_SSH_KEY)".to_owned());
    }
    if !key_exists {
        return Err(
            "SSH identity file not found: ".to_owned().concat(config.identity_file.as_str()),
        );
    }
    if config.supervisor_bin.as_str().is_empty() {
        return Err(
            "SSH supervisor binary path is required (--ssh-supervisor-bin or OPENSHELL_SSH_SUPERVISOR_BIN)".to_owned(),
        );
    }
    if !bin_exists {
        return Err(
            "SSH supervisor binary not found: ".to_owned().concat(config.supervisor_bin.as_str()),
        );
    }
    Ok(())
}

// ---------------------------------------------------------------------------
// State
// ---------------------------------------------------------------------------

/// State of a managed sandbox.
pub struct SshSandboxState {
    pub sandbox: DriverSandbox,
    /// Process of the supervisor on the remote host, if known.
    pub remote_pid: Option<u32>,
    /// Whether the supervisor is running on the remote host.
    pub running: bool,
}

impl Clone for SshSandboxState {
    fn clone(&self) -> (r: Self)
        ensures
            r.model() == self.model(),
    {
        SshSandboxState {
            sandbox: self.sandbox.clone(),
            remote_pid: self.remote_pid,
            running: self.running,
        }
    }
}

/// The text of a process number, empty when there is none.
pub open spec fn pid_text(pid: Option<u32>) -> Seq<char> {
    match pid {
        Some(n) => text::decimal(n as nat),
        None => Seq::empty(),
    }
}

/// How a sandbox of a remote host is shown.
pub open spec fn ssh_shown(model: SandboxModel, supervisor_ready: bool) -> DriverSandboxView {
    registry::process_shown(
        model.sandbox,
        pid_text(model.pid),
        "Process running (PID "@ + text::decimal(
            match model.pid {
                Some(n) => n as nat,
                None => 0,
            },
        ) + ")"@,
        model.running,
        supervisor_ready,
    )
}

impl SandboxState for SshSandboxState {
    open spec fn model(&self) -> SandboxModel {
        SandboxModel { sandbox: self.sandbox@, pid: self.remote_pid, running: self.running }
    }

    open spec fn shown(model: SandboxModel, supervisor_ready: bool) -> DriverSandboxView {
        ssh_shown(model, supervisor_ready)
    }

    fn sandbox(&self) -> (r: &DriverSandbox) {
        &self.sandbox
    }

    fn is_running(&self) -> (r: bool) {
        self.running
    }

    fn with_running(self, running: bool) -> (r: Self) {
        SshSandboxState { running, ..self }
    }

    fn snapshot(&self, supervisor_ready: bool) -> (r: DriverSandbox) {
        SshComputeDriver::build_snapshot(self, supervisor_ready)
    }
}

// ---------------------------------------------------------------------------
// Commands
// ---------------------------------------------------------------------------

/// The command that runs a shell command on the remote host.
pub open spec fn ssh_call(config: SshComputeConfigView, command: Seq<char>) -> CommandView {
    process::plain(
        "ssh"@,
        seq![
            "-o"@,
            "StrictHostKeyChecking=accept-new"@,
            "-o"@,
            "BatchMode=yes"@,
            "-o"@,
            "ConnectTimeout=10"@,
            "-p"@,
            text::decimal(config.port as nat),
            "-i"@,
            config.identity_file,
            config.user + "@"@ + config.host,
            command,
        ],
    )
}

/// The command that copies a local file to the remote host.
pub open spec fn scp_call(
    config: SshComputeConfigView,
    local_path: Seq<char>,
    remote_path: Seq<char>,
) -> CommandView {
    process::plain(
        "scp"@,
        seq![
            "-o"@,
            "StrictHostKeyChecking=accept-new"@,
            "-o"@,
            "BatchMode=yes"@,
            "-o"@,
            "ConnectTimeout=10"@,
            "-P"@,
            text::decimal(config.port as nat),
            "-i"@,
            config.identity_file,
            local_path,
            config.user + "@"@ + config.host + ":"@ + remote_path,
        ],
    )
}

/// The exit code that is shown, which is -1 when a signal ended the command.
pub open spec fn shown_code(code: Option<i32>) -> Seq<char> {
    text::signed_decimal(
        match code {
            Some(c) => c as int,
            None => -1,
        },
    )
}

/// What a shell command on the remote host gave.
pub open spec fn ssh_outcome(output: Result<CommandOutput, String>) -> Result<
    Seq<char>,
    StatusView,
> {
    match output {
        Err(e) => Err(registry::failure(StatusCode::Internal, "SSH exec failed: "@ + e@)),
        Ok(out) => if out.success {
            Ok(platform::utf8_lossy(out.stdout@))
        } else {
            Err(
                registry::failure(
                    StatusCode::Internal,
                    "SSH command failed (exit "@ + shown_code(out.code) + "): "@
                        + platform::utf8_lossy(out.stderr@),
                ),
            )
        },
    }
}

/// What a copy to the remote host gave.
pub open spec fn scp_outcome(output: Result<CommandOutput, String>) -> Result<(), StatusView> {
    match output {
        Err(e) => Err(registry::failure(StatusCode::Internal, "SCP failed: "@ + e@)),
        Ok(out) => if out.success {
            Ok(())
        } else {
            Err(
                registry::failure(
                    StatusCode::Internal,
                    "SCP failed (exit "@ + shown_code(out.code) + "): "@ + platform::utf8_lossy(
                        out.stderr@,
                    ),
                ),
            )
        },
    }
}

fn code_text(code: Option<i32>) -> (r: String)
    ensures
        r@ == shown_code(code),
{
    match code {
        Some(c) => text::i32_text(c),
        None => text::i32_text(-1),
    }
}

/// The view of a text that may have been refused.
pub open spec fn output_view(r: Result<String, Status>) -> Result<Seq<char>, StatusView> {
    match r {
        Ok(s) => Ok(s@),
        Err(e) => Err(e@),
    }
}

/// Reads what a shell command on the remote host gave: its output, or why it
/// failed.
pub fn ssh_result(output: Result<CommandOutput, String>) -> (r: Result<String, Status>)
    ensures
        output_view(r) == ssh_outcome(output),
{
    match output {
        Err(e) => Err(
            compute::status(
                StatusCode::Internal,
                "SSH exec failed: ".to_owned().concat(e.as_str()).as_str(),
            ),
        ),
        Ok(out) => if out.success {
            Ok(platform::text_from_utf8_lossy(out.stdout.as_slice()))
        } else {
            let message = "SSH command failed (exit ".to_owned().concat(
                code_text(out.code).as_str(),
            ).concat("): ").concat(
                platform::text_from_utf8_lossy(out.stderr.as_slice()).as_str(),
            );
            Err(compute::status(StatusCode::Internal, message.as_str()))
        },
    }
}

/// Reads what a copy to the remote host gave.
pub fn scp_result(output: Result<CommandOutput, String>) -> (r: Result<(), Status>)
    ensures
        registry::status_outcome(r) == scp_outcome(output),
{
    match output {
        Err(e) => Err(
            compute::status(
                StatusCode::Internal,
                "SCP failed: ".to_owned().concat(e.as_str()).as_str(),
            ),
        ),
        Ok(out) => if out.success {
            Ok(())
        } else {
            let message = "SCP failed (exit ".to_owned().concat(
                code_text(out.code).as_str(),
            ).concat("): ").concat(
                platform::text_from_utf8_lossy(out.stderr.as_slice()).as_str(),
            );
            Err(compute::status(StatusCode::Internal, message.as_str()))
        },
    }
}

/// The options that `ssh` and `scp` share.
fn shared_options() -> (r: Vec<String>)
    ensures
        text::views(r@) == seq![
            "-o"@,
            "StrictHostKeyChecking=accept-new"@,
            "-o"@,
            "BatchMode=yes"@,
            "-o"@,
            "ConnectTimeout=10"@,
        ],
{
    let mut args: Vec<String> = Vec::new();
    text::push_word(&mut args, "-o");
    text::push_word(&mut args, "StrictHostKeyChecking=accept-new");
    text::push_word(&mut args, "-o");
    text::push_word(&mut args, "BatchMode=yes");
    text::push_word(&mut args, "-o");
    text::push_word(&mut args, "ConnectTimeout=10");
    proof {
        assert(text::views(args@) =~= seq![
            "-o"@,
            "StrictHostKeyChecking=accept-new"@,
            "-o"@,
            "BatchMode=yes"@,
            "-o"@,
            "ConnectTimeout=10"@,
        ]);
    }
    args
}

// ---------------------------------------------------------------------------
// Deployment
// ---------------------------------------------------------------------------

/// The shell command that prepares the remote host.
pub open spec fn prepare_command() -> Seq<char> {
    "mkdir -p /opt/openshell/bin /sandbox && id sandbox >/dev/null 2>&1 || useradd -r -m sandbox"@
}

/// The shell command that makes the supervisor executable.
pub open spec fn chmod_command() -> Seq<char> {
    "chmod +x "@ + REMOTE_SUPERVISOR_PATH@
}

/// The settings of variables, as `env` takes them.
pub open spec fn settings(vars: Seq<(Seq<char>, Seq<char>)>) -> Seq<Seq<char>> {
    vars.map_values(|v: (Seq<char>, Seq<char>)| v.0 + "="@ + v.1)
}

/// The settings of variables as words of a shell command, each in quotes: what a
/// variable holds is neither split nor expanded.
pub open spec fn assignments(vars: Seq<(Seq<char>, Seq<char>)>) -> Seq<Seq<char>> {
    vars.map_values(|v: (Seq<char>, Seq<char>)| shell::quoted_word(v.0 + "="@ + v.1))
}

/// The shell command that runs the supervisor with the variables set.
pub open spec fn supervisor_command(vars: Seq<(Seq<char>, Seq<char>)>) -> Seq<char> {
    "nohup env "@ + text::joined(assignments(vars), " "@) + " "@ + REMOTE_SUPERVISOR_PATH@
}

/// The shell command that starts the supervisor in the background and prints its
/// process number.
pub open spec fn start_command(vars: Seq<(Seq<char>, Seq<char>)>) -> Seq<char> {
    supervisor_command(vars) + " > /tmp/openshell-supervisor.log 2>&1 & echo $!"@
}

/// The shell command that tells whether a process is alive.
pub open spec fn alive_command(pid: u32) -> Seq<char> {
    "kill -0 "@ + text::decimal(pid as nat) + " 2>/dev/null && echo alive"@
}

/// The shell command that ends a process: politely at first, and by force two
/// seconds later.
pub open spec fn kill_command(pid: u32) -> Seq<char> {
    let n = text::decimal(pid as nat);
    "kill "@ + n + " 2>/dev/null; sleep 2; kill -0 "@ + n + " 2>/dev/null && kill -9 "@ + n
        + " 2>/dev/null; true"@
}

/// The shell command that removes what the driver put on the remote host.
pub open spec fn cleanup_command() -> Seq<char> {
    "rm -f "@ + REMOTE_SUPERVISOR_PATH@ + " /tmp/openshell-supervisor.log"@
}

/// How far the deployment of a supervisor has come.
#[derive(Clone, Copy, Debug, PartialEq, Eq, Structural)]
pub enum DeployStage {
    /// The remote host is being prepared.
    Prepare,
    /// The supervisor binary is being copied.
    Copy,
    /// The supervisor binary is being made executable.
    MakeExecutable,
    /// The supervisor is being started.
    Start,
}

/// What to do next to deploy a supervisor.
pub enum DeployStep {
    /// Run this command, and come back with what it gave.
    Run(DeployStage, Command),
    /// The deployment is over; the answer is the process of the supervisor.
    Done(Result<u32, Status>),
}

pub enum DeployStepView {
    Run(DeployStage, CommandView),
    Done(Result<u32, StatusView>),
}

impl View for DeployStep {
    type V = DeployStepView;

    open spec fn view(&self) -> DeployStepView {
        match self {
            DeployStep::Run(stage, c) => DeployStepView::Run(*stage, c@),
            DeployStep::Done(r) => DeployStepView::Done(registry::status_outcome(*r)),
        }
    }
}

/// The variables of the supervisor of a sandbox.
pub open spec fn supervisor_vars(config: SshComputeConfigView, sandbox: DriverSandboxView) -> Seq<
    (Seq<char>, Seq<char>),
> {
    environment::process_vars(
        sandbox,
        config.log_level,
        config.grpc_endpoint,
        config.ssh_socket_path,
    )
}

/// The process number that the start of the supervisor printed.
pub open spec fn started_pid(printed: Seq<char>) -> Result<u32, StatusView> {
    match text::unsigned_value(text::trimmed(printed)) {
        Some(n) if n <= u32::MAX => Ok(n as u32),
        _ => Err(
            registry::failure(
                StatusCode::Internal,
                "failed to parse supervisor PID from output: "@ + platform::debug_text(printed),
            ),
        ),
    }
}

/// Reads the process number that the start of the supervisor printed.
pub fn parse_pid(printed: &str) -> (r: Result<u32, Status>)
    ensures
        registry::status_outcome(r) == started_pid(printed@),
{
    match text::parse_u32(text::trim(printed).as_str()) {
        Some(pid) => Ok(pid),
        None => Err(
            compute::status(
                StatusCode::Internal,
                "failed to parse supervisor PID from output: ".to_owned().concat(
                    platform::quoted(printed).as_str(),
                ).as_str(),
            ),
        ),
    }
}

/// The step after a command of the deployment ran. Any failure ends it.
pub open spec fn deploy_next(
    config: SshComputeConfigView,
    sandbox: DriverSandboxView,
    stage: DeployStage,
    output: Result<CommandOutput, String>,
) -> DeployStepView {
    match stage {
        DeployStage::Prepare => match ssh_outcome(output) {
            Err(e) => DeployStepView::Done(Err(e)),
            Ok(_) => DeployStepView::Run(
                DeployStage::Copy,
                scp_call(config, config.supervisor_bin, REMOTE_SUPERVISOR_PATH@),
            ),
        },
        DeployStage::Copy => match scp_outcome(output) {
            Err(e) => DeployStepView::Done(Err(e)),
            Ok(_) => DeployStepView::Run(
                DeployStage::MakeExecutable,
                ssh_call(config, chmod_command()),
            ),
        },
        DeployStage::MakeExecutable => match ssh_outcome(output) {
            Err(e) => DeployStepView::Done(Err(e)),
            Ok(_) => DeployStepView::Run(
                DeployStage::Start,
                ssh_call(config, start_command(supervisor_vars(config, sandbox))),
            ),
        },
        DeployStage::Start => match ssh_outcome(output) {
            Err(e) => DeployStepView::Done(Err(e)),
            Ok(printed) => DeployStepView::Done(started_pid(printed)),
        },
    }
}

// ---------------------------------------------------------------------------
// Validation
// ---------------------------------------------------------------------------

/// How far the validation of a new sandbox has come.
#[derive(Clone, Copy, Debug, PartialEq, Eq, Structural)]
pub enum ValidateStage {
    /// The remote host is being reached.
    Reach,
    /// The security modules of the kernel are being read.
    SecurityModules,
    /// The tools that the supervisor needs are being looked for.
    Tools,
}

/// What to do next to validate a new sandbox.
pub enum ValidateStep {
    /// Run this command, and come back with what it gave.
    Run(ValidateStage, Command),
    /// The validation is over.
    Done(Result<(), Status>),
}

pub enum ValidateStepView {
    Run(ValidateStage, CommandView),
    Done(Result<(), StatusView>),
}

impl View for ValidateStep {
    type V = ValidateStepView;

    open spec fn view(&self) -> ValidateStepView {
        match self {
            ValidateStep::Run(stage, c) => ValidateStepView::Run(*stage, c@),
            ValidateStep::Done(r) => ValidateStepView::Done(registry::status_outcome(*r)),
        }
    }
}

/// What is said of a new sandbox that another stands in the way of.
pub open spec fn room_check(
    config: SshComputeConfigView,
    list: Seq<(Seq<char>, SandboxModel)>,
    sandbox_id: Seq<char>,
) -> Result<(), StatusView> {
    match registry::occupant(list, sandbox_id) {
        Some(existing) => Err(
            registry::failure(
                StatusCode::FailedPrecondition,
                "SSH driver supports one sandbox per host; sandbox '"@ + existing
                    + "' already exists on "@ + config.host,
            ),
        ),
        None => Ok(()),
    }
}

/// The step after a command of the validation ran. Whether the security modules
/// can be read does not matter.
pub open spec fn validate_next(
    config: SshComputeConfigView,
    list: Seq<(Seq<char>, SandboxModel)>,
    sandbox_id: Seq<char>,
    stage: ValidateStage,
    output: Result<CommandOutput, String>,
) -> ValidateStepView {
    match stage {
        ValidateStage::Reach => match ssh_outcome(output) {
            Err(_) => ValidateStepView::Done(
                Err(
                    registry::failure(
                        StatusCode::FailedPrecondition,
                        "cannot reach SSH host "@ + config.host + ":"@ + text::decimal(
                            config.port as nat,
                        ) + " as "@ + config.user,
                    ),
                ),
            ),
            Ok(_) => ValidateStepView::Run(
                ValidateStage::SecurityModules,
                ssh_call(config, "cat /sys/kernel/security/lsm 2>/dev/null"@),
            ),
        },
        ValidateStage::SecurityModules => ValidateStepView::Run(
            ValidateStage::Tools,
            ssh_call(config, "which ip nsenter >/dev/null 2>&1"@),
        ),
        ValidateStage::Tools => match ssh_outcome(output) {
            Err(_) => ValidateStepView::Done(
                Err(
                    registry::failure(
                        StatusCode::FailedPrecondition,
                        "remote host missing required tools: ip, nsenter (install iproute2)"@,
                    ),
                ),
            ),
            Ok(_) => ValidateStepView::Done(room_check(config, list, sandbox_id)),
        },
    }
}

// ---------------------------------------------------------------------------
// Driver
// ---------------------------------------------------------------------------

/// The SSH driver.
pub struct SshComputeDriver {
    pub config: SshComputeConfig,
    /// All managed sandboxes.
    pub sandboxes: Registry<SshSandboxState>,
}

/// The settings and the sandboxes of a new driver, given whether the two files
/// that the settings name are there.
pub open spec fn new_driver(
    config: SshComputeConfigView,
    key_exists: bool,
    bin_exists: bool,
) -> Result<(SshComputeConfigView, Map<Seq<char>, SandboxModel>), Seq<char>> {
    match config_check(config, key_exists, bin_exists) {
        Ok(_) => Ok((config, Map::empty())),
        Err(m) => Err(m),
    }
}

/// The settings and the sandboxes of a driver that may have been refused.
pub open spec fn driver_outcome(r: Result<SshComputeDriver, String>) -> Result<
    (SshComputeConfigView, Map<Seq<char>, SandboxModel>),
    Seq<char>,
> {
    match r {
        Ok(d) => Ok((d.config@, d.sandboxes@)),
        Err(m) => Err(m@),
    }
}

/// What is to be done for a sandbox that was deleted.
pub struct Removal {
    /// Run these commands one after the other, whatever they give.
    pub commands: Vec<Command>,
    /// Tell this to the watchers after that.
    pub event: Option<WatchSandboxesEvent>,
}

pub struct RemovalView {
    pub commands: Seq<CommandView>,
    pub event: Option<WatchSandboxesEventView>,
}

impl View for Removal {
    type V = RemovalView;

    open spec fn view(&self) -> RemovalView {
        RemovalView {
            commands: self.commands@.map_values(|c: Command| c@),
            event: compute::event_view(self.event),
        }
    }
}

/// What is to be done for a sandbox that was deleted: end its supervisor, when
/// its process is known, and clean up the remote host.
pub open spec fn removal_of(config: SshComputeConfigView, model: SandboxModel) -> RemovalView {
    RemovalView {
        commands: match model.pid {
            Some(pid) => seq![
                ssh_call(config, kill_command(pid)),
                ssh_call(config, cleanup_command()),
            ],
            None => seq![ssh_call(config, cleanup_command())],
        },
        event: registry::deletion_event(model.sandbox.id),
    }
}

/// The supervisors to look at: those whose process is known, in the order of the
/// identifiers.
pub open spec fn poll_list(list: Seq<(Seq<char>, SandboxModel)>) -> Seq<(Seq<char>, u32)>
    decreases list.len(),
{
    if list.len() == 0 {
        Seq::empty()
    } else {
        match list.last().1.pid {
            Some(pid) => poll_list(list.drop_last()).push((list.last().0, pid)),
            None => poll_list(list.drop_last()),
        }
    }
}

/// Whether a look at a supervisor found it alive.
pub open spec fn seen_alive(output: Result<CommandOutput, String>) -> bool {
    ssh_outcome(output) matches Ok(printed) && text::trimmed(printed) == "alive"@
}

/// Reads what a look at a supervisor gave.
pub fn alive_result(output: Result<CommandOutput, String>) -> (r: bool)
    ensures
        r == seen_alive(output),
{
    match ssh_result(output) {
        Ok(printed) => text::same(text::trim(printed.as_str()).as_str(), "alive"),
        Err(_) => false,
    }
}

/// The text that `{:?}` shows for the settings.
pub open spec fn config_text(c: SshComputeConfigView) -> Seq<char> {
    "SshComputeConfig { host: "@ + platform::debug_text(c.host) + ", port: "@ + text::decimal(
        c.port as nat,
    ) + ", user: "@ + platform::debug_text(c.user) + ", identity_file: "@ + platform::debug_text(
        c.identity_file,
    ) + ", supervisor_bin: "@ + platform::debug_text(c.supervisor_bin) + ", grpc_endpoint: "@
        + platform::debug_text(c.grpc_endpoint) + ", ssh_socket_path: "@ + platform::debug_text(
        c.ssh_socket_path,
    ) + ", log_level: "@ + platform::debug_text(c.log_level) + " }"@
}

impl SshComputeConfig {
    /// The settings as a text for logs.
    pub fn debug_text(&self) -> (r: String)
        ensures
            r@ == config_text(self@),
    {
        "SshComputeConfig { host: ".to_owned().concat(
            platform::quoted(self.host.as_str()).as_str(),
        ).concat(", port: ").concat(text::u64_text(self.port as u64).as_str()).concat(
            ", user: ",
        ).concat(platform::quoted(self.user.as_str()).as_str()).concat(
            ", identity_file: ",
        ).concat(platform::quoted(self.identity_file.as_str()).as_str()).concat(
            ", supervisor_bin: ",
        ).concat(platform::quoted(self.supervisor_bin.as_str()).as_str()).concat(
            ", grpc_endpoint: ",
        ).concat(platform::quoted(self.grpc_endpoint.as_str()).as_str()).concat(
            ", ssh_socket_path: ",
        ).concat(platform::quoted(self.ssh_socket_path.as_str()).as_str()).concat(
            ", log_level: ",
        ).concat(platform::quoted(self.log_level.as_str()).as_str()).concat(" }")
    }
}

impl SshComputeDriver {
    /// A driver without sandboxes, given whether the two files that the settings
    /// name are there.
    pub fn with_files(config: SshComputeConfig, key_exists: bool, bin_exists: bool) -> (r: Result<
        Self,
        String,
    >)
        ensures
            driver_outcome(r) == new_driver(config@, key_exists, bin_exists),
    {
        match check_config(&config, key_exists, bin_exists) {
            Ok(()) => Ok(SshComputeDriver { config, sandboxes: Registry::new() }),
            Err(m) => Err(m),
        }
    }

    /// A driver without sandboxes. The settings have to be complete, and the
    /// files that they name have to exist.
    pub fn new(config: SshComputeConfig) -> (r: Result<Self, String>)
        ensures
            exists|key_exists: bool, bin_exists: bool|
                platform::looked_for(config@.identity_file, key_exists) && platform::looked_for(
                    config@.supervisor_bin,
                    bin_exists,
                ) && driver_outcome(r) == #[trigger] new_driver(config@, key_exists, bin_exists),
    {
        let key_exists = platform::look_for(config.identity_file.as_str());
        let bin_exists = platform::look_for(config.supervisor_bin.as_str());
        SshComputeDriver::with_files(config, key_exists, bin_exists)
    }

    /// The driver as a text for logs.
    pub fn debug_text(&self) -> (r: String)
        ensures
            r@ == "SshComputeDriver { config: "@ + config_text(self.config@) + ", .. }"@,
    {
        "SshComputeDriver { config: ".to_owned().concat(self.config.debug_text().as_str()).concat(
            ", .. }",
        )
    }

    /// The capabilities of the driver. It does not use images.
    pub fn capabilities(&self) -> (r: GetCapabilitiesResponse)
        ensures
            r.driver_name@ == "ssh"@,
            r.driver_version@ == compute::VERSION@,
            r.default_image@ == Seq::<char>::empty(),
            !r.supports_gpu,
            r.gpu_count == 0,
    {
        GetCapabilitiesResponse {
            driver_name: "ssh".to_owned(),
            driver_version: compute::VERSION.to_owned(),
            default_image: String::new(),
            supports_gpu: false,
            gpu_count: 0,
        }
    }

    /// The command that runs a shell command on the remote host.
    pub fn ssh_exec(&self, command: &str) -> (r: Command)
        ensures
            r@ == ssh_call(self.config@, command@),
    {
        let mut args = shared_options();
        text::push_word(&mut args, "-p");
        text::push_word(&mut args, text::u64_text(self.config.port as u64).as_str());
        text::push_word(&mut args, "-i");
        text::push_word(&mut args, self.config.identity_file.as_str());
        let user_host = self.config.user.clone().concat("@").concat(self.config.host.as_str());
        text::push_word(&mut args, user_host.as_str());
        text::push_word(&mut args, command);
        proof {
            assert(text::views(args@) =~= ssh_call(self.config@, command@).args);
        }
        process::plain_command("ssh", args)
    }

    /// The command that copies a local file to the remote host.
    pub fn scp_to_remote(&self, local_path: &str, remote_path: &str) -> (r: Command)
        ensures
            r@ == scp_call(self.config@, local_path@, remote_path@),
    {
        let mut args = shared_options();
        text::push_word(&mut args, "-P");
        text::push_word(&mut args, text::u64_text(self.config.port as u64).as_str());
        text::push_word(&mut args, "-i");
        text::push_word(&mut args, self.config.identity_file.as_str());
        text::push_word(&mut args, local_path);
        let target = self.config.user.clone().concat("@").concat(self.config.host.as_str()).concat(
            ":",
        ).concat(remote_path);
        text::push_word(&mut args, target.as_str());
        proof {
            assert(text::views(args@) =~= scp_call(self.config@, local_path@, remote_path@).args);
        }
        process::plain_command("scp", args)
    }

    /// Builds the environment variables that the supervisor needs.
    pub fn build_supervisor_env(&self, sandbox: &DriverSandbox) -> (r: Vec<(String, String)>)
        ensures
            text::pair_views(r@) == supervisor_vars(self.config@, sandbox@),
    {
        environment::process_env(
            sandbox,
            self.config.log_level.as_str(),
            self.config.grpc_endpoint.as_str(),
            self.config.ssh_socket_path.as_str(),
        )
    }

    fn start_supervisor(&self, sandbox: &DriverSandbox) -> (r: Command)
        ensures
            r@ == ssh_call(
                self.config@,
                start_command(supervisor_vars(self.config@, sandbox@)),
            ),
    {
        let env = self.build_supervisor_env(sandbox);
        let ghost vars = text::pair_views(env@);
        let mut words: Vec<String> = Vec::new();
        let mut i: usize = 0;
        while i < env.len()
            invariant
                i <= env.len(),
                vars == text::pair_views(env@),
                words.len() == i,
                forall|j: int|
                    0 <= j < i ==> #[trigger] words@[j]@ == shell::quoted_word(
                        vars[j].0 + "="@ + vars[j].1,
                    ),
            decreases env.len() - i,
        {
            let setting = env[i].0.clone().concat("=").concat(env[i].1.as_str());
            words.push(shell::quote_word(setting.as_str()));
            i = i + 1;
        }
        proof {
            assert(text::views(words@) =~= assignments(vars));
        }
        let command = "nohup env ".to_owned().concat(text::join(&words, " ").as_str()).concat(
            " ",
        ).concat(REMOTE_SUPERVISOR_PATH).concat(
            " > /tmp/openshell-supervisor.log 2>&1 & echo $!",
        );
        self.ssh_exec(command.as_str())
    }

    /// The first step to deploy the supervisor binary and to start it on the
    /// remote host.
    pub fn deploy_and_start_supervisor(&self) -> (r: DeployStep)
        ensures
            r@ == DeployStepView::Run(
                DeployStage::Prepare,
                ssh_call(self.config@, prepare_command()),
            ),
    {
        DeployStep::Run(
            DeployStage::Prepare,
            self.ssh_exec(
                "mkdir -p /opt/openshell/bin /sandbox && id sandbox >/dev/null 2>&1 || useradd -r -m sandbox",
            ),
        )
    }

    /// The step after a command of the deployment ran.
    pub fn after_deploy_command(
        &self,
        sandbox: &DriverSandbox,
        stage: DeployStage,
        output: Result<CommandOutput, String>,
    ) -> (r: DeployStep)
        ensures
            r@ == deploy_next(self.config@, sandbox@, stage, output),
    {
        match stage {
            DeployStage::Prepare => match ssh_result(output) {
                Err(e) => DeployStep::Done(Err(e)),
                Ok(_) => DeployStep::Run(
                    DeployStage::Copy,
                    self.scp_to_remote(
                        self.config.supervisor_bin.as_str(),
                        REMOTE_SUPERVISOR_PATH,
                    ),
                ),
            },
            DeployStage::Copy => match scp_result(output) {
                Err(e) => DeployStep::Done(Err(e)),
                Ok(()) => DeployStep::Run(
                    DeployStage::MakeExecutable,
                    self.ssh_exec("chmod +x ".to_owned().concat(REMOTE_SUPERVISOR_PATH).as_str()),
                ),
            },
            DeployStage::MakeExecutable => match ssh_result(output) {
                Err(e) => DeployStep::Done(Err(e)),
                Ok(_) => DeployStep::Run(DeployStage::Start, self.start_supervisor(sandbox)),
            },
            DeployStage::Start => match ssh_result(output) {
                Err(e) => DeployStep::Done(Err(e)),
                Ok(printed) => DeployStep::Done(parse_pid(printed.as_str())),
            },
        }
    }

    /// The command that tells whether a process of the remote host is alive;
    /// [`alive_result`] reads what it gave.
    pub fn is_process_alive(&self, pid: u32) -> (r: Command)
        ensures
            r@ == ssh_call(self.config@, alive_command(pid)),
    {
        let command = "kill -0 ".to_owned().concat(text::u64_text(pid as u64).as_str()).concat(
            " 2>/dev/null && echo alive",
        );
        self.ssh_exec(command.as_str())
    }

    /// The command that ends the supervisor on the remote host. It counts as
    /// done whatever it gives.
    pub fn kill_supervisor(&self, pid: u32) -> (r: Command)
        ensures
            r@ == ssh_call(self.config@, kill_command(pid)),
    {
        let n = text::u64_text(pid as u64);
        let command = "kill ".to_owned().concat(n.as_str()).concat(
            " 2>/dev/null; sleep 2; kill -0 ",
        ).concat(n.as_str()).concat(" 2>/dev/null && kill -9 ").concat(n.as_str()).concat(
            " 2>/dev/null; true",
        );
        self.ssh_exec(command.as_str())
    }

    /// Takes a snapshot of a sandbox for the gateway.
    pub fn build_snapshot(state: &SshSandboxState, supervisor_ready: bool) -> (r: DriverSandbox)
        ensures
            r@ == ssh_shown(state.model(), supervisor_ready),
    {
        let (instance_id, pid) = match state.remote_pid {
            Some(pid) => (text::u64_text(pid as u64), pid),
            None => (String::new(), 0),
        };
        let message = "Process running (PID ".to_owned().concat(
            text::u64_text(pid as u64).as_str(),
        ).concat(")");
        registry::process_snapshot(
            &state.sandbox,
            instance_id,
            message,
            state.running,
            supervisor_ready,
        )
    }

    /// The first step to validate a new sandbox: reach the remote host.
    pub fn validate_sandbox_create(&self, sandbox: Option<&DriverSandbox>) -> (r: ValidateStep)
        ensures
            r@ == (match sandbox {
                None => ValidateStepView::Done(
                    Err(registry::failure(StatusCode::InvalidArgument, "sandbox is required"@)),
                ),
                Some(_) => ValidateStepView::Run(
                    ValidateStage::Reach,
                    ssh_call(self.config@, "echo ok"@),
                ),
            }),
    {
        match sandbox {
            None => ValidateStep::Done(
                Err(compute::status(StatusCode::InvalidArgument, "sandbox is required")),
            ),
            Some(_) => ValidateStep::Run(ValidateStage::Reach, self.ssh_exec("echo ok")),
        }
    }

    /// The step after a command of the validation ran.
    pub fn after_validate_command(
        &self,
        sandbox: &DriverSandbox,
        stage: ValidateStage,
        output: Result<CommandOutput, String>,
    ) -> (r: ValidateStep)
        ensures
            r@ == validate_next(
                self.config@,
                self.sandboxes.list(),
                sandbox@.id,
                stage,
                output,
            ),
    {
        match stage {
            ValidateStage::Reach => match ssh_result(output) {
                Err(_) => {
                    let message = "cannot reach SSH host ".to_owned().concat(
                        self.config.host.as_str(),
                    ).concat(":").concat(
                        text::u64_text(self.config.port as u64).as_str(),
                    ).concat(" as ").concat(self.config.user.as_str());
                    ValidateStep::Done(
                        Err(compute::status(StatusCode::FailedPrecondition, message.as_str())),
                    )
                },
                Ok(_) => ValidateStep::Run(
                    ValidateStage::SecurityModules,
                    self.ssh_exec("cat /sys/kernel/security/lsm 2>/dev/null"),
                ),
            },
            ValidateStage::SecurityModules => ValidateStep::Run(
                ValidateStage::Tools,
                self.ssh_exec("which ip nsenter >/dev/null 2>&1"),
            ),
            ValidateStage::Tools => match ssh_result(output) {
                Err(_) => ValidateStep::Done(
                    Err(
                        compute::status(
                            StatusCode::FailedPrecondition,
                            "remote host missing required tools: ip, nsenter (install iproute2)",
                        ),
                    ),
                ),
                Ok(_) => ValidateStep::Done(self.check_room(sandbox.id.as_str())),
            },
        }
    }

    /// Checks that there is room for a sandbox: there is one per host.
    pub fn check_room(&self, sandbox_id: &str) -> (r: Result<(), Status>)
        ensures
            registry::status_outcome(r) == room_check(
                self.config@,
                self.sandboxes.list(),
                sandbox_id@,
            ),
    {
        match registry::find_occupant(&self.sandboxes, sandbox_id) {
            Some(existing) => {
                let message = "SSH driver supports one sandbox per host; sandbox '".to_owned().concat(
                existing).concat("' already exists on ").concat(self.config.host.as_str());
                Err(compute::status(StatusCode::FailedPrecondition, message.as_str()))
            },
            None => Ok(()),
        }
    }

    /// Answers a request for one sandbox.
    pub fn get_sandbox<R: SupervisorReadiness>(
        &self,
        sandbox_id: &str,
        sandbox_name: &str,
        readiness: &R,
    ) -> (r: Result<DriverSandbox, Status>)
        ensures
            registry::get_answered(
                self.sandboxes,
                sandbox_id@,
                sandbox_name@,
                readiness,
                registry::sandbox_outcome(r),
            ),
    {
        registry::get_snapshot(&self.sandboxes, sandbox_id, sandbox_name, readiness)
    }

    /// Lists all sandboxes in the order of their identifiers.
    pub fn list_sandboxes<R: SupervisorReadiness>(&self, readiness: &R) -> (r: Vec<DriverSandbox>)
        ensures
            exists|connected: Seq<bool>|
                registry::all_said(readiness, self.sandboxes.list(), connected)
                    && compute::sandbox_views(r@) == #[trigger] registry::all_shown::<
                    SshSandboxState,
                >(self.sandboxes.list(), connected),
    {
        registry::snapshots(&self.sandboxes, readiness)
    }

    /// The first step of the creation of a sandbox: its identifier has to be
    /// free, and then the supervisor is deployed.
    pub fn create_sandbox(&self, sandbox: Option<&DriverSandbox>) -> (r: DeployStep)
        ensures
            r@ == (match registry::create_check(
                self.sandboxes@,
                registry::optional_view(sandbox),
            ) {
                Err(e) => DeployStepView::Done(Err(e)),
                Ok(_) => DeployStepView::Run(
                    DeployStage::Prepare,
                    ssh_call(self.config@, prepare_command()),
                ),
            }),
    {
        match registry::check_create(&self.sandboxes, sandbox) {
            Err(e) => DeployStep::Done(Err(e)),
            Ok(()) => self.deploy_and_start_supervisor(),
        }
    }

    /// Notes a sandbox whose supervisor was started, and returns what watchers
    /// are told.
    pub fn created(&mut self, sandbox: DriverSandbox, pid: u32) -> (r: WatchSandboxesEvent)
        ensures
            final(self).config == old(self).config,
            final(self).sandboxes@ == old(self).sandboxes@.insert(
                sandbox@.id,
                created_model(sandbox@, pid),
            ),
            r@ == WatchSandboxesEventView::Sandbox(ssh_shown(created_model(sandbox@, pid), false)),
    {
        registry::register(
            &mut self.sandboxes,
            SshSandboxState { sandbox, remote_pid: Some(pid), running: true },
        )
    }

    /// The first step to stop a sandbox: the command that ends its supervisor,
    /// when its process is known. [`SshComputeDriver::stopped`] is the second.
    pub fn stop_sandbox(&self, sandbox_id: &str, sandbox_name: &str) -> (r: Result<
        Option<Command>,
        Status,
    >)
        ensures
            (match r {
                Ok(Some(c)) => Ok(Some(c@)),
                Ok(None) => Ok(None),
                Err(e) => Err(e@),
            }) == stop_answer(
                self.config@,
                self.sandboxes@,
                self.sandboxes.list(),
                sandbox_id@,
                sandbox_name@,
            ),
    {
        match require_sandbox_identifier(sandbox_id, sandbox_name) {
            Err(e) => Err(e),
            Ok(()) => match find_sandbox(&self.sandboxes, sandbox_id, sandbox_name) {
                None => Err(compute::status(StatusCode::NotFound, "sandbox not found")),
                Some(state) => match state.remote_pid {
                    Some(pid) => Ok(Some(self.kill_supervisor(pid))),
                    None => Ok(None),
                },
            },
        }
    }

    /// Notes that the supervisor of a sandbox was stopped.
    pub fn stopped(&mut self, sandbox_id: &str, sandbox_name: &str)
        ensures
            final(self).config == old(self).config,
            final(self).sandboxes@ == (match registry::meant(
                old(self).sandboxes.list(),
                sandbox_id@,
                sandbox_name@,
            ) {
                Some(id) => registry::with_running(old(self).sandboxes@, id, false),
                None => old(self).sandboxes@,
            }),
    {
        if let Some(id) = find_sandbox_key(&self.sandboxes, sandbox_id, sandbox_name) {
            self.sandboxes.set_running(id.as_str(), false);
        }
    }

    /// Deletes a sandbox: it is forgotten at once, and what is to be done on the
    /// remote host is returned. `None` says that there was nothing to delete.
    pub fn delete_sandbox(&mut self, sandbox_id: &str, sandbox_name: &str) -> (r: Result<
        Option<Removal>,
        Status,
    >)
        ensures
            final(self).config == old(self).config,
            match registry::identifier_check(sandbox_id@, sandbox_name@) {
                Err(e) => r matches Err(s) && s@ == e && final(self).sandboxes@ == old(
                    self,
                ).sandboxes@,
                Ok(_) => match registry::meant(
                    old(self).sandboxes.list(),
                    sandbox_id@,
                    sandbox_name@,
                ) {
                    Some(id) => r matches Ok(Some(removal)) && removal@ == removal_of(
                        old(self).config@,
                        old(self).sandboxes@[id],
                    ) && final(self).sandboxes@ == old(self).sandboxes@.remove(id),
                    None => r matches Ok(None) && final(self).sandboxes@ == old(self).sandboxes@,
                },
            },
    {
        if let Err(e) = require_sandbox_identifier(sandbox_id, sandbox_name) {
            return Err(e);
        }
        match registry::take(&mut self.sandboxes, sandbox_id, sandbox_name) {
            None => Ok(None),
            Some(state) => {
                let mut commands: Vec<Command> = Vec::new();
                if let Some(pid) = state.remote_pid {
                    commands.push(self.kill_supervisor(pid));
                }
                let cleanup = "rm -f ".to_owned().concat(REMOTE_SUPERVISOR_PATH).concat(
                    " /tmp/openshell-supervisor.log",
                );
                commands.push(self.ssh_exec(cleanup.as_str()));
                let event = registry::deleted(&state);
                proof {
                    assert(commands@.map_values(|c: Command| c@) =~= removal_of(
                        self.config@,
                        state.model(),
                    ).commands);
                }
                Ok(Some(Removal { commands, event }))
            },
        }
    }

    /// The supervisors to look at, with their processes.
    pub fn poll_targets(&self) -> (r: Vec<(String, u32)>)
        ensures
            r@.map_values(|t: (String, u32)| (t.0@, t.1)) == poll_list(self.sandboxes.list()),
            string_map::ascending(self.sandboxes.list()),
            self.sandboxes@ == string_map::map_of(self.sandboxes.list()),
    {
        let ghost list = self.sandboxes.list();
        let n: usize = self.sandboxes.len();
        let mut r: Vec<(String, u32)> = Vec::new();
        let mut i: usize = 0;
        proof {
            assert(list.take(0) =~= Seq::empty());
            assert(r@.map_values(|t: (String, u32)| (t.0@, t.1)) =~= Seq::empty());
        }
        while i < n
            invariant
                i <= n,
                list == self.sandboxes.list(),
                n == list.len(),
                r@.map_values(|t: (String, u32)| (t.0@, t.1)) == poll_list(list.take(i as int)),
            decreases n - i,
        {
            let ghost before = r@.map_values(|t: (String, u32)| (t.0@, t.1));
            proof {
                assert(list.take(i + 1).drop_last() =~= list.take(i as int));
            }
            if let Some(pid) = self.sandboxes.state_at(i).remote_pid {
                r.push((self.sandboxes.id_at(i).to_owned(), pid));
                proof {
                    assert(r@.map_values(|t: (String, u32)| (t.0@, t.1)) =~= before.push(
                        (list[i as int].0, pid),
                    ));
                }
            }
            i = i + 1;
        }
        proof {
            assert(list.take(list.len() as int) =~= list);
        }
        r
    }

    /// Notes what a look at a supervisor gave, and says what watchers are told.
    pub fn poll_result(
        &mut self,
        sandbox_id: &str,
        output: Result<CommandOutput, String>,
        connected: bool,
    ) -> (r: Option<WatchSandboxesEvent>)
        ensures
            final(self).config == old(self).config,
            final(self).sandboxes@ == registry::with_running(
                old(self).sandboxes@,
                sandbox_id@,
                seen_alive(output),
            ),
            compute::event_view(r) == registry::observed_event::<SshSandboxState>(
                old(self).sandboxes@,
                sandbox_id@,
                seen_alive(output),
                connected,
            ),
    {
        registry::observe(&mut self.sandboxes, sandbox_id, alive_result(output), connected)
    }

    /// The first step of a watch: subscribe to later events.
    pub fn watch_sandboxes(&self) -> (r: WatchStep)
        ensures
            r@ == registry::WatchStepView::Subscribe,
    {
        registry::start_watch()
    }

    /// The step of a watch after its subscription: tell of every sandbox.
    pub fn after_subscription<R: SupervisorReadiness>(
        &self,
        run: Subscribing,
        readiness: &R,
    ) -> (r: WatchStep)
        ensures
            registry::watch_answered(self.sandboxes, readiness, r@),
    {
        registry::after_subscription(run, &self.sandboxes, readiness)
    }
}

/// What is known of a sandbox whose supervisor was started.
pub open spec fn created_model(sandbox: DriverSandboxView, pid: u32) -> SandboxModel {
    SandboxModel { sandbox, pid: Some(pid), running: true }
}

/// The answer to a request to stop a sandbox.
pub open spec fn stop_answer(
    config: SshComputeConfigView,
    m: Map<Seq<char>, SandboxModel>,
    list: Seq<(Seq<char>, SandboxModel)>,
    sandbox_id: Seq<char>,
    sandbox_name: Seq<char>,
) -> Result<Option<CommandView>, StatusView> {
    match registry::identifier_check(sandbox_id, sandbox_name) {
        Err(e) => Err(e),
        Ok(_) => match registry::meant(list, sandbox_id, sandbox_name) {
            None => Err(registry::failure(StatusCode::NotFound, "sandbox not found"@)),
            Some(id) => match m[id].pid {
                Some(pid) => Ok(Some(ssh_call(config, kill_command(pid)))),
                None => Ok(None),
            },
        },
    }
}

/// What is seen of the supervisors to look at: what the look at each gave, and
/// whether it is connected.
pub open spec fn looks_at(
    targets: Seq<(Seq<char>, u32)>,
    seen: spec_fn((Seq<char>, u32)) -> (Result<CommandOutput, String>, bool),
) -> Seq<registry::Look> {
    targets.map_values(
        |t: (Seq<char>, u32)|
            registry::Look { id: t.0, alive: seen_alive(seen(t).0), connected: seen(t).1 },
    )
}

/// A supervisor to look at is that of a sandbox whose process is known: the one at
/// the position that is returned.
pub proof fn target_is_known(list: Seq<(Seq<char>, SandboxModel)>, k: int) -> (i: int)
    requires
        0 <= k < poll_list(list).len(),
    ensures
        0 <= i < list.len(),
        list[i].0 == poll_list(list)[k].0,
        list[i].1.pid == Some(poll_list(list)[k].1),
    decreases list.len(),
{
    let front = list.drop_last();
    if k < poll_list(front).len() {
        let i = target_is_known(front, k);
        assert(front[i] == list[i]);
        i
    } else {
        list.len() - 1
    }
}

/// Every supervisor whose process is known is to be looked at: it stands at the
/// position that is returned.
pub proof fn known_is_a_target(list: Seq<(Seq<char>, SandboxModel)>, i: int) -> (k: int)
    requires
        0 <= i < list.len(),
        list[i].1.pid is Some,
    ensures
        0 <= k < poll_list(list).len(),
        poll_list(list)[k] == (list[i].0, list[i].1.pid->0),
    decreases list.len(),
{
    let front = list.drop_last();
    if i < front.len() {
        assert(front[i] == list[i]);
        known_is_a_target(front, i)
    } else {
        poll_list(list).len() - 1
    }
}

/// No supervisor is looked at twice.
pub proof fn targets_are_distinct(list: Seq<(Seq<char>, SandboxModel)>, k: int, l: int)
    requires
        string_map::ascending(list),
        0 <= k < l < poll_list(list).len(),
    ensures
        poll_list(list)[k].0 != poll_list(list)[l].0,
    decreases list.len(),
{
    let front = list.drop_last();
    if l < poll_list(front).len() {
        assert(string_map::ascending(front)) by {
            assert forall|i: int, j: int| 0 <= i < j < front.len() implies text::text_less(
                #[trigger] front[i].0,
                #[trigger] front[j].0,
            ) by {
                assert(text::text_less(list[i].0, list[j].0));
            }
        }
        targets_are_distinct(front, k, l);
    } else {
        let i = target_is_known(front, k);
        assert(front[i] == list[i]);
        string_map::ascending_lookup(list, i);
        assert(list[list.len() - 1].0 != list[i].0);
    }
}

/// A whole round looks at every supervisor whose process is known. Each such
/// sandbox counts as running at its end just when its own supervisor was seen
/// alive; the others stay as they were, no sandbox comes or goes, and nothing else
/// of them changes. Watchers are told of each in the order of the identifiers,
/// when it has started or stopped running or is connected.
pub proof fn round_covers_every_supervisor(
    list: Seq<(Seq<char>, SandboxModel)>,
    seen: spec_fn((Seq<char>, u32)) -> (Result<CommandOutput, String>, bool),
)
    requires
        string_map::ascending(list),
    ensures
        ({
            let m = string_map::map_of(list);
            let looks = looks_at(poll_list(list), seen);
            let after = registry::after_looks(m, looks);
            &&& after.dom() == m.dom()
            &&& forall|i: int|
                0 <= i < list.len() ==> after[(#[trigger] list[i]).0] == (match list[i].1.pid {
                    Some(pid) => SandboxModel {
                        running: seen_alive(seen((list[i].0, pid)).0),
                        ..list[i].1
                    },
                    None => list[i].1,
                })
            &&& registry::look_events::<SshSandboxState>(m, looks) == registry::events_of_each::<
                SshSandboxState,
            >(m, looks)
        }),
{
    let m = string_map::map_of(list);
    let targets = poll_list(list);
    let looks = looks_at(targets, seen);
    assert forall|k: int, l: int| 0 <= k < l < looks.len() implies (#[trigger] looks[k]).id != (
    #[trigger] looks[l]).id by {
        targets_are_distinct(list, k, l);
    }
    registry::round_notes_every_look(m, looks);
    registry::round_tells_of_every_look::<SshSandboxState>(m, looks);
    assert forall|i: int| 0 <= i < list.len() implies registry::after_looks(m, looks)[(
    #[trigger] list[i]).0] == (match list[i].1.pid {
        Some(pid) => SandboxModel {
            running: seen_alive(seen((list[i].0, pid)).0),
            ..list[i].1
        },
        None => list[i].1,
    }) by {
        string_map::ascending_lookup(list, i);
        match list[i].1.pid {
            Some(pid) => {
                let k = known_is_a_target(list, i);
                assert(looks[k].id == list[i].0);
            },
            None => {
                assert forall|k: int| 0 <= k < looks.len() implies (#[trigger] looks[k]).id
                    != list[i].0 by {
                    let n = target_is_known(list, k);
                    assert(list[n].0 == looks[k].id);
                }
            },
        }
    }
}

/// Sandboxes are listed in the order of their identifiers.
pub proof fn listed_by_identifier(
    list: Seq<(Seq<char>, SandboxModel)>,
    connected: Seq<bool>,
    i: int,
    j: int,
)
    requires
        string_map::ascending(list),
        registry::keyed_by_id(string_map::map_of(list)),
        0 <= i < j < list.len(),
    ensures
        text::text_less(
            registry::all_shown::<SshSandboxState>(list, connected)[i].id,
            registry::all_shown::<SshSandboxState>(list, connected)[j].id,
        ),
{
    string_map::ascending_lookup(list, i);
    string_map::ascending_lookup(list, j);
}

/// The remote shell reads every setting back as it is, whatever the variable is
/// called and holds.
pub proof fn supervisor_gets_its_environment(vars: Seq<(Seq<char>, Seq<char>)>, i: int)
    requires
        0 <= i < vars.len(),
    ensures
        shell::shell_word(assignments(vars)[i]) == Some(vars[i].0 + "="@ + vars[i].1),
{
    shell::shell_reads_value_back(vars[i].0 + "="@ + vars[i].1);
}

/// The command that the remote shell makes of it runs the supervisor, through
/// `nohup` and `env`, with one setting for each of the variables and nothing else.
pub proof fn supervisor_is_what_runs(vars: Seq<(Seq<char>, Seq<char>)>)
    ensures
        shell::shell_words(supervisor_command(vars)) == Some(
            seq!["nohup"@, "env"@] + settings(vars) + seq![REMOTE_SUPERVISOR_PATH@],
        ),
{
    reveal_strlit("nohup env ");
    reveal_strlit("nohup");
    reveal_strlit("env");
    reveal_strlit(" ");
    reveal_strlit("/opt/openshell/bin/openshell-sandbox");
    let path = REMOTE_SUPERVISOR_PATH@;
    let values = settings(vars);
    let quoted = values.map_values(|v: Seq<char>| shell::quoted_word(v));
    assert(quoted =~= assignments(vars));
    let tail = text::joined(quoted, " "@) + " "@ + path;
    shell::plain_text_is_one_word(path, Seq::empty());
    shell::quoted_values_are_read_back(values, path);
    shell::plain_text_is_one_word("env"@, tail);
    shell::plain_text_is_one_word("nohup"@, "env"@ + " "@ + tail);
    assert(supervisor_command(vars) =~= "nohup"@ + " "@ + ("env"@ + " "@ + tail));
    assert(seq!["nohup"@] + (seq!["env"@] + (values + seq![path])) =~= seq!["nohup"@, "env"@]
        + values + seq![path]);
}

/// The process number that the remote shell prints, with a line break behind it,
/// is read back.
pub proof fn printed_pid_is_read_back(pid: u32)
    ensures
        started_pid(text::decimal(pid as nat) + "\n"@) == Ok::<u32, StatusView>(pid),
{
    reveal_strlit("\n");
    let digits = text::decimal(pid as nat);
    text::decimal_round_trip(pid as nat);
    let printed = digits + "\n"@;
    assert(text::decimal_digit(printed[0]));
    assert(printed.drop_last() =~= digits);
    assert(text::decimal_digit(digits.last()));
    assert(text::trimmed_end(printed) == text::trimmed_end(digits));
}

} // verus!
