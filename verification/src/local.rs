//! The local driver: the sandbox of this host.
//!
//! The driver starts the supervisor as a child process, without a container
//! runtime. The supervisor isolates the sandbox by itself and connects outbound
//! to the gateway. Starting, watching and ending the child is left to the
//! caller; what that means for the sandboxes is decided here.
use vstd::prelude::*;
use vstd::string::*;
use crate::compute;
use crate::compute::{
    DriverSandbox, DriverSandboxView, GetCapabilitiesResponse, Status, StatusCode, StatusView,
    WatchSandboxesEvent, WatchSandboxesEventView,
};
use crate::environment;
use crate::platform;
use crate::registry;
use crate::registry::{Registry, SandboxModel, SandboxState, Subscribing, WatchStep};
use crate::string_map;
use crate::text;

pub use crate::registry::{
    find_sandbox, find_sandbox_key, require_sandbox_identifier, SupervisorReadiness,
};

verus! {

/// How many events a watch may lag behind.
pub const WATCH_BUFFER: usize = 128;

/// How often the supervisors are looked at, in seconds.
pub const WATCH_POLL_INTERVAL: u64 = 5;

// ---------------------------------------------------------------------------
// Settings
// ---------------------------------------------------------------------------

/// Settings of the local driver.
#[derive(Debug)]
pub struct LocalComputeConfig {
    /// Path to the supervisor binary.
    pub supervisor_bin: String,
    /// Gateway gRPC endpoint to which the supervisor connects back.
    pub grpc_endpoint: String,
    /// SSH socket path of the sandbox.
    pub ssh_socket_path: String,
    /// Log level of the supervisor.
    pub log_level: String,
}

pub struct LocalComputeConfigView {
    pub supervisor_bin: Seq<char>,
    pub grpc_endpoint: Seq<char>,
    pub ssh_socket_path: Seq<char>,
    pub log_level: Seq<char>,
}

impl View for LocalComputeConfig {
    type V = LocalComputeConfigView;

    open spec fn view(&self) -> LocalComputeConfigView {
        LocalComputeConfigView {
            supervisor_bin: self.supervisor_bin@,
            grpc_endpoint: self.grpc_endpoint@,
            ssh_socket_path: self.ssh_socket_path@,
            log_level: self.log_level@,
        }
    }
}

impl Clone for LocalComputeConfig {
    fn clone(&self) -> (r: Self)
        ensures
            r@ == self@,
    {
        LocalComputeConfig {
            supervisor_bin: self.supervisor_bin.clone(),
            grpc_endpoint: self.grpc_endpoint.clone(),
            ssh_socket_path: self.ssh_socket_path.clone(),
            log_level: self.log_level.clone(),
        }
    }
}

impl Default for LocalComputeConfig {
    fn default() -> (r: Self)
        ensures
            r@ == (LocalComputeConfigView {
                supervisor_bin: Seq::empty(),
                grpc_endpoint: Seq::empty(),
                ssh_socket_path: Seq::empty(),
                log_level: "info"@,
            }),
    {
        LocalComputeConfig {
            supervisor_bin: String::new(),
            grpc_endpoint: String::new(),
            ssh_socket_path: String::new(),
            log_level: "info".to_owned(),
        }
    }
}

/// What is said of settings with which the driver cannot work, given whether the
/// supervisor binary is there.
pub open spec fn config_check(config: LocalComputeConfigView, bin_exists: bool) -> Result<
    (),
    Seq<char>,
> {
    if config.supervisor_bin.len() == 0 {
        Err(
            "supervisor binary path is required (--local-supervisor-bin or OPENSHELL_LOCAL_SUPERVISOR_BIN)"@,
        )
    } else if config.grpc_endpoint.len() == 0 {
        Err("gRPC endpoint is required (--grpc-endpoint or OPENSHELL_GRPC_ENDPOINT)"@)
    } else if !bin_exists {
        Err("supervisor binary not found: "@ + config.supervisor_bin)
    } else {
        Ok(())
    }
}

/// Checks the settings, given whether the supervisor binary is there.
pub fn check_config(config: &LocalComputeConfig, bin_exists: bool) -> (r: Result<(), String>)
    ensures
        (match r {
            Ok(_) => Ok(()),
            Err(m) => Err(m@),
        }) == config_check(config@, bin_exists),
{
    if config.supervisor_bin.as_str().is_empty() {
        return Err(
            "supervisor binary path is required (--local-supervisor-bin or OPENSHELL_LOCAL_SUPERVISOR_BIN)".to_owned(),
        );
    }
    if config.grpc_endpoint.as_str().is_empty() {
        return Err(
            "gRPC endpoint is required (--grpc-endpoint or OPENSHELL_GRPC_ENDPOINT)".to_owned(),
        );
    }
    if !bin_exists {
        return Err(
            "supervisor binary not found: ".to_owned().concat(config.supervisor_bin.as_str()),
        );
    }
    Ok(())
}

/// The text that `{:?}` shows for the settings.
pub open spec fn config_text(c: LocalComputeConfigView) -> Seq<char> {
    "LocalComputeConfig { supervisor_bin: "@ + platform::debug_text(c.supervisor_bin)
        + ", grpc_endpoint: "@ + platform::debug_text(c.grpc_endpoint) + ", ssh_socket_path: "@
        + platform::debug_text(c.ssh_socket_path) + ", log_level: "@ + platform::debug_text(
        c.log_level,
    ) + " }"@
}

impl LocalComputeConfig {
    /// The settings as a text for logs.
    pub fn debug_text(&self) -> (r: String)
        ensures
            r@ == config_text(self@),
    {
        "LocalComputeConfig { supervisor_bin: ".to_owned().concat(
            platform::quoted(self.supervisor_bin.as_str()).as_str(),
        ).concat(", grpc_endpoint: ").concat(
            platform::quoted(self.grpc_endpoint.as_str()).as_str(),
        ).concat(", ssh_socket_path: ").concat(
            platform::quoted(self.ssh_socket_path.as_str()).as_str(),
        ).concat(", log_level: ").concat(
            platform::quoted(self.log_level.as_str()).as_str(),
        ).concat(" }")
    }
}

// ---------------------------------------------------------------------------
// State
// ---------------------------------------------------------------------------

/// State of a managed sandbox.
pub struct LocalSandboxState {
    pub sandbox: DriverSandbox,
    /// Whether the supervisor is running.
    pub running: bool,
}

impl Clone for LocalSandboxState {
    fn clone(&self) -> (r: Self)
        ensures
            r.model() == self.model(),
    {
        LocalSandboxState { sandbox: self.sandbox.clone(), running: self.running }
    }
}

/// How a sandbox of this host is shown.
pub open spec fn local_shown(model: SandboxModel, supervisor_ready: bool) -> DriverSandboxView {
    registry::process_shown(
        model.sandbox,
        Seq::empty(),
        "Process running"@,
        model.running,
        supervisor_ready,
    )
}

impl SandboxState for LocalSandboxState {
    open spec fn model(&self) -> SandboxModel {
        SandboxModel { sandbox: self.sandbox@, pid: None, running: self.running }
    }

    open spec fn shown(model: SandboxModel, supervisor_ready: bool) -> DriverSandboxView {
        local_shown(model, supervisor_ready)
    }

    fn sandbox(&self) -> (r: &DriverSandbox) {
        &self.sandbox
    }

    fn is_running(&self) -> (r: bool) {
        self.running
    }

    fn with_running(self, running: bool) -> (r: Self) {
        LocalSandboxState { running, ..self }
    }

    fn snapshot(&self, supervisor_ready: bool) -> (r: DriverSandbox) {
        LocalComputeDriver::build_snapshot(self, supervisor_ready)
    }
}

// ---------------------------------------------------------------------------
// Child processes
// ---------------------------------------------------------------------------

/// What a look at the child process of a sandbox found.
#[derive(Clone, Copy, Debug, PartialEq, Eq, Structural)]
pub enum ChildState {
    /// There is no child process.
    Missing,
    /// The child process has exited.
    Exited,
    /// The child process runs.
    Running,
    /// It could not be found out.
    Unknown,
}

/// What a look at a child process means: whether the supervisor counts as alive,
/// and whether the child process is to be forgotten.
pub fn child_seen(state: ChildState) -> (r: (bool, bool))
    ensures
        r.0 == (state == ChildState::Running),
        r.1 == (state == ChildState::Exited),
{
    match state {
        ChildState::Running => (true, false),
        ChildState::Exited => (false, true),
        _ => (false, false),
    }
}

/// The identifiers in a list of sandboxes.
pub open spec fn ids_of(list: Seq<(Seq<char>, SandboxModel)>) -> Seq<Seq<char>> {
    list.map_values(|e: (Seq<char>, SandboxModel)| e.0)
}

/// A round of looks at the child processes that is under way.
pub struct Round {
    /// The sandbox whose child process is to be looked at.
    pub id: String,
    /// The sandboxes after it.
    pub later: Vec<String>,
    /// What watchers are to be told at the end of the round.
    pub events: Vec<WatchSandboxesEvent>,
}

impl Round {
    /// The sandboxes whose child processes are yet to be looked at.
    pub open spec fn ids(&self) -> Seq<Seq<char>> {
        seq![self.id@] + text::views(self.later@)
    }
}

/// What to do next in a round.
pub enum RoundStep {
    /// Look at the child process of a sandbox, drop it when [`child_seen`] says
    /// so, and ask whether the supervisor is connected.
    Look(Round),
    /// Tell the watchers.
    Tell(Vec<WatchSandboxesEvent>),
}

pub enum RoundStepView {
    Look { ids: Seq<Seq<char>>, events: Seq<WatchSandboxesEventView> },
    Tell(Seq<WatchSandboxesEventView>),
}

impl View for RoundStep {
    type V = RoundStepView;

    open spec fn view(&self) -> RoundStepView {
        match self {
            RoundStep::Look(round) => RoundStepView::Look {
                ids: round.ids(),
                events: compute::event_views(round.events@),
            },
            RoundStep::Tell(events) => RoundStepView::Tell(compute::event_views(events@)),
        }
    }
}

/// The step to the next of the given sandboxes.
pub open spec fn look_step(
    ids: Seq<Seq<char>>,
    events: Seq<WatchSandboxesEventView>,
) -> RoundStepView {
    if ids.len() == 0 {
        RoundStepView::Tell(events)
    } else {
        RoundStepView::Look { ids, events }
    }
}

fn next_look(ids: Vec<String>, events: Vec<WatchSandboxesEvent>) -> (r: RoundStep)
    ensures
        r@ == look_step(text::views(ids@), compute::event_views(events@)),
{
    if ids.len() == 0 {
        return RoundStep::Tell(events);
    }
    let ghost all = text::views(ids@);
    let mut later = ids;
    let id = later.remove(0);
    proof {
        assert(seq![id@] + text::views(later@) =~= all);
    }
    RoundStep::Look(Round { id, later, events })
}

/// The sandboxes and the next step after a look at the child process of the first
/// of the given sandboxes.
pub open spec fn after_one_look(
    m: Map<Seq<char>, SandboxModel>,
    ids: Seq<Seq<char>>,
    events: Seq<WatchSandboxesEventView>,
    child: ChildState,
    connected: bool,
) -> (Map<Seq<char>, SandboxModel>, RoundStepView) {
    let alive = child == ChildState::Running;
    (
        registry::with_running(m, ids[0], alive),
        look_step(
            ids.drop_first(),
            registry::with_event(
                events,
                registry::observed_event::<LocalSandboxState>(m, ids[0], alive, connected),
            ),
        ),
    )
}

/// How many looks a round still needs.
pub open spec fn looks_left(step: RoundStepView) -> nat {
    match step {
        RoundStepView::Look { ids, .. } => ids.len(),
        RoundStepView::Tell(_) => 0,
    }
}

/// The sandboxes at the end of a round, and what watchers are told then, when
/// each look finds what `seen` says and nothing else changes the sandboxes.
pub open spec fn run_round(
    m: Map<Seq<char>, SandboxModel>,
    step: RoundStepView,
    seen: spec_fn(Seq<char>) -> (ChildState, bool),
) -> (Map<Seq<char>, SandboxModel>, Seq<WatchSandboxesEventView>)
    decreases looks_left(step),
{
    match step {
        RoundStepView::Tell(events) => (m, events),
        RoundStepView::Look { ids, events } => if ids.len() == 0 {
            (m, events)
        } else {
            let (child, connected) = seen(ids[0]);
            let (m, next) = after_one_look(m, ids, events, child, connected);
            run_round(m, next, seen)
        },
    }
}

/// What is seen of each of the given sandboxes.
pub open spec fn looks_at(
    ids: Seq<Seq<char>>,
    seen: spec_fn(Seq<char>) -> (ChildState, bool),
) -> Seq<registry::Look> {
    ids.map_values(
        |id: Seq<char>|
            registry::Look { id, alive: seen(id).0 == ChildState::Running, connected: seen(id).1 },
    )
}

/// The error when the supervisor cannot be started.
pub fn spawn_error(error: &str) -> (r: Status)
    ensures
        r@ == registry::failure(StatusCode::Internal, "failed to spawn supervisor: "@ + error@),
{
    compute::status(
        StatusCode::Internal,
        "failed to spawn supervisor: ".to_owned().concat(error).as_str(),
    )
}

/// A process to start: its standard output and error go nowhere, and it outlives
/// the driver.
pub struct Launch {
    pub program: String,
    /// Variables, in the order in which they are set.
    pub env: Vec<(String, String)>,
}

// ---------------------------------------------------------------------------
// Driver
// ---------------------------------------------------------------------------

/// The local driver.
pub struct LocalComputeDriver {
    pub config: LocalComputeConfig,
    /// All managed sandboxes.
    pub sandboxes: Registry<LocalSandboxState>,
}

/// The settings and the sandboxes of a new driver, given whether the supervisor
/// binary is there.
pub open spec fn new_driver(config: LocalComputeConfigView, bin_exists: bool) -> Result<
    (LocalComputeConfigView, Map<Seq<char>, SandboxModel>),
    Seq<char>,
> {
    match config_check(config, bin_exists) {
        Ok(_) => Ok((config, Map::empty())),
        Err(m) => Err(m),
    }
}

/// The settings and the sandboxes of a driver that may have been refused.
pub open spec fn driver_outcome(r: Result<LocalComputeDriver, String>) -> Result<
    (LocalComputeConfigView, Map<Seq<char>, SandboxModel>),
    Seq<char>,
> {
    match r {
        Ok(d) => Ok((d.config@, d.sandboxes@)),
        Err(m) => Err(m@),
    }
}

/// What is to be done for a sandbox that was deleted.
pub struct Removal {
    /// End the child process of the sandbox with this identifier.
    pub child: String,
    /// Tell this to the watchers after that.
    pub event: Option<WatchSandboxesEvent>,
}

/// What is said of a new sandbox that another stands in the way of.
pub open spec fn room_check(
    list: Seq<(Seq<char>, SandboxModel)>,
    sandbox_id: Seq<char>,
) -> Result<(), StatusView> {
    match registry::occupant(list, sandbox_id) {
        Some(existing) => Err(
            registry::failure(
                StatusCode::FailedPrecondition,
                "local driver supports one sandbox per host; sandbox '"@ + existing
                    + "' already exists on this host"@,
            ),
        ),
        None => Ok(()),
    }
}

/// The answer to a request to validate a new sandbox, given whether the
/// supervisor binary is there.
pub open spec fn validate_answer(
    config: LocalComputeConfigView,
    list: Seq<(Seq<char>, SandboxModel)>,
    sandbox: Option<DriverSandboxView>,
    bin_exists: bool,
) -> Result<(), StatusView> {
    match sandbox {
        None => Err(registry::failure(StatusCode::InvalidArgument, "sandbox is required"@)),
        Some(s) => if !bin_exists {
            Err(
                registry::failure(
                    StatusCode::FailedPrecondition,
                    "supervisor binary not found: "@ + config.supervisor_bin,
                ),
            )
        } else {
            room_check(list, s.id)
        },
    }
}

/// The variables of the supervisor of a sandbox.
pub open spec fn supervisor_vars(config: LocalComputeConfigView, sandbox: DriverSandboxView) -> Seq<
    (Seq<char>, Seq<char>),
> {
    environment::process_vars(
        sandbox,
        config.log_level,
        config.grpc_endpoint,
        config.ssh_socket_path,
    )
}

/// What is known of a sandbox whose supervisor was started.
pub open spec fn created_model(sandbox: DriverSandboxView) -> SandboxModel {
    SandboxModel { sandbox, pid: None, running: true }
}

impl LocalComputeDriver {
    /// A driver without sandboxes, given whether the supervisor binary is there.
    pub fn with_binary(config: LocalComputeConfig, bin_exists: bool) -> (r: Result<Self, String>)
        ensures
            driver_outcome(r) == new_driver(config@, bin_exists),
    {
        match check_config(&config, bin_exists) {
            Ok(()) => Ok(LocalComputeDriver { config, sandboxes: Registry::new() }),
            Err(m) => Err(m),
        }
    }

    /// A driver without sandboxes. The settings have to be complete, and the
    /// supervisor binary has to exist.
    pub fn new(config: LocalComputeConfig) -> (r: Result<Self, String>)
        ensures
            exists|bin_exists: bool|
                platform::looked_for(config@.supervisor_bin, bin_exists) && driver_outcome(r)
                    == #[trigger] new_driver(config@, bin_exists),
    {
        let bin_exists = platform::look_for(config.supervisor_bin.as_str());
        LocalComputeDriver::with_binary(config, bin_exists)
    }

    /// The driver as a text for logs.
    pub fn debug_text(&self) -> (r: String)
        ensures
            r@ == "LocalComputeDriver { config: "@ + config_text(self.config@) + ", .. }"@,
    {
        "LocalComputeDriver { config: ".to_owned().concat(self.config.debug_text().as_str()).concat(
            ", .. }",
        )
    }

    /// The capabilities of the driver. It does not use images.
    pub fn capabilities(&self) -> (r: GetCapabilitiesResponse)
        ensures
            r.driver_name@ == "local"@,
            r.driver_version@ == compute::VERSION@,
            r.default_image@ == Seq::<char>::empty(),
            !r.supports_gpu,
            r.gpu_count == 0,
    {
        GetCapabilitiesResponse {
            driver_name: "local".to_owned(),
            driver_version: compute::VERSION.to_owned(),
            default_image: String::new(),
            supports_gpu: false,
            gpu_count: 0,
        }
    }

    /// Builds the environment variables that the supervisor needs.
    pub fn build_supervisor_env(&self, sandbox: &DriverSandbox) -> (r: Vec<(String, String)>)
        ensures
            text::pair_views(r@) == supervisor_vars(self.config@, sandbox@),
    {
        environment::process_env(
            sandbox,
            self.config.log_level.as_str(),
            self.config.grpc_endpoint.as_str(),
            self.config.ssh_socket_path.as_str(),
        )
    }

    /// The process that is started for a sandbox.
    pub fn spawn_supervisor(&self, sandbox: &DriverSandbox) -> (r: Launch)
        ensures
            r.program@ == self.config@.supervisor_bin,
            text::pair_views(r.env@) == supervisor_vars(self.config@, sandbox@),
    {
        Launch {
            program: self.config.supervisor_bin.clone(),
            env: self.build_supervisor_env(sandbox),
        }
    }

    /// Takes a snapshot of a sandbox for the gateway.
    pub fn build_snapshot(state: &LocalSandboxState, supervisor_ready: bool) -> (r: DriverSandbox)
        ensures
            r@ == local_shown(state.model(), supervisor_ready),
    {
        registry::process_snapshot(
            &state.sandbox,
            String::new(),
            "Process running".to_owned(),
            state.running,
            supervisor_ready,
        )
    }

    /// Validates a new sandbox, given whether the supervisor binary is there.
    pub fn validate_with(&self, sandbox: Option<&DriverSandbox>, bin_exists: bool) -> (r: Result<
        (),
        Status,
    >)
        ensures
            registry::status_outcome(r) == validate_answer(
                self.config@,
                self.sandboxes.list(),
                registry::optional_view(sandbox),
                bin_exists,
            ),
    {
        let sandbox = match sandbox {
            Some(sandbox) => sandbox,
            None => return Err(
                compute::status(StatusCode::InvalidArgument, "sandbox is required"),
            ),
        };
        if !bin_exists {
            let message = "supervisor binary not found: ".to_owned().concat(
                self.config.supervisor_bin.as_str(),
            );
            return Err(compute::status(StatusCode::FailedPrecondition, message.as_str()));
        }
        match registry::find_occupant(&self.sandboxes, sandbox.id.as_str()) {
            Some(existing) => {
                let message = "local driver supports one sandbox per host; sandbox '".to_owned().concat(
                existing).concat("' already exists on this host");
                Err(compute::status(StatusCode::FailedPrecondition, message.as_str()))
            },
            None => Ok(()),
        }
    }

    /// Validates a new sandbox.
    pub fn validate_sandbox_create(&self, sandbox: Option<&DriverSandbox>) -> (r: Result<
        (),
        Status,
    >)
        ensures
            exists|bin_exists: bool|
                platform::looked_for(self.config@.supervisor_bin, bin_exists)
                    && registry::status_outcome(r) == #[trigger] validate_answer(
                    self.config@,
                    self.sandboxes.list(),
                    registry::optional_view(sandbox),
                    bin_exists,
                ),
    {
        let bin_exists = platform::look_for(self.config.supervisor_bin.as_str());
        self.validate_with(sandbox, bin_exists)
    }

    /// Answers a request for one sandbox.
    pub fn get_sandbox<R: SupervisorReadiness>(
        &self,
        sandbox_id: &str,
        sandbox_name: &str,
        readiness: &R,
    ) -> (r: Result<DriverSandbox, Status>)
        ensures
            registry::get_answered(
                self.sandboxes,
                sandbox_id@,
                sandbox_name@,
                readiness,
                registry::sandbox_outcome(r),
            ),
    {
        registry::get_snapshot(&self.sandboxes, sandbox_id, sandbox_name, readiness)
    }

    /// Lists all sandboxes in the order of their identifiers.
    pub fn list_sandboxes<R: SupervisorReadiness>(&self, readiness: &R) -> (r: Vec<DriverSandbox>)
        ensures
            exists|connected: Seq<bool>|
                registry::all_said(readiness, self.sandboxes.list(), connected)
                    && compute::sandbox_views(r@) == #[trigger] registry::all_shown::<
                    LocalSandboxState,
                >(self.sandboxes.list(), connected),
    {
        registry::snapshots(&self.sandboxes, readiness)
    }

    /// The first step of the creation of a sandbox: its identifier has to be
    /// free. The process to start comes back; [`LocalComputeDriver::created`] is
    /// the step after that.
    pub fn create_sandbox(&self, sandbox: Option<&DriverSandbox>) -> (r: Result<Launch, Status>)
        ensures
            match registry::create_check(self.sandboxes@, registry::optional_view(sandbox)) {
                Err(e) => r matches Err(s) && s@ == e,
                Ok(_) => r matches Ok(launch) && launch.program@ == self.config@.supervisor_bin
                    && text::pair_views(launch.env@) == supervisor_vars(
                    self.config@,
                    registry::optional_view(sandbox)->0,
                ),
            },
    {
        match sandbox {
            None => Err(compute::status(StatusCode::InvalidArgument, "sandbox is required")),
            Some(s) => match registry::check_create(&self.sandboxes, Some(s)) {
                Err(e) => Err(e),
                Ok(()) => Ok(self.spawn_supervisor(s)),
            },
        }
    }

    /// Notes a sandbox whose supervisor was started, and returns what watchers
    /// are told.
    pub fn created(&mut self, sandbox: DriverSandbox) -> (r: WatchSandboxesEvent)
        ensures
            final(self).config == old(self).config,
            final(self).sandboxes@ == old(self).sandboxes@.insert(
                sandbox@.id,
                created_model(sandbox@),
            ),
            r@ == WatchSandboxesEventView::Sandbox(local_shown(created_model(sandbox@), false)),
    {
        registry::register(&mut self.sandboxes, LocalSandboxState { sandbox, running: true })
    }

    /// Stops a sandbox: its supervisor counts as not running, and the identifier
    /// whose child process is to be ended is returned. A sandbox that is not
    /// there is stopped already.
    pub fn stop_sandbox(&mut self, sandbox_id: &str, sandbox_name: &str) -> (r: Result<
        Option<String>,
        Status,
    >)
        ensures
            final(self).config == old(self).config,
            match registry::identifier_check(sandbox_id@, sandbox_name@) {
                Err(e) => r matches Err(s) && s@ == e && final(self).sandboxes@ == old(
                    self,
                ).sandboxes@,
                Ok(_) => {
                    let meant = registry::meant(
                        old(self).sandboxes.list(),
                        sandbox_id@,
                        sandbox_name@,
                    );
                    &&& r matches Ok(child) && text::optional(child) == meant
                    &&& final(self).sandboxes@ == (match meant {
                        Some(id) => registry::with_running(old(self).sandboxes@, id, false),
                        None => old(self).sandboxes@,
                    })
                },
            },
    {
        if let Err(e) = require_sandbox_identifier(sandbox_id, sandbox_name) {
            return Err(e);
        }
        match find_sandbox_key(&self.sandboxes, sandbox_id, sandbox_name) {
            Some(id) => {
                self.sandboxes.set_running(id.as_str(), false);
                Ok(Some(id))
            },
            None => Ok(None),
        }
    }

    /// Deletes a sandbox: it is forgotten at once, and what is to be done for
    /// that is returned. `None` says that there was nothing to delete.
    pub fn delete_sandbox(&mut self, sandbox_id: &str, sandbox_name: &str) -> (r: Result<
        Option<Removal>,
        Status,
    >)
        ensures
            final(self).config == old(self).config,
            match registry::identifier_check(sandbox_id@, sandbox_name@) {
                Err(e) => r matches Err(s) && s@ == e && final(self).sandboxes@ == old(
                    self,
                ).sandboxes@,
                Ok(_) => match registry::meant(
                    old(self).sandboxes.list(),
                    sandbox_id@,
                    sandbox_name@,
                ) {
                    Some(id) => r matches Ok(Some(removal)) && removal.child@ == id
                        && compute::event_view(removal.event) == registry::deletion_event(
                        old(self).sandboxes@[id].sandbox.id,
                    ) && final(self).sandboxes@ == old(self).sandboxes@.remove(id),
                    None => r matches Ok(None) && final(self).sandboxes@ == old(self).sandboxes@,
                },
            },
    {
        if let Err(e) = require_sandbox_identifier(sandbox_id, sandbox_name) {
            return Err(e);
        }
        match find_sandbox_key(&self.sandboxes, sandbox_id, sandbox_name) {
            None => Ok(None),
            Some(id) => match self.sandboxes.remove(id.as_str()) {
                None => Ok(None),
                Some(state) => {
                    let event = registry::deleted(&state);
                    Ok(Some(Removal { child: id, event }))
                },
            },
        }
    }

    /// The first step of a round of looks at the child processes: that of every
    /// sandbox is looked at, in the order of the identifiers.
    pub fn start_round(&self) -> (r: RoundStep)
        ensures
            r@ == look_step(ids_of(self.sandboxes.list()), Seq::empty()),
            string_map::ascending(self.sandboxes.list()),
            self.sandboxes@ == string_map::map_of(self.sandboxes.list()),
    {
        let events: Vec<WatchSandboxesEvent> = Vec::new();
        proof {
            assert(compute::event_views(events@) =~= Seq::empty());
        }
        next_look(self.poll_targets(), events)
    }

    /// The step of a round after a look at a child process: notes what was found,
    /// and goes on to the next sandbox or tells the watchers.
    pub fn after_look(&mut self, round: Round, child: ChildState, connected: bool) -> (r: RoundStep)
        ensures
            final(self).config == old(self).config,
            (final(self).sandboxes@, r@) == after_one_look(
                old(self).sandboxes@,
                round.ids(),
                compute::event_views(round.events@),
                child,
                connected,
            ),
    {
        let Round { id, later, events } = round;
        let ghost told = compute::event_views(events@);
        let mut events = events;
        proof {
            assert((seq![id@] + text::views(later@)).drop_first() =~= text::views(later@));
        }
        if let Some(event) = self.poll_result(id.as_str(), child, connected) {
            events.push(event);
            proof {
                assert(compute::event_views(events@) =~= told.push(event@));
            }
        }
        next_look(later, events)
    }

    /// The identifiers of the sandboxes whose child processes are looked at: all
    /// of them, in order.
    pub fn poll_targets(&self) -> (r: Vec<String>)
        ensures
            text::views(r@) == ids_of(self.sandboxes.list()),
            string_map::ascending(self.sandboxes.list()),
            self.sandboxes@ == string_map::map_of(self.sandboxes.list()),
    {
        let n: usize = self.sandboxes.len();
        let mut r: Vec<String> = Vec::new();
        let mut i: usize = 0;
        while i < n
            invariant
                i <= n,
                n == self.sandboxes.list().len(),
                r.len() == i,
                forall|j: int| 0 <= j < i ==> #[trigger] r@[j]@ == self.sandboxes.list()[j].0,
            decreases n - i,
        {
            r.push(self.sandboxes.id_at(i).to_owned());
            i = i + 1;
        }
        proof {
            assert(text::views(r@) =~= ids_of(self.sandboxes.list()));
        }
        r
    }

    /// Notes what a look at a child process found, and says what watchers are
    /// told.
    pub fn poll_result(&mut self, sandbox_id: &str, child: ChildState, connected: bool) -> (r:
        Option<WatchSandboxesEvent>)
        ensures
            final(self).config == old(self).config,
            final(self).sandboxes@ == registry::with_running(
                old(self).sandboxes@,
                sandbox_id@,
                child == ChildState::Running,
            ),
            compute::event_view(r) == registry::observed_event::<LocalSandboxState>(
                old(self).sandboxes@,
                sandbox_id@,
                child == ChildState::Running,
                connected,
            ),
    {
        let (alive, _) = child_seen(child);
        registry::observe(&mut self.sandboxes, sandbox_id, alive, connected)
    }

    /// The first step of a watch: subscribe to later events.
    pub fn watch_sandboxes(&self) -> (r: WatchStep)
        ensures
            r@ == registry::WatchStepView::Subscribe,
    {
        registry::start_watch()
    }

    /// The step of a watch after its subscription: tell of every sandbox.
    pub fn after_subscription<R: SupervisorReadiness>(
        &self,
        run: Subscribing,
        readiness: &R,
    ) -> (r: WatchStep)
        ensures
            registry::watch_answered(self.sandboxes, readiness, r@),
    {
        registry::after_subscription(run, &self.sandboxes, readiness)
    }
}

/// The steps of a round are its looks, one after the other.
pub proof fn round_takes_every_look(
    m: Map<Seq<char>, SandboxModel>,
    done: Seq<registry::Look>,
    ids: Seq<Seq<char>>,
    seen: spec_fn(Seq<char>) -> (ChildState, bool),
)
    ensures
        run_round(
            registry::after_looks(m, done),
            look_step(ids, registry::look_events::<LocalSandboxState>(m, done)),
            seen,
        ) == (
            registry::after_looks(m, done + looks_at(ids, seen)),
            registry::look_events::<LocalSandboxState>(m, done + looks_at(ids, seen)),
        ),
    decreases ids.len(),
{
    let looks = looks_at(ids, seen);
    if ids.len() == 0 {
        assert(done + looks =~= done);
    } else {
        let more = done.push(looks[0]);
        assert(more.drop_last() =~= done);
        assert(more + looks_at(ids.drop_first(), seen) =~= done + looks);
        round_takes_every_look(m, more, ids.drop_first(), seen);
    }
}

/// A whole round looks at the child process of every sandbox. Each sandbox counts
/// as running at its end just when its own child process was seen to run; no
/// sandbox comes or goes, and nothing else of them changes. Watchers are told of
/// each in the order of the identifiers, when it has started or stopped running or
/// is connected.
pub proof fn round_covers_every_sandbox(
    list: Seq<(Seq<char>, SandboxModel)>,
    seen: spec_fn(Seq<char>) -> (ChildState, bool),
)
    requires
        string_map::ascending(list),
    ensures
        ({
            let m = string_map::map_of(list);
            let (after, events) = run_round(m, look_step(ids_of(list), Seq::empty()), seen);
            &&& after.dom() == m.dom()
            &&& forall|i: int|
                0 <= i < list.len() ==> after[(#[trigger] list[i]).0] == (SandboxModel {
                    running: seen(list[i].0).0 == ChildState::Running,
                    ..list[i].1
                })
            &&& events == registry::events_of_each::<LocalSandboxState>(
                m,
                looks_at(ids_of(list), seen),
            )
        }),
{
    let m = string_map::map_of(list);
    let looks = looks_at(ids_of(list), seen);
    let none = Seq::<registry::Look>::empty();
    round_takes_every_look(m, none, ids_of(list), seen);
    assert(none + looks =~= looks);
    assert forall|i: int, j: int| 0 <= i < j < looks.len() implies (#[trigger] looks[i]).id != (
    #[trigger] looks[j]).id by {
        string_map::ascending_lookup(list, i);
        assert(list[j].0 == looks[j].id);
    }
    registry::round_notes_every_look(m, looks);
    registry::round_tells_of_every_look::<LocalSandboxState>(m, looks);
    assert forall|i: int| 0 <= i < list.len() implies registry::after_looks(m, looks)[(
    #[trigger] list[i]).0] == (SandboxModel {
        running: seen(list[i].0).0 == ChildState::Running,
        ..list[i].1
    }) by {
        string_map::ascending_lookup(list, i);
        assert(looks[i].id == list[i].0);
    }
}

/// Sandboxes are listed in the order of their identifiers.
pub proof fn listed_by_identifier(
    list: Seq<(Seq<char>, SandboxModel)>,
    connected: Seq<bool>,
    i: int,
    j: int,
)
    requires
        string_map::ascending(list),
        registry::keyed_by_id(string_map::map_of(list)),
        0 <= i < j < list.len(),
    ensures
        text::text_less(
            registry::all_shown::<LocalSandboxState>(list, connected)[i].id,
            registry::all_shown::<LocalSandboxState>(list, connected)[j].id,
        ),
{
    string_map::ascending_lookup(list, i);
    string_map::ascending_lookup(list, j);
}

} // verus!
