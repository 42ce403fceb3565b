//! The LXD compute driver.
//!
//! What the driver does is written as steps: a function hands out the request
//! to send, and another takes the answer and says what comes next.
use vstd::prelude::*;
use vstd::string::*;
use crate::compute;
use crate::compute::{
    ComputeDriverError, ComputeDriverErrorView, DriverSandbox, DriverSandboxSpecView,
    DriverSandboxView, GetCapabilitiesResponse,
};
use crate::environment;
use crate::lxd::client;
use crate::lxd::client::{
    Instance, LxdApiError, LxdApiErrorView, LxdClient, LxdRequest, LxdRequestView, ProjectStep,
    ProjectStepView,
};
use crate::lxd::config::{LxdComputeConfig, LxdComputeConfigView};
use crate::lxd::instance;
use crate::lxd::watcher;
use crate::lxd::watcher::WatchStep;
use crate::platform;
use crate::shell;
use crate::text;

verus! {

/// Where the startup script is put in an instance.
pub const STARTUP_SCRIPT_PATH: &'static str = "/opt/openshell/bin/start.sh";

/// File mode of the startup script.
pub const STARTUP_SCRIPT_MODE: &'static str = "0755";

/// Device whose presence shows that the host has a GPU.
pub const GPU_DEVICE_PATH: &'static str = "/dev/nvidia0";

// ---------------------------------------------------------------------------
// Errors
// ---------------------------------------------------------------------------

/// What the gateway is told of an error of the LXD API.
pub open spec fn driver_error(e: LxdApiErrorView) -> ComputeDriverErrorView {
    match e {
        LxdApiErrorView::Conflict(_) => ComputeDriverErrorView::AlreadyExists,
        LxdApiErrorView::NotFound(m) => ComputeDriverErrorView::Message("not found: "@ + m),
        other => ComputeDriverErrorView::Message(client::error_text(other)),
    }
}

/// Says what the gateway is told of an error of the LXD API.
pub fn compute_error(value: LxdApiError) -> (r: ComputeDriverError)
    ensures
        r@ == driver_error(value@),
{
    match value {
        LxdApiError::Conflict(_) => ComputeDriverError::AlreadyExists,
        LxdApiError::NotFound(m) => ComputeDriverError::Message(
            "not found: ".to_owned().concat(m.as_str()),
        ),
        other => ComputeDriverError::Message(other.text()),
    }
}

impl From<LxdApiError> for ComputeDriverError {
    fn from(value: LxdApiError) -> (r: Self)
        ensures
            r@ == driver_error(value@),
    {
        compute_error(value)
    }
}

/// The conversion is specified by its own contract, over the views of the two
/// errors.
impl vstd::std_specs::convert::FromSpecImpl<LxdApiError> for ComputeDriverError {
    open spec fn obeys_from_spec() -> bool {
        false
    }

    open spec fn from_spec(value: LxdApiError) -> Self {
        arbitrary()
    }
}

/// The view of a result whose error is a driver error.
pub open spec fn driver_outcome<T>(r: Result<T, ComputeDriverError>) -> Result<
    T,
    ComputeDriverErrorView,
> {
    match r {
        Ok(t) => Ok(t),
        Err(e) => Err(e@),
    }
}

/// The view of a request that may have been refused.
pub open spec fn call_outcome(r: Result<LxdRequest, ComputeDriverError>) -> Result<
    LxdRequestView,
    ComputeDriverErrorView,
> {
    match r {
        Ok(q) => Ok(q@),
        Err(e) => Err(e@),
    }
}

// ---------------------------------------------------------------------------
// Names
// ---------------------------------------------------------------------------

/// The instance name of a sandbox, when it is safe in the path of a URL.
pub open spec fn validated_name(sandbox_name: Seq<char>) -> Result<
    Seq<char>,
    ComputeDriverErrorView,
> {
    match client::name_check(instance::name_of_instance(sandbox_name)) {
        Ok(_) => Ok(instance::name_of_instance(sandbox_name)),
        Err(e) => Err(ComputeDriverErrorView::Precondition(client::error_text(e))),
    }
}

/// Constructs and validates an instance name from a sandbox name.
pub fn validated_instance_name(sandbox_name: &str) -> (r: Result<String, ComputeDriverError>)
    ensures
        (match r {
            Ok(name) => Ok(name@),
            Err(e) => Err(e@),
        }) == validated_name(sandbox_name@),
{
    let name = instance::instance_name(sandbox_name);
    match client::validate_name(name.as_str()) {
        Ok(()) => Ok(name),
        Err(e) => Err(ComputeDriverError::Precondition(e.text())),
    }
}

// ---------------------------------------------------------------------------
// Startup script
// ---------------------------------------------------------------------------

/// The line that sets a variable.
pub open spec fn export_line(key: Seq<char>, value: Seq<char>) -> Seq<char> {
    "export "@ + key + "='"@ + shell::shell_escaped(value) + "'\n"@
}

/// The lines that set the variables, one after the other.
pub open spec fn export_lines(env: Seq<(Seq<char>, Seq<char>)>) -> Seq<char>
    decreases env.len(),
{
    if env.len() == 0 {
        Seq::empty()
    } else {
        export_lines(env.drop_last()) + export_line(env.last().0, env.last().1)
    }
}

/// The script that sets the environment and launches the supervisor.
pub open spec fn startup_script(env: Seq<(Seq<char>, Seq<char>)>) -> Seq<char> {
    "#!/bin/sh\nset -e\nmkdir -p /opt/openshell/bin /run/openshell /sandbox\n"@ + export_lines(env)
        + "exec /opt/openshell/bin/openshell-sandbox\n"@
}

/// Builds a shell script that sets environment variables and launches the
/// supervisor binary.
pub fn build_startup_script(env: &[(String, String)]) -> (r: String)
    ensures
        r@ == startup_script(text::pair_views(env@)),
{
    let mut script =
        "#!/bin/sh\nset -e\nmkdir -p /opt/openshell/bin /run/openshell /sandbox\n".to_owned();
    let ghost header = script@;
    let ghost all = text::pair_views(env@);
    let mut i: usize = 0;
    proof {
        assert(all.take(0) =~= Seq::empty());
        assert(script@ =~= header + export_lines(all.take(0)));
    }
    while i < env.len()
        invariant
            i <= env.len(),
            all == text::pair_views(env@),
            script@ == header + export_lines(all.take(i as int)),
        decreases env.len() - i,
    {
        let line = "export ".to_owned().concat(env[i].0.as_str()).concat("='").concat(
            shell::shell_escape(env[i].1.as_str()).as_str(),
        ).concat("'\n");
        script.append(line.as_str());
        proof {
            assert(all.take(i + 1).drop_last() =~= all.take(i as int));
            assert(script@ =~= header + export_lines(all.take(i + 1)));
        }
        i = i + 1;
    }
    proof {
        assert(all.take(all.len() as int) =~= all);
    }
    script.append("exec /opt/openshell/bin/openshell-sandbox\n");
    script
}

// ---------------------------------------------------------------------------
// Driver
// ---------------------------------------------------------------------------

/// The endpoint to which sandboxes connect back: the one that is configured, and
/// otherwise the gateway port at the usual bridge address of the host.
pub open spec fn endpoint_of(config: LxdComputeConfigView) -> Seq<char> {
    if config.grpc_endpoint.len() == 0 {
        "http://10.0.0.1:"@ + text::decimal(config.gateway_port as nat)
    } else {
        config.grpc_endpoint
    }
}

/// The settings with the endpoint filled in.
pub open spec fn with_endpoint(config: LxdComputeConfigView) -> LxdComputeConfigView {
    LxdComputeConfigView { grpc_endpoint: endpoint_of(config), ..config }
}

/// Fills in the endpoint to which sandboxes connect back.
pub fn detect_grpc_endpoint(config: LxdComputeConfig) -> (r: LxdComputeConfig)
    ensures
        r@ == with_endpoint(config@),
{
    let mut config = config;
    if config.grpc_endpoint.as_str().is_empty() {
        config.grpc_endpoint = "http://10.0.0.1:".to_owned().concat(
            text::u64_text(config.gateway_port as u64).as_str(),
        );
    }
    config
}

/// LXD compute driver that manages sandbox instances.
pub struct LxdComputeDriver {
    pub client: LxdClient,
    pub config: LxdComputeConfig,
}

pub struct LxdComputeDriverView {
    pub socket_path: Seq<char>,
    pub project: Seq<char>,
    pub config: LxdComputeConfigView,
}

impl View for LxdComputeDriver {
    type V = LxdComputeDriverView;

    open spec fn view(&self) -> LxdComputeDriverView {
        LxdComputeDriverView {
            socket_path: self.client.socket_path@,
            project: self.client.project@,
            config: self.config@,
        }
    }
}

impl Clone for LxdComputeDriver {
    fn clone(&self) -> (r: Self)
        ensures
            r@ == self@,
    {
        LxdComputeDriver { client: self.client.clone(), config: self.config.clone() }
    }
}

/// The driver with the given settings: its client uses the socket and the
/// project that they name.
pub open spec fn driver_for(config: LxdComputeConfigView) -> LxdComputeDriverView {
    LxdComputeDriverView { socket_path: config.socket_path, project: config.project, config }
}

/// How far the connection to the daemon has come.
#[derive(Clone, Copy, Debug, PartialEq, Eq, Structural)]
pub enum ConnectStage {
    /// The daemon was asked whether it answers.
    Ping,
    /// The daemon was asked for the server information.
    Info,
    /// The project was looked up.
    FindProject,
    /// The project is being created.
    MakeProject,
}

/// What to do next to connect to the daemon.
pub enum ConnectStep {
    /// Send this request, and come back with the answer.
    Call(ConnectStage, LxdRequest),
    /// The driver is ready, or could not be made.
    Done(Result<LxdComputeDriver, LxdApiError>),
}

pub enum ConnectStepView {
    Call(ConnectStage, LxdRequestView),
    Done(Result<LxdComputeDriverView, LxdApiErrorView>),
}

impl View for ConnectStep {
    type V = ConnectStepView;

    open spec fn view(&self) -> ConnectStepView {
        match self {
            ConnectStep::Call(stage, q) => ConnectStepView::Call(*stage, q@),
            ConnectStep::Done(Ok(d)) => ConnectStepView::Done(Ok(d@)),
            ConnectStep::Done(Err(e)) => ConnectStepView::Done(Err(e@)),
        }
    }
}

/// The step after an answer while connecting.
pub open spec fn connect_next(
    config: LxdComputeConfigView,
    stage: ConnectStage,
    answer: Result<(), LxdApiErrorView>,
) -> ConnectStepView {
    let ready = ConnectStepView::Done(Ok(driver_for(with_endpoint(config))));
    match stage {
        ConnectStage::Ping => match answer {
            Ok(_) => ConnectStepView::Call(ConnectStage::Info, client::info_call()),
            Err(e) => ConnectStepView::Done(Err(e)),
        },
        ConnectStage::Info => match answer {
            Ok(_) => if client::default_project(config.project) {
                ready
            } else {
                ConnectStepView::Call(
                    ConnectStage::FindProject,
                    client::find_project_call(config.project),
                )
            },
            Err(e) => ConnectStepView::Done(
                Err(
                    LxdApiErrorView::Connection(
                        "failed to query LXD server info: "@ + client::error_text(e),
                    ),
                ),
            ),
        },
        ConnectStage::FindProject => match answer {
            Ok(_) => ready,
            Err(LxdApiErrorView::NotFound(_)) => ConnectStepView::Call(
                ConnectStage::MakeProject,
                client::make_project_call(config.project),
            ),
            Err(e) => ConnectStepView::Done(Err(e)),
        },
        ConnectStage::MakeProject => match answer {
            Ok(_) => ready,
            Err(LxdApiErrorView::Conflict(_)) => ready,
            Err(e) => ConnectStepView::Done(Err(e)),
        },
    }
}

/// The step that an answer about the project leads to.
fn project_step(config: &LxdComputeConfig, step: ProjectStep) -> (r: ConnectStep)
    ensures
        r@ == (match step@ {
            ProjectStepView::Lookup(q) => ConnectStepView::Call(ConnectStage::FindProject, q),
            ProjectStepView::Create(q) => ConnectStepView::Call(ConnectStage::MakeProject, q),
            ProjectStepView::Done(Ok(_)) => ConnectStepView::Done(
                Ok(driver_for(with_endpoint(config@))),
            ),
            ProjectStepView::Done(Err(e)) => ConnectStepView::Done(Err(e)),
        }),
{
    match step {
        ProjectStep::Lookup(q) => ConnectStep::Call(ConnectStage::FindProject, q),
        ProjectStep::Create(q) => ConnectStep::Call(ConnectStage::MakeProject, q),
        ProjectStep::Done(Ok(())) => ConnectStep::Done(
            Ok(LxdComputeDriver::with_config(detect_grpc_endpoint(config.clone()))),
        ),
        ProjectStep::Done(Err(e)) => ConnectStep::Done(Err(e)),
    }
}

// ---------------------------------------------------------------------------
// Environment of the supervisor
// ---------------------------------------------------------------------------

/// The variables that the supervisor needs.
pub open spec fn required_vars(
    sandbox: DriverSandboxView,
    config: LxdComputeConfigView,
    image: Seq<char>,
) -> Seq<(Seq<char>, Seq<char>)> {
    seq![
        ("OPENSHELL_SANDBOX"@, sandbox.name),
        ("OPENSHELL_SANDBOX_ID"@, sandbox.id),
        ("OPENSHELL_ENDPOINT"@, config.grpc_endpoint),
        ("OPENSHELL_SSH_SOCKET_PATH"@, config.sandbox_ssh_socket_path),
        ("OPENSHELL_SSH_LISTEN_ADDR"@, config.ssh_listen_addr),
        ("OPENSHELL_SSH_HANDSHAKE_SECRET"@, config.ssh_handshake_secret),
        ("OPENSHELL_SSH_HANDSHAKE_SKEW_SECS"@, text::decimal(config.ssh_handshake_skew_secs as nat)),
        ("OPENSHELL_CONTAINER_IMAGE"@, image),
        ("OPENSHELL_SANDBOX_COMMAND"@, "sleep infinity"@),
    ]
}

/// The variables that the user asks for: the log level, those of the
/// specification and those of the template, each in the order of the names.
pub open spec fn user_vars(spec: Option<DriverSandboxSpecView>) -> Seq<(Seq<char>, Seq<char>)> {
    match spec {
        None => Seq::empty(),
        Some(s) => {
            let level = if s.log_level.len() > 0 {
                seq![("OPENSHELL_LOG_LEVEL"@, s.log_level)]
            } else {
                Seq::empty()
            };
            level + s.environment + (match s.template {
                Some(t) => t.environment,
                None => Seq::empty(),
            })
        },
    }
}

/// The variables that the startup script sets, in order.
pub open spec fn supervisor_vars(
    sandbox: DriverSandboxView,
    config: LxdComputeConfigView,
    image: Seq<char>,
) -> Seq<(Seq<char>, Seq<char>)> {
    required_vars(sandbox, config, image) + user_vars(sandbox.spec)
}

// ---------------------------------------------------------------------------
// Creation
// ---------------------------------------------------------------------------

/// How far the creation of a sandbox has come.
pub enum CreateStage {
    /// The instance is being created.
    Create,
    /// The instance is being started.
    Start,
    /// The startup script is being pushed.
    Push,
    /// The startup script is being run.
    Exec,
    /// Something failed; the instance is being stopped.
    ForceStop(ComputeDriverError),
    /// Something failed; the instance is being deleted.
    Delete(ComputeDriverError),
}

pub enum CreateStageView {
    Create,
    Start,
    Push,
    Exec,
    ForceStop(ComputeDriverErrorView),
    Delete(ComputeDriverErrorView),
}

impl View for CreateStage {
    type V = CreateStageView;

    open spec fn view(&self) -> CreateStageView {
        match self {
            CreateStage::Create => CreateStageView::Create,
            CreateStage::Start => CreateStageView::Start,
            CreateStage::Push => CreateStageView::Push,
            CreateStage::Exec => CreateStageView::Exec,
            CreateStage::ForceStop(e) => CreateStageView::ForceStop(e@),
            CreateStage::Delete(e) => CreateStageView::Delete(e@),
        }
    }
}

/// A creation under way. Its instance name is valid.
pub struct SandboxCreation {
    name: String,
    script: String,
    stage: CreateStage,
}

pub struct SandboxCreationView {
    pub name: Seq<char>,
    pub script: Seq<char>,
    pub stage: CreateStageView,
}

impl View for SandboxCreation {
    type V = SandboxCreationView;

    closed spec fn view(&self) -> SandboxCreationView {
        SandboxCreationView { name: self.name@, script: self.script@, stage: self.stage@ }
    }
}

impl SandboxCreation {
    #[verifier::type_invariant]
    spec fn well_formed(&self) -> bool {
        client::valid_name(self.name@)
    }

    /// Whether the answer to the request that is under way has no body of its
    /// own to wait for: pushing a file completes at once.
    pub fn is_push(&self) -> (r: bool)
        ensures
            r == (self@.stage is Push),
    {
        match &self.stage {
            CreateStage::Push => true,
            _ => false,
        }
    }
}

/// What to do next to create a sandbox.
pub enum CreateStep {
    /// Send this request, and come back with the answer.
    Call(SandboxCreation, LxdRequest),
    /// The creation is over.
    Done(Result<(), ComputeDriverError>),
}

pub enum CreateStepView {
    Call(SandboxCreationView, LxdRequestView),
    Done(Result<(), ComputeDriverErrorView>),
}

impl View for CreateStep {
    type V = CreateStepView;

    open spec fn view(&self) -> CreateStepView {
        match self {
            CreateStep::Call(run, q) => CreateStepView::Call(run@, q@),
            CreateStep::Done(r) => CreateStepView::Done(driver_outcome(*r)),
        }
    }
}

/// The request of a stage after the first.
pub open spec fn stage_call(
    project: Seq<char>,
    name: Seq<char>,
    script: Seq<char>,
    stage: CreateStageView,
) -> LxdRequestView {
    match stage {
        CreateStageView::Create | CreateStageView::Start => client::start_call(name, project),
        CreateStageView::Push => client::push_request(
            name,
            STARTUP_SCRIPT_PATH@,
            vstd::utf8::encode_utf8(script),
            STARTUP_SCRIPT_MODE@,
            project,
        ),
        CreateStageView::Exec => client::exec_call(
            name,
            seq!["/bin/sh"@, STARTUP_SCRIPT_PATH@],
            project,
        ),
        CreateStageView::ForceStop(_) => client::force_stop_call(name, project),
        CreateStageView::Delete(_) => client::delete_call(name, project),
    }
}

/// What follows a stage, by the answer to its request: the next stage, or the
/// end. An instance that was created but cannot be brought up is deleted again,
/// and stopped before that once it has been started.
pub open spec fn stage_after(
    stage: CreateStageView,
    answer: Result<(), LxdApiErrorView>,
) -> Result<CreateStageView, Result<(), ComputeDriverErrorView>> {
    match (stage, answer) {
        (CreateStageView::Create, Ok(_)) => Ok(CreateStageView::Start),
        (CreateStageView::Create, Err(e)) => Err(Err(driver_error(e))),
        (CreateStageView::Start, Ok(_)) => Ok(CreateStageView::Push),
        (CreateStageView::Start, Err(e)) => Ok(CreateStageView::Delete(driver_error(e))),
        (CreateStageView::Push, Ok(_)) => Ok(CreateStageView::Exec),
        (CreateStageView::Push, Err(e)) => Ok(CreateStageView::ForceStop(driver_error(e))),
        (CreateStageView::Exec, Ok(_)) => Err(Ok(())),
        (CreateStageView::Exec, Err(e)) => Ok(CreateStageView::ForceStop(driver_error(e))),
        (CreateStageView::ForceStop(e), _) => Ok(CreateStageView::Delete(e)),
        (CreateStageView::Delete(e), _) => Err(Err(e)),
    }
}

/// The step after an answer while creating.
pub open spec fn create_next(
    project: Seq<char>,
    run: SandboxCreationView,
    answer: Result<(), LxdApiErrorView>,
) -> CreateStepView {
    match stage_after(run.stage, answer) {
        Ok(stage) => CreateStepView::Call(
            SandboxCreationView { stage, ..run },
            stage_call(project, run.name, run.script, stage),
        ),
        Err(r) => CreateStepView::Done(r),
    }
}

/// The first step of the creation of a sandbox.
pub open spec fn create_start(
    driver: LxdComputeDriverView,
    sandbox: DriverSandboxView,
) -> CreateStepView {
    let image = instance::image_of(sandbox, driver.config.default_image);
    if sandbox.name.len() == 0 {
        CreateStepView::Done(
            Err(ComputeDriverErrorView::Precondition("sandbox name is required"@)),
        )
    } else if sandbox.id.len() == 0 {
        CreateStepView::Done(Err(ComputeDriverErrorView::Precondition("sandbox id is required"@)))
    } else {
        match validated_name(sandbox.name) {
            Err(e) => CreateStepView::Done(Err(e)),
            Ok(name) => if image.len() == 0 {
                CreateStepView::Done(
                    Err(
                        ComputeDriverErrorView::Precondition(
                            "no sandbox image configured: set --sandbox-image on the server or provide an image in the sandbox template"@,
                        ),
                    ),
                )
            } else {
                CreateStepView::Call(
                    SandboxCreationView {
                        name,
                        script: startup_script(supervisor_vars(sandbox, driver.config, image)),
                        stage: CreateStageView::Create,
                    },
                    client::create_call(
                        instance::instance_spec(sandbox, driver.config),
                        driver.project,
                    ),
                )
            },
        }
    }
}

// ---------------------------------------------------------------------------
// Deletion
// ---------------------------------------------------------------------------

/// How far the deletion of a sandbox has come.
#[derive(Clone, Copy, Debug, PartialEq, Eq, Structural)]
pub enum DeleteStage {
    /// The instance is being looked up.
    Lookup,
    /// The instance is being stopped.
    ForceStop,
    /// The instance is being deleted.
    Delete,
}

/// A deletion under way. Its instance name is valid.
pub struct SandboxDeletion {
    name: String,
    stage: DeleteStage,
}

pub struct SandboxDeletionView {
    pub name: Seq<char>,
    pub stage: DeleteStage,
}

impl View for SandboxDeletion {
    type V = SandboxDeletionView;

    closed spec fn view(&self) -> SandboxDeletionView {
        SandboxDeletionView { name: self.name@, stage: self.stage }
    }
}

impl SandboxDeletion {
    #[verifier::type_invariant]
    spec fn well_formed(&self) -> bool {
        client::valid_name(self.name@)
    }

    /// Whether the request that is under way reads the instance.
    pub fn is_lookup(&self) -> (r: bool)
        ensures
            r == (self@.stage == DeleteStage::Lookup),
    {
        match self.stage {
            DeleteStage::Lookup => true,
            _ => false,
        }
    }
}

/// What to do next to delete a sandbox.
pub enum DeleteStep {
    /// Send this request, and come back with the answer.
    Call(SandboxDeletion, LxdRequest),
    /// The deletion is over; the answer says whether there was anything to
    /// delete.
    Done(Result<bool, ComputeDriverError>),
}

pub enum DeleteStepView {
    Call(SandboxDeletionView, LxdRequestView),
    Done(Result<bool, ComputeDriverErrorView>),
}

impl View for DeleteStep {
    type V = DeleteStepView;

    open spec fn view(&self) -> DeleteStepView {
        match self {
            DeleteStep::Call(run, q) => DeleteStepView::Call(run@, q@),
            DeleteStep::Done(r) => DeleteStepView::Done(driver_outcome(*r)),
        }
    }
}

/// The first step of the deletion of a sandbox.
pub open spec fn delete_start(
    project: Seq<char>,
    sandbox_id: Seq<char>,
    sandbox_name: Seq<char>,
) -> DeleteStepView {
    if sandbox_id.len() == 0 {
        DeleteStepView::Done(Err(ComputeDriverErrorView::Precondition("sandbox id is required"@)))
    } else {
        match validated_name(sandbox_name) {
            Err(e) => DeleteStepView::Done(Err(e)),
            Ok(name) => DeleteStepView::Call(
                SandboxDeletionView { name, stage: DeleteStage::Lookup },
                client::get_call(name, project),
            ),
        }
    }
}

/// The step after an answer while deleting. An instance that is gone counts as
/// nothing to delete; whether it could be stopped does not matter.
pub open spec fn delete_next(
    project: Seq<char>,
    run: SandboxDeletionView,
    answer: Result<(), LxdApiErrorView>,
) -> DeleteStepView {
    match run.stage {
        DeleteStage::Lookup => match answer {
            Ok(_) => DeleteStepView::Call(
                SandboxDeletionView { stage: DeleteStage::ForceStop, ..run },
                client::force_stop_call(run.name, project),
            ),
            Err(LxdApiErrorView::NotFound(_)) => DeleteStepView::Done(Ok(false)),
            Err(e) => DeleteStepView::Done(Err(driver_error(e))),
        },
        DeleteStage::ForceStop => DeleteStepView::Call(
            SandboxDeletionView { stage: DeleteStage::Delete, ..run },
            client::delete_call(run.name, project),
        ),
        DeleteStage::Delete => match answer {
            Ok(_) => DeleteStepView::Done(Ok(true)),
            Err(LxdApiErrorView::NotFound(_)) => DeleteStepView::Done(Ok(false)),
            Err(e) => DeleteStepView::Done(Err(driver_error(e))),
        },
    }
}

// ---------------------------------------------------------------------------
// Operations
// ---------------------------------------------------------------------------

/// The answer to a request that GPU sandboxes need a GPU for.
pub open spec fn gpu_check(
    sandbox: DriverSandboxView,
    gpu_available: bool,
) -> Result<(), ComputeDriverErrorView> {
    if instance::wants_gpu(sandbox) && !gpu_available {
        Err(
            ComputeDriverErrorView::Precondition(
                "GPU sandbox requested, but no NVIDIA GPU devices are available."@,
            ),
        )
    } else {
        Ok(())
    }
}

/// Checks that a sandbox that wants a GPU can have one.
pub fn check_gpu(sandbox: &DriverSandbox, gpu_available: bool) -> (r: Result<
    (),
    ComputeDriverError,
>)
    ensures
        driver_outcome(r) == gpu_check(sandbox@, gpu_available),
{
    if instance::gpu_requested(sandbox) && !gpu_available {
        Err(
            ComputeDriverError::Precondition(
                "GPU sandbox requested, but no NVIDIA GPU devices are available.".to_owned(),
            ),
        )
    } else {
        Ok(())
    }
}

impl LxdComputeDriver {
    /// The first step to make a driver: see whether the daemon answers.
    pub fn new(config: &LxdComputeConfig) -> (r: ConnectStep)
        ensures
            r@ == ConnectStepView::Call(ConnectStage::Ping, client::ping_call()),
    {
        let client = LxdClient::new(config.socket_path.clone(), config.project.clone());
        ConnectStep::Call(ConnectStage::Ping, client.ping())
    }

    /// The step after an answer while connecting.
    pub fn after_connect_call(
        config: &LxdComputeConfig,
        stage: ConnectStage,
        answer: Result<(), LxdApiError>,
    ) -> (r: ConnectStep)
        ensures
            r@ == connect_next(config@, stage, client::outcome(answer)),
    {
        let client = LxdClient::new(config.socket_path.clone(), config.project.clone());
        match stage {
            ConnectStage::Ping => match answer {
                Ok(()) => ConnectStep::Call(ConnectStage::Info, client.server_info()),
                Err(e) => ConnectStep::Done(Err(e)),
            },
            ConnectStage::Info => match answer {
                Ok(()) => project_step(config, client.ensure_project()),
                Err(e) => ConnectStep::Done(
                    Err(
                        LxdApiError::Connection(
                            "failed to query LXD server info: ".to_owned().concat(
                                e.text().as_str(),
                            ),
                        ),
                    ),
                ),
            },
            ConnectStage::FindProject => project_step(config, client.after_project_lookup(answer)),
            ConnectStage::MakeProject => project_step(
                config,
                ProjectStep::Done(client::after_project_create(answer)),
            ),
        }
    }

    /// A driver with the given settings, which has not talked to the daemon.
    pub fn with_config(config: LxdComputeConfig) -> (r: Self)
        ensures
            r@ == driver_for(config@),
    {
        let client = LxdClient::new(config.socket_path.clone(), config.project.clone());
        LxdComputeDriver { client, config }
    }

    /// The driver as a text for logs.
    pub fn debug_text(&self) -> (r: String)
        ensures
            r@ == "LxdComputeDriver { socket_path: "@ + platform::debug_text(
                self@.config.socket_path,
            ) + ", project: "@ + platform::debug_text(self@.config.project) + ", default_image: "@
                + platform::debug_text(self@.config.default_image) + ", network_name: "@
                + platform::debug_text(self@.config.network_name) + " }"@,
    {
        "LxdComputeDriver { socket_path: ".to_owned().concat(
            platform::quoted(self.config.socket_path.as_str()).as_str(),
        ).concat(", project: ").concat(
            platform::quoted(self.config.project.as_str()).as_str(),
        ).concat(", default_image: ").concat(
            platform::quoted(self.config.default_image.as_str()).as_str(),
        ).concat(", network_name: ").concat(
            platform::quoted(self.config.network_name.as_str()).as_str(),
        ).concat(" }")
    }

    /// The capabilities of the driver, given whether the host has a GPU.
    pub fn capabilities_with(&self, supports_gpu: bool) -> (r: GetCapabilitiesResponse)
        ensures
            r.driver_name@ == "lxd"@,
            r.driver_version@ == compute::VERSION@,
            r.default_image@ == self@.config.default_image,
            r.supports_gpu == supports_gpu,
            r.gpu_count == 0,
    {
        GetCapabilitiesResponse {
            driver_name: "lxd".to_owned(),
            driver_version: compute::VERSION.to_owned(),
            default_image: self.config.default_image.clone(),
            supports_gpu,
            gpu_count: 0,
        }
    }

    /// Reports the capabilities of the driver. It supports GPUs if the device is
    /// found on the host.
    pub fn capabilities(&self) -> (r: GetCapabilitiesResponse)
        ensures
            r.driver_name@ == "lxd"@,
            r.driver_version@ == compute::VERSION@,
            r.default_image@ == self@.config.default_image,
            platform::looked_for(GPU_DEVICE_PATH@, r.supports_gpu),
            r.gpu_count == 0,
    {
        self.capabilities_with(self.has_gpu_capacity())
    }

    /// The default image of the driver.
    pub fn default_image(&self) -> (r: &str)
        ensures
            r@ == self@.config.default_image,
    {
        self.config.default_image.as_str()
    }

    /// Checks whether GPU devices are available on the host.
    fn has_gpu_capacity(&self) -> (r: bool)
        ensures
            platform::looked_for(GPU_DEVICE_PATH@, r),
    {
        platform::look_for(GPU_DEVICE_PATH)
    }

    /// Validates a sandbox before its creation. A sandbox without a GPU is
    /// always accepted; one with a GPU is, if the host has one.
    pub fn validate_sandbox_create(&self, sandbox: &DriverSandbox) -> (r: Result<
        (),
        ComputeDriverError,
    >)
        ensures
            exists|gpu_available: bool|
                platform::looked_for(GPU_DEVICE_PATH@, gpu_available) && driver_outcome(r)
                    == #[trigger] gpu_check(sandbox@, gpu_available),
    {
        check_gpu(sandbox, self.has_gpu_capacity())
    }

    /// Builds the environment variables for the startup script.
    pub fn build_supervisor_env(&self, sandbox: &DriverSandbox, image: &str) -> (r: Vec<
        (String, String),
    >)
        ensures
            text::pair_views(r@) == supervisor_vars(sandbox@, self@.config, image@),
    {
        let mut env: Vec<(String, String)> = Vec::new();
        proof {
            assert(text::pair_views(env@) =~= Seq::empty());
        }
        environment::push_var(&mut env, "OPENSHELL_SANDBOX", sandbox.name.as_str());
        environment::push_var(&mut env, "OPENSHELL_SANDBOX_ID", sandbox.id.as_str());
        environment::push_var(&mut env, "OPENSHELL_ENDPOINT", self.config.grpc_endpoint.as_str());
        environment::push_var(
            &mut env,
            "OPENSHELL_SSH_SOCKET_PATH",
            self.config.sandbox_ssh_socket_path.as_str(),
        );
        environment::push_var(&mut env, "OPENSHELL_SSH_LISTEN_ADDR", self.config.ssh_listen_addr.as_str());
        environment::push_var(
            &mut env,
            "OPENSHELL_SSH_HANDSHAKE_SECRET",
            self.config.ssh_handshake_secret.as_str(),
        );
        environment::push_var(
            &mut env,
            "OPENSHELL_SSH_HANDSHAKE_SKEW_SECS",
            text::u64_text(self.config.ssh_handshake_skew_secs).as_str(),
        );
        environment::push_var(&mut env, "OPENSHELL_CONTAINER_IMAGE", image);
        environment::push_var(&mut env, "OPENSHELL_SANDBOX_COMMAND", "sleep infinity");
        proof {
            assert(text::pair_views(env@) =~= required_vars(sandbox@, self@.config, image@));
        }
        if let Some(spec) = &sandbox.spec {
            if !spec.log_level.as_str().is_empty() {
                environment::push_var(&mut env, "OPENSHELL_LOG_LEVEL", spec.log_level.as_str());
            }
            environment::push_vars(&mut env, &spec.environment);
            if let Some(template) = &spec.template {
                environment::push_vars(&mut env, &template.environment);
            }
        }
        proof {
            assert(text::pair_views(env@) =~= supervisor_vars(sandbox@, self@.config, image@));
        }
        env
    }

    /// The first step of the creation of a sandbox instance.
    pub fn create_sandbox(&self, sandbox: &DriverSandbox) -> (r: CreateStep)
        ensures
            r@ == create_start(self@, sandbox@),
    {
        if sandbox.name.as_str().is_empty() {
            return CreateStep::Done(
                Err(ComputeDriverError::Precondition("sandbox name is required".to_owned())),
            );
        }
        if sandbox.id.as_str().is_empty() {
            return CreateStep::Done(
                Err(ComputeDriverError::Precondition("sandbox id is required".to_owned())),
            );
        }
        let name = match validated_instance_name(sandbox.name.as_str()) {
            Ok(name) => name,
            Err(e) => return CreateStep::Done(Err(e)),
        };
        let image = instance::resolve_image(sandbox, &self.config);
        if image.is_empty() {
            return CreateStep::Done(
                Err(
                    ComputeDriverError::Precondition(
                        "no sandbox image configured: set --sandbox-image on the server or provide an image in the sandbox template".to_owned(),
                    ),
                ),
            );
        }
        let spec = instance::build_instance_spec(sandbox, &self.config);
        let env = self.build_supervisor_env(sandbox, image);
        let script = build_startup_script(env.as_slice());
        CreateStep::Call(
            SandboxCreation { name, script, stage: CreateStage::Create },
            self.client.create_instance(&spec),
        )
    }

    /// The step after an answer while creating.
    pub fn after_create_call(&self, run: SandboxCreation, answer: Result<(), LxdApiError>) -> (r:
        CreateStep)
        ensures
            r@ == create_next(self@.project, run@, client::outcome(answer)),
    {
        proof {
            use_type_invariant(&run);
        }
        let SandboxCreation { name, script, stage } = run;
        let next = match (stage, answer) {
            (CreateStage::Create, Ok(())) => CreateStage::Start,
            (CreateStage::Create, Err(e)) => return CreateStep::Done(Err(compute_error(e))),
            (CreateStage::Start, Ok(())) => CreateStage::Push,
            (CreateStage::Start, Err(e)) => CreateStage::Delete(compute_error(e)),
            (CreateStage::Push, Ok(())) => CreateStage::Exec,
            (CreateStage::Push, Err(e)) => CreateStage::ForceStop(compute_error(e)),
            (CreateStage::Exec, Ok(())) => return CreateStep::Done(Ok(())),
            (CreateStage::Exec, Err(e)) => CreateStage::ForceStop(compute_error(e)),
            (CreateStage::ForceStop(e), _) => CreateStage::Delete(e),
            (CreateStage::Delete(e), _) => return CreateStep::Done(Err(e)),
        };
        let call = match &next {
            CreateStage::Create | CreateStage::Start => self.client.start_instance(name.as_str()),
            CreateStage::Push => self.client.push_file(
                name.as_str(),
                STARTUP_SCRIPT_PATH,
                script.as_str().as_bytes(),
                STARTUP_SCRIPT_MODE,
            ),
            CreateStage::Exec => {
                let command: [&str; 2] = ["/bin/sh", STARTUP_SCRIPT_PATH];
                proof {
                    assert(client::str_views(command@) =~= seq!["/bin/sh"@, STARTUP_SCRIPT_PATH@]);
                }
                self.client.exec_instance(name.as_str(), &command)
            },
            CreateStage::ForceStop(_) => self.client.force_stop_instance(name.as_str()),
            CreateStage::Delete(_) => self.client.delete_instance(name.as_str()),
        };
        match call {
            Ok(request) => CreateStep::Call(
                SandboxCreation { name, script, stage: next },
                request,
            ),
            Err(e) => CreateStep::Done(Err(compute_error(e))),
        }
    }

    /// Stops a sandbox instance without deleting it.
    pub fn stop_sandbox(&self, sandbox_name: &str) -> (r: Result<LxdRequest, ComputeDriverError>)
        ensures
            call_outcome(r) == (match validated_name(sandbox_name@) {
                Ok(name) => Ok(
                    client::stop_call(name, self@.config.stop_timeout_secs, self@.project),
                ),
                Err(e) => Err(e),
            }),
    {
        match validated_instance_name(sandbox_name) {
            Err(e) => Err(e),
            Ok(name) => match self.client.stop_instance(
                name.as_str(),
                self.config.stop_timeout_secs,
            ) {
                Ok(request) => Ok(request),
                Err(e) => Err(compute_error(e)),
            },
        }
    }

    /// The first step of the deletion of a sandbox instance.
    pub fn delete_sandbox(&self, sandbox_id: &str, sandbox_name: &str) -> (r: DeleteStep)
        ensures
            r@ == delete_start(self@.project, sandbox_id@, sandbox_name@),
    {
        if sandbox_id.is_empty() {
            return DeleteStep::Done(
                Err(ComputeDriverError::Precondition("sandbox id is required".to_owned())),
            );
        }
        let name = match validated_instance_name(sandbox_name) {
            Ok(name) => name,
            Err(e) => return DeleteStep::Done(Err(e)),
        };
        match self.client.get_instance(name.as_str()) {
            Ok(request) => DeleteStep::Call(
                SandboxDeletion { name, stage: DeleteStage::Lookup },
                request,
            ),
            Err(e) => DeleteStep::Done(Err(compute_error(e))),
        }
    }

    /// The step after an answer while deleting.
    pub fn after_delete_call(&self, run: SandboxDeletion, answer: Result<(), LxdApiError>) -> (r:
        DeleteStep)
        ensures
            r@ == delete_next(self@.project, run@, client::outcome(answer)),
    {
        proof {
            use_type_invariant(&run);
        }
        let SandboxDeletion { name, stage } = run;
        let (next, call) = match (stage, answer) {
            (DeleteStage::Lookup, Ok(())) => {
                (DeleteStage::ForceStop, self.client.force_stop_instance(name.as_str()))
            },
            (DeleteStage::ForceStop, _) => {
                (DeleteStage::Delete, self.client.delete_instance(name.as_str()))
            },
            (DeleteStage::Delete, Ok(())) => return DeleteStep::Done(Ok(true)),
            (_, Err(LxdApiError::NotFound(_))) => return DeleteStep::Done(Ok(false)),
            (_, Err(e)) => return DeleteStep::Done(Err(compute_error(e))),
        };
        match call {
            Ok(request) => DeleteStep::Call(SandboxDeletion { name, stage: next }, request),
            Err(e) => DeleteStep::Done(Err(compute_error(e))),
        }
    }

    fn lookup(&self, sandbox_name: &str) -> (r: Result<LxdRequest, ComputeDriverError>)
        ensures
            call_outcome(r) == lookup_call(sandbox_name@, self@.project),
    {
        let name = instance::instance_name(sandbox_name);
        match self.client.get_instance(name.as_str()) {
            Ok(request) => Ok(request),
            Err(e) => Err(compute_error(e)),
        }
    }

    /// Asks whether a sandbox instance exists; [`exists_result`] reads the
    /// answer.
    pub fn sandbox_exists(&self, sandbox_name: &str) -> (r: Result<LxdRequest, ComputeDriverError>)
        ensures
            call_outcome(r) == lookup_call(sandbox_name@, self@.project),
    {
        self.lookup(sandbox_name)
    }

    /// Asks for a single sandbox by name; [`get_result`] reads the answer.
    pub fn get_sandbox(&self, sandbox_name: &str) -> (r: Result<LxdRequest, ComputeDriverError>)
        ensures
            call_outcome(r) == lookup_call(sandbox_name@, self@.project),
    {
        self.lookup(sandbox_name)
    }

    /// Asks for all instances; [`list_result`] makes the list of managed
    /// sandboxes from the answer.
    pub fn list_sandboxes(&self) -> (r: LxdRequest)
        ensures
            r@ == client::list_call(self@.project),
    {
        self.client.list_instances()
    }

    /// The first step of a watch of all managed sandboxes.
    pub fn watch_sandboxes(&self) -> (r: WatchStep)
        ensures
            r@ == watcher::watch_start(self@.project),
    {
        watcher::start_watch(&self.client)
    }
}

/// The request that reads the instance of a sandbox.
pub open spec fn lookup_call(sandbox_name: Seq<char>, project: Seq<char>) -> Result<
    LxdRequestView,
    ComputeDriverErrorView,
> {
    let name = instance::name_of_instance(sandbox_name);
    match client::name_check(name) {
        Ok(_) => Ok(client::get_call(name, project)),
        Err(e) => Err(driver_error(e)),
    }
}

/// Reads the answer to [`LxdComputeDriver::stop_sandbox`].
pub fn stop_result(answer: Result<(), LxdApiError>) -> (r: Result<(), ComputeDriverError>)
    ensures
        driver_outcome(r) == (match client::outcome(answer) {
            Ok(_) => Ok(()),
            Err(e) => Err(driver_error(e)),
        }),
{
    match answer {
        Ok(()) => Ok(()),
        Err(e) => Err(compute_error(e)),
    }
}

/// Reads the answer to [`LxdComputeDriver::sandbox_exists`].
pub fn exists_result(answer: Result<Instance, LxdApiError>) -> (r: Result<
    bool,
    ComputeDriverError,
>)
    ensures
        driver_outcome(r) == (match client::outcome(answer) {
            Ok(_) => Ok(true),
            Err(LxdApiErrorView::NotFound(_)) => Ok(false),
            Err(e) => Err(driver_error(e)),
        }),
{
    match answer {
        Ok(_) => Ok(true),
        Err(LxdApiError::NotFound(_)) => Ok(false),
        Err(e) => Err(compute_error(e)),
    }
}

/// Reads the answer to [`LxdComputeDriver::get_sandbox`].
pub fn get_result(answer: Result<Instance, LxdApiError>) -> (r: Result<
    Option<DriverSandbox>,
    ComputeDriverError,
>)
    ensures
        (match r {
            Ok(s) => Ok(watcher::optional_sandbox(s)),
            Err(e) => Err(e@),
        }) == (match client::outcome(answer) {
            Ok(inst) => Ok(watcher::sandbox_of(inst@, platform::lowercase(inst@.status))),
            Err(LxdApiErrorView::NotFound(_)) => Ok(None),
            Err(e) => Err(driver_error(e)),
        }),
{
    match answer {
        Ok(inst) => Ok(watcher::driver_sandbox_from_instance(&inst)),
        Err(LxdApiError::NotFound(_)) => Ok(None),
        Err(e) => Err(compute_error(e)),
    }
}

/// Reads the answer to [`LxdComputeDriver::list_sandboxes`]: the managed
/// sandboxes in order.
pub fn list_result(answer: Result<Vec<Instance>, LxdApiError>) -> (r: Result<
    Vec<DriverSandbox>,
    ComputeDriverError,
>)
    ensures
        (match r {
            Ok(list) => Ok(compute::sandbox_views(list@)),
            Err(e) => Err(e@),
        }) == (match client::outcome(answer) {
            Ok(instances) => Ok(
                compute::in_order(
                    watcher::managed_sandboxes(watcher::instance_views(instances@)),
                ),
            ),
            Err(e) => Err(driver_error(e)),
        }),
{
    match answer {
        Ok(instances) => Ok(compute::sort_sandboxes(watcher::sandboxes_of(&instances))),
        Err(e) => Err(compute_error(e)),
    }
}

// ---------------------------------------------------------------------------
// Laws
// ---------------------------------------------------------------------------

/// The stages through which a creation goes, by the answers that it gets.
pub open spec fn stages(stage: CreateStageView, answers: Seq<Result<(), LxdApiErrorView>>) -> Seq<
    CreateStageView,
>
    decreases answers.len(),
{
    if answers.len() == 0 {
        seq![stage]
    } else {
        match stage_after(stage, answers[0]) {
            Ok(next) => seq![stage] + stages(next, answers.drop_first()),
            Err(_) => seq![stage],
        }
    }
}

/// How a creation ends, by the answers that it gets, if it does.
pub open spec fn ending(stage: CreateStageView, answers: Seq<Result<(), LxdApiErrorView>>) -> Option<
    Result<(), ComputeDriverErrorView>,
>
    decreases answers.len(),
{
    if answers.len() == 0 {
        None
    } else {
        match stage_after(stage, answers[0]) {
            Ok(next) => ending(next, answers.drop_first()),
            Err(r) => Some(r),
        }
    }
}

/// An instance that was created is not left behind: a creation that fails after
/// that deletes the instance as its last act, and reports the first failure.
pub proof fn failed_creation_deletes_instance(
    stage: CreateStageView,
    answers: Seq<Result<(), LxdApiErrorView>>,
)
    requires
        !(stage is Create),
        ending(stage, answers) matches Some(Err(_)),
    ensures
        stages(stage, answers).last() == CreateStageView::Delete(ending(stage, answers)->0->Err_0),
    decreases answers.len(),
{
    match stage_after(stage, answers[0]) {
        Ok(next) => {
            failed_creation_deletes_instance(next, answers.drop_first());
            let later = stages(next, answers.drop_first());
            lemma_stages_not_empty(next, answers.drop_first());
            assert((seq![stage] + later).last() == later.last());
        },
        Err(_) => {},
    }
}

proof fn lemma_stages_not_empty(
    stage: CreateStageView,
    answers: Seq<Result<(), LxdApiErrorView>>,
)
    ensures
        stages(stage, answers).len() > 0,
{
}

/// A creation succeeds if and only if the instance is created, is started, gets
/// its startup script and runs it.
pub proof fn creation_succeeds_iff_all_answers_do(answers: Seq<Result<(), LxdApiErrorView>>)
    requires
        answers.len() >= 4,
    ensures
        (ending(CreateStageView::Create, answers) == Some(Ok::<(), ComputeDriverErrorView>(())))
            == (answers[0] is Ok && answers[1] is Ok && answers[2] is Ok && answers[3] is Ok),
{
    reveal_with_fuel(ending, 7);
}

/// A creation is over after at most six answers.
pub proof fn creation_ends(answers: Seq<Result<(), LxdApiErrorView>>)
    requires
        answers.len() >= 6,
    ensures
        ending(CreateStageView::Create, answers) is Some,
{
    reveal_with_fuel(ending, 7);
}

/// A driver is ready only when its project is there: it was found or created, by
/// this process or by another, or it is LXD's own default project.
pub proof fn ready_driver_has_its_project(
    config: LxdComputeConfigView,
    stage: ConnectStage,
    answer: Result<(), LxdApiErrorView>,
)
    requires
        connect_next(config, stage, answer) matches ConnectStepView::Done(Ok(_)),
    ensures
        (client::default_project(config.project) && stage == ConnectStage::Info && answer is Ok)
            || (stage == ConnectStage::FindProject && answer is Ok) || (stage
            == ConnectStage::MakeProject && (answer is Ok || answer matches Err(
            LxdApiErrorView::Conflict(_),
        ))),
{
}

/// A driver that is ready has an endpoint to which sandboxes connect back.
pub proof fn ready_driver_has_an_endpoint(config: LxdComputeConfigView)
    ensures
        with_endpoint(config).grpc_endpoint.len() > 0,
{
    reveal_strlit("http://10.0.0.1:");
}

} // verus!
