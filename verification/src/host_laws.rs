//! What the drivers of single hosts do, on a remote host and on this one.
//!
//! The laws speak of the commands that run and the processes that start, of what is
//! known of the sandboxes afterwards, and of what is told of them.
use vstd::prelude::*;
use vstd::string::*;
use crate::compute;
use crate::compute::{
    DriverSandbox, DriverSandboxView, Status, StatusCode, WatchSandboxesEvent,
    WatchSandboxesEventView,
};
use crate::environment;
use crate::local;
use crate::local::{ChildState, Launch, LocalComputeDriver, LocalSandboxState};
use crate::platform;
use crate::process;
use crate::process::{Command, CommandOutput, CommandView};
use crate::registry;
use crate::registry::{Registry, SandboxModel, SandboxState};
use crate::shell;
use crate::ssh;
use crate::ssh::{
    DeployStage, DeployStep, DeployStepView, Removal, SshComputeConfigView, SshComputeDriver,
    SshSandboxState, ValidateStage, ValidateStep, ValidateStepView,
};
use crate::string_map;
use crate::text;

verus! {

// ---------------------------------------------------------------------------
// Which sandbox is meant
// ---------------------------------------------------------------------------

/// What holds of every registry: its list is in the order of the identifiers, holds
/// the same sandboxes as its map, and each stands under its own identifier.
pub open spec fn in_order<S: SandboxState>(sandboxes: Registry<S>) -> bool {
    &&& string_map::ascending(sandboxes.list())
    &&& sandboxes@ == string_map::map_of(sandboxes.list())
    &&& registry::keyed_by_id(sandboxes@)
}

/// Whether a request means the sandbox with this identifier: the one that it names
/// by its identifier, or else the first, by their identifiers, of those with the
/// name.
pub open spec fn means(
    m: Map<Seq<char>, SandboxModel>,
    sandbox_id: Seq<char>,
    sandbox_name: Seq<char>,
    key: Seq<char>,
) -> bool {
    &&& m.contains_key(key)
    &&& m[key].sandbox.id == key
    &&& sandbox_id.len() > 0 ==> key == sandbox_id
    &&& sandbox_id.len() == 0 ==> {
        &&& m[key].sandbox.name == sandbox_name
        &&& forall|other: Seq<char>| #[trigger]
            m.contains_key(other) && m[other].sandbox.name == sandbox_name && other != key
                ==> text::text_less(key, other)
    }
}

/// Whether a request means no sandbox.
pub open spec fn means_none(
    m: Map<Seq<char>, SandboxModel>,
    sandbox_id: Seq<char>,
    sandbox_name: Seq<char>,
) -> bool {
    &&& sandbox_id.len() > 0 ==> !m.contains_key(sandbox_id)
    &&& sandbox_id.len() == 0 ==> forall|other: Seq<char>| #[trigger]
        m.contains_key(other) ==> m[other].sandbox.name != sandbox_name
}

/// Whether a request says nothing of what it means.
pub open spec fn says_nothing(sandbox_id: Seq<char>, sandbox_name: Seq<char>) -> bool {
    sandbox_id.len() == 0 && sandbox_name.len() == 0
}

proof fn lemma_meant(
    list: Seq<(Seq<char>, SandboxModel)>,
    sandbox_id: Seq<char>,
    sandbox_name: Seq<char>,
)
    requires
        string_map::ascending(list),
        registry::keyed_by_id(string_map::map_of(list)),
    ensures
        match registry::meant(list, sandbox_id, sandbox_name) {
            Some(key) => means(string_map::map_of(list), sandbox_id, sandbox_name, key),
            None => means_none(string_map::map_of(list), sandbox_id, sandbox_name),
        },
{
    let m = string_map::map_of(list);
    if sandbox_id.len() == 0 {
        registry::named_sandbox_has_the_name(list, sandbox_name);
        assert forall|other: Seq<char>| #[trigger] m.contains_key(other) implies (exists|j: int|
            0 <= j < list.len() && #[trigger] list[j].0 == other && m[other] == list[j].1) by {
            let j = choose|j: int| 0 <= j < list.len() && #[trigger] list[j].0 == other;
            string_map::ascending_lookup(list, j);
        }
        match registry::first_named(list, sandbox_name) {
            Some(i) => {
                string_map::ascending_lookup(list, i);
                let key = list[i].0;
                assert forall|other: Seq<char>| #[trigger]
                    m.contains_key(other) && m[other].sandbox.name == sandbox_name && other
                        != key implies text::text_less(key, other) by {
                    let j = choose|j: int|
                        0 <= j < list.len() && #[trigger] list[j].0 == other && m[other]
                            == list[j].1;
                    assert(list[j].1.sandbox.name == sandbox_name);
                    assert(j > i);
                }
            },
            None => {
                assert forall|other: Seq<char>| #[trigger] m.contains_key(other) implies m[other].sandbox.name
                    != sandbox_name by {
                    let j = choose|j: int|
                        0 <= j < list.len() && #[trigger] list[j].0 == other && m[other]
                            == list[j].1;
                }
            },
        }
    }
}

/// A request by identifier means the sandbox with that identifier; one by name
/// means the first with that name.
pub proof fn requests_mean_one_sandbox<S: SandboxState>(
    sandboxes: &Registry<S>,
    sandbox_id: &str,
    sandbox_name: &str,
    key: Option<String>,
    found: Option<&S>,
)
    requires
        in_order(*sandboxes),
        call_ensures(
            registry::find_sandbox_key::<S>,
            (sandboxes, sandbox_id, sandbox_name),
            key,
        ),
        call_ensures(registry::find_sandbox::<S>, (sandboxes, sandbox_id, sandbox_name), found),
    ensures
        key matches Some(k) ==> means(sandboxes@, sandbox_id@, sandbox_name@, k@),
        key is None ==> means_none(sandboxes@, sandbox_id@, sandbox_name@),
        (found is Some) == (key is Some),
        found matches Some(s) ==> s.model() == sandboxes@[key->0@],
{
    lemma_meant(sandboxes.list(), sandbox_id@, sandbox_name@);
}

/// A request has to say which sandbox it means.
pub proof fn requests_say_what_they_mean(
    sandbox_id: &str,
    sandbox_name: &str,
    r: Result<(), Status>,
)
    requires
        call_ensures(registry::require_sandbox_identifier, (sandbox_id, sandbox_name), r),
    ensures
        (r is Err) == says_nothing(sandbox_id@, sandbox_name@),
        r matches Err(e) ==> e@.code == StatusCode::InvalidArgument,
{
    match r {
        Ok(_) => {
            assert(registry::status_outcome(r) is Ok);
        },
        Err(e) => {
            assert(registry::status_outcome(r) == Err::<(), compute::StatusView>(e@));
        },
    }
}

// ---------------------------------------------------------------------------
// Commands of the remote host
// ---------------------------------------------------------------------------

/// Whether a command logs in to the remote host of the settings, without asking
/// anything, and does nothing with its environment or input.
pub open spec fn logs_in(c: CommandView, config: SshComputeConfigView, port_option: Seq<char>) -> bool {
    &&& c.args.len() == 12
    &&& process::option_is(c.args, port_option, text::decimal(config.port as nat))
    &&& process::option_is(c.args, "-i"@, config.identity_file)
    &&& process::option_is(c.args, "-o"@, "StrictHostKeyChecking=accept-new"@)
    &&& process::option_is(c.args, "-o"@, "BatchMode=yes"@)
    &&& process::option_is(c.args, "-o"@, "ConnectTimeout=10"@)
    &&& c.env.len() == 0
    &&& c.stdin is None
}

/// Whether a command runs a shell command on the remote host of the settings.
pub open spec fn runs_there(
    c: CommandView,
    config: SshComputeConfigView,
    command: Seq<char>,
) -> bool {
    &&& c.program == "ssh"@
    &&& logs_in(c, config, "-p"@)
    &&& c.args[10] == config.user + "@"@ + config.host
    &&& c.args[11] == command
}

/// Whether a command copies a local file to a path of the remote host of the
/// settings.
pub open spec fn copies_there(
    c: CommandView,
    config: SshComputeConfigView,
    from: Seq<char>,
    to: Seq<char>,
) -> bool {
    &&& c.program == "scp"@
    &&& logs_in(c, config, "-P"@)
    &&& c.args[10] == from
    &&& c.args[11] == config.user + "@"@ + config.host + ":"@ + to
}

proof fn lemma_runs_there(config: SshComputeConfigView, command: Seq<char>)
    ensures
        runs_there(ssh::ssh_call(config, command), config, command),
{
    let args = ssh::ssh_call(config, command).args;
    assert(args[0] == "-o"@ && args[0int + 1] == "StrictHostKeyChecking=accept-new"@);
    assert(args[2] == "-o"@ && args[2int + 1] == "BatchMode=yes"@);
    assert(args[4] == "-o"@ && args[4int + 1] == "ConnectTimeout=10"@);
    assert(args[6] == "-p"@ && args[6int + 1] == text::decimal(config.port as nat));
    assert(args[8] == "-i"@ && args[8int + 1] == config.identity_file);
}

proof fn lemma_copies_there(config: SshComputeConfigView, from: Seq<char>, to: Seq<char>)
    ensures
        copies_there(ssh::scp_call(config, from, to), config, from, to),
{
    let args = ssh::scp_call(config, from, to).args;
    assert(args[0] == "-o"@ && args[0int + 1] == "StrictHostKeyChecking=accept-new"@);
    assert(args[2] == "-o"@ && args[2int + 1] == "BatchMode=yes"@);
    assert(args[4] == "-o"@ && args[4int + 1] == "ConnectTimeout=10"@);
    assert(args[6] == "-P"@ && args[6int + 1] == text::decimal(config.port as nat));
    assert(args[8] == "-i"@ && args[8int + 1] == config.identity_file);
}

/// A shell command runs on the remote host of the settings, and a file is copied
/// there.
pub proof fn commands_go_to_the_host_of_the_settings(
    d: &SshComputeDriver,
    command: &str,
    run: Command,
    from: &str,
    to: &str,
    copy: Command,
)
    requires
        call_ensures(SshComputeDriver::ssh_exec, (d, command), run),
        call_ensures(SshComputeDriver::scp_to_remote, (d, from, to), copy),
    ensures
        runs_there(run@, d.config@, command@),
        copies_there(copy@, d.config@, from@, to@),
{
    lemma_runs_there(d.config@, command@);
    lemma_copies_there(d.config@, from@, to@);
}

/// Whether a command ran and succeeded.
pub open spec fn succeeded(output: Result<CommandOutput, String>) -> bool {
    output matches Ok(out) && out.success
}

/// A command on the remote host gives what it printed if and only if it succeeded.
/// Otherwise it is said why: that it did not run, or how it ended and what it said.
pub proof fn outcome_is_what_was_printed(
    output: Result<CommandOutput, String>,
    r: Result<String, Status>,
    copied: Result<(), Status>,
)
    requires
        call_ensures(ssh::ssh_result, (output,), r),
        call_ensures(ssh::scp_result, (output,), copied),
    ensures
        (r is Ok) == succeeded(output),
        (copied is Ok) == succeeded(output),
        r matches Ok(printed) ==> printed@ == platform::utf8_lossy(output->Ok_0.stdout@),
        r matches Err(e) ==> e@.code == StatusCode::Internal && match output {
            Err(m) => m@.is_suffix_of(e@.message),
            Ok(out) => e@.message == "SSH command failed (exit "@ + text::signed_decimal(
                match out.code {
                    Some(code) => code as int,
                    None => -1,
                },
            ) + "): "@ + platform::utf8_lossy(out.stderr@),
        },
        copied matches Err(e) ==> e@.code == StatusCode::Internal && match output {
            Err(m) => m@.is_suffix_of(e@.message),
            Ok(out) => e@.message == "SCP failed (exit "@ + text::signed_decimal(
                match out.code {
                    Some(code) => code as int,
                    None => -1,
                },
            ) + "): "@ + platform::utf8_lossy(out.stderr@),
        },
{
    match r {
        Ok(s) => {
            assert(ssh::output_view(r) == Ok::<Seq<char>, compute::StatusView>(s@));
        },
        Err(e) => {
            assert(ssh::output_view(r) == Err::<Seq<char>, compute::StatusView>(e@));
        },
    }
    match copied {
        Ok(_) => {
            assert(registry::status_outcome(copied) is Ok);
        },
        Err(e) => {
            assert(registry::status_outcome(copied) == Err::<(), compute::StatusView>(e@));
        },
    }
    if let Err(m) = output {
        text::end_is_a_suffix("SSH exec failed: "@, m@);
        text::end_is_a_suffix("SCP failed: "@, m@);
    }
}

// ---------------------------------------------------------------------------
// Environment of a supervisor process
// ---------------------------------------------------------------------------

/// What the user sets a variable to: the specification counts more than the
/// template.
pub open spec fn user_value(sandbox: DriverSandboxView, key: Seq<char>) -> Option<Seq<char>> {
    match sandbox.spec {
        Some(s) => match environment::value_in(s.environment, key) {
            Some(value) => Some(value),
            None => match s.template {
                Some(t) => environment::value_in(t.environment, key),
                None => None,
            },
        },
        None => None,
    }
}

/// Whether a supervisor process of a sandbox gets the variables that it needs: it
/// reports as its own sandbox, connects where the settings say, and the user's own
/// variables hold what the user says.
pub open spec fn env_suits(
    vars: Seq<(Seq<char>, Seq<char>)>,
    sandbox: DriverSandboxView,
    log_level: Seq<char>,
    grpc_endpoint: Seq<char>,
    ssh_socket_path: Seq<char>,
) -> bool {
    &&& forall|key: Seq<char>| #[trigger]
        user_value(sandbox, key) is Some ==> environment::value_in(vars, key) == user_value(
            sandbox,
            key,
        )
    &&& user_value(sandbox, "OPENSHELL_SANDBOX_ID"@) is None ==> environment::value_in(
        vars,
        "OPENSHELL_SANDBOX_ID"@,
    ) == Some(sandbox.id)
    &&& user_value(sandbox, "OPENSHELL_SANDBOX"@) is None ==> environment::value_in(
        vars,
        "OPENSHELL_SANDBOX"@,
    ) == Some(sandbox.name)
    &&& user_value(sandbox, "OPENSHELL_ENDPOINT"@) is None ==> environment::value_in(
        vars,
        "OPENSHELL_ENDPOINT"@,
    ) == Some(grpc_endpoint)
    &&& user_value(sandbox, "OPENSHELL_SSH_SOCKET_PATH"@) is None ==> environment::value_in(
        vars,
        "OPENSHELL_SSH_SOCKET_PATH"@,
    ) == Some(ssh_socket_path)
    &&& user_value(sandbox, "OPENSHELL_LOG_LEVEL"@) is None ==> environment::value_in(
        vars,
        "OPENSHELL_LOG_LEVEL"@,
    ) == Some(log_level)
    &&& user_value(sandbox, "OPENSHELL_SANDBOX_COMMAND"@) is None ==> environment::value_in(
        vars,
        "OPENSHELL_SANDBOX_COMMAND"@,
    ) == Some("sleep infinity"@)
    &&& user_value(sandbox, "HOME"@) is None ==> environment::value_in(vars, "HOME"@) == Some(
        "/root"@,
    )
    &&& user_value(sandbox, "TERM"@) is None ==> environment::value_in(vars, "TERM"@) == Some(
        "xterm"@,
    )
}

spec fn own_names() -> Seq<Seq<char>> {
    seq![
        "HOME"@,
        "TERM"@,
        "OPENSHELL_LOG_LEVEL"@,
        "OPENSHELL_ENDPOINT"@,
        "OPENSHELL_SANDBOX_ID"@,
        "OPENSHELL_SANDBOX"@,
        "OPENSHELL_SSH_SOCKET_PATH"@,
        "OPENSHELL_SANDBOX_COMMAND"@,
    ]
}

proof fn lemma_own_names()
    ensures
        forall|i: int, j: int|
            0 <= i < j < own_names().len() ==> (#[trigger] own_names()[i]) != (
            #[trigger] own_names()[j]),
{
    reveal_strlit("HOME");
    reveal_strlit("TERM");
    reveal_strlit("OPENSHELL_LOG_LEVEL");
    reveal_strlit("OPENSHELL_ENDPOINT");
    reveal_strlit("OPENSHELL_SANDBOX_ID");
    reveal_strlit("OPENSHELL_SANDBOX");
    reveal_strlit("OPENSHELL_SSH_SOCKET_PATH");
    reveal_strlit("OPENSHELL_SANDBOX_COMMAND");
    assert("HOME"@[0] == 'H' && "TERM"@[0] == 'T');
    assert("OPENSHELL_SSH_SOCKET_PATH"@[11] == 'S' && "OPENSHELL_SANDBOX_COMMAND"@[11] == 'A');
    let names = own_names();
    assert(names[0].len() == 4 && names[1].len() == 4 && names[2].len() == 19);
    assert(names[3].len() == 18 && names[4].len() == 20 && names[5].len() == 17);
    assert(names[6].len() == 25 && names[7].len() == 25);
}

proof fn lemma_env(
    sandbox: DriverSandboxView,
    log_level: Seq<char>,
    grpc_endpoint: Seq<char>,
    ssh_socket_path: Seq<char>,
)
    ensures
        env_suits(
            environment::process_vars(sandbox, log_level, grpc_endpoint, ssh_socket_path),
            sandbox,
            log_level,
            grpc_endpoint,
            ssh_socket_path,
        ),
{
    let vars = environment::process_vars(sandbox, log_level, grpc_endpoint, ssh_socket_path);
    let asked = environment::requested_vars(sandbox.spec);
    let own = vars.take(8);
    assert(vars =~= own + asked);
    assert forall|key: Seq<char>| true implies environment::value_in(vars, key) == (if #[trigger]
        user_value(sandbox, key) is Some {
        user_value(sandbox, key)
    } else {
        environment::value_in(own, key)
    }) by {
        environment::later_settings_win(own, asked, key);
        match sandbox.spec {
            None => {},
            Some(s) => {
                let first = match s.template {
                    Some(t) => t.environment,
                    None => Seq::empty(),
                };
                environment::later_settings_win(first, s.environment, key);
                environment::later_settings_win(Seq::empty(), first, key);
                environment::later_settings_win(own, asked, key);
                assert(Seq::<(Seq<char>, Seq<char>)>::empty() + first =~= first);
            },
        }
    }
    lemma_own_names();
    let names = own_names();
    assert forall|i: int| 0 <= i < 8 implies environment::value_in(own, #[trigger] names[i])
        == Some(own[i].1) by {
        assert forall|j: int| 0 <= j < 8 implies (#[trigger] own[j]).0 == names[j] by {}
        assert(own[i].0 == names[i]);
        assert forall|j: int| 0 <= j < own.len() && j != i implies (#[trigger] own[j]).0
            != own[i].0 by {
            assert(own[j].0 == names[j]);
            if j < i {
                assert(names[j] != names[i]);
            } else {
                assert(names[i] != names[j]);
            }
        }
        environment::single_setting_holds(own, i);
    }
    assert(names[0] == "HOME"@ && names[1] == "TERM"@ && names[2] == "OPENSHELL_LOG_LEVEL"@);
    assert(names[3] == "OPENSHELL_ENDPOINT"@ && names[4] == "OPENSHELL_SANDBOX_ID"@);
    assert(names[5] == "OPENSHELL_SANDBOX"@ && names[6] == "OPENSHELL_SSH_SOCKET_PATH"@);
    assert(names[7] == "OPENSHELL_SANDBOX_COMMAND"@);
}

/// The supervisor of a sandbox on a remote host gets the variables that it needs.
pub proof fn remote_supervisor_gets_what_it_needs(
    d: &SshComputeDriver,
    sandbox: &DriverSandbox,
    env: Vec<(String, String)>,
)
    requires
        call_ensures(SshComputeDriver::build_supervisor_env, (d, sandbox), env),
    ensures
        env_suits(
            text::pair_views(env@),
            sandbox@,
            d.config@.log_level,
            d.config@.grpc_endpoint,
            d.config@.ssh_socket_path,
        ),
{
    lemma_env(sandbox@, d.config@.log_level, d.config@.grpc_endpoint, d.config@.ssh_socket_path);
}

// ---------------------------------------------------------------------------
// Deployment
// ---------------------------------------------------------------------------

/// Whether a step of a deployment follows another, after what its command gave.
pub open spec fn deployment_follows(
    d: SshComputeDriver,
    sandbox: DriverSandbox,
    step: DeployStep,
    output: Result<CommandOutput, String>,
    next: DeployStep,
) -> bool {
    step matches DeployStep::Run(stage, _) && call_ensures(
        SshComputeDriver::after_deploy_command,
        (&d, &sandbox, stage, output),
        next,
    )
}

/// Whether these are the steps of the creation of a sandbox, with what the commands
/// gave.
pub open spec fn deployment(
    d: SshComputeDriver,
    sandbox: DriverSandbox,
    steps: Seq<DeployStep>,
    outputs: Seq<Result<CommandOutput, String>>,
) -> bool {
    &&& steps.len() == outputs.len() + 1
    &&& call_ensures(SshComputeDriver::create_sandbox, (&d, Some(&sandbox)), steps[0])
    &&& forall|i: int|
        0 <= i < outputs.len() ==> #[trigger] deployment_follows(
            d,
            sandbox,
            steps[i],
            outputs[i],
            steps[i + 1],
        )
}

/// The command of a step of a deployment.
pub open spec fn deployment_command(step: DeployStep) -> CommandView {
    step->Run_1@
}

/// Whether a shell command starts a program in the background, with an environment
/// that suits the sandbox, and prints its process number.
pub open spec fn starts(
    command: Seq<char>,
    program: Seq<char>,
    sandbox: DriverSandboxView,
    config: SshComputeConfigView,
) -> bool {
    exists|run: Seq<char>, vars: Seq<(Seq<char>, Seq<char>)>| #[trigger]
        starts_with_vars(command, run, vars, program, sandbox, config)
}

/// Whether a shell command starts a program in the background: its first part runs
/// the program with these variables.
pub open spec fn starts_with_vars(
    command: Seq<char>,
    run: Seq<char>,
    vars: Seq<(Seq<char>, Seq<char>)>,
    program: Seq<char>,
    sandbox: DriverSandboxView,
    config: SshComputeConfigView,
) -> bool {
    &&& command == run + " > /tmp/openshell-supervisor.log 2>&1 & echo $!"@
    &&& shell::shell_words(run) == Some(
        seq!["nohup"@, "env"@] + vars.map_values(
            |v: (Seq<char>, Seq<char>)| v.0 + "="@ + v.1,
        ) + seq![program],
    )
    &&& env_suits(vars, sandbox, config.log_level, config.grpc_endpoint, config.ssh_socket_path)
}

proof fn lemma_deploy_stage(
    d: SshComputeDriver,
    sandbox: DriverSandbox,
    steps: Seq<DeployStep>,
    outputs: Seq<Result<CommandOutput, String>>,
    i: int,
)
    requires
        deployment(d, sandbox, steps, outputs),
        0 <= i < steps.len(),
    ensures
        steps[i] matches DeployStep::Run(stage, _) ==> match stage {
            DeployStage::Prepare => i == 0,
            DeployStage::Copy => i == 1,
            DeployStage::MakeExecutable => i == 2,
            DeployStage::Start => i == 3,
        },
        forall|j: int| 0 <= j < i ==> (#[trigger] steps[j]) is Run,
        i > 0 && steps[i] is Run ==> succeeded(outputs[i - 1]),
        forall|j: int|
            0 <= j < i && (j < i - 1 || steps[i] matches DeployStep::Done(Ok(_))) ==> succeeded(
                #[trigger] outputs[j],
            ),
        steps[i] matches DeployStep::Done(Ok(_)) ==> i == 4,
    decreases i,
{
    if i > 0 {
        lemma_deploy_stage(d, sandbox, steps, outputs, i - 1);
        assert(deployment_follows(
            d,
            sandbox,
            steps[i - 1],
            outputs[i - 1],
            steps[i - 1 + 1],
        ));
        match steps[i] {
            DeployStep::Done(r) => {
                assert(steps[i]@ == DeployStepView::Done(registry::status_outcome(r)));
            },
            DeployStep::Run(stage, c) => {
                assert(steps[i]@ == DeployStepView::Run(stage, c@));
            },
        }
    } else {
        match steps[0] {
            DeployStep::Done(r) => {
                assert(steps[0]@ == DeployStepView::Done(registry::status_outcome(r)));
            },
            DeployStep::Run(stage, c) => {
                assert(steps[0]@ == DeployStepView::Run(stage, c@));
            },
        }
    }
}

/// A deployment that succeeds has run these commands on the host of the settings,
/// one after the other and each with success: the host is prepared; the supervisor
/// binary of the settings is copied to its place; what lies there is made
/// executable; and it is what is started, for this sandbox. The process is the one
/// whose number was printed.
pub proof fn deployed_supervisor_is_the_configured_one(
    d: SshComputeDriver,
    sandbox: DriverSandbox,
    steps: Seq<DeployStep>,
    outputs: Seq<Result<CommandOutput, String>>,
)
    requires
        deployment(d, sandbox, steps, outputs),
        steps.last() matches DeployStep::Done(Ok(_)),
    ensures
        ({
            let place = "/opt/openshell/bin/openshell-sandbox"@;
            &&& outputs.len() == 4
            &&& forall|j: int| 0 <= j < 4 ==> succeeded(#[trigger] outputs[j])
            &&& runs_there(
                deployment_command(steps[0]),
                d.config@,
                "mkdir -p /opt/openshell/bin /sandbox && id sandbox >/dev/null 2>&1 || useradd -r -m sandbox"@,
            )
            &&& copies_there(
                deployment_command(steps[1]),
                d.config@,
                d.config@.supervisor_bin,
                place,
            )
            &&& runs_there(deployment_command(steps[2]), d.config@, "chmod +x "@ + place)
            &&& exists|command: Seq<char>|
                runs_there(deployment_command(steps[3]), d.config@, command) && #[trigger] starts(
                    command,
                    place,
                    sandbox@,
                    d.config@,
                )
            &&& text::unsigned_value(
                text::trimmed(platform::utf8_lossy(outputs[3]->Ok_0.stdout@)),
            ) == Some(steps.last()->Done_0->Ok_0 as nat)
            &&& !d.sandboxes@.contains_key(sandbox@.id)
        }),
{
    let config = d.config@;
    let place = "/opt/openshell/bin/openshell-sandbox"@;
    let n = steps.len() - 1;
    lemma_deploy_stage(d, sandbox, steps, outputs, n);
    assert(steps[0] is Run && steps[1] is Run && steps[2] is Run && steps[3] is Run);
    lemma_deploy_stage(d, sandbox, steps, outputs, 0);
    lemma_deploy_stage(d, sandbox, steps, outputs, 1);
    lemma_deploy_stage(d, sandbox, steps, outputs, 2);
    lemma_deploy_stage(d, sandbox, steps, outputs, 3);
    assert(deployment_follows(d, sandbox, steps[0], outputs[0], steps[0int + 1]));
    assert(deployment_follows(d, sandbox, steps[1], outputs[1], steps[1int + 1]));
    assert(deployment_follows(d, sandbox, steps[2], outputs[2], steps[2int + 1]));
    assert(deployment_follows(d, sandbox, steps[3], outputs[3], steps[3int + 1]));
    assert(steps[0]@ == DeployStepView::Run(steps[0]->Run_0, steps[0]->Run_1@));
    assert(steps[1]@ == DeployStepView::Run(steps[1]->Run_0, steps[1]->Run_1@));
    assert(steps[2]@ == DeployStepView::Run(steps[2]->Run_0, steps[2]->Run_1@));
    assert(steps[3]@ == DeployStepView::Run(steps[3]->Run_0, steps[3]->Run_1@));
    assert(steps[4]@ == DeployStepView::Done(registry::status_outcome(steps[4]->Done_0)));
    lemma_runs_there(config, ssh::prepare_command());
    lemma_copies_there(config, config.supervisor_bin, place);
    lemma_runs_there(config, ssh::chmod_command());
    let vars = ssh::supervisor_vars(config, sandbox@);
    let command = ssh::start_command(vars);
    lemma_runs_there(config, command);
    lemma_env(sandbox@, config.log_level, config.grpc_endpoint, config.ssh_socket_path);
    ssh::supervisor_is_what_runs(vars);
    assert(ssh::settings(vars) =~= vars.map_values(
        |v: (Seq<char>, Seq<char>)| v.0 + "="@ + v.1,
    ));
    assert(starts_with_vars(
        command,
        ssh::supervisor_command(vars),
        vars,
        place,
        sandbox@,
        config,
    ));
    assert(starts(command, place, sandbox@, config));
}

/// Two drivers that differ only in the supervisor binary copy different files, and
/// do all else alike.
pub proof fn other_binary_gives_another_copy(
    d: &SshComputeDriver,
    e: &SshComputeDriver,
    sandbox: &DriverSandbox,
    stage: DeployStage,
    output: Result<CommandOutput, String>,
    of_d: DeployStep,
    of_e: DeployStep,
)
    requires
        call_ensures(
            SshComputeDriver::after_deploy_command,
            (d, sandbox, stage, output),
            of_d,
        ),
        call_ensures(
            SshComputeDriver::after_deploy_command,
            (e, sandbox, stage, output),
            of_e,
        ),
        e.config@ == (SshComputeConfigView {
            supervisor_bin: e.config@.supervisor_bin,
            ..d.config@
        }),
        d.config@.supervisor_bin != e.config@.supervisor_bin,
    ensures
        (of_d@ == of_e@) == !(stage == DeployStage::Prepare && succeeded(output)),
{
    let place = ssh::REMOTE_SUPERVISOR_PATH@;
    lemma_copies_there(d.config@, d.config@.supervisor_bin, place);
    lemma_copies_there(e.config@, e.config@.supervisor_bin, place);
}

/// A deployment goes on for as long as its commands succeed. The first that fails
/// ends it with what was said.
pub proof fn failed_command_ends_the_deployment(
    d: &SshComputeDriver,
    sandbox: &DriverSandbox,
    stage: DeployStage,
    output: Result<CommandOutput, String>,
    next: DeployStep,
    said: Result<String, Status>,
    copied: Result<(), Status>,
)
    requires
        call_ensures(
            SshComputeDriver::after_deploy_command,
            (d, sandbox, stage, output),
            next,
        ),
        call_ensures(ssh::ssh_result, (output,), said),
        call_ensures(ssh::scp_result, (output,), copied),
    ensures
        (next is Run) == (succeeded(output) && stage != DeployStage::Start),
        !succeeded(output) ==> (next matches DeployStep::Done(Err(e)) && (if stage
            == DeployStage::Copy {
            copied matches Err(f) && e@ == f@
        } else {
            said matches Err(f) && e@ == f@
        })),
{
    outcome_is_what_was_printed(output, said, copied);
    match said {
        Ok(s) => {
            assert(ssh::output_view(said) == Ok::<Seq<char>, compute::StatusView>(s@));
        },
        Err(e) => {
            assert(ssh::output_view(said) == Err::<Seq<char>, compute::StatusView>(e@));
        },
    }
    match copied {
        Ok(_) => {
            assert(registry::status_outcome(copied) is Ok);
        },
        Err(e) => {
            assert(registry::status_outcome(copied) == Err::<(), compute::StatusView>(e@));
        },
    }
    match next {
        DeployStep::Done(r) => {
            assert(next@ == DeployStepView::Done(registry::status_outcome(r)));
        },
        DeployStep::Run(s, c) => {
            assert(next@ == DeployStepView::Run(s, c@));
        },
    }
}

/// A sandbox is created only where it is given and its identifier is free.
pub proof fn creation_needs_a_free_identifier(
    d: &SshComputeDriver,
    sandbox: Option<&DriverSandbox>,
    step: DeployStep,
)
    requires
        call_ensures(SshComputeDriver::create_sandbox, (d, sandbox), step),
    ensures
        (step is Run) == (sandbox matches Some(s) && !d.sandboxes@.contains_key(s@.id)),
        sandbox is None ==> (step matches DeployStep::Done(Err(e)) && e@.code
            == StatusCode::InvalidArgument),
        sandbox matches Some(s) ==> d.sandboxes@.contains_key(s@.id) ==> (step matches DeployStep::Done(
            Err(e),
        ) && e@.code == StatusCode::AlreadyExists),
{
    match step {
        DeployStep::Done(r) => {
            assert(step@ == DeployStepView::Done(registry::status_outcome(r)));
        },
        DeployStep::Run(s, c) => {
            assert(step@ == DeployStepView::Run(s, c@));
        },
    }
}

// ---------------------------------------------------------------------------
// End of a supervisor
// ---------------------------------------------------------------------------

/// Whether a shell command ends a process: it sends the signal that `kill` sends
/// when none is named, and, where that did not help, the one that cannot be
/// ignored.
pub open spec fn ends_process(command: Seq<char>, pid: u32) -> bool {
    let n = text::decimal(pid as nat);
    &&& ("kill "@ + n + " 2>/dev/null; "@).is_prefix_of(command)
    &&& (" && kill -9 "@ + n + " 2>/dev/null; true"@).is_suffix_of(command)
}

/// Whether a shell command only asks whether a process is there.
pub open spec fn asks_for_process(command: Seq<char>, pid: u32) -> bool {
    command == "kill -0 "@ + text::decimal(pid as nat) + " 2>/dev/null && echo alive"@
}

/// Whether a command ends a process on the remote host of the settings.
pub open spec fn ends_there(c: CommandView, config: SshComputeConfigView, pid: u32) -> bool {
    exists|command: Seq<char>| #[trigger]
        runs_there(c, config, command) && ends_process(command, pid)
}

proof fn lemma_ends_there(config: SshComputeConfigView, pid: u32)
    ensures
        ends_there(ssh::ssh_call(config, ssh::kill_command(pid)), config, pid),
{
    let n = text::decimal(pid as nat);
    let command = ssh::kill_command(pid);
    let head = "kill "@ + n + " 2>/dev/null; "@;
    let tail = " && kill -9 "@ + n + " 2>/dev/null; true"@;
    reveal_strlit("kill ");
    reveal_strlit(" 2>/dev/null; ");
    reveal_strlit(" 2>/dev/null; sleep 2; kill -0 ");
    reveal_strlit(" 2>/dev/null && kill -9 ");
    reveal_strlit(" && kill -9 ");
    reveal_strlit(" 2>/dev/null; true");
    assert(command.subrange(0, head.len() as int) =~= head);
    assert(command.subrange(command.len() - tail.len(), command.len() as int) =~= tail);
    lemma_runs_there(config, command);
}

/// To ask whether a process is there is not to end it: no command does both.
pub proof fn question_does_not_end_a_process(command: Seq<char>, pid: u32, other: u32)
    requires
        asks_for_process(command, pid),
    ensures
        !ends_process(command, other),
{
    let n = text::decimal(other as nat);
    let head = "kill "@ + n + " 2>/dev/null; "@;
    reveal_strlit("kill ");
    reveal_strlit("kill -0 ");
    text::decimal_round_trip(other as nat);
    if head.is_prefix_of(command) {
        assert(head[5] == n[0]);
        assert(text::decimal_digit(n[0]));
        assert(command[5] == '-');
        assert(command.subrange(0, head.len() as int)[5] == command[5]);
    }
}

/// The commands for one process: one asks whether it is there, the other ends it.
pub proof fn process_is_asked_for_and_ended(
    d: &SshComputeDriver,
    pid: u32,
    ask: Command,
    end: Command,
)
    requires
        call_ensures(SshComputeDriver::is_process_alive, (d, pid), ask),
        call_ensures(SshComputeDriver::kill_supervisor, (d, pid), end),
    ensures
        exists|command: Seq<char>| #[trigger]
            runs_there(ask@, d.config@, command) && asks_for_process(command, pid),
        ends_there(end@, d.config@, pid),
{
    lemma_runs_there(d.config@, ssh::alive_command(pid));
    assert(asks_for_process(ssh::alive_command(pid), pid));
    lemma_ends_there(d.config@, pid);
}

/// A sandbox is stopped by ending its own supervisor on the remote host. Where its
/// process is not known there is nothing to end; a sandbox that is not there cannot
/// be stopped.
pub proof fn stop_ends_the_supervisor(
    d: &SshComputeDriver,
    sandbox_id: &str,
    sandbox_name: &str,
    r: Result<Option<Command>, Status>,
)
    requires
        in_order(d.sandboxes),
        call_ensures(SshComputeDriver::stop_sandbox, (d, sandbox_id, sandbox_name), r),
    ensures
        match r {
            Ok(end) => exists|key: Seq<char>| #[trigger]
                means(d.sandboxes@, sandbox_id@, sandbox_name@, key) && match d.sandboxes@[key].pid {
                    Some(pid) => end matches Some(c) && ends_there(c@, d.config@, pid),
                    None => end is None,
                },
            Err(e) => if says_nothing(sandbox_id@, sandbox_name@) {
                e@.code == StatusCode::InvalidArgument
            } else {
                e@.code == StatusCode::NotFound && means_none(
                    d.sandboxes@,
                    sandbox_id@,
                    sandbox_name@,
                )
            },
        },
        says_nothing(sandbox_id@, sandbox_name@) ==> r is Err,
{
    lemma_meant(d.sandboxes.list(), sandbox_id@, sandbox_name@);
    match registry::meant(d.sandboxes.list(), sandbox_id@, sandbox_name@) {
        Some(key) => {
            assert(means(d.sandboxes@, sandbox_id@, sandbox_name@, key));
            if let Some(pid) = d.sandboxes@[key].pid {
                lemma_ends_there(d.config@, pid);
            }
        },
        None => {},
    }
    match r {
        Ok(Some(c)) => {},
        Ok(None) => {},
        Err(e) => {},
    }
}

/// A sandbox is deleted by ending its own supervisor, with the very command that
/// stops it, and by removing then what was put on the remote host. It is forgotten,
/// and no other is; its deletion is told.
pub proof fn deletion_ends_the_supervisor(
    d: &mut SshComputeDriver,
    before: &SshComputeDriver,
    sandbox_id: &str,
    sandbox_name: &str,
    r: Result<Option<Removal>, Status>,
    stop: Result<Option<Command>, Status>,
)
    requires
        in_order(old(d).sandboxes),
        *before == *old(d),
        call_ensures(SshComputeDriver::delete_sandbox, (d, sandbox_id, sandbox_name), r),
        call_ensures(SshComputeDriver::stop_sandbox, (before, sandbox_id, sandbox_name), stop),
    ensures
        final(d).config == old(d).config,
        match r {
            Ok(Some(removal)) => exists|key: Seq<char>| #[trigger]
                means(old(d).sandboxes@, sandbox_id@, sandbox_name@, key) && {
                    let commands = removal.commands@;
                    &&& final(d).sandboxes@ == old(d).sandboxes@.remove(key)
                    &&& stop matches Ok(end) && match end {
                        Some(c) => commands.len() == 2 && commands[0]@ == c@,
                        None => commands.len() == 1,
                    }
                    &&& old(d).sandboxes@[key].pid matches Some(pid) ==> commands.len() == 2
                        && ends_there(commands[0]@, old(d).config@, pid)
                    &&& runs_there(
                        commands.last()@,
                        old(d).config@,
                        "rm -f /opt/openshell/bin/openshell-sandbox /tmp/openshell-supervisor.log"@,
                    )
                    &&& key.len() > 0 ==> (removal.event matches Some(event) && event@
                        == WatchSandboxesEventView::Deleted(key))
                    &&& key.len() == 0 ==> removal.event is None
                },
            Ok(None) => means_none(old(d).sandboxes@, sandbox_id@, sandbox_name@)
                && !says_nothing(sandbox_id@, sandbox_name@) && final(d).sandboxes@ == old(d).sandboxes@,
            Err(e) => says_nothing(sandbox_id@, sandbox_name@) && e@.code
                == StatusCode::InvalidArgument && final(d).sandboxes@ == old(d).sandboxes@,
        },
{
    let m = old(d).sandboxes@;
    let list = old(d).sandboxes.list();
    let config = old(d).config@;
    lemma_meant(list, sandbox_id@, sandbox_name@);
    stop_ends_the_supervisor(before, sandbox_id, sandbox_name, stop);
    match r {
        Ok(Some(removal)) => {
            let key = registry::meant(list, sandbox_id@, sandbox_name@)->0;
            assert(means(m, sandbox_id@, sandbox_name@, key));
            let commands = removal.commands@;
            let views = commands.map_values(|c: Command| c@);
            assert(removal@.commands == views);
            assert(views == ssh::removal_of(config, m[key]).commands);
            assert(views.len() == commands.len());
            reveal_strlit("rm -f ");
            reveal_strlit("/opt/openshell/bin/openshell-sandbox");
            reveal_strlit(" /tmp/openshell-supervisor.log");
            reveal_strlit(
                "rm -f /opt/openshell/bin/openshell-sandbox /tmp/openshell-supervisor.log",
            );
            assert(ssh::cleanup_command()
                =~= "rm -f /opt/openshell/bin/openshell-sandbox /tmp/openshell-supervisor.log"@);
            lemma_runs_there(config, ssh::cleanup_command());
            assert(views[commands.len() - 1] == commands.last()@);
            assert(views[0] == commands[0]@);
            if let Some(pid) = m[key].pid {
                lemma_ends_there(config, pid);
            }
        },
        _ => {},
    }
}

/// After a stop the sandbox counts as not running, and nothing else changes.
pub proof fn stopped_sandbox_does_not_run(
    d: &mut SshComputeDriver,
    sandbox_id: &str,
    sandbox_name: &str,
    key: Seq<char>,
    other: Seq<char>,
)
    requires
        in_order(old(d).sandboxes),
        call_ensures(SshComputeDriver::stopped, (d, sandbox_id, sandbox_name), ()),
    ensures
        final(d).config == old(d).config,
        final(d).sandboxes@.dom() == old(d).sandboxes@.dom(),
        means(old(d).sandboxes@, sandbox_id@, sandbox_name@, key) ==> final(d).sandboxes@[key] == (
        SandboxModel { running: false, ..old(d).sandboxes@[key] }),
        old(d).sandboxes@.contains_key(other) && !means(
            old(d).sandboxes@,
            sandbox_id@,
            sandbox_name@,
            other,
        ) ==> final(d).sandboxes@[other] == old(d).sandboxes@[other],
{
    let m = old(d).sandboxes@;
    lemma_meant(old(d).sandboxes.list(), sandbox_id@, sandbox_name@);
    assert(final(d).sandboxes@.dom() =~= m.dom());
    match registry::meant(old(d).sandboxes.list(), sandbox_id@, sandbox_name@) {
        Some(k) => {
            if means(m, sandbox_id@, sandbox_name@, key) && k != key {
                assert(text::text_less(k, key) && text::text_less(key, k));
                text::text_less_transitive(k, key, k);
                text::text_less_irreflexive(k);
            }
        },
        None => {},
    }
}

// ---------------------------------------------------------------------------
// Validation
// ---------------------------------------------------------------------------

/// Whether a new sandbox may stand beside those that are there: there is room for
/// one, and that may be the sandbox itself.
pub open spec fn has_room(m: Map<Seq<char>, SandboxModel>, sandbox_id: Seq<char>) -> bool {
    m.dom() == Set::<Seq<char>>::empty() || m.contains_key(sandbox_id)
}

proof fn lemma_room(list: Seq<(Seq<char>, SandboxModel)>, sandbox_id: Seq<char>)
    requires
        string_map::ascending(list),
    ensures
        (registry::occupant(list, sandbox_id) is None) == has_room(
            string_map::map_of(list),
            sandbox_id,
        ),
        registry::occupant(list, sandbox_id) matches Some(other) ==> string_map::map_of(
            list,
        ).contains_key(other) && other != sandbox_id,
{
    let m = string_map::map_of(list);
    if list.len() > 0 {
        assert(m.contains_key(list[0].0));
    } else {
        assert(m.dom() =~= Set::empty());
    }
}

/// A new sandbox is accepted if the remote host was reached, has the tools that the
/// supervisor needs, and has room. Whether its security modules can be read does
/// not matter. Each question goes to the host of the settings.
pub proof fn validation_asks_the_host(
    d: &SshComputeDriver,
    sandbox: &DriverSandbox,
    first: ValidateStep,
    stage: ValidateStage,
    output: Result<CommandOutput, String>,
    next: ValidateStep,
)
    requires
        in_order(d.sandboxes),
        call_ensures(SshComputeDriver::validate_sandbox_create, (d, Some(sandbox)), first),
        call_ensures(
            SshComputeDriver::after_validate_command,
            (d, sandbox, stage, output),
            next,
        ),
    ensures
        first matches ValidateStep::Run(s, c) && s == ValidateStage::Reach && runs_there(
            c@,
            d.config@,
            "echo ok"@,
        ),
        match next {
            ValidateStep::Run(s, c) => match stage {
                ValidateStage::Reach => succeeded(output) && s == ValidateStage::SecurityModules
                    && runs_there(c@, d.config@, "cat /sys/kernel/security/lsm 2>/dev/null"@),
                ValidateStage::SecurityModules => s == ValidateStage::Tools && runs_there(
                    c@,
                    d.config@,
                    "which ip nsenter >/dev/null 2>&1"@,
                ),
                ValidateStage::Tools => false,
            },
            ValidateStep::Done(Ok(_)) => stage == ValidateStage::Tools && succeeded(output)
                && has_room(d.sandboxes@, sandbox@.id),
            ValidateStep::Done(Err(e)) => {
                &&& e@.code == StatusCode::FailedPrecondition
                &&& stage == ValidateStage::Reach ==> !succeeded(output) && e@.message
                    == "cannot reach SSH host "@ + d.config@.host + ":"@ + text::decimal(
                    d.config@.port as nat,
                ) + " as "@ + d.config@.user
                &&& stage != ValidateStage::SecurityModules
                &&& stage == ValidateStage::Tools && succeeded(output) ==> !has_room(
                    d.sandboxes@,
                    sandbox@.id,
                ) && exists|other: Seq<char>|
                    d.sandboxes@.contains_key(other) && e@.message
                        == #[trigger] occupied_message(other, d.config@.host)
                &&& stage == ValidateStage::Tools && !succeeded(output) ==> e@.message
                    == "remote host missing required tools: ip, nsenter (install iproute2)"@
            },
        },
{
    lemma_runs_there(d.config@, "echo ok"@);
    lemma_runs_there(d.config@, "cat /sys/kernel/security/lsm 2>/dev/null"@);
    lemma_runs_there(d.config@, "which ip nsenter >/dev/null 2>&1"@);
    lemma_room(d.sandboxes.list(), sandbox@.id);
    match first {
        ValidateStep::Done(r) => {
            assert(first@ == ValidateStepView::Done(registry::status_outcome(r)));
        },
        ValidateStep::Run(s, c) => {
            assert(first@ == ValidateStepView::Run(s, c@));
        },
    }
    match next {
        ValidateStep::Done(r) => {
            assert(next@ == ValidateStepView::Done(registry::status_outcome(r)));
            if let Some(other) = registry::occupant(d.sandboxes.list(), sandbox@.id) {
                assert(occupied_message(other, d.config@.host)
                    == "SSH driver supports one sandbox per host; sandbox '"@ + other
                    + "' already exists on "@ + d.config@.host);
            }
        },
        ValidateStep::Run(s, c) => {
            assert(next@ == ValidateStepView::Run(s, c@));
        },
    }
}

/// What is said where another sandbox is on the host.
pub open spec fn occupied_message(other: Seq<char>, host: Seq<char>) -> Seq<char> {
    "SSH driver supports one sandbox per host; sandbox '"@ + other + "' already exists on "@ + host
}

// ---------------------------------------------------------------------------
// What is known and told of sandboxes
// ---------------------------------------------------------------------------

/// Whether a sandbox is shown as it is: as it was asked for, with a status that
/// says whether its supervisor is connected, and that it is scheduled just while it
/// runs.
pub open spec fn shows(
    shown: DriverSandboxView,
    model: SandboxModel,
    instance_id: Seq<char>,
    message: Seq<char>,
    supervisor_ready: bool,
) -> bool {
    &&& shown.id == model.sandbox.id
    &&& shown.name == model.sandbox.name
    &&& shown.namespace == model.sandbox.namespace
    &&& shown.spec == model.sandbox.spec
    &&& shown.status matches Some(status) && {
        &&& status.sandbox_name == model.sandbox.name
        &&& status.instance_id == instance_id
        &&& !status.deleting
        &&& status.conditions.len() == (if model.running {
            2int
        } else {
            1int
        })
        &&& status.conditions[0].condition_type == "Ready"@
        &&& (status.conditions[0].status == "True"@) == supervisor_ready
        &&& supervisor_ready ==> status.conditions[0].reason == "SupervisorConnected"@
        &&& !supervisor_ready ==> status.conditions[0].status == "False"@
        &&& !supervisor_ready && model.running ==> status.conditions[0].reason
            == "DependenciesNotReady"@
        &&& !supervisor_ready && !model.running ==> status.conditions[0].reason == "NotRunning"@
        &&& model.running ==> {
            &&& status.conditions[1].condition_type == "Scheduled"@
            &&& status.conditions[1].status == "True"@
            &&& status.conditions[1].reason == "Running"@
            &&& status.conditions[1].message == message
        }
    }
}

/// Whether a sandbox of a remote host is shown as it is: with its process, as far as
/// it is known.
pub open spec fn shows_remote(
    shown: DriverSandboxView,
    model: SandboxModel,
    supervisor_ready: bool,
) -> bool {
    match model.pid {
        Some(pid) => shows(
            shown,
            model,
            text::decimal(pid as nat),
            "Process running (PID "@ + text::decimal(pid as nat) + ")"@,
            supervisor_ready,
        ),
        None => shows(
            shown,
            model,
            Seq::empty(),
            "Process running (PID 0)"@,
            supervisor_ready,
        ),
    }
}

proof fn lemma_shows(
    model: SandboxModel,
    instance_id: Seq<char>,
    message: Seq<char>,
    supervisor_ready: bool,
)
    ensures
        shows(
            registry::process_shown(
                model.sandbox,
                instance_id,
                message,
                model.running,
                supervisor_ready,
            ),
            model,
            instance_id,
            message,
            supervisor_ready,
        ),
{
    registry::conditions_tell_the_state(
        model.sandbox,
        instance_id,
        message,
        model.running,
        supervisor_ready,
    );
}

proof fn lemma_shows_remote(model: SandboxModel, supervisor_ready: bool)
    ensures
        shows_remote(ssh::ssh_shown(model, supervisor_ready), model, supervisor_ready),
{
    reveal_strlit("Process running (PID ");
    reveal_strlit(")");
    reveal_strlit("Process running (PID 0)");
    match model.pid {
        Some(pid) => {
            lemma_shows(
                model,
                text::decimal(pid as nat),
                "Process running (PID "@ + text::decimal(pid as nat) + ")"@,
                supervisor_ready,
            );
        },
        None => {
            assert(text::decimal(0)[0] == '0' && text::decimal(0).len() == 1);
            assert("Process running (PID "@ + text::decimal(0) + ")"@
                =~= "Process running (PID 0)"@);
            lemma_shows(model, Seq::empty(), "Process running (PID 0)"@, supervisor_ready);
        },
    }
}

/// A snapshot of a sandbox of a remote host shows it as it is.
pub proof fn remote_snapshot_shows_the_sandbox(
    state: &SshSandboxState,
    supervisor_ready: bool,
    r: DriverSandbox,
)
    requires
        call_ensures(SshComputeDriver::build_snapshot, (state, supervisor_ready), r),
    ensures
        shows_remote(
            r@,
            SandboxModel { sandbox: state.sandbox@, pid: state.remote_pid, running: state.running },
            supervisor_ready,
        ),
{
    lemma_shows_remote(state.model(), supervisor_ready);
}

/// One sandbox of a remote host is asked for: it is the one that the request means,
/// shown as it is.
pub proof fn remote_sandbox_is_found(
    sandboxes: &Registry<SshSandboxState>,
    sandbox_id: &str,
    sandbox_name: &str,
    connected: bool,
    r: Result<DriverSandbox, Status>,
    asked: Option<String>,
)
    requires
        in_order(*sandboxes),
        call_ensures(
            registry::get_with::<SshSandboxState>,
            (sandboxes, sandbox_id, sandbox_name, connected),
            r,
        ),
        call_ensures(
            registry::readiness_id::<SshSandboxState>,
            (sandboxes, sandbox_id, sandbox_name),
            asked,
        ),
    ensures
        match r {
            Ok(s) => exists|key: Seq<char>| #[trigger]
                means(sandboxes@, sandbox_id@, sandbox_name@, key) && shows_remote(
                    s@,
                    sandboxes@[key],
                    connected,
                ) && (asked matches Some(id) && id@ == key),
            Err(e) => asked is None && (if says_nothing(sandbox_id@, sandbox_name@) {
                e@.code == StatusCode::InvalidArgument
            } else {
                e@.code == StatusCode::NotFound && means_none(
                    sandboxes@,
                    sandbox_id@,
                    sandbox_name@,
                )
            }),
        },
        says_nothing(sandbox_id@, sandbox_name@) ==> r is Err,
{
    lemma_meant(sandboxes.list(), sandbox_id@, sandbox_name@);
    if let Some(key) = registry::meant(sandboxes.list(), sandbox_id@, sandbox_name@) {
        assert(means(sandboxes@, sandbox_id@, sandbox_name@, key));
        lemma_shows_remote(sandboxes@[key], connected);
    }
    match r {
        Ok(s) => {
            assert(registry::sandbox_outcome(r) == Ok::<DriverSandboxView, compute::StatusView>(
                s@,
            ));
        },
        Err(e) => {
            assert(registry::sandbox_outcome(r) == Err::<DriverSandboxView, compute::StatusView>(
                e@,
            ));
        },
    }
}

/// All sandboxes are listed, each once and in the order of the identifiers; what is
/// asked of each supervisor goes by the identifier of its own sandbox.
pub proof fn every_sandbox_is_listed<S: SandboxState>(
    sandboxes: &Registry<S>,
    connected: &[bool],
    r: Vec<DriverSandbox>,
    ids: Vec<String>,
    key: Seq<char>,
)
    requires
        in_order(*sandboxes),
        connected@.len() == sandboxes.list().len(),
        call_ensures(registry::snapshots_with::<S>, (sandboxes, connected), r),
        call_ensures(registry::readiness_ids::<S>, (sandboxes,), ids),
    ensures
        r@.len() == connected@.len(),
        ids@.len() == connected@.len(),
        forall|i: int|
            0 <= i < r@.len() ==> sandboxes@.contains_key((#[trigger] ids@[i])@) && r@[i]@
                == S::shown(sandboxes@[ids@[i]@], connected@[i]),
        forall|i: int, j: int|
            0 <= i < j < ids@.len() ==> text::text_less(
                (#[trigger] ids@[i])@,
                (#[trigger] ids@[j])@,
            ),
        sandboxes@.contains_key(key) ==> exists|i: int|
            0 <= i < ids@.len() && (#[trigger] ids@[i])@ == key,
{
    let list = sandboxes.list();
    assert(compute::sandbox_views(r@).len() == r@.len());
    assert(text::views(ids@).len() == ids@.len());
    assert forall|i: int| 0 <= i < list.len() implies (#[trigger] ids@[i])@ == list[i].0
        && sandboxes@.contains_key(list[i].0) && sandboxes@[list[i].0] == list[i].1 by {
        string_map::ascending_lookup(list, i);
        assert(text::views(ids@)[i] == ids@[i]@);
        assert(registry::all_asked_about(list)[i] == list[i].1.sandbox.id);
    }
    assert forall|i: int| 0 <= i < r@.len() implies sandboxes@.contains_key(
        (#[trigger] ids@[i])@,
    ) && r@[i]@ == S::shown(sandboxes@[ids@[i]@], connected@[i]) by {
        assert(compute::sandbox_views(r@)[i] == r@[i]@);
        assert(registry::all_shown::<S>(list, connected@)[i] == S::shown(list[i].1, connected@[i]));
    }
    if sandboxes@.contains_key(key) {
        let i = choose|i: int| 0 <= i < list.len() && #[trigger] list[i].0 == key;
        assert(ids@[i]@ == key);
    }
}

/// How sandboxes of a remote host are shown in a list, in a watch and after a look.
pub proof fn remote_sandboxes_are_shown(model: SandboxModel, supervisor_ready: bool)
    ensures
        shows_remote(
            <SshSandboxState as SandboxState>::shown(model, supervisor_ready),
            model,
            supervisor_ready,
        ),
{
    lemma_shows_remote(model, supervisor_ready);
}

/// A sandbox whose supervisor was started is known with its process, runs, and is
/// shown as not connected yet. No other sandbox changes.
pub proof fn created_sandbox_is_known(
    d: &mut SshComputeDriver,
    sandbox: DriverSandbox,
    pid: u32,
    r: WatchSandboxesEvent,
    other: Seq<char>,
)
    requires
        call_ensures(SshComputeDriver::created, (d, sandbox, pid), r),
    ensures
        ({
            let model = SandboxModel { sandbox: sandbox@, pid: Some(pid), running: true };
            &&& final(d).config == old(d).config
            &&& final(d).sandboxes@.contains_key(sandbox@.id)
            &&& final(d).sandboxes@[sandbox@.id] == model
            &&& other != sandbox@.id ==> (final(d).sandboxes@.contains_key(other) == old(d).sandboxes@.contains_key(other)) && (old(d).sandboxes@.contains_key(other) ==> final(d).sandboxes@[other] == old(d).sandboxes@[other])
            &&& r@ matches WatchSandboxesEventView::Sandbox(s) && shows_remote(s, model, false)
        }),
{
    lemma_shows_remote(ssh::created_model(sandbox@, pid), false);
}

/// A supervisor counts as alive if and only if the look at it succeeded and printed
/// just that, blanks aside.
pub proof fn alive_is_what_was_printed(output: Result<CommandOutput, String>, r: bool)
    requires
        call_ensures(ssh::alive_result, (output,), r),
    ensures
        r == (succeeded(output) && text::trimmed(platform::utf8_lossy(output->Ok_0.stdout@))
            == "alive"@),
{
}

/// After a look at the supervisor of a sandbox it counts as running just when it
/// was alive; nothing else of it and no other sandbox changes. Watchers are told
/// when that changed, and at every look while it is connected.
pub proof fn look_notes_what_was_seen(
    d: &mut SshComputeDriver,
    sandbox_id: &str,
    output: Result<CommandOutput, String>,
    connected: bool,
    r: Option<WatchSandboxesEvent>,
    alive: bool,
    other: Seq<char>,
)
    requires
        call_ensures(SshComputeDriver::poll_result, (d, sandbox_id, output, connected), r),
        call_ensures(ssh::alive_result, (output,), alive),
    ensures
        ({
            let m = old(d).sandboxes@;
            let after = final(d).sandboxes@;
            let id = sandbox_id@;
            &&& final(d).config == old(d).config
            &&& after.dom() == m.dom()
            &&& m.contains_key(id) ==> after[id] == (SandboxModel { running: alive, ..m[id] })
            &&& m.contains_key(other) && other != id ==> after[other] == m[other]
            &&& (r is Some) == (m.contains_key(id) && (m[id].running != alive || connected))
            &&& r matches Some(e) ==> (e@ matches WatchSandboxesEventView::Sandbox(s)
                && shows_remote(s, after[id], connected))
        }),
{
    let m = old(d).sandboxes@;
    assert(final(d).sandboxes@.dom() =~= m.dom());
    if m.contains_key(sandbox_id@) {
        lemma_shows_remote(SandboxModel { running: alive, ..m[sandbox_id@] }, connected);
    }
    match r {
        Some(e) => {
            assert(compute::event_view(r) == Some(e@));
        },
        None => {},
    }
}

/// The supervisors to look at are those whose process is known, each by its own
/// process.
pub proof fn known_processes_are_looked_at(
    d: &SshComputeDriver,
    r: Vec<(String, u32)>,
    k: int,
    key: Seq<char>,
)
    requires
        call_ensures(SshComputeDriver::poll_targets, (d,), r),
    ensures
        0 <= k < r@.len() ==> d.sandboxes@.contains_key(r@[k].0@) && d.sandboxes@[r@[k].0@].pid
            == Some(r@[k].1),
        d.sandboxes@.contains_key(key) && d.sandboxes@[key].pid is Some ==> exists|i: int|
            0 <= i < r@.len() && (#[trigger] r@[i]).0@ == key,
{
    let list = d.sandboxes.list();
    let views = r@.map_values(|t: (String, u32)| (t.0@, t.1));
    assert(views.len() == r@.len());
    if 0 <= k < r@.len() {
        assert(views[k] == (r@[k].0@, r@[k].1));
        let i = ssh::target_is_known(list, k);
        string_map::ascending_lookup(list, i);
    }
    if d.sandboxes@.contains_key(key) && d.sandboxes@[key].pid is Some {
        let i = choose|i: int| 0 <= i < list.len() && #[trigger] list[i].0 == key;
        string_map::ascending_lookup(list, i);
        let j = ssh::known_is_a_target(list, i);
        assert(views[j] == (r@[j].0@, r@[j].1));
        assert(r@[j].0@ == key);
    }
}

/// Settings have to name a host, a key and a supervisor binary, and the two files
/// have to be there. A driver with them has them, and no sandbox.
pub proof fn remote_settings_are_complete(
    config: ssh::SshComputeConfig,
    key_exists: bool,
    bin_exists: bool,
    r: Result<SshComputeDriver, String>,
)
    requires
        call_ensures(SshComputeDriver::with_files, (config, key_exists, bin_exists), r),
    ensures
        (r is Ok) == (config@.host.len() > 0 && config@.identity_file.len() > 0 && key_exists
            && config@.supervisor_bin.len() > 0 && bin_exists),
        r matches Ok(d) ==> d.config@ == config@ && d.sandboxes@.dom() == Set::<Seq<char>>::empty(),
        r matches Err(m) ==> {
            &&& config@.host.len() > 0 && config@.identity_file.len() > 0 && !key_exists
                ==> config@.identity_file.is_suffix_of(m@)
            &&& config@.host.len() > 0 && config@.identity_file.len() > 0 && key_exists
                && config@.supervisor_bin.len() > 0 ==> config@.supervisor_bin.is_suffix_of(m@)
        },
{
    match r {
        Ok(d) => {
            assert(ssh::driver_outcome(r) == Ok::<_, Seq<char>>((d.config@, d.sandboxes@)));
            assert(d.sandboxes@.dom() =~= Set::empty());
        },
        Err(m) => {
            assert(ssh::driver_outcome(r) == Err::<
                (SshComputeConfigView, Map<Seq<char>, SandboxModel>),
                Seq<char>,
            >(m@));
            text::end_is_a_suffix("SSH identity file not found: "@, config@.identity_file);
            text::end_is_a_suffix("SSH supervisor binary not found: "@, config@.supervisor_bin);
        },
    }
}

// ---------------------------------------------------------------------------
// Sandboxes of this host
// ---------------------------------------------------------------------------

/// Whether a sandbox of this host is shown as it is.
pub open spec fn shows_local(
    shown: DriverSandboxView,
    model: SandboxModel,
    supervisor_ready: bool,
) -> bool {
    shows(shown, model, Seq::empty(), "Process running"@, supervisor_ready)
}

/// How sandboxes of this host are shown: in a snapshot, in a list, in a watch and
/// after a look.
pub proof fn local_sandboxes_are_shown(
    model: SandboxModel,
    state: &LocalSandboxState,
    supervisor_ready: bool,
    r: DriverSandbox,
)
    requires
        call_ensures(LocalComputeDriver::build_snapshot, (state, supervisor_ready), r),
    ensures
        shows_local(
            <LocalSandboxState as SandboxState>::shown(model, supervisor_ready),
            model,
            supervisor_ready,
        ),
        shows_local(
            r@,
            SandboxModel { sandbox: state.sandbox@, pid: None, running: state.running },
            supervisor_ready,
        ),
{
    lemma_shows(model, Seq::empty(), "Process running"@, supervisor_ready);
    lemma_shows(state.model(), Seq::empty(), "Process running"@, supervisor_ready);
}

/// The process that is started for a sandbox of this host is the supervisor binary
/// of the settings, with the variables that it needs. It is started only where the
/// sandbox is given and its identifier is free.
pub proof fn configured_supervisor_is_started(
    d: &LocalComputeDriver,
    sandbox: Option<&DriverSandbox>,
    r: Result<Launch, Status>,
)
    requires
        call_ensures(LocalComputeDriver::create_sandbox, (d, sandbox), r),
    ensures
        (r is Ok) == (sandbox matches Some(s) && !d.sandboxes@.contains_key(s@.id)),
        r matches Ok(launch) ==> {
            &&& launch.program@ == d.config@.supervisor_bin
            &&& env_suits(
                text::pair_views(launch.env@),
                sandbox->0@,
                d.config@.log_level,
                d.config@.grpc_endpoint,
                d.config@.ssh_socket_path,
            )
        },
        r matches Err(e) ==> e@.code == (if sandbox is None {
            StatusCode::InvalidArgument
        } else {
            StatusCode::AlreadyExists
        }),
{
    if let Some(s) = sandbox {
        lemma_env(s@, d.config@.log_level, d.config@.grpc_endpoint, d.config@.ssh_socket_path);
    }
}

/// What is started for a sandbox, and with which variables, does not depend on how
/// one asks.
pub proof fn local_supervisor_gets_what_it_needs(
    d: &LocalComputeDriver,
    sandbox: &DriverSandbox,
    env: Vec<(String, String)>,
    launch: Launch,
)
    requires
        call_ensures(LocalComputeDriver::build_supervisor_env, (d, sandbox), env),
        call_ensures(LocalComputeDriver::spawn_supervisor, (d, sandbox), launch),
    ensures
        env_suits(
            text::pair_views(env@),
            sandbox@,
            d.config@.log_level,
            d.config@.grpc_endpoint,
            d.config@.ssh_socket_path,
        ),
        launch.program@ == d.config@.supervisor_bin,
        text::pair_views(launch.env@) == text::pair_views(env@),
{
    lemma_env(sandbox@, d.config@.log_level, d.config@.grpc_endpoint, d.config@.ssh_socket_path);
}

/// A sandbox of this host whose supervisor was started is known and runs, and is
/// shown as not connected yet. No other sandbox changes.
pub proof fn created_local_sandbox_is_known(
    d: &mut LocalComputeDriver,
    sandbox: DriverSandbox,
    r: WatchSandboxesEvent,
    other: Seq<char>,
)
    requires
        call_ensures(LocalComputeDriver::created, (d, sandbox), r),
    ensures
        ({
            let model = SandboxModel { sandbox: sandbox@, pid: None, running: true };
            &&& final(d).config == old(d).config
            &&& final(d).sandboxes@.contains_key(sandbox@.id)
            &&& final(d).sandboxes@[sandbox@.id] == model
            &&& other != sandbox@.id ==> (final(d).sandboxes@.contains_key(other)
                == old(d).sandboxes@.contains_key(other)) && (old(d).sandboxes@.contains_key(other)
                ==> final(d).sandboxes@[other] == old(d).sandboxes@[other])
            &&& r@ matches WatchSandboxesEventView::Sandbox(s) && shows_local(s, model, false)
        }),
{
    lemma_shows(local::created_model(sandbox@), Seq::empty(), "Process running"@, false);
}

/// A sandbox of this host is stopped by ending its own child process; it counts as
/// not running from then on. One that is not there is stopped already. Nothing else
/// changes.
pub proof fn stop_ends_its_own_child(
    d: &mut LocalComputeDriver,
    sandbox_id: &str,
    sandbox_name: &str,
    r: Result<Option<String>, Status>,
    other: Seq<char>,
)
    requires
        in_order(old(d).sandboxes),
        call_ensures(LocalComputeDriver::stop_sandbox, (d, sandbox_id, sandbox_name), r),
    ensures
        final(d).config == old(d).config,
        final(d).sandboxes@.dom() == old(d).sandboxes@.dom(),
        match r {
            Ok(Some(child)) => {
                &&& means(old(d).sandboxes@, sandbox_id@, sandbox_name@, child@)
                &&& final(d).sandboxes@[child@] == (SandboxModel {
                    running: false,
                    ..old(d).sandboxes@[child@]
                })
                &&& old(d).sandboxes@.contains_key(other) && other != child@ ==> final(
                    d).sandboxes@[other] == old(d).sandboxes@[other]
            },
            Ok(None) => means_none(old(d).sandboxes@, sandbox_id@, sandbox_name@)
                && !says_nothing(sandbox_id@, sandbox_name@) && final(d).sandboxes@
                == old(d).sandboxes@,
            Err(e) => says_nothing(sandbox_id@, sandbox_name@) && e@.code
                == StatusCode::InvalidArgument && final(d).sandboxes@ == old(d).sandboxes@,
        },
{
    lemma_meant(old(d).sandboxes.list(), sandbox_id@, sandbox_name@);
    assert(final(d).sandboxes@.dom() =~= old(d).sandboxes@.dom());
}

/// A sandbox of this host is deleted by ending the child process that a stop would
/// end. It is forgotten, and no other is; its deletion is told.
pub proof fn deletion_ends_its_own_child(
    d: &mut LocalComputeDriver,
    sandbox_id: &str,
    sandbox_name: &str,
    r: Result<Option<local::Removal>, Status>,
)
    requires
        in_order(old(d).sandboxes),
        call_ensures(LocalComputeDriver::delete_sandbox, (d, sandbox_id, sandbox_name), r),
    ensures
        final(d).config == old(d).config,
        match r {
            Ok(Some(removal)) => {
                let key = removal.child@;
                &&& means(old(d).sandboxes@, sandbox_id@, sandbox_name@, key)
                &&& final(d).sandboxes@ == old(d).sandboxes@.remove(key)
                &&& key.len() > 0 ==> (removal.event matches Some(event) && event@
                    == WatchSandboxesEventView::Deleted(key))
                &&& key.len() == 0 ==> removal.event is None
            },
            Ok(None) => means_none(old(d).sandboxes@, sandbox_id@, sandbox_name@)
                && !says_nothing(sandbox_id@, sandbox_name@) && final(d).sandboxes@
                == old(d).sandboxes@,
            Err(e) => says_nothing(sandbox_id@, sandbox_name@) && e@.code
                == StatusCode::InvalidArgument && final(d).sandboxes@ == old(d).sandboxes@,
        },
{
    lemma_meant(old(d).sandboxes.list(), sandbox_id@, sandbox_name@);
}

/// A new sandbox of this host is accepted if and only if it is given, the
/// supervisor binary is there, and there is room.
pub proof fn local_validation_needs_binary_and_room(
    d: &LocalComputeDriver,
    sandbox: Option<&DriverSandbox>,
    bin_exists: bool,
    r: Result<(), Status>,
)
    requires
        in_order(d.sandboxes),
        call_ensures(LocalComputeDriver::validate_with, (d, sandbox, bin_exists), r),
    ensures
        (r is Ok) == (sandbox matches Some(s) && bin_exists && has_room(d.sandboxes@, s@.id)),
        r matches Err(e) ==> {
            &&& e@.code == (if sandbox is None {
                StatusCode::InvalidArgument
            } else {
                StatusCode::FailedPrecondition
            })
            &&& sandbox is Some && !bin_exists ==> d.config@.supervisor_bin.is_suffix_of(e@.message)
            &&& sandbox is Some && bin_exists ==> exists|other: Seq<char>|
                d.sandboxes@.contains_key(other) && e@.message == #[trigger] occupied_here_message(
                    other,
                )
        },
{
    if let Some(s) = sandbox {
        lemma_room(d.sandboxes.list(), s@.id);
        text::end_is_a_suffix("supervisor binary not found: "@, d.config@.supervisor_bin);
        if let Some(other) = registry::occupant(d.sandboxes.list(), s@.id) {
            assert(occupied_here_message(other)
                == "local driver supports one sandbox per host; sandbox '"@ + other
                + "' already exists on this host"@);
        }
    }
    match r {
        Ok(_) => {
            assert(registry::status_outcome(r) is Ok);
        },
        Err(e) => {
            assert(registry::status_outcome(r) == Err::<(), compute::StatusView>(e@));
        },
    }
}

/// What is said where another sandbox is on this host.
pub open spec fn occupied_here_message(other: Seq<char>) -> Seq<char> {
    "local driver supports one sandbox per host; sandbox '"@ + other
        + "' already exists on this host"@
}

/// Settings have to name the supervisor binary and the endpoint, and the binary has
/// to be there. A driver with them has them, and no sandbox.
pub proof fn local_settings_are_complete(
    config: local::LocalComputeConfig,
    bin_exists: bool,
    r: Result<LocalComputeDriver, String>,
)
    requires
        call_ensures(LocalComputeDriver::with_binary, (config, bin_exists), r),
    ensures
        (r is Ok) == (config@.supervisor_bin.len() > 0 && config@.grpc_endpoint.len() > 0
            && bin_exists),
        r matches Ok(d) ==> d.config@ == config@ && d.sandboxes@.dom() == Set::<Seq<char>>::empty(),
        r matches Err(m) ==> config@.supervisor_bin.len() > 0 && config@.grpc_endpoint.len() > 0
            ==> config@.supervisor_bin.is_suffix_of(m@),
{
    match r {
        Ok(d) => {
            assert(local::driver_outcome(r) == Ok::<_, Seq<char>>((d.config@, d.sandboxes@)));
            assert(d.sandboxes@.dom() =~= Set::empty());
        },
        Err(m) => {
            assert(local::driver_outcome(r) == Err::<
                (local::LocalComputeConfigView, Map<Seq<char>, SandboxModel>),
                Seq<char>,
            >(m@));
            text::end_is_a_suffix("supervisor binary not found: "@, config@.supervisor_bin);
        },
    }
}

/// One sandbox of this host is asked for: it is the one that the request means,
/// shown as it is.
pub proof fn local_sandbox_is_found(
    sandboxes: &Registry<LocalSandboxState>,
    sandbox_id: &str,
    sandbox_name: &str,
    connected: bool,
    r: Result<DriverSandbox, Status>,
    asked: Option<String>,
)
    requires
        in_order(*sandboxes),
        call_ensures(
            registry::get_with::<LocalSandboxState>,
            (sandboxes, sandbox_id, sandbox_name, connected),
            r,
        ),
        call_ensures(
            registry::readiness_id::<LocalSandboxState>,
            (sandboxes, sandbox_id, sandbox_name),
            asked,
        ),
    ensures
        match r {
            Ok(s) => exists|key: Seq<char>| #[trigger]
                means(sandboxes@, sandbox_id@, sandbox_name@, key) && shows_local(
                    s@,
                    sandboxes@[key],
                    connected,
                ) && (asked matches Some(id) && id@ == key),
            Err(e) => asked is None && (if says_nothing(sandbox_id@, sandbox_name@) {
                e@.code == StatusCode::InvalidArgument
            } else {
                e@.code == StatusCode::NotFound && means_none(
                    sandboxes@,
                    sandbox_id@,
                    sandbox_name@,
                )
            }),
        },
        says_nothing(sandbox_id@, sandbox_name@) ==> r is Err,
{
    lemma_meant(sandboxes.list(), sandbox_id@, sandbox_name@);
    if let Some(key) = registry::meant(sandboxes.list(), sandbox_id@, sandbox_name@) {
        assert(means(sandboxes@, sandbox_id@, sandbox_name@, key));
        lemma_shows(sandboxes@[key], Seq::empty(), "Process running"@, connected);
    }
    match r {
        Ok(s) => {
            assert(registry::sandbox_outcome(r) == Ok::<DriverSandboxView, compute::StatusView>(
                s@,
            ));
        },
        Err(e) => {
            assert(registry::sandbox_outcome(r) == Err::<DriverSandboxView, compute::StatusView>(
                e@,
            ));
        },
    }
}

/// After a look at a child process its sandbox counts as running just when the
/// child runs; nothing else of it and no other sandbox changes. Watchers are told
/// when that changed, and at every look while it is connected.
pub proof fn look_at_a_child_notes_what_was_seen(
    d: &mut LocalComputeDriver,
    sandbox_id: &str,
    child: ChildState,
    connected: bool,
    r: Option<WatchSandboxesEvent>,
    seen: (bool, bool),
    other: Seq<char>,
)
    requires
        call_ensures(LocalComputeDriver::poll_result, (d, sandbox_id, child, connected), r),
        call_ensures(local::child_seen, (child,), seen),
    ensures
        ({
            let m = old(d).sandboxes@;
            let after = final(d).sandboxes@;
            let id = sandbox_id@;
            let alive = child == ChildState::Running;
            &&& seen == (alive, child == ChildState::Exited)
            &&& final(d).config == old(d).config
            &&& after.dom() == m.dom()
            &&& m.contains_key(id) ==> after[id] == (SandboxModel { running: alive, ..m[id] })
            &&& m.contains_key(other) && other != id ==> after[other] == m[other]
            &&& (r is Some) == (m.contains_key(id) && (m[id].running != alive || connected))
            &&& r matches Some(e) ==> (e@ matches WatchSandboxesEventView::Sandbox(s)
                && shows_local(s, after[id], connected))
        }),
{
    let m = old(d).sandboxes@;
    assert(final(d).sandboxes@.dom() =~= m.dom());
    if m.contains_key(sandbox_id@) {
        lemma_shows(
            SandboxModel { running: child == ChildState::Running, ..m[sandbox_id@] },
            Seq::empty(),
            "Process running"@,
            connected,
        );
    }
    match r {
        Some(e) => {
            assert(compute::event_view(r) == Some(e@));
        },
        None => {},
    }
}

/// A round looks at the child process of every sandbox, in the order of the
/// identifiers.
pub proof fn round_starts_with_all_sandboxes(d: &LocalComputeDriver, r: Vec<String>, key: Seq<char>)
    requires
        call_ensures(LocalComputeDriver::poll_targets, (d,), r),
    ensures
        d.sandboxes@.contains_key(key) == exists|i: int|
            0 <= i < r@.len() && (#[trigger] r@[i])@ == key,
        forall|i: int, j: int|
            0 <= i < j < r@.len() ==> text::text_less((#[trigger] r@[i])@, (#[trigger] r@[j])@),
{
    let list = d.sandboxes.list();
    let views = text::views(r@);
    assert(views.len() == r@.len());
    assert forall|i: int| 0 <= i < r@.len() implies (#[trigger] r@[i])@ == list[i].0 by {
        assert(views[i] == r@[i]@);
        assert(local::ids_of(list)[i] == list[i].0);
    }
    if d.sandboxes@.contains_key(key) {
        let i = choose|i: int| 0 <= i < list.len() && #[trigger] list[i].0 == key;
        assert(r@[i]@ == key);
    }
    if exists|i: int| 0 <= i < r@.len() && (#[trigger] r@[i])@ == key {
        let i = choose|i: int| 0 <= i < r@.len() && (#[trigger] r@[i])@ == key;
        assert(list[i].0 == key);
    }
}

// ---------------------------------------------------------------------------
// Watches
// ---------------------------------------------------------------------------

/// A watch passes every event on, goes on where it missed some, and ends with the
/// events.
pub proof fn watch_passes_events_on(received: registry::Received, r: registry::Relay)
    requires
        call_ensures(registry::relay, (received,), r),
    ensures
        r matches registry::Relay::Send(e) ==> received == registry::Received::Event(e),
        (r is Send) == (received is Event),
        (r is Skip) == (received is Lagged),
        (r is Stop) == (received is Closed),
{
}

/// A watch subscribes first; after that it tells of every sandbox, each once and in
/// the order of the identifiers.
pub proof fn watch_tells_of_every_sandbox<S: SandboxState, R: registry::SupervisorReadiness>(
    run: registry::Subscribing,
    sandboxes: &Registry<S>,
    readiness: &R,
    first: registry::WatchStep,
    second: registry::WatchStep,
    key: Seq<char>,
)
    requires
        in_order(*sandboxes),
        call_ensures(registry::start_watch, (), first),
        call_ensures(
            registry::after_subscription::<S, R>,
            (run, sandboxes, readiness),
            second,
        ),
    ensures
        first is Subscribe,
        second matches registry::WatchStep::Tell(events) && {
            &&& events@.len() == sandboxes.list().len()
            &&& sandboxes@.contains_key(key) ==> exists|i: int, connected: bool|
                0 <= i < events@.len() && registry::said(readiness, key, connected) && (
                #[trigger] events@[i])@ == WatchSandboxesEventView::Sandbox(
                    #[trigger] S::shown(sandboxes@[key], connected),
                )
        },
{
    let list = sandboxes.list();
    let connected = choose|connected: Seq<bool>|
        registry::all_said(readiness, list, connected) && second@
            == registry::WatchStepView::Tell(
            compute::told(#[trigger] registry::all_shown::<S>(list, connected)),
        );
    let shown = registry::all_shown::<S>(list, connected);
    if let registry::WatchStep::Tell(events) = second {
        let views = compute::event_views(events@);
        assert(views == compute::told(shown));
        assert(views.len() == events@.len());
        assert(compute::told(shown).len() == shown.len());
        if sandboxes@.contains_key(key) {
            let i = choose|i: int| 0 <= i < list.len() && #[trigger] list[i].0 == key;
            string_map::ascending_lookup(list, i);
            assert(registry::said(readiness, list[i].1.sandbox.id, connected[i]));
            assert(views[i] == events@[i]@);
            assert(compute::told(shown)[i] == WatchSandboxesEventView::Sandbox(shown[i]));
            assert(shown[i] == S::shown(sandboxes@[key], connected[i]));
        }
    }
}

// ---------------------------------------------------------------------------
// Parts of the drivers
// ---------------------------------------------------------------------------

/// The process of the supervisor is the number that was printed, blanks aside;
/// anything else is refused, and shown.
pub proof fn printed_number_is_the_process(printed: &str, r: Result<u32, Status>)
    requires
        call_ensures(ssh::parse_pid, (printed,), r),
    ensures
        r matches Ok(pid) ==> text::unsigned_value(text::trimmed(printed@)) == Some(pid as nat),
        r matches Err(e) ==> e@.code == StatusCode::Internal && (match text::unsigned_value(
            text::trimmed(printed@),
        ) {
            Some(n) => n > u32::MAX,
            None => true,
        }) && platform::debug_text(printed@).is_suffix_of(e@.message),
{
    match r {
        Ok(pid) => {
            assert(registry::status_outcome(r) == Ok::<u32, compute::StatusView>(pid));
        },
        Err(e) => {
            assert(registry::status_outcome(r) == Err::<u32, compute::StatusView>(e@));
            text::end_is_a_suffix(
                "failed to parse supervisor PID from output: "@,
                platform::debug_text(printed@),
            );
        },
    }
}

/// A deployment begins as a creation does, and there is room for one sandbox on a
/// host.
pub proof fn deployment_begins_with_the_host(
    d: &SshComputeDriver,
    first: DeployStep,
    sandbox_id: &str,
    room: Result<(), Status>,
)
    requires
        in_order(d.sandboxes),
        call_ensures(SshComputeDriver::deploy_and_start_supervisor, (d,), first),
        call_ensures(SshComputeDriver::check_room, (d, sandbox_id), room),
    ensures
        first matches DeployStep::Run(stage, c) && stage == DeployStage::Prepare && runs_there(
            c@,
            d.config@,
            "mkdir -p /opt/openshell/bin /sandbox && id sandbox >/dev/null 2>&1 || useradd -r -m sandbox"@,
        ),
        (room is Ok) == has_room(d.sandboxes@, sandbox_id@),
        room matches Err(e) ==> e@.code == StatusCode::FailedPrecondition && exists|other: Seq<char>|
            d.sandboxes@.contains_key(other) && e@.message == #[trigger] occupied_message(
                other,
                d.config@.host,
            ),
{
    lemma_runs_there(d.config@, ssh::prepare_command());
    lemma_room(d.sandboxes.list(), sandbox_id@);
    match first {
        DeployStep::Done(r) => {
            assert(first@ == DeployStepView::Done(registry::status_outcome(r)));
        },
        DeployStep::Run(s, c) => {
            assert(first@ == DeployStepView::Run(s, c@));
        },
    }
    match room {
        Ok(_) => {
            assert(registry::status_outcome(room) is Ok);
        },
        Err(e) => {
            assert(registry::status_outcome(room) == Err::<(), compute::StatusView>(e@));
            if let Some(other) = registry::occupant(d.sandboxes.list(), sandbox_id@) {
                assert(occupied_message(other, d.config@.host)
                    == "SSH driver supports one sandbox per host; sandbox '"@ + other
                    + "' already exists on "@ + d.config@.host);
            }
        },
    }
}

/// What the drivers of single hosts say of themselves: which they are, and that they
/// use neither images nor GPUs.
pub proof fn host_drivers_say_what_they_can_do(
    s: &SshComputeDriver,
    of_s: compute::GetCapabilitiesResponse,
    l: &LocalComputeDriver,
    of_l: compute::GetCapabilitiesResponse,
    error: &str,
    failed: Status,
)
    requires
        call_ensures(SshComputeDriver::capabilities, (s,), of_s),
        call_ensures(LocalComputeDriver::capabilities, (l,), of_l),
        call_ensures(local::spawn_error, (error,), failed),
    ensures
        of_s.driver_name@ == "ssh"@,
        of_l.driver_name@ == "local"@,
        of_s.default_image@.len() == 0 && !of_s.supports_gpu && of_s.gpu_count == 0,
        of_l.default_image@.len() == 0 && !of_l.supports_gpu && of_l.gpu_count == 0,
        failed@.code == StatusCode::Internal && error@.is_suffix_of(failed@.message),
{
    text::end_is_a_suffix("failed to spawn supervisor: "@, error@);
}

/// Settings where nothing is said: the host is reached as `root` at the usual port.
pub proof fn host_settings_have_defaults(
    s: ssh::SshComputeConfig,
    l: local::LocalComputeConfig,
)
    requires
        call_ensures(<ssh::SshComputeConfig as Default>::default, (), s),
        call_ensures(<local::LocalComputeConfig as Default>::default, (), l),
    ensures
        s@.user == "root"@ && s@.port == 22 && s@.log_level == "info"@,
        s@.host.len() == 0 && s@.identity_file.len() == 0 && s@.supervisor_bin.len() == 0,
        s@.grpc_endpoint.len() == 0 && s@.ssh_socket_path.len() == 0,
        l@.log_level == "info"@ && l@.supervisor_bin.len() == 0,
        l@.grpc_endpoint.len() == 0 && l@.ssh_socket_path.len() == 0,
{
}

/// Whether two registries hold the same but for one sandbox.
pub open spec fn same_but_for(
    a: Map<Seq<char>, SandboxModel>,
    b: Map<Seq<char>, SandboxModel>,
    key: Seq<char>,
) -> bool {
    forall|other: Seq<char>|
        other != key ==> #[trigger] a.contains_key(other) == b.contains_key(other) && (
        a.contains_key(other) ==> a[other] == b[other])
}

/// A sandbox that is put into a registry is there, in place of what was there under
/// its identifier; it is told as not connected yet.
pub proof fn registered_sandbox_is_there<S: SandboxState>(
    sandboxes: &mut Registry<S>,
    state: S,
    r: WatchSandboxesEvent,
)
    requires
        call_ensures(registry::register::<S>, (sandboxes, state), r),
    ensures
        ({
            let id = state.model().sandbox.id;
            &&& final(sandboxes)@.contains_key(id)
            &&& final(sandboxes)@[id] == state.model()
            &&& same_but_for(old(sandboxes)@, final(sandboxes)@, id)
            &&& r@ == WatchSandboxesEventView::Sandbox(S::shown(state.model(), false))
        }),
{
}

/// A sandbox that is taken out of a registry is the one that the request means, and
/// is not there any more.
pub proof fn taken_sandbox_is_gone<S: SandboxState>(
    sandboxes: &mut Registry<S>,
    sandbox_id: &str,
    sandbox_name: &str,
    r: Option<S>,
)
    requires
        in_order(*old(sandboxes)),
        call_ensures(registry::take::<S>, (sandboxes, sandbox_id, sandbox_name), r),
    ensures
        match r {
            Some(state) => exists|key: Seq<char>| #[trigger]
                means(old(sandboxes)@, sandbox_id@, sandbox_name@, key) && state.model() == old(
                    sandboxes)@[key] && !final(sandboxes)@.contains_key(key) && same_but_for(
                    old(sandboxes)@,
                    final(sandboxes)@,
                    key,
                ),
            None => means_none(old(sandboxes)@, sandbox_id@, sandbox_name@) && final(sandboxes)@
                == old(sandboxes)@,
        },
{
    lemma_meant(old(sandboxes).list(), sandbox_id@, sandbox_name@);
    if let Some(key) = registry::meant(old(sandboxes).list(), sandbox_id@, sandbox_name@) {
        assert(means(old(sandboxes)@, sandbox_id@, sandbox_name@, key));
    }
}

/// What is done to one sandbox of a registry leaves the others as they are.
pub proof fn registry_keeps_other_sandboxes<S: SandboxState>(
    added: &mut Registry<S>,
    state: S,
    removed: &mut Registry<S>,
    id: &str,
    out: Option<S>,
    noted: &mut Registry<S>,
    running: bool,
)
    requires
        call_ensures(Registry::<S>::insert, (added, state), ()),
        call_ensures(Registry::<S>::remove, (removed, id), out),
        call_ensures(Registry::<S>::set_running, (noted, id, running), ()),
    ensures
        final(added)@.contains_key(state.model().sandbox.id),
        final(added)@[state.model().sandbox.id] == state.model(),
        same_but_for(old(added)@, final(added)@, state.model().sandbox.id),
        !final(removed)@.contains_key(id@),
        (out is Some) == old(removed)@.contains_key(id@),
        out matches Some(s) ==> s.model() == old(removed)@[id@],
        same_but_for(old(removed)@, final(removed)@, id@),
        final(noted)@.contains_key(id@) == old(noted)@.contains_key(id@),
        old(noted)@.contains_key(id@) ==> final(noted)@[id@] == (SandboxModel {
            running,
            ..old(noted)@[id@]
        }),
        same_but_for(old(noted)@, final(noted)@, id@),
{
}

/// What a registry is asked, it answers from what it holds.
pub proof fn registry_answers_from_what_it_holds<S: SandboxState>(
    sandboxes: &Registry<S>,
    id: &str,
    there: bool,
    found: Option<&S>,
    sandbox: Option<&DriverSandbox>,
    create: Result<(), Status>,
    occupant: Option<&str>,
)
    requires
        in_order(*sandboxes),
        call_ensures(Registry::<S>::contains, (sandboxes, id), there),
        call_ensures(Registry::<S>::get, (sandboxes, id), found),
        call_ensures(registry::check_create::<S>, (sandboxes, sandbox), create),
        call_ensures(registry::find_occupant::<S>, (sandboxes, id), occupant),
    ensures
        there == sandboxes@.contains_key(id@),
        (found is Some) == there,
        found matches Some(s) ==> s.model() == sandboxes@[id@],
        (create is Ok) == (sandbox matches Some(s) && !sandboxes@.contains_key(s@.id)),
        create matches Err(e) ==> e@.code == (if sandbox is None {
            StatusCode::InvalidArgument
        } else {
            StatusCode::AlreadyExists
        }),
        (occupant is None) == has_room(sandboxes@, id@),
        occupant matches Some(other) ==> sandboxes@.contains_key(other@) && other@ != id@,
{
    lemma_room(sandboxes.list(), id@);
    match create {
        Ok(_) => {
            assert(registry::status_outcome(create) is Ok);
        },
        Err(e) => {
            assert(registry::status_outcome(create) == Err::<(), compute::StatusView>(e@));
        },
    }
}

/// A deletion is told with the identifier of the sandbox, if it has one.
pub proof fn deletions_are_told<S: SandboxState>(state: &S, r: Option<WatchSandboxesEvent>)
    requires
        call_ensures(registry::deleted::<S>, (state,), r),
    ensures
        (r is Some) == (state.model().sandbox.id.len() > 0),
        r matches Some(e) ==> e@ == WatchSandboxesEventView::Deleted(state.model().sandbox.id),
{
}

/// What was seen of a supervisor is noted of its sandbox alone, and told when it
/// changed or while the supervisor is connected.
pub proof fn looks_are_noted_and_told<S: SandboxState>(
    sandboxes: &mut Registry<S>,
    id: &str,
    alive: bool,
    connected: bool,
    r: Option<WatchSandboxesEvent>,
)
    requires
        call_ensures(registry::observe::<S>, (sandboxes, id, alive, connected), r),
    ensures
        ({
            let m = old(sandboxes)@;
            let after = final(sandboxes)@;
            &&& same_but_for(m, after, id@)
            &&& after.contains_key(id@) == m.contains_key(id@)
            &&& m.contains_key(id@) ==> after[id@] == (SandboxModel { running: alive, ..m[id@] })
            &&& (r is Some) == (m.contains_key(id@) && (m[id@].running != alive || connected))
            &&& r matches Some(e) ==> e@ == WatchSandboxesEventView::Sandbox(
                S::shown(after[id@], connected),
            )
        }),
{
    match r {
        Some(e) => {
            assert(compute::event_view(r) == Some(e@));
        },
        None => {},
    }
}

/// A list of sandboxes tells of each of them, in the order of the identifiers, by
/// what is said of its own supervisor.
pub proof fn list_shows_every_sandbox<S: SandboxState, R: registry::SupervisorReadiness>(
    sandboxes: &Registry<S>,
    readiness: &R,
    r: Vec<DriverSandbox>,
    i: int,
)
    requires
        in_order(*sandboxes),
        call_ensures(registry::snapshots::<S, R>, (sandboxes, readiness), r),
        0 <= i < sandboxes.list().len(),
    ensures
        r@.len() == sandboxes.list().len(),
        exists|connected: bool|
            registry::said(readiness, sandboxes.list()[i].0, connected) && r@[i]@
                == #[trigger] S::shown(sandboxes@[sandboxes.list()[i].0], connected),
{
    let list = sandboxes.list();
    let connected = choose|connected: Seq<bool>|
        registry::all_said(readiness, list, connected) && compute::sandbox_views(r@)
            == #[trigger] registry::all_shown::<S>(list, connected);
    let shown = registry::all_shown::<S>(list, connected);
    assert(compute::sandbox_views(r@).len() == r@.len());
    string_map::ascending_lookup(list, i);
    assert(registry::said(readiness, list[i].1.sandbox.id, connected[i]));
    assert(compute::sandbox_views(r@)[i] == r@[i]@);
    assert(shown[i] == S::shown(list[i].1, connected[i]));
}

/// One sandbox is shown by what is said of its own supervisor.
pub proof fn snapshot_asks_about_its_own_supervisor<
    S: SandboxState,
    R: registry::SupervisorReadiness,
>(
    sandboxes: &Registry<S>,
    sandbox_id: &str,
    sandbox_name: &str,
    readiness: &R,
    r: Result<DriverSandbox, Status>,
)
    requires
        in_order(*sandboxes),
        call_ensures(
            registry::get_snapshot::<S, R>,
            (sandboxes, sandbox_id, sandbox_name, readiness),
            r,
        ),
    ensures
        match r {
            Ok(s) => exists|key: Seq<char>, connected: bool|
                means(sandboxes@, sandbox_id@, sandbox_name@, key) && #[trigger] registry::said(
                    readiness,
                    key,
                    connected,
                ) && s@ == S::shown(sandboxes@[key], connected),
            Err(e) => if says_nothing(sandbox_id@, sandbox_name@) {
                e@.code == StatusCode::InvalidArgument
            } else {
                e@.code == StatusCode::NotFound && means_none(
                    sandboxes@,
                    sandbox_id@,
                    sandbox_name@,
                )
            },
        },
{
    lemma_meant(sandboxes.list(), sandbox_id@, sandbox_name@);
    let connected = choose|connected: bool|
        (registry::asked_about(*sandboxes, sandbox_id@, sandbox_name@) matches Some(id)
            ==> registry::said(readiness, id, connected)) && registry::sandbox_outcome(r)
            == #[trigger] registry::get_answer(*sandboxes, sandbox_id@, sandbox_name@, connected);
    match r {
        Ok(s) => {
            let key = registry::meant(sandboxes.list(), sandbox_id@, sandbox_name@)->0;
            assert(means(sandboxes@, sandbox_id@, sandbox_name@, key));
            assert(registry::said(readiness, key, connected));
            assert(registry::sandbox_outcome(r) == Ok::<DriverSandboxView, compute::StatusView>(
                s@,
            ));
        },
        Err(e) => {
            assert(registry::sandbox_outcome(r) == Err::<DriverSandboxView, compute::StatusView>(
                e@,
            ));
        },
    }
}

/// A round goes through the sandboxes one by one: after a look at one, it is the
/// next one's turn, and at the end the watchers are told what was collected.
pub proof fn round_goes_through_the_sandboxes(
    d: &mut LocalComputeDriver,
    round: local::Round,
    child: ChildState,
    connected: bool,
    r: local::RoundStep,
)
    requires
        call_ensures(LocalComputeDriver::after_look, (d, round, child, connected), r),
    ensures
        ({
            let m = old(d).sandboxes@;
            let id = round.id@;
            let alive = child == ChildState::Running;
            let tells = m.contains_key(id) && (m[id].running != alive || connected);
            let before = compute::event_views(round.events@);
            let after = match r {
                local::RoundStep::Look(next) => compute::event_views(next.events@),
                local::RoundStep::Tell(events) => compute::event_views(events@),
            };
            &&& final(d).config == old(d).config
            &&& same_but_for(m, final(d).sandboxes@, id)
            &&& m.contains_key(id) ==> final(d).sandboxes@.contains_key(id)
                && final(d).sandboxes@[id] == (SandboxModel { running: alive, ..m[id] })
            &&& (r is Tell) == (round.later@.len() == 0)
            &&& r matches local::RoundStep::Look(next) ==> next.ids() == text::views(round.later@)
            &&& before.is_prefix_of(after)
            &&& after.len() == before.len() + (if tells {
                1int
            } else {
                0int
            })
            &&& tells ==> after.last() == WatchSandboxesEventView::Sandbox(
                <LocalSandboxState as SandboxState>::shown(
                    SandboxModel { running: alive, ..m[id] },
                    connected,
                ),
            )
        }),
{
    let ids = round.ids();
    let before = compute::event_views(round.events@);
    assert(ids[0] == round.id@);
    assert(ids.drop_first() =~= text::views(round.later@));
    assert(text::views(round.later@).len() == round.later@.len());
    match r {
        local::RoundStep::Look(next) => {
            assert(r@ == (local::RoundStepView::Look {
                ids: next.ids(),
                events: compute::event_views(next.events@),
            }));
        },
        local::RoundStep::Tell(events) => {
            assert(r@ == local::RoundStepView::Tell(compute::event_views(events@)));
        },
    }
    let event = registry::observed_event::<LocalSandboxState>(
        old(d).sandboxes@,
        round.id@,
        child == ChildState::Running,
        connected,
    );
    let after = registry::with_event(before, event);
    assert(after.subrange(0, before.len() as int) =~= before);
}

// ---------------------------------------------------------------------------
// Drivers as they are called
// ---------------------------------------------------------------------------

/// Whether a sandbox of a remote host is found for a request and shown by what is
/// said of its own supervisor; otherwise it is said why not.
pub open spec fn answers_remote<R: registry::SupervisorReadiness>(
    r: Result<DriverSandbox, Status>,
    m: Map<Seq<char>, SandboxModel>,
    sandbox_id: Seq<char>,
    sandbox_name: Seq<char>,
    readiness: &R,
) -> bool {
    match r {
        Ok(s) => exists|key: Seq<char>, connected: bool|
            means(m, sandbox_id, sandbox_name, key) && #[trigger] registry::said(
                readiness,
                key,
                connected,
            ) && shows_remote(s@, m[key], connected),
        Err(e) => if says_nothing(sandbox_id, sandbox_name) {
            e@.code == StatusCode::InvalidArgument
        } else {
            e@.code == StatusCode::NotFound && means_none(m, sandbox_id, sandbox_name)
        },
    }
}

/// Whether a sandbox of this host is found for a request and shown by what is said
/// of its own supervisor; otherwise it is said why not.
pub open spec fn answers_local<R: registry::SupervisorReadiness>(
    r: Result<DriverSandbox, Status>,
    m: Map<Seq<char>, SandboxModel>,
    sandbox_id: Seq<char>,
    sandbox_name: Seq<char>,
    readiness: &R,
) -> bool {
    match r {
        Ok(s) => exists|key: Seq<char>, connected: bool|
            means(m, sandbox_id, sandbox_name, key) && #[trigger] registry::said(
                readiness,
                key,
                connected,
            ) && shows_local(s@, m[key], connected),
        Err(e) => if says_nothing(sandbox_id, sandbox_name) {
            e@.code == StatusCode::InvalidArgument
        } else {
            e@.code == StatusCode::NotFound && means_none(m, sandbox_id, sandbox_name)
        },
    }
}

/// A driver of a remote host answers a request for one sandbox.
pub proof fn remote_driver_answers<R: registry::SupervisorReadiness>(
    d: &SshComputeDriver,
    sandbox_id: &str,
    sandbox_name: &str,
    readiness: &R,
    r: Result<DriverSandbox, Status>,
)
    requires
        in_order(d.sandboxes),
        call_ensures(
            SshComputeDriver::get_sandbox::<R>,
            (d, sandbox_id, sandbox_name, readiness),
            r,
        ),
    ensures
        answers_remote(r, d.sandboxes@, sandbox_id@, sandbox_name@, readiness),
{
    lemma_meant(d.sandboxes.list(), sandbox_id@, sandbox_name@);
    let connected = choose|connected: bool|
        (registry::asked_about(d.sandboxes, sandbox_id@, sandbox_name@) matches Some(id)
            ==> registry::said(readiness, id, connected)) && registry::sandbox_outcome(r)
            == #[trigger] registry::get_answer(d.sandboxes, sandbox_id@, sandbox_name@, connected);
    match r {
        Ok(s) => {
            let key = registry::meant(d.sandboxes.list(), sandbox_id@, sandbox_name@)->0;
            assert(means(d.sandboxes@, sandbox_id@, sandbox_name@, key));
            assert(registry::said(readiness, key, connected));
            assert(registry::sandbox_outcome(r) == Ok::<DriverSandboxView, compute::StatusView>(
                s@,
            ));
            lemma_shows_remote(d.sandboxes@[key], connected);
        },
        Err(e) => {
            assert(registry::sandbox_outcome(r) == Err::<DriverSandboxView, compute::StatusView>(
                e@,
            ));
        },
    }
}

/// A driver of this host answers a request for one sandbox.
pub proof fn local_driver_answers<R: registry::SupervisorReadiness>(
    d: &LocalComputeDriver,
    sandbox_id: &str,
    sandbox_name: &str,
    readiness: &R,
    r: Result<DriverSandbox, Status>,
)
    requires
        in_order(d.sandboxes),
        call_ensures(
            LocalComputeDriver::get_sandbox::<R>,
            (d, sandbox_id, sandbox_name, readiness),
            r,
        ),
    ensures
        answers_local(r, d.sandboxes@, sandbox_id@, sandbox_name@, readiness),
{
    lemma_meant(d.sandboxes.list(), sandbox_id@, sandbox_name@);
    let connected = choose|connected: bool|
        (registry::asked_about(d.sandboxes, sandbox_id@, sandbox_name@) matches Some(id)
            ==> registry::said(readiness, id, connected)) && registry::sandbox_outcome(r)
            == #[trigger] registry::get_answer(d.sandboxes, sandbox_id@, sandbox_name@, connected);
    match r {
        Ok(s) => {
            let key = registry::meant(d.sandboxes.list(), sandbox_id@, sandbox_name@)->0;
            assert(means(d.sandboxes@, sandbox_id@, sandbox_name@, key));
            assert(registry::said(readiness, key, connected));
            assert(registry::sandbox_outcome(r) == Ok::<DriverSandboxView, compute::StatusView>(
                s@,
            ));
            lemma_shows(d.sandboxes@[key], Seq::empty(), "Process running"@, connected);
        },
        Err(e) => {
            assert(registry::sandbox_outcome(r) == Err::<DriverSandboxView, compute::StatusView>(
                e@,
            ));
        },
    }
}

/// A driver of a remote host lists its sandboxes, and tells of them in a watch, each
/// at its place in the order of the identifiers.
pub proof fn remote_driver_lists_its_sandboxes<R: registry::SupervisorReadiness>(
    d: &SshComputeDriver,
    readiness: &R,
    r: Vec<DriverSandbox>,
    run: registry::Subscribing,
    first: registry::WatchStep,
    second: registry::WatchStep,
    i: int,
)
    requires
        in_order(d.sandboxes),
        call_ensures(SshComputeDriver::list_sandboxes::<R>, (d, readiness), r),
        call_ensures(SshComputeDriver::watch_sandboxes, (d,), first),
        call_ensures(SshComputeDriver::after_subscription::<R>, (d, run, readiness), second),
        0 <= i < d.sandboxes.list().len(),
    ensures
        ({
            let key = d.sandboxes.list()[i].0;
            &&& r@.len() == d.sandboxes.list().len()
            &&& exists|connected: bool| #[trigger]
                registry::said(readiness, key, connected) && shows_remote(
                    r@[i]@,
                    d.sandboxes@[key],
                    connected,
                )
            &&& first is Subscribe
            &&& second matches registry::WatchStep::Tell(events) && events@.len()
                == d.sandboxes.list().len() && (events@[i]@ matches WatchSandboxesEventView::Sandbox(
                s,
            ) && exists|connected: bool| #[trigger]
                registry::said(readiness, key, connected) && shows_remote(
                    s,
                    d.sandboxes@[key],
                    connected,
                ))
        }),
{
    let list = d.sandboxes.list();
    string_map::ascending_lookup(list, i);
    let of_list = choose|connected: Seq<bool>|
        registry::all_said(readiness, list, connected) && compute::sandbox_views(r@)
            == #[trigger] registry::all_shown::<SshSandboxState>(list, connected);
    assert(compute::sandbox_views(r@).len() == r@.len());
    assert(registry::said(readiness, list[i].1.sandbox.id, of_list[i]));
    assert(compute::sandbox_views(r@)[i] == r@[i]@);
    lemma_shows_remote(list[i].1, of_list[i]);
    let of_watch = choose|connected: Seq<bool>|
        registry::all_said(readiness, list, connected) && second@
            == registry::WatchStepView::Tell(
            compute::told(#[trigger] registry::all_shown::<SshSandboxState>(list, connected)),
        );
    let shown = registry::all_shown::<SshSandboxState>(list, of_watch);
    if let registry::WatchStep::Tell(events) = second {
        let views = compute::event_views(events@);
        assert(views == compute::told(shown));
        assert(views.len() == events@.len());
        assert(compute::told(shown).len() == shown.len());
        assert(views[i] == events@[i]@);
        assert(compute::told(shown)[i] == WatchSandboxesEventView::Sandbox(shown[i]));
        assert(registry::said(readiness, list[i].1.sandbox.id, of_watch[i]));
        lemma_shows_remote(list[i].1, of_watch[i]);
    }
}

/// A driver of this host lists its sandboxes, and tells of them in a watch, each at
/// its place in the order of the identifiers.
pub proof fn local_driver_lists_its_sandboxes<R: registry::SupervisorReadiness>(
    d: &LocalComputeDriver,
    readiness: &R,
    r: Vec<DriverSandbox>,
    run: registry::Subscribing,
    first: registry::WatchStep,
    second: registry::WatchStep,
    i: int,
)
    requires
        in_order(d.sandboxes),
        call_ensures(LocalComputeDriver::list_sandboxes::<R>, (d, readiness), r),
        call_ensures(LocalComputeDriver::watch_sandboxes, (d,), first),
        call_ensures(LocalComputeDriver::after_subscription::<R>, (d, run, readiness), second),
        0 <= i < d.sandboxes.list().len(),
    ensures
        ({
            let key = d.sandboxes.list()[i].0;
            &&& r@.len() == d.sandboxes.list().len()
            &&& exists|connected: bool| #[trigger]
                registry::said(readiness, key, connected) && shows_local(
                    r@[i]@,
                    d.sandboxes@[key],
                    connected,
                )
            &&& first is Subscribe
            &&& second matches registry::WatchStep::Tell(events) && events@.len()
                == d.sandboxes.list().len() && (events@[i]@ matches WatchSandboxesEventView::Sandbox(
                s,
            ) && exists|connected: bool| #[trigger]
                registry::said(readiness, key, connected) && shows_local(
                    s,
                    d.sandboxes@[key],
                    connected,
                ))
        }),
{
    let list = d.sandboxes.list();
    string_map::ascending_lookup(list, i);
    let of_list = choose|connected: Seq<bool>|
        registry::all_said(readiness, list, connected) && compute::sandbox_views(r@)
            == #[trigger] registry::all_shown::<LocalSandboxState>(list, connected);
    assert(compute::sandbox_views(r@).len() == r@.len());
    assert(registry::said(readiness, list[i].1.sandbox.id, of_list[i]));
    assert(compute::sandbox_views(r@)[i] == r@[i]@);
    lemma_shows(list[i].1, Seq::empty(), "Process running"@, of_list[i]);
    let of_watch = choose|connected: Seq<bool>|
        registry::all_said(readiness, list, connected) && second@
            == registry::WatchStepView::Tell(
            compute::told(#[trigger] registry::all_shown::<LocalSandboxState>(list, connected)),
        );
    let shown = registry::all_shown::<LocalSandboxState>(list, of_watch);
    if let registry::WatchStep::Tell(events) = second {
        let views = compute::event_views(events@);
        assert(views == compute::told(shown));
        assert(views.len() == events@.len());
        assert(compute::told(shown).len() == shown.len());
        assert(views[i] == events@[i]@);
        assert(compute::told(shown)[i] == WatchSandboxesEventView::Sandbox(shown[i]));
        assert(registry::said(readiness, list[i].1.sandbox.id, of_watch[i]));
        lemma_shows(list[i].1, Seq::empty(), "Process running"@, of_watch[i]);
    }
}

/// Drivers are made from complete settings, whatever is found on disk: they have
/// them, and no sandbox.
pub proof fn made_drivers_have_complete_settings(
    of_ssh: ssh::SshComputeConfig,
    s: Result<SshComputeDriver, String>,
    of_local: local::LocalComputeConfig,
    l: Result<LocalComputeDriver, String>,
)
    requires
        call_ensures(SshComputeDriver::new, (of_ssh,), s),
        call_ensures(LocalComputeDriver::new, (of_local,), l),
    ensures
        s matches Ok(d) ==> {
            &&& d.config@ == of_ssh@ && d.sandboxes@.dom() == Set::<Seq<char>>::empty()
            &&& of_ssh@.host.len() > 0 && of_ssh@.identity_file.len() > 0
                && of_ssh@.supervisor_bin.len() > 0
            &&& platform::looked_for(of_ssh@.identity_file, true) && platform::looked_for(
                of_ssh@.supervisor_bin,
                true,
            )
        },
        s is Err && of_ssh@.host.len() > 0 && of_ssh@.identity_file.len() > 0
            && of_ssh@.supervisor_bin.len() > 0 ==> platform::looked_for(
            of_ssh@.identity_file,
            false,
        ) || platform::looked_for(of_ssh@.supervisor_bin, false),
        l matches Ok(d) ==> {
            &&& d.config@ == of_local@ && d.sandboxes@.dom() == Set::<Seq<char>>::empty()
            &&& of_local@.supervisor_bin.len() > 0 && of_local@.grpc_endpoint.len() > 0
            &&& platform::looked_for(of_local@.supervisor_bin, true)
        },
        l is Err && of_local@.supervisor_bin.len() > 0 && of_local@.grpc_endpoint.len() > 0
            ==> platform::looked_for(of_local@.supervisor_bin, false),
{
    match s {
        Ok(d) => {
            assert(ssh::driver_outcome(s) == Ok::<_, Seq<char>>((d.config@, d.sandboxes@)));
            assert(Map::<Seq<char>, SandboxModel>::empty().dom() =~= Set::empty());
        },
        Err(m) => {
            assert(ssh::driver_outcome(s) == Err::<
                (SshComputeConfigView, Map<Seq<char>, SandboxModel>),
                Seq<char>,
            >(m@));
        },
    }
    match l {
        Ok(d) => {
            assert(local::driver_outcome(l) == Ok::<_, Seq<char>>((d.config@, d.sandboxes@)));
            assert(Map::<Seq<char>, SandboxModel>::empty().dom() =~= Set::empty());
        },
        Err(m) => {
            assert(local::driver_outcome(l) == Err::<
                (local::LocalComputeConfigView, Map<Seq<char>, SandboxModel>),
                Seq<char>,
            >(m@));
        },
    }
}

/// A new sandbox of this host is accepted only where its supervisor binary was
/// found.
pub proof fn accepted_local_sandbox_has_its_binary(
    d: &LocalComputeDriver,
    sandbox: Option<&DriverSandbox>,
    r: Result<(), Status>,
)
    requires
        in_order(d.sandboxes),
        call_ensures(LocalComputeDriver::validate_sandbox_create, (d, sandbox), r),
    ensures
        r is Ok ==> (sandbox matches Some(s) && has_room(d.sandboxes@, s@.id))
            && platform::looked_for(d.config@.supervisor_bin, true),
        r is Err ==> (sandbox matches Some(s) ==> !has_room(d.sandboxes@, s@.id)
            || platform::looked_for(d.config@.supervisor_bin, false)),
{
    if let Some(s) = sandbox {
        lemma_room(d.sandboxes.list(), s@.id);
    }
    match r {
        Ok(_) => {
            assert(registry::status_outcome(r) is Ok);
        },
        Err(e) => {
            assert(registry::status_outcome(r) == Err::<(), compute::StatusView>(e@));
        },
    }
}

/// A round begins with the first sandbox of all, in the order of the identifiers,
/// and with nothing to tell.
pub proof fn round_begins_with_the_first(d: &LocalComputeDriver, r: local::RoundStep)
    requires
        call_ensures(LocalComputeDriver::start_round, (d,), r),
    ensures
        match r {
            local::RoundStep::Look(round) => round.events@.len() == 0 && round.ids().len()
                == d.sandboxes.list().len() && forall|i: int|
                0 <= i < d.sandboxes.list().len() ==> #[trigger] round.ids()[i]
                    == d.sandboxes.list()[i].0,
            local::RoundStep::Tell(events) => events@.len() == 0 && d.sandboxes.list().len() == 0,
        },
{
    let ids = local::ids_of(d.sandboxes.list());
    assert(ids.len() == d.sandboxes.list().len());
    match r {
        local::RoundStep::Look(round) => {
            assert(r@ == (local::RoundStepView::Look {
                ids: round.ids(),
                events: compute::event_views(round.events@),
            }));
            assert(compute::event_views(round.events@).len() == round.events@.len());
        },
        local::RoundStep::Tell(events) => {
            assert(r@ == local::RoundStepView::Tell(compute::event_views(events@)));
            assert(compute::event_views(events@).len() == events@.len());
        },
    }
}

/// Every setting of the drivers of single hosts is shown behind its own name.
pub proof fn host_settings_are_shown(
    s: &ssh::SshComputeConfig,
    of_s: String,
    l: &local::LocalComputeConfig,
    of_l: String,
)
    requires
        call_ensures(ssh::SshComputeConfig::debug_text, (s,), of_s),
        call_ensures(local::LocalComputeConfig::debug_text, (l,), of_l),
    ensures
        text::shows_value(of_s@, "{ host: "@, platform::debug_text(s@.host) + ","@),
        text::shows_value(of_s@, ", port: "@, text::decimal(s@.port as nat) + ","@),
        text::shows_value(of_s@, ", user: "@, platform::debug_text(s@.user) + ","@),
        text::shows_value(of_s@, ", identity_file: "@, platform::debug_text(s@.identity_file) + ","@),
        text::shows_value(of_s@, ", supervisor_bin: "@, platform::debug_text(s@.supervisor_bin) + ","@),
        text::shows_value(of_s@, ", grpc_endpoint: "@, platform::debug_text(s@.grpc_endpoint) + ","@),
        text::shows_value(of_s@, ", ssh_socket_path: "@, platform::debug_text(s@.ssh_socket_path) + ","@),
        text::shows_value(of_s@, ", log_level: "@, platform::debug_text(s@.log_level) + " }"@),
        text::shows_value(of_l@, "{ supervisor_bin: "@, platform::debug_text(l@.supervisor_bin) + ","@),
        text::shows_value(of_l@, ", grpc_endpoint: "@, platform::debug_text(l@.grpc_endpoint) + ","@),
        text::shows_value(of_l@, ", ssh_socket_path: "@, platform::debug_text(l@.ssh_socket_path) + ","@),
        text::shows_value(of_l@, ", log_level: "@, platform::debug_text(l@.log_level) + " }"@),
{
    lemma_ssh_settings_are_shown(s@);
    lemma_local_settings_are_shown(l@);
}

proof fn lemma_ssh_settings_are_shown(c: SshComputeConfigView)
    ensures
        ({
            let log = ssh::config_text(c);
            &&& text::shows_value(log, "{ host: "@, platform::debug_text(c.host) + ","@)
            &&& text::shows_value(log, ", port: "@, text::decimal(c.port as nat) + ","@)
            &&& text::shows_value(log, ", user: "@, platform::debug_text(c.user) + ","@)
            &&& text::shows_value(log, ", identity_file: "@, platform::debug_text(c.identity_file) + ","@)
            &&& text::shows_value(
                log,
                ", supervisor_bin: "@,
                platform::debug_text(c.supervisor_bin) + ","@,
            )
            &&& text::shows_value(log, ", grpc_endpoint: "@, platform::debug_text(c.grpc_endpoint) + ","@)
            &&& text::shows_value(
                log,
                ", ssh_socket_path: "@,
                platform::debug_text(c.ssh_socket_path) + ","@,
            )
            &&& text::shows_value(log, ", log_level: "@, platform::debug_text(c.log_level) + " }"@)
        }),
{
    let log = ssh::config_text(c);
    let q = |t: Seq<char>| platform::debug_text(t);
    reveal_strlit(",");
    reveal_strlit("{ host: ");
    reveal_strlit("SshComputeConfig ");
    reveal_strlit("SshComputeConfig { host: ");
    reveal_strlit(", port: ");
    reveal_strlit(", user: ");
    reveal_strlit(", identity_file: ");
    reveal_strlit(", supervisor_bin: ");
    reveal_strlit(", grpc_endpoint: ");
    reveal_strlit(", ssh_socket_path: ");
    reveal_strlit(", log_level: ");
    assert("SshComputeConfig { host: "@ =~= "SshComputeConfig "@ + "{ host: "@);
    let a0 = "SshComputeConfig "@;
    let a1 = a0 + "{ host: "@ + q(c.host);
    let a2 = a1 + ", port: "@ + text::decimal(c.port as nat);
    let a3 = a2 + ", user: "@ + q(c.user);
    let a4 = a3 + ", identity_file: "@ + q(c.identity_file);
    let a5 = a4 + ", supervisor_bin: "@ + q(c.supervisor_bin);
    let a6 = a5 + ", grpc_endpoint: "@ + q(c.grpc_endpoint);
    let a7 = a6 + ", ssh_socket_path: "@ + q(c.ssh_socket_path);
    let a8 = a7 + ", log_level: "@ + q(c.log_level);
    assert(log == a8 + " }"@);
    text::value_is_shown(log, a0, "{ host: "@, q(c.host), ","@);
    text::value_is_shown(log, a1, ", port: "@, text::decimal(c.port as nat), ","@);
    text::value_is_shown(log, a2, ", user: "@, q(c.user), ","@);
    text::value_is_shown(log, a3, ", identity_file: "@, q(c.identity_file), ","@);
    text::value_is_shown(log, a4, ", supervisor_bin: "@, q(c.supervisor_bin), ","@);
    text::value_is_shown(log, a5, ", grpc_endpoint: "@, q(c.grpc_endpoint), ","@);
    text::value_is_shown(log, a6, ", ssh_socket_path: "@, q(c.ssh_socket_path), ","@);
    text::value_is_shown(log, a7, ", log_level: "@, q(c.log_level), " }"@);
}

proof fn lemma_local_settings_are_shown(c: local::LocalComputeConfigView)
    ensures
        ({
            let log = local::config_text(c);
            &&& text::shows_value(
                log,
                "{ supervisor_bin: "@,
                platform::debug_text(c.supervisor_bin) + ","@,
            )
            &&& text::shows_value(log, ", grpc_endpoint: "@, platform::debug_text(c.grpc_endpoint) + ","@)
            &&& text::shows_value(
                log,
                ", ssh_socket_path: "@,
                platform::debug_text(c.ssh_socket_path) + ","@,
            )
            &&& text::shows_value(log, ", log_level: "@, platform::debug_text(c.log_level) + " }"@)
        }),
{
    let log = local::config_text(c);
    let q = |t: Seq<char>| platform::debug_text(t);
    reveal_strlit(",");
    reveal_strlit("{ supervisor_bin: ");
    reveal_strlit("LocalComputeConfig ");
    reveal_strlit("LocalComputeConfig { supervisor_bin: ");
    reveal_strlit(", grpc_endpoint: ");
    reveal_strlit(", ssh_socket_path: ");
    reveal_strlit(", log_level: ");
    assert("LocalComputeConfig { supervisor_bin: "@ =~= "LocalComputeConfig "@
        + "{ supervisor_bin: "@);
    let a0 = "LocalComputeConfig "@;
    let a1 = a0 + "{ supervisor_bin: "@ + q(c.supervisor_bin);
    let a2 = a1 + ", grpc_endpoint: "@ + q(c.grpc_endpoint);
    let a3 = a2 + ", ssh_socket_path: "@ + q(c.ssh_socket_path);
    let a4 = a3 + ", log_level: "@ + q(c.log_level);
    assert(log == a4 + " }"@);
    text::value_is_shown(log, a0, "{ supervisor_bin: "@, q(c.supervisor_bin), ","@);
    text::value_is_shown(log, a1, ", grpc_endpoint: "@, q(c.grpc_endpoint), ","@);
    text::value_is_shown(log, a2, ", ssh_socket_path: "@, q(c.ssh_socket_path), ","@);
    text::value_is_shown(log, a3, ", log_level: "@, q(c.log_level), " }"@);
}

/// A driver is shown with its settings.
pub proof fn drivers_are_shown_with_their_settings(
    s: &SshComputeDriver,
    of_s: String,
    settings_of_s: String,
    l: &LocalComputeDriver,
    of_l: String,
    settings_of_l: String,
)
    requires
        call_ensures(SshComputeDriver::debug_text, (s,), of_s),
        call_ensures(ssh::SshComputeConfig::debug_text, (&s.config,), settings_of_s),
        call_ensures(LocalComputeDriver::debug_text, (l,), of_l),
        call_ensures(local::LocalComputeConfig::debug_text, (&l.config,), settings_of_l),
    ensures
        text::shows_value(of_s@, "SshComputeDriver { config: "@, settings_of_s@ + ", .. }"@),
        text::shows_value(of_l@, "LocalComputeDriver { config: "@, settings_of_l@ + ", .. }"@),
{
    let none = Seq::<char>::empty();
    assert(none + "SshComputeDriver { config: "@ + settings_of_s@ + ", .. }"@ =~= of_s@);
    assert(none + "LocalComputeDriver { config: "@ + settings_of_l@ + ", .. }"@ =~= of_l@);
    assert(of_s@.subrange(0, of_s@.len() as int) =~= of_s@);
    assert(of_l@.subrange(0, of_l@.len() as int) =~= of_l@);
    text::value_is_shown(
        of_s@,
        none,
        "SshComputeDriver { config: "@,
        settings_of_s@,
        ", .. }"@,
    );
    text::value_is_shown(
        of_l@,
        none,
        "LocalComputeDriver { config: "@,
        settings_of_l@,
        ", .. }"@,
    );
}

} // verus!
