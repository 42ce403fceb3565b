use std::collections::{HashMap, HashSet};
use std::sync::Mutex;

use openshell_drivers::compute::{
    DriverSandbox, DriverSandboxSpec, DriverSandboxTemplate, StatusCode, WatchSandboxesEvent,
    VERSION,
};
use openshell_drivers::process::CommandOutput;
use openshell_drivers::registry::{
    readiness_id, readiness_ids, relay, Received, Registry, Relay, WatchStep,
};
use openshell_drivers::ssh::{
    alive_result, check_config, find_sandbox, find_sandbox_key, parse_pid,
    require_sandbox_identifier, scp_result, ssh_result, DeployStage, DeployStep, SshComputeConfig,
    SshComputeDriver, SshSandboxState, SupervisorReadiness, ValidateStage, ValidateStep,
    REMOTE_SUPERVISOR_PATH,
};
use openshell_drivers::string_map::StringMap;

struct MockSupervisorReadiness {
    connected: Mutex<HashSet<String>>,
}

impl MockSupervisorReadiness {
    fn new() -> Self {
        Self { connected: Mutex::new(HashSet::new()) }
    }

    fn set_connected(&self, sandbox_id: &str) {
        self.connected.lock().unwrap().insert(sandbox_id.to_string());
    }
}

impl SupervisorReadiness for MockSupervisorReadiness {
    fn is_supervisor_connected(&self, sandbox_id: &str) -> bool {
        self.connected.lock().unwrap().contains(sandbox_id)
    }
}

fn test_config() -> SshComputeConfig {
    SshComputeConfig {
        host: "10.0.0.42".to_string(),
        port: 22,
        user: "root".to_string(),
        identity_file: "/tmp/test-key".to_string(),
        supervisor_bin: "/tmp/openshell-sandbox".to_string(),
        grpc_endpoint: "http://gateway:8080".to_string(),
        ssh_socket_path: "/run/openshell/ssh.sock".to_string(),
        log_level: "info".to_string(),
    }
}

fn test_sandbox() -> DriverSandbox {
    DriverSandbox {
        id: "sb-1234".to_string(),
        name: "test-sandbox".to_string(),
        namespace: "default".to_string(),
        spec: Some(DriverSandboxSpec {
            log_level: "info".to_string(),
            environment: StringMap::new(),
            template: Some(DriverSandboxTemplate {
                image: String::new(),
                agent_socket_path: String::new(),
                labels: StringMap::new(),
                environment: StringMap::new(),
                resources: None,
                platform_config: None,
            }),
            gpu: false,
            gpu_device: String::new(),
        }),
        status: None,
    }
}

fn named(id: &str, name: &str) -> DriverSandbox {
    DriverSandbox { id: id.to_string(), name: name.to_string(), ..test_sandbox() }
}

fn test_driver() -> SshComputeDriver {
    SshComputeDriver { config: test_config(), sandboxes: Registry::new() }
}

#[test]
fn test_config_validation_empty_host() {
    let mut config = test_config();
    config.host = String::new();
    let result = SshComputeDriver::new(config);
    assert!(result.is_err());
    assert!(result.err().unwrap().contains("SSH host is required"));
}

#[test]
fn test_config_validation_missing_key() {
    let mut config = test_config();
    config.identity_file = "/nonexistent/key".to_string();
    let result = SshComputeDriver::new(config);
    assert!(result.is_err());
    assert!(result.err().unwrap().contains("not found"));
}

#[test]
fn test_build_supervisor_env() {
    // Build env without needing a real SSH connection
    let sandbox = test_sandbox();
    let driver = test_driver();

    let env = driver.build_supervisor_env(&sandbox);
    let env_map: HashMap<_, _> = env.into_iter().collect();

    assert_eq!(env_map.get("OPENSHELL_SANDBOX_ID").unwrap(), "sb-1234");
    assert_eq!(env_map.get("OPENSHELL_SANDBOX").unwrap(), "test-sandbox");
    assert_eq!(
        env_map.get("OPENSHELL_ENDPOINT").unwrap(),
        "http://gateway:8080"
    );
    assert_eq!(env_map.get("OPENSHELL_LOG_LEVEL").unwrap(), "info");
    assert_eq!(
        env_map.get("OPENSHELL_SANDBOX_COMMAND").unwrap(),
        "sleep infinity"
    );
}

#[test]
fn test_build_snapshot_not_running() {
    let state = SshSandboxState {
        sandbox: test_sandbox(),
        remote_pid: None,
        running: false,
    };

    let snapshot = SshComputeDriver::build_snapshot(&state, false);
    assert_eq!(snapshot.id, "sb-1234");
    assert_eq!(snapshot.name, "test-sandbox");

    let status = snapshot.status.unwrap();
    let ready = status
        .conditions
        .iter()
        .find(|c| c.condition_type == "Ready")
        .unwrap();
    assert_eq!(ready.status, "False");
    assert_eq!(ready.reason, "NotRunning");
}

#[test]
fn test_build_snapshot_running_not_connected() {
    let state = SshSandboxState {
        sandbox: test_sandbox(),
        remote_pid: Some(1234),
        running: true,
    };

    let snapshot = SshComputeDriver::build_snapshot(&state, false);
    let status = snapshot.status.unwrap();

    let ready = status
        .conditions
        .iter()
        .find(|c| c.condition_type == "Ready")
        .unwrap();
    assert_eq!(ready.status, "False");
    assert_eq!(ready.reason, "DependenciesNotReady");

    let scheduled = status
        .conditions
        .iter()
        .find(|c| c.condition_type == "Scheduled")
        .unwrap();
    assert_eq!(scheduled.status, "True");
    assert_eq!(status.instance_id, "1234");
}

#[test]
fn test_build_snapshot_running_and_connected() {
    let state = SshSandboxState {
        sandbox: test_sandbox(),
        remote_pid: Some(5678),
        running: true,
    };

    let snapshot = SshComputeDriver::build_snapshot(&state, true);
    let status = snapshot.status.unwrap();

    let ready = status
        .conditions
        .iter()
        .find(|c| c.condition_type == "Ready")
        .unwrap();
    assert_eq!(ready.status, "True");
    assert_eq!(ready.reason, "SupervisorConnected");
}

#[test]
fn test_find_sandbox_by_id() {
    let sandbox = test_sandbox();
    let state = SshSandboxState {
        sandbox: sandbox.clone(),
        remote_pid: Some(123),
        running: true,
    };
    let mut map = Registry::new();
    map.insert(state);

    assert!(find_sandbox(&map, "sb-1234", "").is_some());
    assert!(find_sandbox(&map, "sb-9999", "").is_none());
}

#[test]
fn test_find_sandbox_by_name() {
    let sandbox = test_sandbox();
    let state = SshSandboxState {
        sandbox: sandbox.clone(),
        remote_pid: Some(123),
        running: true,
    };
    let mut map = Registry::new();
    map.insert(state);

    assert!(find_sandbox(&map, "", "test-sandbox").is_some());
    assert!(find_sandbox(&map, "", "nonexistent").is_none());
}

#[test]
fn test_require_sandbox_identifier() {
    assert!(require_sandbox_identifier("id", "").is_ok());
    assert!(require_sandbox_identifier("", "name").is_ok());
    assert!(require_sandbox_identifier("id", "name").is_ok());
    assert!(require_sandbox_identifier("", "").is_err());
}

#[test]
fn test_capabilities() {
    let driver = test_driver();

    let caps = driver.capabilities();
    assert_eq!(caps.driver_name, "ssh");
    assert!(caps.default_image.is_empty());
    assert!(!caps.supports_gpu);
}

#[test]
fn ssh_capabilities_in_full() {
    let caps = test_driver().capabilities();
    assert_eq!(caps.driver_version, VERSION);
    assert_eq!(caps.gpu_count, 0);
}

#[test]
fn ssh_default_settings() {
    let config = SshComputeConfig::default();
    assert_eq!(config.port, 22);
    assert_eq!(config.user, "root");
    assert_eq!(config.log_level, "info");
    assert!(config.host.is_empty());
    assert!(config.identity_file.is_empty());
}

#[test]
fn ssh_settings_are_checked_in_order() {
    let mut config = SshComputeConfig::default();
    assert_eq!(
        check_config(&config, true, true).unwrap_err(),
        "SSH host is required (--ssh-host or OPENSHELL_SSH_HOST)"
    );
    config.host = "h".to_string();
    assert_eq!(
        check_config(&config, true, true).unwrap_err(),
        "SSH identity file is required (--ssh-key or OPENSHELL_SSH_KEY)"
    );
    config.identity_file = "/k".to_string();
    assert_eq!(
        check_config(&config, false, true).unwrap_err(),
        "SSH identity file not found: /k"
    );
    assert_eq!(
        check_config(&config, true, true).unwrap_err(),
        "SSH supervisor binary path is required (--ssh-supervisor-bin or OPENSHELL_SSH_SUPERVISOR_BIN)"
    );
    config.supervisor_bin = "/b".to_string();
    assert_eq!(
        check_config(&config, true, false).unwrap_err(),
        "SSH supervisor binary not found: /b"
    );
    assert!(check_config(&config, true, true).is_ok());
}

#[test]
fn ssh_driver_starts_empty() {
    let mut config = test_config();
    config.identity_file = "/".to_string();
    config.supervisor_bin = "/".to_string();
    let driver = SshComputeDriver::new(config).ok().unwrap();
    assert_eq!(driver.sandboxes.len(), 0);
    assert_eq!(
        driver.debug_text(),
        "SshComputeDriver { config: SshComputeConfig { host: \"10.0.0.42\", port: 22, user: \
         \"root\", identity_file: \"/\", supervisor_bin: \"/\", grpc_endpoint: \
         \"http://gateway:8080\", ssh_socket_path: \"/run/openshell/ssh.sock\", log_level: \
         \"info\" }, .. }"
    );
    assert_eq!(format!("{:?}", driver.config), driver.config.debug_text());
}

#[test]
fn ssh_and_scp_arguments() {
    let driver = test_driver();
    let c = driver.ssh_exec("echo ok");
    assert_eq!(c.program, "ssh");
    assert_eq!(
        c.args,
        vec![
            "-o",
            "StrictHostKeyChecking=accept-new",
            "-o",
            "BatchMode=yes",
            "-o",
            "ConnectTimeout=10",
            "-p",
            "22",
            "-i",
            "/tmp/test-key",
            "root@10.0.0.42",
            "echo ok"
        ]
    );
    assert!(c.env.is_empty());
    assert!(c.stdin.is_none());
    let c = driver.scp_to_remote("/a", "/b");
    assert_eq!(c.program, "scp");
    assert_eq!(c.args[6], "-P");
    assert_eq!(c.args[10], "/a");
    assert_eq!(c.args[11], "root@10.0.0.42:/b");
}

fn output(success: bool, code: Option<i32>, stdout: &str, stderr: &str) -> CommandOutput {
    CommandOutput {
        success,
        code,
        stdout: stdout.as_bytes().to_vec(),
        stderr: stderr.as_bytes().to_vec(),
    }
}

fn good(stdout: &str) -> Result<CommandOutput, String> {
    Ok(output(true, Some(0), stdout, ""))
}

fn bad() -> Result<CommandOutput, String> {
    Ok(output(false, Some(255), "", "no route"))
}

#[test]
fn command_outputs_are_read() {
    assert_eq!(ssh_result(good("hi\n")).unwrap(), "hi\n");
    let e = ssh_result(bad()).unwrap_err();
    assert_eq!(e.code, StatusCode::Internal);
    assert_eq!(e.message, "SSH command failed (exit 255): no route");
    let e = ssh_result(Ok(output(false, None, "", "killed"))).unwrap_err();
    assert_eq!(e.message, "SSH command failed (exit -1): killed");
    let e = ssh_result(Err("no ssh".to_string())).unwrap_err();
    assert_eq!(e.message, "SSH exec failed: no ssh");
    assert!(scp_result(good("")).is_ok());
    assert_eq!(
        scp_result(bad()).unwrap_err().message,
        "SCP failed (exit 255): no route"
    );
    assert_eq!(
        scp_result(Err("no scp".to_string())).unwrap_err().message,
        "SCP failed: no scp"
    );
    let raw = CommandOutput { success: true, code: Some(0), stdout: vec![0xff], stderr: vec![] };
    assert_eq!(ssh_result(Ok(raw)).unwrap(), "\u{fffd}");
}

#[test]
fn printed_pids_are_read() {
    assert_eq!(parse_pid("1234\n").unwrap(), 1234);
    assert_eq!(parse_pid(" \t+7 ").unwrap(), 7);
    assert_eq!(parse_pid("4294967295").unwrap(), u32::MAX);
    for bad in ["", "x", "-1", "4294967296", "1 2", "+"] {
        let e = parse_pid(bad).unwrap_err();
        assert_eq!(e.code, StatusCode::Internal);
        assert_eq!(
            e.message,
            format!("failed to parse supervisor PID from output: {bad:?}")
        );
    }
}

fn command_of(step: &DeployStep) -> String {
    match step {
        DeployStep::Run(_, c) => c.args[c.args.len() - 1].clone(),
        DeployStep::Done(_) => panic!("a command was expected"),
    }
}

#[test]
fn deployment_step_by_step() {
    let driver = test_driver();
    let sandbox = test_sandbox();
    let step = driver.create_sandbox(Some(&sandbox));
    assert!(matches!(step, DeployStep::Run(DeployStage::Prepare, _)));
    assert_eq!(
        command_of(&step),
        "mkdir -p /opt/openshell/bin /sandbox && id sandbox >/dev/null 2>&1 || useradd -r -m sandbox"
    );
    let step = driver.after_deploy_command(&sandbox, DeployStage::Prepare, good(""));
    assert!(matches!(step, DeployStep::Run(DeployStage::Copy, _)));
    assert_eq!(
        command_of(&step),
        format!("root@10.0.0.42:{REMOTE_SUPERVISOR_PATH}")
    );
    let step = driver.after_deploy_command(&sandbox, DeployStage::Copy, good(""));
    assert_eq!(
        command_of(&step),
        "chmod +x /opt/openshell/bin/openshell-sandbox"
    );
    let step = driver.after_deploy_command(&sandbox, DeployStage::MakeExecutable, good(""));
    assert_eq!(
        command_of(&step),
        "nohup env 'HOME=/root' 'TERM=xterm' 'OPENSHELL_LOG_LEVEL=info' \
         'OPENSHELL_ENDPOINT=http://gateway:8080' 'OPENSHELL_SANDBOX_ID=sb-1234' \
         'OPENSHELL_SANDBOX=test-sandbox' \
         'OPENSHELL_SSH_SOCKET_PATH=/run/openshell/ssh.sock' \
         'OPENSHELL_SANDBOX_COMMAND=sleep infinity' /opt/openshell/bin/openshell-sandbox \
         > /tmp/openshell-supervisor.log 2>&1 & echo $!"
    );
    let step = driver.after_deploy_command(&sandbox, DeployStage::Start, good("77\n"));
    assert!(matches!(step, DeployStep::Done(Ok(77))));
    for stage in [
        DeployStage::Prepare,
        DeployStage::Copy,
        DeployStage::MakeExecutable,
        DeployStage::Start,
    ] {
        let step = driver.after_deploy_command(&sandbox, stage, bad());
        assert!(matches!(step, DeployStep::Done(Err(_))));
    }
}

#[test]
fn values_of_users_are_quoted() {
    let mut sandbox = test_sandbox();
    let spec = sandbox.spec.as_mut().unwrap();
    spec.environment
        .insert("GREETING".to_string(), "it's $HOME; true".to_string());
    let step = test_driver().after_deploy_command(&sandbox, DeployStage::MakeExecutable, good(""));
    assert!(command_of(&step).contains(
        " 'GREETING=it'\\''s $HOME; true' /opt/openshell/bin/openshell-sandbox > "
    ));
}

#[test]
fn driver_needs_its_files() {
    let config = test_driver().config;
    assert!(SshComputeDriver::with_files(config.clone(), true, true).is_ok());
    assert_eq!(
        SshComputeDriver::with_files(config.clone(), false, true).err().unwrap(),
        format!("SSH identity file not found: {}", config.identity_file)
    );
    assert_eq!(
        SshComputeDriver::with_files(config.clone(), true, false).err().unwrap(),
        format!("SSH supervisor binary not found: {}", config.supervisor_bin)
    );
}

#[test]
fn user_variables_follow_the_template() {
    let mut sandbox = test_sandbox();
    let spec = sandbox.spec.as_mut().unwrap();
    spec.environment.insert("B".to_string(), "2".to_string());
    let template = spec.template.as_mut().unwrap();
    template.environment.insert("Z".to_string(), "1".to_string());
    let env = test_driver().build_supervisor_env(&sandbox);
    let n = env.len();
    assert_eq!(env[n - 2], ("Z".to_string(), "1".to_string()));
    assert_eq!(env[n - 1], ("B".to_string(), "2".to_string()));
}

fn shell(step: ValidateStep) -> (ValidateStage, String) {
    match step {
        ValidateStep::Run(stage, c) => (stage, c.args[c.args.len() - 1].clone()),
        ValidateStep::Done(_) => panic!("a command was expected"),
    }
}

fn refusal(step: ValidateStep) -> (StatusCode, String) {
    match step {
        ValidateStep::Done(Err(e)) => (e.code, e.message),
        _ => panic!("a refusal was expected"),
    }
}

#[test]
fn validation_step_by_step() {
    let mut driver = test_driver();
    let sandbox = test_sandbox();
    assert_eq!(
        refusal(driver.validate_sandbox_create(None)),
        (StatusCode::InvalidArgument, "sandbox is required".to_string())
    );
    let (stage, command) = shell(driver.validate_sandbox_create(Some(&sandbox)));
    assert_eq!(stage, ValidateStage::Reach);
    assert_eq!(command, "echo ok");
    assert_eq!(
        refusal(driver.after_validate_command(&sandbox, stage, bad())),
        (
            StatusCode::FailedPrecondition,
            "cannot reach SSH host 10.0.0.42:22 as root".to_string()
        )
    );
    let (stage, command) = shell(driver.after_validate_command(&sandbox, stage, good("ok")));
    assert_eq!(command, "cat /sys/kernel/security/lsm 2>/dev/null");
    let (stage, command) = shell(driver.after_validate_command(&sandbox, stage, bad()));
    assert_eq!(command, "which ip nsenter >/dev/null 2>&1");
    assert_eq!(
        refusal(driver.after_validate_command(&sandbox, stage, bad())),
        (
            StatusCode::FailedPrecondition,
            "remote host missing required tools: ip, nsenter (install iproute2)".to_string()
        )
    );
    assert!(matches!(
        driver.after_validate_command(&sandbox, stage, good("")),
        ValidateStep::Done(Ok(()))
    ));
    driver.created(test_sandbox(), 5);
    assert!(matches!(
        driver.after_validate_command(&sandbox, stage, good("")),
        ValidateStep::Done(Ok(()))
    ));
    assert_eq!(
        refusal(driver.after_validate_command(&named("other", "o"), stage, good(""))),
        (
            StatusCode::FailedPrecondition,
            "SSH driver supports one sandbox per host; sandbox 'sb-1234' already exists on 10.0.0.42"
                .to_string()
        )
    );
}

#[test]
fn created_sandbox_is_found_and_listed() {
    let mut driver = test_driver();
    let readiness = MockSupervisorReadiness::new();
    match driver.created(test_sandbox(), 42) {
        WatchSandboxesEvent::Sandbox(s) => {
            let status = s.status.unwrap();
            assert_eq!(status.conditions[0].status, "False");
            assert_eq!(status.conditions[1].message, "Process running (PID 42)");
            assert_eq!(status.instance_id, "42");
        }
        _ => panic!("a sandbox was expected"),
    }
    let found = driver.get_sandbox("sb-1234", "", &readiness).unwrap();
    assert_eq!(found.namespace, "default");
    assert_eq!(found.status.unwrap().conditions[0].status, "False");
    readiness.set_connected("sb-1234");
    let found = driver.get_sandbox("", "test-sandbox", &readiness).unwrap();
    assert_eq!(found.status.unwrap().conditions[0].status, "True");
    match driver.create_sandbox(Some(&test_sandbox())) {
        DeployStep::Done(Err(e)) => {
            assert_eq!(e.code, StatusCode::AlreadyExists);
            assert_eq!(e.message, "sandbox already exists");
        }
        _ => panic!("a refusal was expected"),
    }
    match driver.create_sandbox(None) {
        DeployStep::Done(Err(e)) => assert_eq!(e.code, StatusCode::InvalidArgument),
        _ => panic!("a refusal was expected"),
    }
    let e = driver.get_sandbox("", "", &readiness).err().unwrap();
    assert_eq!(e.code, StatusCode::InvalidArgument);
    assert_eq!(e.message, "sandbox_id or sandbox_name is required");
    let e = driver.get_sandbox("x", "", &readiness).err().unwrap();
    assert_eq!(e.code, StatusCode::NotFound);
    assert_eq!(e.message, "sandbox not found");
}

#[test]
fn sandboxes_are_listed_by_identifier() {
    let mut driver = test_driver();
    let readiness = MockSupervisorReadiness::new();
    readiness.set_connected("b");
    for id in ["c", "a", "b"] {
        driver.created(named(id, "same"), 1);
    }
    let list = driver.list_sandboxes(&readiness);
    let ids: Vec<&str> = list.iter().map(|s| s.id.as_str()).collect();
    assert_eq!(ids, vec!["a", "b", "c"]);
    let ready: Vec<&str> = list
        .iter()
        .map(|s| s.status.as_ref().unwrap().conditions[0].status.as_str())
        .collect();
    assert_eq!(ready, vec!["False", "True", "False"]);
    match driver.watch_sandboxes() {
        WatchStep::Subscribe(run) => match driver.after_subscription(run, &readiness) {
            WatchStep::Tell(events) => assert_eq!(events.len(), 3),
            _ => panic!("events were expected"),
        },
        _ => panic!("a subscription was expected"),
    }
    assert_eq!(readiness_ids(&driver.sandboxes), vec!["a", "b", "c"]);
    assert_eq!(
        readiness_id(&driver.sandboxes, "", "same"),
        Some("a".to_string())
    );
    assert_eq!(readiness_id(&driver.sandboxes, "", ""), None);
    assert_eq!(readiness_id(&driver.sandboxes, "x", ""), None);
    assert_eq!(
        find_sandbox_key(&driver.sandboxes, "", "same").unwrap(),
        "a"
    );
}

#[test]
fn stopping_keeps_the_sandbox() {
    let mut driver = test_driver();
    driver.created(test_sandbox(), 42);
    let c = driver.stop_sandbox("sb-1234", "").ok().unwrap().unwrap();
    assert_eq!(
        c.args[c.args.len() - 1],
        "kill 42 2>/dev/null; sleep 2; kill -0 42 2>/dev/null && kill -9 42 2>/dev/null; true"
    );
    driver.stopped("sb-1234", "");
    let state = find_sandbox(&driver.sandboxes, "sb-1234", "").unwrap();
    assert!(!state.running);
    assert_eq!(state.remote_pid, Some(42));
    assert_eq!(
        driver.stop_sandbox("x", "").err().unwrap().code,
        StatusCode::NotFound
    );
    assert_eq!(
        driver.stop_sandbox("", "").err().unwrap().code,
        StatusCode::InvalidArgument
    );
    driver.sandboxes.insert(SshSandboxState {
        sandbox: named("q", "q"),
        remote_pid: None,
        running: false,
    });
    assert!(driver.stop_sandbox("q", "").ok().unwrap().is_none());
}

#[test]
fn deleting_forgets_the_sandbox() {
    let mut driver = test_driver();
    driver.created(test_sandbox(), 42);
    let removal = driver.delete_sandbox("", "test-sandbox").ok().unwrap().unwrap();
    assert_eq!(removal.commands.len(), 2);
    let last = &removal.commands[1].args;
    assert_eq!(
        last[last.len() - 1],
        "rm -f /opt/openshell/bin/openshell-sandbox /tmp/openshell-supervisor.log"
    );
    match removal.event {
        Some(WatchSandboxesEvent::Deleted(id)) => assert_eq!(id, "sb-1234"),
        _ => panic!("a deletion was expected"),
    }
    assert!(find_sandbox(&driver.sandboxes, "sb-1234", "").is_none());
    assert!(driver.delete_sandbox("sb-1234", "").ok().unwrap().is_none());
    assert!(driver.delete_sandbox("", "").is_err());
    driver.sandboxes.insert(SshSandboxState {
        sandbox: named("", "no-id"),
        remote_pid: None,
        running: false,
    });
    let removal = driver.delete_sandbox("", "no-id").ok().unwrap().unwrap();
    assert_eq!(removal.commands.len(), 1);
    assert!(removal.event.is_none());
}

#[test]
fn supervisors_are_looked_at() {
    let mut driver = test_driver();
    driver.created(test_sandbox(), 42);
    driver.sandboxes.insert(SshSandboxState {
        sandbox: named("q", "q"),
        remote_pid: None,
        running: false,
    });
    assert_eq!(driver.poll_targets(), vec![("sb-1234".to_string(), 42)]);
    let c = driver.is_process_alive(42);
    assert_eq!(
        c.args[c.args.len() - 1],
        "kill -0 42 2>/dev/null && echo alive"
    );
    assert!(alive_result(good(" alive\n")));
    assert!(!alive_result(good("dead")));
    assert!(!alive_result(bad()));
    // Nothing has changed, and nobody is connected.
    assert!(driver.poll_result("sb-1234", good("alive"), false).is_none());
    // A connected supervisor is told at every look.
    assert!(driver.poll_result("sb-1234", good("alive"), true).is_some());
    match driver.poll_result("sb-1234", bad(), false) {
        Some(WatchSandboxesEvent::Sandbox(s)) => {
            let status = s.status.unwrap();
            assert_eq!(status.conditions.len(), 1);
            assert_eq!(status.conditions[0].reason, "NotRunning");
        }
        _ => panic!("a sandbox was expected"),
    }
    assert!(driver.poll_result("gone", good("alive"), true).is_none());
}

#[test]
fn a_round_looks_at_every_supervisor() {
    let mut driver = test_driver();
    for (id, pid) in [("c", Some(3)), ("a", Some(1)), ("b", None), ("d", Some(4))] {
        driver.sandboxes.insert(SshSandboxState {
            sandbox: named(id, id),
            remote_pid: pid,
            running: true,
        });
    }
    let targets = driver.poll_targets();
    assert_eq!(
        targets,
        vec![("a".to_string(), 1), ("c".to_string(), 3), ("d".to_string(), 4)]
    );
    let mut told = Vec::new();
    for (id, pid) in targets {
        let output = if pid == 3 { bad() } else { good("alive") };
        match driver.poll_result(&id, output, pid == 4) {
            Some(WatchSandboxesEvent::Sandbox(s)) => told.push(s.id),
            Some(_) => panic!("a sandbox was expected"),
            None => {}
        }
    }
    assert_eq!(told, vec!["c", "d"]);
    let running: Vec<bool> = ["a", "b", "c", "d"]
        .iter()
        .map(|id| find_sandbox(&driver.sandboxes, id, "").unwrap().running)
        .collect();
    assert_eq!(running, vec![true, true, false, true]);
}

#[test]
fn watches_survive_missed_events() {
    assert!(matches!(relay(Received::Lagged), Relay::Skip));
    assert!(matches!(relay(Received::Closed), Relay::Stop));
    let event = WatchSandboxesEvent::Deleted("x".to_string());
    assert!(matches!(
        relay(Received::Event(event)),
        Relay::Send(WatchSandboxesEvent::Deleted(_))
    ));
}
