use openshell_drivers::compute::{DriverSandbox, StatusCode, WatchSandboxesEvent, VERSION};
use openshell_drivers::local::{
    check_config, child_seen, find_sandbox, spawn_error, ChildState, LocalComputeConfig,
    LocalComputeDriver, LocalSandboxState, RoundStep, SupervisorReadiness,
};
use openshell_drivers::registry::{Registry, WatchStep};

struct Readiness {
    connected: bool,
}

impl SupervisorReadiness for Readiness {
    fn is_supervisor_connected(&self, _sandbox_id: &str) -> bool {
        self.connected
    }
}

fn config() -> LocalComputeConfig {
    LocalComputeConfig {
        supervisor_bin: "/bin".to_string(),
        grpc_endpoint: "http://gw:8080".to_string(),
        ssh_socket_path: "/run/s.sock".to_string(),
        log_level: "warn".to_string(),
    }
}

fn driver() -> LocalComputeDriver {
    LocalComputeDriver { config: config(), sandboxes: Registry::new() }
}

fn sandbox(id: &str, name: &str) -> DriverSandbox {
    DriverSandbox {
        id: id.to_string(),
        name: name.to_string(),
        namespace: "ns".to_string(),
        spec: None,
        status: None,
    }
}

#[test]
fn local_default_settings() {
    let config = LocalComputeConfig::default();
    assert_eq!(config.log_level, "info");
    assert!(config.supervisor_bin.is_empty());
    assert!(config.grpc_endpoint.is_empty());
    assert!(config.ssh_socket_path.is_empty());
}

#[test]
fn local_settings_are_checked_in_order() {
    let mut c = LocalComputeConfig::default();
    assert_eq!(
        check_config(&c, true).unwrap_err(),
        "supervisor binary path is required (--local-supervisor-bin or OPENSHELL_LOCAL_SUPERVISOR_BIN)"
    );
    c.supervisor_bin = "/b".to_string();
    assert_eq!(
        check_config(&c, true).unwrap_err(),
        "gRPC endpoint is required (--grpc-endpoint or OPENSHELL_GRPC_ENDPOINT)"
    );
    c.grpc_endpoint = "e".to_string();
    assert_eq!(
        check_config(&c, false).unwrap_err(),
        "supervisor binary not found: /b"
    );
    assert!(check_config(&c, true).is_ok());
    assert!(LocalComputeDriver::with_binary(c.clone(), true).is_ok());
    assert_eq!(
        LocalComputeDriver::with_binary(c.clone(), false).err().unwrap(),
        "supervisor binary not found: /b"
    );
    c.supervisor_bin = "/nonexistent/supervisor".to_string();
    assert_eq!(
        LocalComputeDriver::new(c).err().unwrap(),
        "supervisor binary not found: /nonexistent/supervisor"
    );
}

#[test]
fn local_driver_starts_empty() {
    let mut c = config();
    c.supervisor_bin = "/".to_string();
    let d = LocalComputeDriver::new(c).ok().unwrap();
    assert_eq!(d.sandboxes.len(), 0);
    assert_eq!(
        d.debug_text(),
        "LocalComputeDriver { config: LocalComputeConfig { supervisor_bin: \"/\", grpc_endpoint: \
         \"http://gw:8080\", ssh_socket_path: \"/run/s.sock\", log_level: \"warn\" }, .. }"
    );
    assert_eq!(format!("{:?}", d.config), d.config.debug_text());
}

#[test]
fn local_capabilities() {
    let caps = driver().capabilities();
    assert_eq!(caps.driver_name, "local");
    assert_eq!(caps.driver_version, VERSION);
    assert!(caps.default_image.is_empty());
    assert!(!caps.supports_gpu);
    assert_eq!(caps.gpu_count, 0);
}

#[test]
fn local_supervisor_process() {
    let launch = driver().create_sandbox(Some(&sandbox("i", "n"))).ok().unwrap();
    assert_eq!(launch.program, "/bin");
    let env: Vec<String> = launch.env.iter().map(|e| format!("{}={}", e.0, e.1)).collect();
    assert_eq!(
        env,
        vec![
            "HOME=/root",
            "TERM=xterm",
            "OPENSHELL_LOG_LEVEL=warn",
            "OPENSHELL_ENDPOINT=http://gw:8080",
            "OPENSHELL_SANDBOX_ID=i",
            "OPENSHELL_SANDBOX=n",
            "OPENSHELL_SSH_SOCKET_PATH=/run/s.sock",
            "OPENSHELL_SANDBOX_COMMAND=sleep infinity",
        ]
    );
    assert_eq!(spawn_error("x").message, "failed to spawn supervisor: x");
    assert_eq!(spawn_error("x").code, StatusCode::Internal);
}

#[test]
fn local_snapshots() {
    let state = LocalSandboxState { sandbox: sandbox("i", "n"), running: true };
    let status = LocalComputeDriver::build_snapshot(&state, false).status.unwrap();
    assert_eq!(status.conditions[0].message, "Waiting for supervisor to connect");
    assert_eq!(status.conditions[1].condition_type, "Scheduled");
    assert_eq!(status.conditions[1].reason, "Running");
    assert_eq!(status.conditions[1].message, "Process running");
    assert!(status.instance_id.is_empty());
    assert!(!status.deleting);
    let state = LocalSandboxState { sandbox: sandbox("i", "n"), running: false };
    let status = LocalComputeDriver::build_snapshot(&state, true).status.unwrap();
    assert_eq!(status.conditions.len(), 1);
    assert_eq!(status.conditions[0].message, "Supervisor relay is connected");
    let status = LocalComputeDriver::build_snapshot(&state, false).status.unwrap();
    assert_eq!(status.conditions[0].message, "Supervisor process is not running");
}

#[test]
fn local_validation() {
    let mut d = driver();
    let e = d.validate_with(None, true).unwrap_err();
    assert_eq!(e.code, StatusCode::InvalidArgument);
    let e = d.validate_with(Some(&sandbox("i", "n")), false).unwrap_err();
    assert_eq!(e.code, StatusCode::FailedPrecondition);
    assert_eq!(e.message, "supervisor binary not found: /bin");
    assert!(d.validate_with(Some(&sandbox("i", "n")), true).is_ok());
    d.created(sandbox("i", "n"));
    assert!(d.validate_with(Some(&sandbox("i", "n")), true).is_ok());
    let e = d.validate_with(Some(&sandbox("j", "n")), true).unwrap_err();
    assert_eq!(
        e.message,
        "local driver supports one sandbox per host; sandbox 'i' already exists on this host"
    );
    assert!(d.validate_sandbox_create(None).is_err());
}

#[test]
fn local_life_of_a_sandbox() {
    let mut d = driver();
    let off = Readiness { connected: false };
    let on = Readiness { connected: true };
    assert!(d.create_sandbox(None).is_err());
    assert!(matches!(
        d.created(sandbox("i", "n")),
        WatchSandboxesEvent::Sandbox(_)
    ));
    assert_eq!(
        d.create_sandbox(Some(&sandbox("i", "n"))).err().unwrap().code,
        StatusCode::AlreadyExists
    );
    assert_eq!(d.poll_targets(), vec!["i".to_string()]);
    assert!(d.get_sandbox("i", "", &off).is_ok());
    assert_eq!(
        d.get_sandbox("", "x", &off).err().unwrap().code,
        StatusCode::NotFound
    );
    assert_eq!(d.list_sandboxes(&on).len(), 1);
    match d.watch_sandboxes() {
        WatchStep::Subscribe(run) => match d.after_subscription(run, &on) {
            WatchStep::Tell(events) => assert_eq!(events.len(), 1),
            _ => panic!("events were expected"),
        },
        _ => panic!("a subscription was expected"),
    }
    assert!(d.poll_result("i", ChildState::Running, false).is_none());
    assert!(d.poll_result("i", ChildState::Exited, false).is_some());
    assert!(d.poll_result("i", ChildState::Missing, false).is_none());
    assert!(d.poll_result("i", ChildState::Unknown, true).is_some());
    assert!(d.poll_result("i", ChildState::Running, false).is_some());
    assert_eq!(d.stop_sandbox("", "n").ok().unwrap(), Some("i".to_string()));
    assert!(!find_sandbox(&d.sandboxes, "i", "").unwrap().running);
    assert_eq!(d.stop_sandbox("x", "").ok().unwrap(), None);
    assert!(d.stop_sandbox("", "").is_err());
    let removal = d.delete_sandbox("i", "").ok().unwrap().unwrap();
    assert_eq!(removal.child, "i");
    assert!(matches!(
        removal.event,
        Some(WatchSandboxesEvent::Deleted(_))
    ));
    assert!(d.delete_sandbox("i", "").ok().unwrap().is_none());
    assert!(d.delete_sandbox("", "").is_err());
    assert_eq!(d.sandboxes.len(), 0);
}

#[test]
fn child_states() {
    assert_eq!(child_seen(ChildState::Running), (true, false));
    assert_eq!(child_seen(ChildState::Exited), (false, true));
    assert_eq!(child_seen(ChildState::Missing), (false, false));
    assert_eq!(child_seen(ChildState::Unknown), (false, false));
}

#[test]
fn a_round_looks_at_every_child() {
    let mut d = driver();
    match d.start_round() {
        RoundStep::Tell(events) => assert!(events.is_empty()),
        RoundStep::Look(_) => panic!("there is nothing to look at"),
    }
    for id in ["e", "b", "d", "a", "c"] {
        d.created(sandbox(id, id));
    }
    let mut looked = Vec::new();
    let mut step = d.start_round();
    let events = loop {
        match step {
            RoundStep::Tell(events) => break events,
            RoundStep::Look(round) => {
                looked.push(round.id.clone());
                let (child, connected) = match round.id.as_str() {
                    // Still running, and nobody is connected: nothing to tell.
                    "a" => (ChildState::Running, false),
                    "b" => (ChildState::Exited, false),
                    "c" => (ChildState::Running, true),
                    "d" => (ChildState::Missing, true),
                    _ => (ChildState::Unknown, false),
                };
                if round.id == "c" {
                    // A sandbox that is deleted in between is looked at for nothing.
                    assert!(d.delete_sandbox("e", "").ok().unwrap().is_some());
                }
                step = d.after_look(round, child, connected);
            }
        }
    };
    assert_eq!(looked, vec!["a", "b", "c", "d", "e"]);
    let told: Vec<String> = events
        .into_iter()
        .map(|event| match event {
            WatchSandboxesEvent::Sandbox(s) => s.id,
            _ => panic!("a sandbox was expected"),
        })
        .collect();
    assert_eq!(told, vec!["b", "c", "d"]);
    let running: Vec<bool> = ["a", "b", "c", "d"]
        .iter()
        .map(|id| find_sandbox(&d.sandboxes, id, "").unwrap().running)
        .collect();
    assert_eq!(running, vec![true, false, true, false]);
    assert!(find_sandbox(&d.sandboxes, "e", "").is_none());
    assert_eq!(d.poll_targets().len(), 4);
}
