use openshell_drivers::compute::{
    ComputeDriverError, DriverResources, DriverSandbox, DriverSandboxSpec, DriverSandboxTemplate,
    WatchSandboxesEvent, VERSION,
};
use openshell_drivers::defaults::{
    DEFAULT_SERVER_PORT, DEFAULT_SSH_PORT, DEFAULT_STOP_TIMEOUT_SECS,
};
use openshell_drivers::lxd::client::{
    EventMetadata, Instance, LxdApiError, LxdClient, LxdEvent, Method,
};
use openshell_drivers::lxd::config::{
    socket_path_for, LxdComputeConfig, DEB_SOCKET_PATH, SNAP_SOCKET_PATH,
};
use openshell_drivers::lxd::driver::{
    build_startup_script, check_gpu, detect_grpc_endpoint, exists_result, get_result, list_result,
    stop_result, validated_instance_name, ConnectStage, ConnectStep, CreateStep,
    DeleteStep, LxdComputeDriver,
};
use openshell_drivers::lxd::instance::{
    build_env, build_instance_spec, instance_name, resolve_image, sandbox_name_from_instance,
    short_id, CONFIG_MANAGED, CONFIG_SANDBOX_ID, CONFIG_SANDBOX_NAME,
};
use openshell_drivers::lxd::watcher::{
    after_fetch, condition_from_status, driver_sandbox_from_instance, map_lxd_event,
    receiver_dropped, start_watch, stream_ended, stream_error, EventAction, WatchStep,
};
use openshell_drivers::shell::{quote_word, shell_escape};
use openshell_drivers::string_map::StringMap;

fn map_of(pairs: &[(&str, &str)]) -> StringMap<String> {
    let mut m = StringMap::new();
    for (k, v) in pairs {
        m.insert(k.to_string(), v.to_string());
    }
    m
}

fn test_config() -> LxdComputeConfig {
    LxdComputeConfig {
        default_image: "ubuntu:22.04".to_string(),
        network_name: "openshell".to_string(),
        grpc_endpoint: "http://10.0.0.1:8080".to_string(),
        ssh_listen_addr: "0.0.0.0:2222".to_string(),
        ssh_handshake_secret: "test-secret".to_string(),
        ..LxdComputeConfig::default()
    }
}

fn test_sandbox(id: &str, name: &str) -> DriverSandbox {
    DriverSandbox {
        id: id.to_string(),
        name: name.to_string(),
        namespace: String::new(),
        spec: None,
        status: None,
    }
}

fn full_sandbox(id: &str, name: &str) -> DriverSandbox {
    let mut sandbox = test_sandbox(id, name);
    sandbox.spec = Some(DriverSandboxSpec {
        log_level: "debug".to_string(),
        environment: map_of(&[("A", "spec"), ("B", "spec"), ("OPENSHELL_ENDPOINT", "evil")]),
        template: Some(DriverSandboxTemplate {
            image: "custom:1".to_string(),
            agent_socket_path: String::new(),
            labels: map_of(&[]),
            environment: map_of(&[("B", "template"), ("OPENSHELL_SANDBOX_ID", "evil")]),
            resources: Some(DriverResources {
                cpu_limit: "8".to_string(),
                memory_limit: String::new(),
            }),
            platform_config: None,
        }),
        gpu: true,
        gpu_device: String::new(),
    });
    sandbox
}

// Settings

#[test]
fn default_config_has_expected_ports() {
    let config = LxdComputeConfig::default();
    assert_eq!(config.ssh_port, DEFAULT_SSH_PORT);
    assert_eq!(config.gateway_port, DEFAULT_SERVER_PORT);
    assert_eq!(config.stop_timeout_secs, DEFAULT_STOP_TIMEOUT_SECS);
}

#[test]
fn default_settings() {
    let config = LxdComputeConfig::default();
    assert_eq!(config.project, "openshell");
    assert_eq!(config.network_name, "openshell");
    assert_eq!(config.stop_timeout_secs, 10);
    assert_eq!(config.sandbox_ssh_socket_path, "/run/openshell/ssh.sock");
    assert!(config.default_image.is_empty());
    assert!(config.grpc_endpoint.is_empty());
    assert!(config.ssh_handshake_secret.is_empty());
    assert!(config.socket_path == SNAP_SOCKET_PATH || config.socket_path == DEB_SOCKET_PATH);
    assert_eq!(config.socket_path, LxdComputeConfig::default_socket_path());
}

#[test]
fn snap_socket_comes_first() {
    assert_eq!(socket_path_for(true), "/var/snap/lxd/common/lxd/unix.socket");
    assert_eq!(socket_path_for(false), "/var/lib/lxd/unix.socket");
}

#[test]
fn config_text_hides_the_secret() {
    let mut config = LxdComputeConfig::with_socket_path("/s".to_string());
    config.ssh_handshake_secret = "hush".to_string();
    let text = config.debug_text();
    assert_eq!(
        text,
        "LxdComputeConfig { socket_path: \"/s\", project: \"openshell\", default_image: \"\", \
         grpc_endpoint: \"\", gateway_port: 8080, sandbox_ssh_socket_path: \
         \"/run/openshell/ssh.sock\", network_name: \"openshell\", ssh_listen_addr: \"\", \
         ssh_port: 2222, ssh_handshake_secret: \"[REDACTED]\", ssh_handshake_skew_secs: 300, \
         stop_timeout_secs: 10 }"
    );
    config.ssh_handshake_secret = "other".to_string();
    assert_eq!(config.debug_text(), text);
}

// Driver

#[test]
fn lxd_driver_error_from_conflict() {
    let err = ComputeDriverError::from(LxdApiError::Conflict("exists".into()));
    assert!(matches!(err, ComputeDriverError::AlreadyExists));
}

#[test]
fn lxd_driver_error_from_not_found() {
    let err = ComputeDriverError::from(LxdApiError::NotFound("gone".into()));
    assert!(matches!(err, ComputeDriverError::Message(_)));
}

#[test]
fn driver_errors_keep_their_text() {
    match ComputeDriverError::from(LxdApiError::NotFound("gone".into())) {
        ComputeDriverError::Message(m) => assert_eq!(m, "not found: gone"),
        _ => panic!("a message was expected"),
    }
    match ComputeDriverError::from(LxdApiError::Timeout(30)) {
        ComputeDriverError::Message(m) => assert_eq!(m, "timeout after 30s"),
        _ => panic!("a message was expected"),
    }
}

#[test]
fn grpc_endpoint_auto_detected_from_gateway_port() {
    let config = LxdComputeConfig {
        gateway_port: 8081,
        ..LxdComputeConfig::default()
    };
    let cfg = detect_grpc_endpoint(config);
    assert_eq!(cfg.grpc_endpoint, "http://10.0.0.1:8081");
}

#[test]
fn explicit_grpc_endpoint_takes_precedence() {
    let config = LxdComputeConfig {
        grpc_endpoint: "https://gateway.internal:9000".to_string(),
        gateway_port: 8081,
        ..LxdComputeConfig::default()
    };
    let cfg = detect_grpc_endpoint(config);
    assert_eq!(cfg.grpc_endpoint, "https://gateway.internal:9000");
}

#[test]
fn startup_script_escapes_single_quotes() {
    let env = vec![("KEY".to_string(), "value with 'quotes'".to_string())];
    let script = build_startup_script(&env);
    assert!(script.contains("export KEY='value with '\\''quotes'\\'''"));
}

#[test]
fn startup_script_contains_exec() {
    let env = vec![("TEST".to_string(), "val".to_string())];
    let script = build_startup_script(&env);
    assert!(script.contains("exec /opt/openshell/bin/openshell-sandbox"));
}

#[test]
fn startup_script_in_full() {
    let env = vec![
        ("A".to_string(), "1".to_string()),
        ("B".to_string(), "$(x)".to_string()),
    ];
    assert_eq!(
        build_startup_script(&env),
        "#!/bin/sh\nset -e\nmkdir -p /opt/openshell/bin /run/openshell /sandbox\n\
         export A='1'\nexport B='$(x)'\nexec /opt/openshell/bin/openshell-sandbox\n"
    );
    assert_eq!(quote_word("a b"), "'a b'");
    assert_eq!(shell_escape("''"), "'\\'''\\''");
}

fn connect(answer: Result<(), LxdApiError>, stage: ConnectStage) -> ConnectStep {
    LxdComputeDriver::after_connect_call(&test_config(), stage, answer)
}

#[test]
fn connecting_step_by_step() {
    match LxdComputeDriver::new(&test_config()) {
        ConnectStep::Call(ConnectStage::Ping, q) => assert_eq!(q.uri, "http://localhost/1.0"),
        _ => panic!("the daemon has to be asked first"),
    }
    assert!(matches!(
        connect(Ok(()), ConnectStage::Ping),
        ConnectStep::Call(ConnectStage::Info, _)
    ));
    assert!(matches!(
        connect(Err(LxdApiError::Timeout(1)), ConnectStage::Ping),
        ConnectStep::Done(Err(LxdApiError::Timeout(1)))
    ));
    match connect(Err(LxdApiError::Timeout(1)), ConnectStage::Info) {
        ConnectStep::Done(Err(e)) => assert_eq!(
            e.text(),
            "connection error: failed to query LXD server info: timeout after 1s"
        ),
        _ => panic!("an error was expected"),
    }
    assert!(matches!(
        connect(Ok(()), ConnectStage::Info),
        ConnectStep::Call(ConnectStage::FindProject, _)
    ));
    assert!(matches!(
        connect(Err(LxdApiError::NotFound("x".into())), ConnectStage::FindProject),
        ConnectStep::Call(ConnectStage::MakeProject, _)
    ));
    match connect(Err(LxdApiError::Conflict("x".into())), ConnectStage::MakeProject) {
        ConnectStep::Done(Ok(d)) => {
            assert_eq!(d.default_image(), "ubuntu:22.04");
            assert_eq!(d.client.project, "openshell");
        }
        _ => panic!("a driver was expected"),
    }
}

fn host_has_gpu() -> bool {
    std::path::Path::new("/dev/nvidia0").exists()
}

#[test]
fn capabilities_of_the_driver() {
    let driver = LxdComputeDriver::with_config(test_config());
    let caps = driver.capabilities_with(true);
    assert_eq!(caps.driver_name, "lxd");
    assert_eq!(caps.driver_version, VERSION);
    assert_eq!(caps.default_image, "ubuntu:22.04");
    assert!(caps.supports_gpu);
    let caps = driver.capabilities();
    assert_eq!(caps.supports_gpu, host_has_gpu());
    assert_eq!(
        driver.debug_text(),
        format!(
            "LxdComputeDriver {{ socket_path: {:?}, project: \"openshell\", default_image: \
             \"ubuntu:22.04\", network_name: \"openshell\" }}",
            driver.config.socket_path
        )
    );
}

#[test]
fn gpu_sandboxes_need_a_gpu() {
    let plain = test_sandbox("id", "name");
    let gpu = full_sandbox("id", "name");
    assert!(check_gpu(&plain, false).is_ok());
    assert!(check_gpu(&gpu, true).is_ok());
    match check_gpu(&gpu, false) {
        Err(ComputeDriverError::Precondition(m)) => assert_eq!(
            m,
            "GPU sandbox requested, but no NVIDIA GPU devices are available."
        ),
        _ => panic!("a precondition was expected"),
    }
    let driver = LxdComputeDriver::with_config(test_config());
    assert!(driver.validate_sandbox_create(&plain).is_ok());
    assert_eq!(
        driver.validate_sandbox_create(&gpu).is_ok(),
        host_has_gpu()
    );
}

#[test]
fn instance_names_are_validated() {
    assert_eq!(validated_instance_name("a").unwrap(), "openshell-sandbox-a");
    match validated_instance_name("a/b") {
        Err(ComputeDriverError::Precondition(m)) => assert!(m.starts_with("invalid input: ")),
        _ => panic!("a precondition was expected"),
    }
}

#[test]
fn creation_refuses_incomplete_sandboxes() {
    let driver = LxdComputeDriver::with_config(test_config());
    let complaint = |sandbox: &DriverSandbox, driver: &LxdComputeDriver| match driver
        .create_sandbox(sandbox)
    {
        CreateStep::Done(Err(ComputeDriverError::Precondition(m))) => m,
        _ => panic!("a precondition was expected"),
    };
    assert_eq!(
        complaint(&test_sandbox("id", ""), &driver),
        "sandbox name is required"
    );
    assert_eq!(
        complaint(&test_sandbox("", "name"), &driver),
        "sandbox id is required"
    );
    let no_image = LxdComputeDriver::with_config(LxdComputeConfig::default());
    assert_eq!(
        complaint(&test_sandbox("id", "name"), &no_image),
        "no sandbox image configured: set --sandbox-image on the server or provide an image in the sandbox template"
    );
}

/// Runs a creation with the given answers, and returns the requests and the end.
fn run_creation(answers: &[bool]) -> (Vec<String>, Option<bool>) {
    let driver = LxdComputeDriver::with_config(test_config());
    let mut step = driver.create_sandbox(&test_sandbox("id", "name"));
    let mut requests = Vec::new();
    let mut answers = answers.iter();
    loop {
        match step {
            CreateStep::Done(r) => return (requests, Some(r.is_ok())),
            CreateStep::Call(run, q) => {
                let body = String::from_utf8_lossy(&q.body).into_owned();
                let what = match q.method {
                    Method::Delete => "delete".to_string(),
                    Method::Post if q.uri.contains("/files?") => {
                        assert!(run.is_push());
                        "push".to_string()
                    }
                    Method::Post if q.uri.contains("/exec") => "exec".to_string(),
                    Method::Post => "create".to_string(),
                    _ if body.contains("start") => "start".to_string(),
                    _ => "stop".to_string(),
                };
                requests.push(what);
                let answer = match answers.next() {
                    Some(true) => Ok(()),
                    Some(false) => Err(LxdApiError::Timeout(1)),
                    None => return (requests, None),
                };
                step = driver.after_create_call(run, answer);
            }
        }
    }
}

#[test]
fn creation_that_succeeds() {
    let (requests, end) = run_creation(&[true, true, true, true]);
    assert_eq!(requests, vec!["create", "start", "push", "exec"]);
    assert_eq!(end, Some(true));
}

#[test]
fn failed_creation_leaves_no_instance() {
    let (requests, end) = run_creation(&[false]);
    assert_eq!(requests, vec!["create"]);
    assert_eq!(end, Some(false));
    let (requests, end) = run_creation(&[true, false, false]);
    assert_eq!(requests, vec!["create", "start", "delete"]);
    assert_eq!(end, Some(false));
    let (requests, end) = run_creation(&[true, true, false, true, true]);
    assert_eq!(requests, vec!["create", "start", "push", "stop", "delete"]);
    assert_eq!(end, Some(false));
    let (requests, end) = run_creation(&[true, true, true, false, false, false]);
    assert_eq!(
        requests,
        vec!["create", "start", "push", "exec", "stop", "delete"]
    );
    assert_eq!(end, Some(false));
}

#[test]
fn existing_instance_is_reported() {
    let driver = LxdComputeDriver::with_config(test_config());
    match driver.create_sandbox(&test_sandbox("id", "name")) {
        CreateStep::Call(run, q) => {
            assert_eq!(q.uri, "http://localhost/1.0/instances?project=openshell");
            let step = driver.after_create_call(run, Err(LxdApiError::Conflict("x".into())));
            assert!(matches!(
                step,
                CreateStep::Done(Err(ComputeDriverError::AlreadyExists))
            ));
        }
        _ => panic!("a request was expected"),
    }
}

#[test]
fn supervisor_environment_in_order() {
    let driver = LxdComputeDriver::with_config(test_config());
    let env = driver.build_supervisor_env(&full_sandbox("id", "name"), "custom:1");
    let keys: Vec<&str> = env.iter().map(|e| e.0.as_str()).collect();
    assert_eq!(
        keys,
        vec![
            "OPENSHELL_SANDBOX",
            "OPENSHELL_SANDBOX_ID",
            "OPENSHELL_ENDPOINT",
            "OPENSHELL_SSH_SOCKET_PATH",
            "OPENSHELL_SSH_LISTEN_ADDR",
            "OPENSHELL_SSH_HANDSHAKE_SECRET",
            "OPENSHELL_SSH_HANDSHAKE_SKEW_SECS",
            "OPENSHELL_CONTAINER_IMAGE",
            "OPENSHELL_SANDBOX_COMMAND",
            "OPENSHELL_LOG_LEVEL",
            "A",
            "B",
            "OPENSHELL_ENDPOINT",
            "B",
            "OPENSHELL_SANDBOX_ID",
        ]
    );
    assert_eq!(env[6].1, "300");
    assert_eq!(env[7].1, "custom:1");
    assert_eq!(env[8].1, "sleep infinity");
}

#[test]
fn stopping_a_sandbox() {
    let driver = LxdComputeDriver::with_config(test_config());
    let q = driver.stop_sandbox("name").unwrap();
    assert_eq!(
        q.uri,
        "http://localhost/1.0/instances/openshell-sandbox-name/state?project=openshell"
    );
    assert_eq!(q.timeout_secs, 20);
    assert!(driver.stop_sandbox("a/b").is_err());
    assert!(stop_result(Ok(())).is_ok());
    assert!(matches!(
        stop_result(Err(LxdApiError::Conflict("x".into()))),
        Err(ComputeDriverError::AlreadyExists)
    ));
}

fn delete_with(answers: Vec<Result<(), LxdApiError>>) -> Result<bool, ComputeDriverError> {
    let driver = LxdComputeDriver::with_config(test_config());
    let mut step = driver.delete_sandbox("id", "name");
    for answer in answers {
        match step {
            DeleteStep::Done(r) => return r,
            DeleteStep::Call(run, _) => step = driver.after_delete_call(run, answer),
        }
    }
    match step {
        DeleteStep::Done(r) => r,
        _ => panic!("an end was expected"),
    }
}

#[test]
fn deleting_a_sandbox() {
    assert!(delete_with(vec![Ok(()), Ok(()), Ok(())]).unwrap());
    assert!(delete_with(vec![Ok(()), Err(LxdApiError::Timeout(1)), Ok(())]).unwrap());
    assert!(!delete_with(vec![Err(LxdApiError::NotFound("x".into()))]).unwrap());
    assert!(!delete_with(vec![
        Ok(()),
        Ok(()),
        Err(LxdApiError::NotFound("x".into()))
    ])
    .unwrap());
    assert!(delete_with(vec![Err(LxdApiError::Timeout(1))]).is_err());
    assert!(delete_with(vec![Ok(()), Ok(()), Err(LxdApiError::Timeout(1))]).is_err());
    let driver = LxdComputeDriver::with_config(test_config());
    match driver.delete_sandbox("", "name") {
        DeleteStep::Done(Err(ComputeDriverError::Precondition(m))) => {
            assert_eq!(m, "sandbox id is required")
        }
        _ => panic!("a precondition was expected"),
    }
    match driver.delete_sandbox("id", "name") {
        DeleteStep::Call(run, q) => {
            assert!(run.is_lookup());
            assert_eq!(q.method, Method::Get);
        }
        _ => panic!("a request was expected"),
    }
}

#[test]
fn looking_a_sandbox_up() {
    let driver = LxdComputeDriver::with_config(test_config());
    assert!(driver.sandbox_exists("name").is_ok());
    assert!(matches!(
        driver.get_sandbox("a/b"),
        Err(ComputeDriverError::Message(_))
    ));
    assert!(exists_result(Ok(test_instance("a", "Running", "1"))).unwrap());
    assert!(!exists_result(Err(LxdApiError::NotFound("x".into()))).unwrap());
    assert!(exists_result(Err(LxdApiError::Timeout(1))).is_err());
    let found = get_result(Ok(test_instance("a", "Running", "1"))).unwrap();
    assert_eq!(found.unwrap().id, "1");
    assert!(get_result(Err(LxdApiError::NotFound("x".into())))
        .unwrap()
        .is_none());
    assert!(get_result(Err(LxdApiError::Timeout(1))).is_err());
}

#[test]
fn sandboxes_are_listed_in_order() {
    let mut unmanaged = test_instance("a", "Running", "0");
    unmanaged.config = map_of(&[(CONFIG_SANDBOX_ID, "0")]);
    let mut unnamed = test_instance("a", "Running", "0");
    unnamed.config = map_of(&[(CONFIG_MANAGED, "true")]);
    let list = list_result(Ok(vec![
        test_instance("b", "Running", "1"),
        unmanaged,
        test_instance("a", "Running", "3"),
        unnamed,
        test_instance("a", "Running", "2"),
    ]))
    .unwrap();
    let keys: Vec<(&str, &str)> = list.iter().map(|s| (s.name.as_str(), s.id.as_str())).collect();
    assert_eq!(keys, vec![("a", "2"), ("a", "3"), ("b", "1")]);
    assert!(list_result(Err(LxdApiError::Timeout(1))).is_err());
    let driver = LxdComputeDriver::with_config(test_config());
    assert!(driver.list_sandboxes().uri.contains("recursion=1"));
    match driver.watch_sandboxes() {
        WatchStep::Subscribe(_, request) => {
            assert!(request.uri.contains("events?type=lifecycle"));
        }
        _ => panic!("a subscription was expected"),
    }
}

#[test]
fn equal_sandboxes_stay_in_order() {
    let mut first = test_instance("a", "Running", "1");
    first.name = "first".to_string();
    let mut second = test_instance("a", "Stopped", "1");
    second.name = "second".to_string();
    let list = list_result(Ok(vec![first, second])).unwrap();
    assert_eq!(list[0].status.as_ref().unwrap().sandbox_name, "first");
    assert_eq!(list[1].status.as_ref().unwrap().sandbox_name, "second");
}

// Instances

#[test]
fn instance_name_is_prefixed() {
    assert_eq!(instance_name("my-sandbox"), "openshell-sandbox-my-sandbox");
}

#[test]
fn sandbox_name_from_instance_strips_prefix() {
    assert_eq!(
        sandbox_name_from_instance("openshell-sandbox-my-sandbox"),
        Some("my-sandbox")
    );
    assert_eq!(sandbox_name_from_instance("other-instance"), None);
}

#[test]
fn short_id_truncates() {
    assert_eq!(short_id("abc123def456789"), "abc123def456");
    assert_eq!(short_id("short"), "short");
}

#[test]
fn build_spec_includes_managed_config() {
    let sandbox = test_sandbox("test-id", "test-name");
    let config = test_config();
    let spec = build_instance_spec(&sandbox, &config);

    assert_eq!(spec["name"], "openshell-sandbox-test-name");
    assert_eq!(spec["config"][CONFIG_SANDBOX_ID], "test-id");
    assert_eq!(spec["config"][CONFIG_SANDBOX_NAME], "test-name");
    assert_eq!(spec["config"][CONFIG_MANAGED], "true");
}

#[test]
fn build_spec_includes_environment() {
    let sandbox = test_sandbox("test-id", "test-name");
    let config = test_config();
    let spec = build_instance_spec(&sandbox, &config);

    assert_eq!(spec["config"]["user.env.OPENSHELL_SANDBOX"], "test-name");
    assert_eq!(
        spec["config"]["user.env.OPENSHELL_ENDPOINT"],
        "http://10.0.0.1:8080"
    );
}

#[test]
fn build_spec_includes_network_device() {
    let sandbox = test_sandbox("test-id", "test-name");
    let config = test_config();
    let spec = build_instance_spec(&sandbox, &config);

    assert_eq!(spec["devices"]["eth0"]["type"], "nic");
    assert_eq!(spec["devices"]["eth0"]["network"], "openshell");
}

#[test]
fn spec_of_a_full_sandbox() {
    let config = test_config();
    let spec = build_instance_spec(&full_sandbox("id", "name"), &config);
    assert_eq!(spec["type"], "container");
    assert_eq!(spec["source"]["type"], "image");
    assert_eq!(spec["source"]["alias"], "custom:1");
    assert_eq!(spec["config"]["limits.cpu"], "8");
    assert_eq!(spec["config"]["limits.memory"], "4GiB");
    assert_eq!(spec["config"]["security.nesting"], "true");
    assert_eq!(spec["config"]["security.privileged"], "false");
    assert_eq!(spec["config"]["user.env.OPENSHELL_LOG_LEVEL"], "debug");
    assert_eq!(spec["config"]["user.env.A"], "spec");
    assert_eq!(spec["config"]["user.env.B"], "template");
    assert_eq!(spec["devices"]["gpu"]["type"], "gpu");
    assert_eq!(spec["devices"]["root"]["pool"], "default");
    assert_eq!(spec["devices"]["root"]["path"], "/");
    assert_eq!(spec["devices"]["workspace"]["path"], "/sandbox");
    assert_eq!(spec["devices"]["workspace"]["source"], "");
    let plain = build_instance_spec(&test_sandbox("id", "name"), &config);
    assert_eq!(plain["source"]["alias"], "ubuntu:22.04");
    assert_eq!(plain["config"]["limits.cpu"], "2");
    assert!(plain["devices"].get("gpu").is_none());
}

#[test]
fn required_variables_cannot_be_overridden() {
    let config = test_config();
    let env = build_env(&full_sandbox("id", "name"), &config, "img");
    assert_eq!(env.get("OPENSHELL_SANDBOX_ID").unwrap(), "id");
    assert_eq!(env.get("OPENSHELL_ENDPOINT").unwrap(), "http://10.0.0.1:8080");
    assert_eq!(env.get("OPENSHELL_CONTAINER_IMAGE").unwrap(), "img");
    assert_eq!(env.get("B").unwrap(), "template");
    assert_eq!(env.get("OPENSHELL_LOG_LEVEL").unwrap(), "debug");
}

#[test]
fn template_image_comes_first() {
    let config = test_config();
    assert_eq!(resolve_image(&full_sandbox("i", "n"), &config), "custom:1");
    assert_eq!(resolve_image(&test_sandbox("i", "n"), &config), "ubuntu:22.04");
    let mut sandbox = full_sandbox("i", "n");
    sandbox.spec.as_mut().unwrap().template.as_mut().unwrap().image = String::new();
    assert_eq!(resolve_image(&sandbox, &config), "ubuntu:22.04");
}

// Watcher

fn test_instance(name: &str, status: &str, sandbox_id: &str) -> Instance {
    Instance {
        name: format!("openshell-sandbox-{name}"),
        status: status.to_string(),
        status_code: if status == "Running" { 103 } else { 102 },
        config: map_of(&[
            (CONFIG_SANDBOX_ID, sandbox_id),
            (CONFIG_SANDBOX_NAME, name),
            (CONFIG_MANAGED, "true"),
        ]),
        instance_type: "container".to_string(),
        architecture: "x86_64".to_string(),
        created_at: String::new(),
        last_used_at: String::new(),
    }
}

#[test]
fn condition_running_instance() {
    let cond = condition_from_status("Running", 103);
    assert_eq!(cond.condition_type, "Ready");
    assert_eq!(cond.status, "True");
    assert_eq!(cond.reason, "InstanceRunning");
}

#[test]
fn condition_stopped_instance() {
    let cond = condition_from_status("Stopped", 102);
    assert_eq!(cond.status, "False");
    assert_eq!(cond.reason, "InstanceStopped");
}

#[test]
fn conditions_of_other_states() {
    assert_eq!(
        condition_from_status("Stopped", 102).message,
        "Instance stopped (code 102)"
    );
    assert_eq!(condition_from_status("STARTING", 1).reason, "InstanceStarting");
    assert_eq!(condition_from_status("Frozen", 1).message, "Instance is frozen");
    let cond = condition_from_status("Error", -5);
    assert_eq!(cond.reason, "InstanceError");
    assert_eq!(cond.message, "Instance in error state (code -5)");
    let cond = condition_from_status("Odd", 1);
    assert_eq!(cond.status, "Unknown");
    assert_eq!(cond.reason, "Unknown");
    assert_eq!(cond.message, "Unknown instance status: odd");
}

#[test]
fn driver_sandbox_from_running_instance() {
    let inst = test_instance("my-sandbox", "Running", "test-id-123");
    let sandbox = driver_sandbox_from_instance(&inst).unwrap();
    assert_eq!(sandbox.id, "test-id-123");
    assert_eq!(sandbox.name, "my-sandbox");
    assert_eq!(
        sandbox.status.as_ref().unwrap().conditions[0].status,
        "True"
    );
}

#[test]
fn driver_sandbox_skips_unmanaged() {
    let inst = Instance {
        name: "other-instance".to_string(),
        status: "Running".to_string(),
        status_code: 103,
        config: StringMap::new(),
        instance_type: "container".to_string(),
        architecture: "x86_64".to_string(),
        created_at: String::new(),
        last_used_at: String::new(),
    };
    assert!(driver_sandbox_from_instance(&inst).is_none());
}

#[test]
fn created_instance_stands_for_its_sandbox() {
    let sandbox = full_sandbox("the-id", "the-name");
    let spec = build_instance_spec(&sandbox, &test_config());
    let mut config = StringMap::new();
    for (k, v) in spec["config"].as_object().unwrap() {
        config.insert(k.clone(), v.as_str().unwrap().to_string());
    }
    let mut inst = test_instance("the-name", "Deleting", "");
    inst.config = config;
    let found = driver_sandbox_from_instance(&inst).unwrap();
    assert_eq!(found.id, "the-id");
    assert_eq!(found.name, "the-name");
    let status = found.status.unwrap();
    assert!(status.deleting);
    assert_eq!(status.sandbox_name, "openshell-sandbox-the-name");
    assert_eq!(status.instance_id, "openshell-sa");
}

fn lifecycle(action: &str, source: &str, context: &[(&str, &str)]) -> LxdEvent {
    LxdEvent {
        event_type: "lifecycle".to_string(),
        metadata: Some(EventMetadata {
            action: action.to_string(),
            source: source.to_string(),
            requestor: None,
            context: map_of(context),
        }),
        timestamp: String::new(),
    }
}

fn test_client() -> LxdClient {
    LxdClient::new("/s".to_string(), String::new())
}

#[test]
fn deletions_are_told() {
    let source = "/1.0/instances/openshell-sandbox-a";
    let event = lifecycle("instance-deleted", source, &[("sandbox-id", "id-1")]);
    match map_lxd_event(&event, &test_client()) {
        EventAction::Emit(WatchSandboxesEvent::Deleted(id)) => assert_eq!(id, "id-1"),
        _ => panic!("a deletion was expected"),
    }
    let event = lifecycle("instance-deleted", source, &[]);
    match map_lxd_event(&event, &test_client()) {
        EventAction::Emit(WatchSandboxesEvent::Deleted(id)) => {
            assert_eq!(id, "openshell-sandbox-a")
        }
        _ => panic!("a deletion was expected"),
    }
}

#[test]
fn changes_of_state_are_looked_at() {
    let source = "/1.0/instances/openshell-sandbox-a";
    for action in [
        "instance-created",
        "instance-started",
        "instance-stopped",
        "instance-shutdown",
        "instance-restarted",
    ] {
        match map_lxd_event(&lifecycle(action, source, &[]), &test_client()) {
            EventAction::Fetch(q) => {
                assert_eq!(q.uri, "http://localhost/1.0/instances/openshell-sandbox-a")
            }
            _ => panic!("a look was expected"),
        }
    }
    match after_fetch(Ok(test_instance("a", "Running", "1"))) {
        Some(WatchSandboxesEvent::Sandbox(s)) => assert_eq!(s.id, "1"),
        _ => panic!("a sandbox was expected"),
    }
    assert!(after_fetch(Err(LxdApiError::NotFound("x".into()))).is_none());
    assert!(after_fetch(Err(LxdApiError::Timeout(1))).is_none());
}

#[test]
fn other_events_are_ignored() {
    let c = test_client();
    let source = "/1.0/instances/openshell-sandbox-a";
    let mut event = lifecycle("instance-started", source, &[]);
    event.event_type = "logging".to_string();
    assert!(matches!(map_lxd_event(&event, &c), EventAction::Ignore));
    event.event_type = "lifecycle".to_string();
    event.metadata = None;
    assert!(matches!(map_lxd_event(&event, &c), EventAction::Ignore));
    for (action, source) in [
        ("instance-renamed", source),
        ("instance-started", "/1.0/instances/other"),
        ("instance-started", "/1.0/instances/"),
        ("instance-started", "openshell-sandbox-a_b"),
    ] {
        assert!(matches!(
            map_lxd_event(&lifecycle(action, source, &[]), &c),
            EventAction::Ignore
        ));
    }
}

#[test]
fn watch_that_cannot_be_started() {
    match start_watch(&test_client()) {
        WatchStep::Subscribe(run, _) => assert!(matches!(
            run.after(Err(LxdApiError::Timeout(30))),
            WatchStep::Failed(LxdApiError::Timeout(30))
        )),
        _ => panic!("a subscription was expected"),
    }
    match start_watch(&test_client()) {
        WatchStep::Subscribe(run, _) => match run.after(Ok(())) {
            WatchStep::List(listing, _) => assert!(matches!(
                listing.after(Err(LxdApiError::Timeout(30))),
                WatchStep::Failed(LxdApiError::Timeout(30))
            )),
            _ => panic!("a list was expected"),
        },
        _ => panic!("a subscription was expected"),
    }
}

#[test]
fn watch_starts_with_what_is_there() {
    let mut unmanaged = test_instance("a", "Running", "0");
    unmanaged.config = map_of(&[(CONFIG_SANDBOX_ID, "0"), (CONFIG_MANAGED, "false")]);
    let listing = match start_watch(&test_client()) {
        WatchStep::Subscribe(run, request) => {
            assert_eq!(request.uri, "http://localhost/1.0/events?type=lifecycle");
            match run.after(Ok(())) {
                WatchStep::List(listing, request) => {
                    assert_eq!(request.uri, "http://localhost/1.0/instances?recursion=1");
                    listing
                }
                _ => panic!("a list was expected"),
            }
        }
        _ => panic!("a subscription was expected"),
    };
    let events = match listing.after(Ok(vec![unmanaged, test_instance("b", "Running", "1")])) {
        WatchStep::Tell(events) => events,
        _ => panic!("events were expected"),
    };
    assert_eq!(events.len(), 1);
    match &events[0] {
        WatchSandboxesEvent::Sandbox(s) => assert_eq!(s.id, "1"),
        _ => panic!("a sandbox was expected"),
    }
    assert_eq!(
        receiver_dropped().text(),
        "connection error: watch receiver dropped during initial sync"
    );
    match stream_ended() {
        ComputeDriverError::Message(m) => assert_eq!(m, "LXD event stream ended unexpectedly"),
        _ => panic!("a message was expected"),
    }
    match stream_error(&LxdApiError::Json("x".into())) {
        ComputeDriverError::Message(m) => assert_eq!(m, "JSON error: x"),
        _ => panic!("a message was expected"),
    }
}
