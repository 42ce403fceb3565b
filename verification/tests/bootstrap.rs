use openshell_drivers::bootstrap::apply::{
    apply_yaml, classify, ApplyError, ApplyFailure, ApplyStep, ObjectHeader, DISCOVERY_ATTEMPTS,
};
use openshell_drivers::bootstrap::constants::GATEWAY_NODE_PORT;
use openshell_drivers::bootstrap::k8s_init::{
    detect_bundle, gateway_metadata, helm_upgrade, hex_text, init_external_cluster, join_path,
    mtls_path, resolve_credentials, Bundled, ClusterInit, ClusterRequest, Credentials, HelmOutcome,
    InitAction, InitError, InitEvent, InitStage, InitStep, LoginOutcome, PkiBundle, RandomOutcome,
    Settings,
};
use openshell_drivers::bootstrap::DEFAULT_GATEWAY_PORT;
use openshell_drivers::podman::{
    after_ping, init, open_with, resolve_socket, Style, CONNECT_FAILURE,
};

// Manifests

const MANIFEST: &str = "\
apiVersion: v1
kind: Namespace
metadata:
  name: first
---
---
apiVersion: apps/v1
kind: Deployment
metadata:
  name: second
  namespace: own
---
apiVersion: apps/v1
kind: Deployment
metadata:
  name: third
";

fn describe(step: &ApplyStep) -> String {
    match step {
        ApplyStep::Discover(run) => format!("discover {}", run.failed),
        ApplyStep::Resolve(run) => {
            let gvk = &run.object.gvk;
            format!("resolve {}/{}/{}", gvk.group, gvk.version, gvk.kind)
        }
        ApplyStep::Patch(run) => {
            format!("patch {:?} {}", run.target.namespace, run.target.name)
        }
        ApplyStep::Done(Ok(())) => "ok".to_string(),
        ApplyStep::Done(Err(ApplyFailure::Manifest(e))) => e.text(),
        ApplyStep::Done(Err(ApplyFailure::Discovery(m))) => format!("discovery: {m}"),
        ApplyStep::Done(Err(ApplyFailure::Patch { context, message })) => {
            format!("{context}: {message}")
        }
    }
}

fn run_manifest(yaml: &str) -> Vec<String> {
    let mut seen = Vec::new();
    let mut step = apply_yaml(yaml, "given");
    loop {
        seen.push(describe(&step));
        step = match step {
            ApplyStep::Discover(run) => run.after(Ok(())),
            ApplyStep::Resolve(run) => {
                let namespaced = match run.object.gvk.kind.as_str() {
                    "Namespace" => Some(false),
                    "Deployment" => Some(true),
                    _ => None,
                };
                run.after(namespaced)
            }
            ApplyStep::Patch(run) => {
                assert_eq!(run.object.object.metadata.name, Some(run.target.name.clone()));
                run.after(Ok(()))
            }
            ApplyStep::Done(_) => return seen,
        }
    }
}

#[test]
fn manifest_is_applied_in_order() {
    assert_eq!(
        run_manifest(MANIFEST),
        vec![
            "discover 0",
            "resolve /v1/Namespace",
            "patch None first",
            "resolve apps/v1/Deployment",
            "patch Some(\"own\") second",
            "resolve apps/v1/Deployment",
            "patch Some(\"given\") third",
            "ok",
        ]
    );
    assert_eq!(run_manifest(""), vec!["discover 0", "ok"]);
}

fn note_of(note: &str) -> serde_json::Value {
    let manifest = format!(
        "apiVersion: v1\nkind: Namespace\nmetadata:\n  name: first\nnote: {note}\n"
    );
    let run = match apply_yaml(&manifest, "given") {
        ApplyStep::Discover(run) => run,
        other => panic!("{}", describe(&other)),
    };
    match run.after(Ok(())) {
        ApplyStep::Resolve(run) => run.object.object.data["note"].clone(),
        other => panic!("{}", describe(&other)),
    }
}

#[test]
fn blanks_inside_values_are_kept() {
    let blanks = " ".repeat(20);
    assert_eq!(note_of(&format!("a{blanks}b")), format!("a{blanks}b"));
    assert_eq!(note_of("abcdefghijk      l"), "abcdefghijk      l");
    let many = " ".repeat(500);
    assert_eq!(note_of(&format!("{many}a{many}b")), format!("a{many}b"));
    assert_eq!(note_of(&format!("\"a{many}b{many}\"")), format!("a{many}b{many}"));
    assert_eq!(note_of(&format!("'a{many}b'")), format!("a{many}b"));
    let long = "x".repeat(4000);
    assert_eq!(note_of(&format!("{long} {long}{many}{long}")), format!("{long} {long}{many}{long}"));
}

#[test]
fn empty_lines_inside_values_are_kept() {
    assert_eq!(note_of("|\n  one\n\n\n\n\n  two\n"), "one\n\n\n\n\ntwo\n");
    assert_eq!(note_of(">\n  one\n\n\n\n  two\n"), "one\n\n\ntwo\n");
    assert_eq!(note_of("one\n\n\n\n  two"), "one\n\n\ntwo");
    assert_eq!(note_of("\"one\n\n\n\n  two\""), "one\n\n\ntwo");
    let lines = "\n".repeat(40);
    assert_eq!(note_of(&format!("|\n  one\n{lines}  two\n")), format!("one\n{lines}two\n"));
    assert_eq!(note_of(&format!("|+\n  one\n{lines}")), format!("one\n{lines}\n"));
}

#[test]
fn manifests_that_cannot_be_applied() {
    assert_eq!(
        run_manifest("a: [1"),
        vec![
            "did not find expected ',' or ']' at line 2 column 1, \
             while parsing a flow sequence at line 1 column 4"
        ]
    );
    let unread = serde_yml::from_str::<serde_yml::Value>("a: [1").unwrap_err();
    assert_eq!(run_manifest("a: [1"), vec![unread.to_string()]);
    assert_eq!(
        run_manifest("metadata:\n  name: x\n"),
        vec!["discover 0", "YAML object is missing type metadata"]
    );
    let text = serde_yml::Value::String("just text".to_string());
    let no_object = serde_yml::from_value::<kube::api::DynamicObject>(text).unwrap_err();
    assert_eq!(
        run_manifest("just text"),
        vec!["discover 0".to_string(), no_object.to_string()]
    );
    assert_eq!(
        run_manifest("apiVersion: example.com/v1\nkind: Odd\nmetadata: {}\n"),
        vec![
            "discover 0",
            "resolve example.com/v1/Odd",
            "unknown GVK: example.com/Odd"
        ]
    );
    assert_eq!(
        run_manifest("apiVersion: apps/v1\nkind: Deployment\n"),
        vec![
            "discover 0",
            "resolve apps/v1/Deployment",
            "YAML object of kind 'Deployment' is missing a name"
        ]
    );
}

#[test]
fn refused_object_ends_the_run() {
    let step = match apply_yaml(MANIFEST, "given") {
        ApplyStep::Discover(run) => run.after(Ok(())),
        _ => panic!("a discovery was expected"),
    };
    let step = match step {
        ApplyStep::Resolve(run) => run.after(Some(false)),
        _ => panic!("an object was expected"),
    };
    match step {
        ApplyStep::Patch(run) => assert_eq!(
            describe(&run.after(Err("forbidden".to_string()))),
            "Failed to apply Namespace first: forbidden"
        ),
        _ => panic!("a target was expected"),
    }
}

#[test]
fn discovery_is_tried_ten_times() {
    let mut step = apply_yaml(MANIFEST, "given");
    let mut attempts = 0;
    loop {
        match step {
            ApplyStep::Discover(run) => {
                attempts += 1;
                step = run.after(Err("down".to_string()));
            }
            other => {
                assert_eq!(describe(&other), "discovery: down");
                break;
            }
        }
    }
    assert_eq!(attempts, DISCOVERY_ATTEMPTS);
    assert_eq!(attempts, 10);
}

#[test]
fn api_versions_are_cut_at_the_first_slash() {
    let header = |api_version: &str| ObjectHeader {
        types: Some((api_version.to_string(), "K".to_string())),
        namespace: None,
        name: Some("n".to_string()),
    };
    let (gvk, namespace, name) = classify(header("a.b/v1/x")).ok().unwrap();
    assert_eq!((gvk.group.as_str(), gvk.version.as_str()), ("a.b", "v1/x"));
    assert_eq!(gvk.kind, "K");
    assert_eq!(namespace, None);
    assert_eq!(name, Some("n".to_string()));
    let (gvk, _, _) = classify(header("v1")).ok().unwrap();
    assert_eq!((gvk.group.as_str(), gvk.version.as_str()), ("", "v1"));
    let (gvk, _, _) = classify(header("")).ok().unwrap();
    assert_eq!((gvk.group.as_str(), gvk.version.as_str()), ("", ""));
    let nothing = ObjectHeader { types: None, namespace: None, name: None };
    assert!(matches!(classify(nothing), Err(ApplyError::MissingTypes)));
}

// Cluster

fn request() -> ClusterRequest {
    ClusterRequest {
        gateway_name: "gw".to_string(),
        namespace: "ns".to_string(),
        registry: "localhost:5000".to_string(),
        registry_username: None,
        registry_token: None,
        registry_authfile: None,
    }
}

fn bundle(tag: &str) -> PkiBundle {
    PkiBundle {
        ca_cert_pem: format!("{tag}-ca"),
        server_cert_pem: format!("{tag}-server-cert"),
        server_key_pem: format!("{tag}-server-key"),
        client_cert_pem: format!("{tag}-client-cert"),
        client_key_pem: format!("{tag}-client-key"),
    }
}

fn settings(images_dir: Option<&str>) -> Settings {
    Settings {
        helm_bin: None,
        chart_path: None,
        images_dir: images_dir.map(|s| s.to_string()),
        temp_dir: "/tmp".to_string(),
    }
}

struct World {
    existing_pki: bool,
    existing_handshake: bool,
    images_dir: Option<&'static str>,
    archives: (bool, bool, bool),
    login_ok: bool,
    pushes: Vec<bool>,
    helm_ok: bool,
}

impl World {
    fn new() -> Self {
        World {
            existing_pki: false,
            existing_handshake: false,
            images_dir: None,
            archives: (false, false, false),
            login_ok: true,
            pushes: Vec::new(),
            helm_ok: true,
        }
    }
}

fn run(request: ClusterRequest, world: &mut World) -> (Vec<String>, Result<(), InitError>) {
    let mut seen = Vec::new();
    let mut step = init_external_cluster(request);
    loop {
        let (state, action): (ClusterInit, InitAction) = match step {
            InitStep::Done(r) => return (seen, r),
            InitStep::Act(state, action) => (state, action),
        };
        let (what, event) = match action {
            InitAction::Connect => ("connect".to_string(), InitEvent::Done(Ok(()))),
            InitAction::ApplyNamespace(n) => (format!("namespace {n}"), InitEvent::Done(Ok(()))),
            InitAction::LoadPki(n) => (
                format!("load {n}"),
                InitEvent::Loaded(Ok(if world.existing_pki {
                    Some(bundle("old"))
                } else {
                    None
                })),
            ),
            InitAction::GeneratePki => {
                ("generate".to_string(), InitEvent::Generated(Ok(bundle("new"))))
            }
            InitAction::ApplySecret(s) => {
                assert_eq!(s.namespace, "ns");
                let keys: Vec<String> = (0..s.data.len())
                    .map(|i| {
                        format!(
                            "{}={}",
                            s.data.key_at(i),
                            String::from_utf8_lossy(s.data.value_at(i))
                        )
                    })
                    .collect();
                (
                    format!("apply {} {} {}", s.name, s.secret_type, keys.join(",")),
                    InitEvent::Done(Ok(())),
                )
            }
            InitAction::FindSecret { name, namespace } => (
                format!("find {name} {namespace}"),
                InitEvent::Found(world.existing_handshake),
            ),
            InitAction::Random(n) => (
                format!("random {n}"),
                InitEvent::Random(RandomOutcome::Bytes(vec![0xab; n])),
            ),
            InitAction::CreateSecret(s) => {
                let value = String::from_utf8(s.data.get("secret").unwrap().clone()).unwrap();
                assert_eq!(value, "ab".repeat(32));
                (
                    format!("create {} {}", s.name, s.secret_type),
                    InitEvent::Done(Ok(())),
                )
            }
            InitAction::ApplyManifests(n) => (format!("manifests {n}"), InitEvent::Done(Ok(()))),
            InitAction::AdoptLegacy(n) => (format!("adopt {n}"), InitEvent::Done(Ok(()))),
            InitAction::ReadSettings => (
                "settings".to_string(),
                InitEvent::SettingsRead(settings(world.images_dir)),
            ),
            InitAction::Probe { core, gateway, supervisor } => (
                format!("probe {core} {gateway} {supervisor}"),
                InitEvent::Probed {
                    core: world.archives.0,
                    gateway: world.archives.1,
                    supervisor: world.archives.2,
                },
            ),
            InitAction::MakeTempDir => {
                ("tempdir".to_string(), InitEvent::TempDir(Ok("/tmp/t".to_string())))
            }
            InitAction::Login(c) => (
                format!("login {} < {:?}", c.args.join(" "), c.stdin),
                InitEvent::LoggedIn(LoginOutcome::Finished {
                    success: world.login_ok,
                    stderr: " denied \n".to_string(),
                }),
            ),
            InitAction::Push(c) => {
                assert_eq!(c.program, "skopeo");
                assert_eq!(
                    c.env,
                    vec![("CONTAINERS_REGISTRIES_CONF".to_string(), "/dev/null".to_string())]
                );
                (
                    format!("push {}", c.args.join(" ")),
                    InitEvent::Pushed(world.pushes.remove(0)),
                )
            }
            InitAction::Helm(c) => (
                format!("{} {}", c.program, c.args.join(" ")),
                InitEvent::HelmRan(HelmOutcome::Finished {
                    success: world.helm_ok,
                    status: "exit status: 1".to_string(),
                }),
            ),
            InitAction::FindHome => ("home".to_string(), InitEvent::Home(Some("/h".to_string()))),
            InitAction::WriteFiles { dir, files } => {
                let names: Vec<String> =
                    files.iter().map(|f| format!("{}={}", f.0, f.1)).collect();
                (
                    format!("write {dir} {}", names.join(" ")),
                    InitEvent::Done(Ok(())),
                )
            }
            InitAction::StoreMetadata(m) => (format!("store {}", m.name), InitEvent::Done(Ok(()))),
            InitAction::SetActive(n) => (format!("activate {n}"), InitEvent::Done(Ok(()))),
        };
        seen.push(what);
        assert!(state.accepts(&event));
        step = state.next(event);
    }
}

const FIRST_RUN: [&str; 13] = [
    "connect",
    "namespace ns",
    "load ns",
    "generate",
    "apply openshell-client-tls Opaque ca.crt=new-ca,tls.crt=new-client-cert,tls.key=new-client-key",
    "apply openshell-server-tls kubernetes.io/tls tls.crt=new-server-cert,tls.key=new-server-key",
    "apply openshell-server-client-ca Opaque ca.crt=new-ca",
    "find openshell-ssh-handshake ns",
    "random 32",
    "create openshell-ssh-handshake Opaque",
    "manifests ns",
    "adopt ns",
    "settings",
];

const HELM: &str =
    "helm upgrade --install gateway deploy/helm/openshell --namespace ns --wait --timeout 2m";

#[test]
fn first_run_on_a_cluster() {
    let (seen, end) = run(request(), &mut World::new());
    assert!(end.is_ok());
    assert_eq!(seen[..13].to_vec(), FIRST_RUN.to_vec());
    assert_eq!(
        seen[13..].to_vec(),
        vec![
            HELM,
            "home",
            "write /h/.config/openshell/gateways/gw/mtls \
             /h/.config/openshell/gateways/gw/mtls/tls.crt=new-client-cert \
             /h/.config/openshell/gateways/gw/mtls/tls.key=new-client-key \
             /h/.config/openshell/gateways/gw/mtls/ca.crt=new-ca",
            "store gw",
            "activate gw",
        ]
    );
}

#[test]
fn later_run_keeps_what_is_there() {
    let mut world = World::new();
    world.existing_pki = true;
    world.existing_handshake = true;
    let (seen, end) = run(request(), &mut world);
    assert!(end.is_ok());
    assert_eq!(
        seen[..7].to_vec(),
        vec![
            "connect",
            "namespace ns",
            "load ns",
            "find openshell-ssh-handshake ns",
            "manifests ns",
            "adopt ns",
            "settings",
        ]
    );
    assert!(seen[9].contains("tls.crt=old-client-cert"));
}

fn bundled(archives: (bool, bool, bool), pushes: Vec<bool>) -> World {
    let mut world = World::new();
    world.images_dir = Some("/img");
    world.archives = archives;
    world.pushes = pushes;
    world
}

#[test]
fn core_rock_is_pushed() {
    let mut req = request();
    req.registry_authfile = Some("/auth".to_string());
    let (seen, end) = run(req, &mut bundled((true, true, true), vec![true]));
    assert!(end.is_ok());
    assert_eq!(
        seen[13..16].to_vec(),
        vec![
            "probe /img/openshell-core.rock /img/gateway.tar /img/supervisor.tar".to_string(),
            "push --insecure-policy copy --dest-tls-verify=false --authfile /auth --tmpdir /tmp \
             oci-archive:/img/openshell-core.rock docker://localhost:5000/openshell-core:local"
                .to_string(),
            format!(
                "{HELM} --set image.repository=localhost:5000/openshell-core --set \
                 image.tag=local --set image.pullPolicy=Always --set \
                 supervisorImage=localhost:5000/openshell-core:local --set \
                 supervisorImagePullPolicy=Always"
            ),
        ]
    );
}

#[test]
fn archives_are_pushed_after_the_login() {
    let mut req = request();
    req.registry_token = Some("secret-token".to_string());
    let (seen, end) = run(req, &mut bundled((false, true, true), vec![true, true]));
    assert!(end.is_ok());
    assert_eq!(
        seen[14..19].to_vec(),
        vec![
            "tempdir".to_string(),
            "login login --authfile /tmp/t/auth.json --username __token__ --password-stdin \
             localhost:5000 < Some(\"secret-token\")"
                .to_string(),
            "push --insecure-policy copy --dest-tls-verify=false --authfile /tmp/t/auth.json \
             --tmpdir /tmp oci-archive:/img/gateway.tar \
             docker://localhost:5000/openshell-gateway:dev"
                .to_string(),
            "push --insecure-policy copy --dest-tls-verify=false --authfile /tmp/t/auth.json \
             --tmpdir /tmp oci-archive:/img/supervisor.tar \
             docker://localhost:5000/openshell-supervisor:dev"
                .to_string(),
            format!(
                "{HELM} --set image.repository=localhost:5000/openshell-gateway --set \
                 image.tag=dev --set image.pullPolicy=Always --set \
                 supervisorImage=localhost:5000/openshell-supervisor:dev --set \
                 supervisorImagePullPolicy=Always"
            ),
        ]
    );
}

#[test]
fn one_archive_alone_does_not_count() {
    let (seen, end) = run(request(), &mut bundled((false, true, false), vec![]));
    assert!(end.is_ok());
    assert_eq!(seen[14], HELM);
    assert_eq!(detect_bundle(false, true, false), Bundled::Nothing);
    assert_eq!(detect_bundle(false, true, true), Bundled::Archives);
    assert_eq!(detect_bundle(true, false, false), Bundled::CoreRock);
}

#[test]
fn failed_push_stops_the_run() {
    for pushes in [vec![false, true], vec![true, false]] {
        let (seen, end) = run(request(), &mut bundled((false, true, true), pushes));
        let e = end.err().unwrap();
        assert_eq!(e.context, None);
        assert_eq!(
            e.message,
            "Local registry is not available or unreachable at localhost:5000."
        );
        // Both images are tried, without credentials.
        assert_eq!(seen.len(), 16);
        assert!(!seen[14].contains("--authfile"));
    }
    let (_, end) = run(request(), &mut bundled((true, false, false), vec![false]));
    assert!(end.is_err());
}

#[test]
fn failed_login_stops_the_run() {
    let mut req = request();
    req.registry_username = Some("me".to_string());
    req.registry_token = Some("t".to_string());
    let mut world = bundled((true, false, false), vec![]);
    world.login_ok = false;
    let (seen, end) = run(req, &mut world);
    assert!(seen[15].contains("--username me"));
    assert_eq!(
        end.err().unwrap().message,
        "Failed to authenticate with registry using skopeo login. Error:\ndenied"
    );
}

#[test]
fn username_without_token_is_refused() {
    let mut req = request();
    req.registry_username = Some("me".to_string());
    let (seen, end) = run(req, &mut bundled((true, false, false), vec![]));
    assert_eq!(seen.len(), 14);
    assert_eq!(
        end.err().unwrap().message,
        "A registry token/password must be provided when a username is specified."
    );
    let mut req = request();
    req.registry_username = Some("me".to_string());
    req.registry_authfile = Some("/auth".to_string());
    assert!(matches!(
        resolve_credentials(&req),
        Ok(Credentials::File(_))
    ));
    assert!(matches!(
        resolve_credentials(&request()),
        Ok(Credentials::Anonymous)
    ));
}

#[test]
fn failed_chart_stops_the_run() {
    let mut world = World::new();
    world.helm_ok = false;
    let (seen, end) = run(request(), &mut world);
    assert_eq!(seen[seen.len() - 1], HELM);
    assert_eq!(
        end.err().unwrap().message,
        "Helm upgrade failed with status: exit status: 1"
    );
}

/// A run at a stage.
fn at(stage: InitStage) -> ClusterInit {
    match init_external_cluster(request()) {
        InitStep::Act(run, _) => ClusterInit { stage, ..run },
        InitStep::Done(_) => panic!("an action was expected"),
    }
}

fn failure(stage: InitStage, event: InitEvent) -> (Option<String>, String) {
    let run = at(stage);
    assert!(run.accepts(&event));
    match run.next(event) {
        InitStep::Done(Err(e)) => (e.context, e.message),
        _ => panic!("a failure was expected"),
    }
}

#[test]
fn failures_say_what_was_tried() {
    let done = || InitEvent::Done(Err("x".to_string()));
    for (stage, context) in [
        (InitStage::Connect, "failed to create Kubernetes client"),
        (InitStage::Namespace, "failed to apply namespace"),
        (InitStage::ClientSecret, "failed to apply client TLS secret"),
        (InitStage::ServerSecret, "failed to apply server TLS secret"),
        (InitStage::ClientCaSecret, "failed to apply server client CA secret"),
        (InitStage::CreateHandshake, "failed to create ssh handshake secret"),
    ] {
        assert_eq!(
            failure(stage, done()),
            (Some(context.to_string()), "x".to_string())
        );
    }
    for stage in [
        InitStage::Manifests,
        InitStage::Adopt,
        InitStage::WriteFiles,
        InitStage::StoreMetadata,
        InitStage::SetActive,
    ] {
        assert_eq!(failure(stage, done()), (None, "x".to_string()));
    }
    assert_eq!(
        failure(InitStage::LoadPki, InitEvent::Loaded(Err("x".to_string()))),
        (None, "x".to_string())
    );
    assert_eq!(
        failure(InitStage::GeneratePki, InitEvent::Generated(Err("x".to_string()))),
        (Some("failed to generate PKI".to_string()), "x".to_string())
    );
    assert_eq!(
        failure(
            InitStage::Random,
            InitEvent::Random(RandomOutcome::OpenFailed("x".to_string()))
        )
        .0,
        Some("failed to open /dev/urandom".to_string())
    );
    assert_eq!(
        failure(
            InitStage::Random,
            InitEvent::Random(RandomOutcome::ReadFailed("x".to_string()))
        )
        .0,
        Some("failed to read from /dev/urandom".to_string())
    );
    assert_eq!(
        failure(InitStage::MakeTempDir, InitEvent::TempDir(Err("x".to_string()))).0,
        Some("Failed to create temporary directory for secure auth".to_string())
    );
    assert_eq!(
        failure(
            InitStage::Login,
            InitEvent::LoggedIn(LoginOutcome::SpawnFailed("x".to_string()))
        )
        .0,
        Some("Failed to spawn skopeo login".to_string())
    );
    assert_eq!(
        failure(
            InitStage::Login,
            InitEvent::LoggedIn(LoginOutcome::WriteFailed("x".to_string()))
        )
        .0,
        None
    );
    assert_eq!(
        failure(
            InitStage::Login,
            InitEvent::LoggedIn(LoginOutcome::WaitFailed("x".to_string()))
        )
        .0,
        Some("Failed to wait on skopeo login".to_string())
    );
    assert_eq!(
        failure(
            InitStage::Helm,
            InitEvent::HelmRan(HelmOutcome::ExecFailed("x".to_string()))
        )
        .0,
        Some("Failed to execute helm upgrade".to_string())
    );
    assert_eq!(
        failure(InitStage::FindHome, InitEvent::Home(None)),
        (None, "Could not find home directory".to_string())
    );
    assert!(!at(InitStage::FindHome).accepts(&done()));
}

#[test]
fn environment_overrides_the_chart() {
    let s = Settings {
        helm_bin: Some("/opt/helm".to_string()),
        chart_path: Some("/chart".to_string()),
        images_dir: None,
        temp_dir: String::new(),
    };
    let c = helm_upgrade(&s, "n", Bundled::Nothing, "r");
    assert_eq!(c.program, "/opt/helm");
    assert_eq!(c.args[3], "/chart");
    assert_eq!(c.args.len(), 9);
}

#[test]
fn paths_and_numbers() {
    assert_eq!(join_path("/a", "b"), "/a/b");
    assert_eq!(join_path("/a/", "b"), "/a/b");
    assert_eq!(join_path("", "b"), "b");
    assert_eq!(join_path("/a", "/b"), "/b");
    assert_eq!(
        mtls_path("/home/u", "gw"),
        "/home/u/.config/openshell/gateways/gw/mtls"
    );
    assert_eq!(hex_text(&[0, 10, 255]), "000aff");
    let m = gateway_metadata("gw");
    assert_eq!(m.gateway_endpoint, "https://127.0.0.1:30051");
    assert_eq!(m.gateway_port, GATEWAY_NODE_PORT);
    assert_eq!(m.auth_mode, Some("mtls".to_string()));
    assert!(!m.is_remote);
    assert!(m.oidc_issuer.is_none());
    assert_eq!(DEFAULT_GATEWAY_PORT, 8080);
}

// Podman

#[test]
fn podman_socket_detection() {
    let some = |s: &str| Some(s.to_string());
    assert_eq!(resolve_socket(some("/x"), some("/run/user/1")), "/x");
    assert_eq!(
        resolve_socket(None, some("/run/user/1")),
        "/run/user/1/podman/podman.sock"
    );
    assert_eq!(resolve_socket(None, None), "/run/podman/podman.sock");
}

#[test]
fn podman_socket_has_to_be_there() {
    let opening = open_with("/s", false);
    assert_eq!(opening.failure, Some("Podman socket not found at /s".to_string()));
    assert_eq!(opening.lines.len(), 5);
    assert_eq!(opening.lines[0].text, "Initializing Podman for OpenShell...");
    assert_eq!(opening.lines[0].style, Style::Bold);
    assert_eq!(opening.lines[1].style, Style::RedBold);
    assert!(opening.lines[1].spaced);
    assert_eq!(opening.lines[2].text, "Expected socket at: /s");
    let opening = open_with("/s", true);
    assert_eq!(opening.failure, None);
    assert_eq!(opening.lines[1].text, "\u{2713} Found Podman socket at: /s");
    assert!(open_with("tcp://host", false).failure.is_none());
    assert!(init("/nonexistent/podman.sock").failure.is_some());
    assert!(init("/").failure.is_none());
}

#[test]
fn podman_daemon_has_to_answer() {
    let lines = after_ping("/s", Ok(())).ok().unwrap();
    assert_eq!(lines.len(), 4);
    assert_eq!(lines[1].style, Style::GreenBold);
    assert_eq!(
        lines[3].text,
        "  OPENSHELL_PODMAN_SOCKET=\"/s\" openshell gateway start --compute-driver podman"
    );
    let e = after_ping("/s", Err("refused".to_string())).err().unwrap();
    assert_eq!(e.0, CONNECT_FAILURE);
    assert_eq!(e.1, "refused");
}
