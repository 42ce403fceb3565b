//! How a sandbox is described to LXD: instance names, environment and the
//! specification from which an instance is created.
use vstd::prelude::*;
use vstd::string::*;
use serde_json::Value;
use crate::compute::{DriverSandbox, DriverSandboxSpecView, DriverSandboxView};
use crate::json;
use crate::json::Json;
use crate::lxd::config::{LxdComputeConfig, LxdComputeConfigView};
use crate::string_map;
use crate::string_map::StringMap;
use crate::text;

verus! {

/// Config key for the sandbox identifier.
pub const CONFIG_SANDBOX_ID: &'static str = "user.openshell.sandbox-id";

/// Config key for the sandbox name.
pub const CONFIG_SANDBOX_NAME: &'static str = "user.openshell.sandbox-name";

/// Config key that marks managed instances.
pub const CONFIG_MANAGED: &'static str = "user.openshell.managed";

/// Instance name prefix, to avoid collisions with instances of users.
pub const INSTANCE_PREFIX: &'static str = "openshell-sandbox-";

/// Prefix of the config keys under which environment variables are stored.
pub const ENV_PREFIX: &'static str = "user.env.";

/// The instance name of a sandbox.
pub open spec fn name_of_instance(sandbox_name: Seq<char>) -> Seq<char> {
    INSTANCE_PREFIX@ + sandbox_name
}

/// Builds an LXD instance name from the sandbox name.
pub fn instance_name(sandbox_name: &str) -> (r: String)
    ensures
        r@ == name_of_instance(sandbox_name@),
{
    INSTANCE_PREFIX.to_owned().concat(sandbox_name)
}

/// Extracts the sandbox name from an LXD instance name, if it has the prefix.
pub fn sandbox_name_from_instance(name: &str) -> (r: Option<&str>)
    ensures
        r is Some == (text::stripped(name@, INSTANCE_PREFIX@) is Some),
        r matches Some(s) ==> Some(s@) == text::stripped(name@, INSTANCE_PREFIX@),
{
    text::strip_prefix(name, INSTANCE_PREFIX)
}

/// Truncates a name to 12 characters, the standard short form of identifiers.
pub fn short_id(id: &str) -> (r: String)
    ensures
        r@ == text::first_chars(id@, 12),
{
    text::take_chars(id, 12)
}

/// The sandbox name is read back from the instance name.
pub proof fn instance_name_round_trip(sandbox_name: Seq<char>)
    ensures
        text::stripped(name_of_instance(sandbox_name), INSTANCE_PREFIX@) == Some(sandbox_name),
{
    let name = name_of_instance(sandbox_name);
    assert(INSTANCE_PREFIX@ =~= name.subrange(0, INSTANCE_PREFIX@.len() as int));
    assert(name.skip(INSTANCE_PREFIX@.len() as int) =~= sandbox_name);
}

/// Two sandboxes with different names have instances with different names.
pub proof fn instance_names_are_distinct(a: Seq<char>, b: Seq<char>)
    requires
        name_of_instance(a) == name_of_instance(b),
    ensures
        a == b,
{
    instance_name_round_trip(a);
    instance_name_round_trip(b);
}

/// The image of a sandbox: the one of its template when there is one, and
/// otherwise the default.
pub open spec fn image_of(sandbox: DriverSandboxView, default_image: Seq<char>) -> Seq<char> {
    match sandbox.spec {
        Some(spec) => match spec.template {
            Some(template) => if template.image.len() > 0 {
                template.image
            } else {
                default_image
            },
            None => default_image,
        },
        None => default_image,
    }
}

/// Resolves the image for a sandbox: the image of its template if it has one,
/// and otherwise the default image of the driver.
pub fn resolve_image<'a>(sandbox: &'a DriverSandbox, config: &'a LxdComputeConfig) -> (r: &'a str)
    ensures
        r@ == image_of(sandbox@, config@.default_image),
{
    if let Some(spec) = &sandbox.spec {
        if let Some(template) = &spec.template {
            if !template.image.as_str().is_empty() {
                return template.image.as_str();
            }
        }
    }
    config.default_image.as_str()
}

// ---------------------------------------------------------------------------
// Environment
// ---------------------------------------------------------------------------

/// The environment that the user asks for. What the template says counts more
/// than what the specification says, and that more than the log level.
pub open spec fn user_env(spec: Option<DriverSandboxSpecView>) -> Map<Seq<char>, Seq<char>> {
    match spec {
        None => Map::empty(),
        Some(s) => {
            let level = if s.log_level.len() > 0 {
                map!["OPENSHELL_LOG_LEVEL"@ => s.log_level]
            } else {
                Map::empty()
            };
            let with_spec = level.union_prefer_right(string_map::map_of(s.environment));
            match s.template {
                Some(t) => with_spec.union_prefer_right(string_map::map_of(t.environment)),
                None => with_spec,
            }
        },
    }
}

/// The environment that the driver needs.
pub open spec fn required_env(
    sandbox: DriverSandboxView,
    config: LxdComputeConfigView,
    image: Seq<char>,
) -> Map<Seq<char>, Seq<char>> {
    map![
        "OPENSHELL_SANDBOX"@ => sandbox.name,
        "OPENSHELL_SANDBOX_ID"@ => sandbox.id,
        "OPENSHELL_ENDPOINT"@ => config.grpc_endpoint,
        "OPENSHELL_SSH_SOCKET_PATH"@ => config.sandbox_ssh_socket_path,
        "OPENSHELL_SSH_LISTEN_ADDR"@ => config.ssh_listen_addr,
        "OPENSHELL_SSH_HANDSHAKE_SECRET"@ => config.ssh_handshake_secret,
        "OPENSHELL_SSH_HANDSHAKE_SKEW_SECS"@ => text::decimal(config.ssh_handshake_skew_secs as nat),
        "OPENSHELL_CONTAINER_IMAGE"@ => image,
        "OPENSHELL_SANDBOX_COMMAND"@ => "sleep infinity"@
    ]
}

/// The environment of a sandbox. What the driver needs counts more than what the
/// user asks for.
pub open spec fn sandbox_env(
    sandbox: DriverSandboxView,
    config: LxdComputeConfigView,
    image: Seq<char>,
) -> Map<Seq<char>, Seq<char>> {
    user_env(sandbox.spec).union_prefer_right(required_env(sandbox, config, image))
}

/// Merges the environment variables of the user with those the driver needs.
pub fn build_env(sandbox: &DriverSandbox, config: &LxdComputeConfig, image: &str) -> (r: StringMap<
    String,
>)
    ensures
        string_map::text_map(r) == sandbox_env(sandbox@, config@, image@),
{
    let mut env: StringMap<String> = StringMap::new();
    proof {
        assert(string_map::text_map(env) =~= Map::empty());
    }
    if let Some(spec) = &sandbox.spec {
        if !spec.log_level.as_str().is_empty() {
            string_map::put_text(&mut env, "OPENSHELL_LOG_LEVEL", spec.log_level.as_str());
        }
        string_map::put_all(&mut env, &spec.environment);
        proof {
            use_type_invariant(&spec.environment);
            string_map::text_map_of_pairs(spec.environment);
        }
        if let Some(template) = &spec.template {
            string_map::put_all(&mut env, &template.environment);
            proof {
                use_type_invariant(&template.environment);
                string_map::text_map_of_pairs(template.environment);
            }
        }
    }
    let ghost user = string_map::text_map(env);
    proof {
        assert(user =~= user_env(sandbox@.spec));
    }
    string_map::put_text(&mut env, "OPENSHELL_SANDBOX", sandbox.name.as_str());
    string_map::put_text(&mut env, "OPENSHELL_SANDBOX_ID", sandbox.id.as_str());
    string_map::put_text(&mut env, "OPENSHELL_ENDPOINT", config.grpc_endpoint.as_str());
    string_map::put_text(
        &mut env,
        "OPENSHELL_SSH_SOCKET_PATH",
        config.sandbox_ssh_socket_path.as_str(),
    );
    string_map::put_text(&mut env, "OPENSHELL_SSH_LISTEN_ADDR", config.ssh_listen_addr.as_str());
    string_map::put_text(
        &mut env,
        "OPENSHELL_SSH_HANDSHAKE_SECRET",
        config.ssh_handshake_secret.as_str(),
    );
    string_map::put_text(
        &mut env,
        "OPENSHELL_SSH_HANDSHAKE_SKEW_SECS",
        text::u64_text(config.ssh_handshake_skew_secs).as_str(),
    );
    string_map::put_text(&mut env, "OPENSHELL_CONTAINER_IMAGE", image);
    string_map::put_text(&mut env, "OPENSHELL_SANDBOX_COMMAND", "sleep infinity");
    proof {
        assert(string_map::text_map(env) =~= sandbox_env(sandbox@, config@, image@));
    }
    env
}

/// Whatever the user asks for, the variables that the driver needs have the
/// values that the driver gives them.
pub proof fn required_variables_win(
    sandbox: DriverSandboxView,
    config: LxdComputeConfigView,
    image: Seq<char>,
    key: Seq<char>,
)
    requires
        required_env(sandbox, config, image).contains_key(key),
    ensures
        sandbox_env(sandbox, config, image).contains_key(key),
        sandbox_env(sandbox, config, image)[key] == required_env(sandbox, config, image)[key],
{
}

/// A variable of the user that the driver does not need is kept.
pub proof fn other_variables_are_kept(
    sandbox: DriverSandboxView,
    config: LxdComputeConfigView,
    image: Seq<char>,
    key: Seq<char>,
)
    requires
        !required_env(sandbox, config, image).contains_key(key),
    ensures
        sandbox_env(sandbox, config, image).contains_key(key) == user_env(
            sandbox.spec,
        ).contains_key(key),
        user_env(sandbox.spec).contains_key(key) ==> sandbox_env(sandbox, config, image)[key]
            == user_env(sandbox.spec)[key],
{
}

// ---------------------------------------------------------------------------
// Specification of an instance
// ---------------------------------------------------------------------------

/// The processor limit of a sandbox.
pub open spec fn cpu_limit_of(sandbox: DriverSandboxView) -> Seq<char> {
    match sandbox.spec {
        Some(spec) => match spec.template {
            Some(template) => match template.resources {
                Some(resources) => if resources.cpu_limit.len() > 0 {
                    resources.cpu_limit
                } else {
                    "2"@
                },
                None => "2"@,
            },
            None => "2"@,
        },
        None => "2"@,
    }
}

/// The memory limit of a sandbox.
pub open spec fn memory_limit_of(sandbox: DriverSandboxView) -> Seq<char> {
    match sandbox.spec {
        Some(spec) => match spec.template {
            Some(template) => match template.resources {
                Some(resources) => if resources.memory_limit.len() > 0 {
                    resources.memory_limit
                } else {
                    "4GiB"@
                },
                None => "4GiB"@,
            },
            None => "4GiB"@,
        },
        None => "4GiB"@,
    }
}

/// The config entries that every instance has: metadata, limits and security
/// settings.
pub open spec fn fixed_config(sandbox: DriverSandboxView) -> Map<Seq<char>, Json> {
    map![
        CONFIG_SANDBOX_ID@ => Json::Text(sandbox.id),
        CONFIG_SANDBOX_NAME@ => Json::Text(sandbox.name),
        CONFIG_MANAGED@ => Json::Text("true"@),
        "limits.cpu"@ => Json::Text(cpu_limit_of(sandbox)),
        "limits.memory"@ => Json::Text(memory_limit_of(sandbox)),
        "security.nesting"@ => Json::Text("true"@),
        "security.privileged"@ => Json::Text("false"@)
    ]
}

/// The config entries under which an environment is stored: each variable under
/// its name with [`ENV_PREFIX`] before it.
pub open spec fn env_config(env: Map<Seq<char>, Seq<char>>) -> Map<Seq<char>, Json> {
    Map::new(
        |key: Seq<char>|
            ENV_PREFIX@.is_prefix_of(key) && env.contains_key(key.skip(ENV_PREFIX@.len() as int)),
        |key: Seq<char>| Json::Text(env[key.skip(ENV_PREFIX@.len() as int)]),
    )
}

/// The devices of an instance: root disk, network, workspace disk and, if it is
/// asked for, the GPU.
pub open spec fn device_config(gpu: bool, network_name: Seq<char>) -> Map<Seq<char>, Json> {
    let devices = map![
        "root"@ => Json::Object(map![
            "type"@ => Json::Text("disk"@),
            "path"@ => Json::Text("/"@),
            "pool"@ => Json::Text("default"@)
        ]),
        "eth0"@ => Json::Object(map![
            "type"@ => Json::Text("nic"@),
            "network"@ => Json::Text(network_name),
            "name"@ => Json::Text("eth0"@)
        ]),
        "workspace"@ => Json::Object(map![
            "type"@ => Json::Text("disk"@),
            "source"@ => Json::Text(Seq::empty()),
            "path"@ => Json::Text("/sandbox"@)
        ])
    ];
    if gpu {
        devices.insert("gpu"@, Json::Object(map!["type"@ => Json::Text("gpu"@)]))
    } else {
        devices
    }
}

/// Whether a sandbox asks for a GPU.
pub open spec fn wants_gpu(sandbox: DriverSandboxView) -> bool {
    sandbox.spec matches Some(spec) && spec.gpu
}

/// The config entries of the instance of a sandbox.
pub open spec fn instance_config(sandbox: DriverSandboxView, config: LxdComputeConfigView) -> Map<
    Seq<char>,
    Json,
> {
    fixed_config(sandbox).union_prefer_right(
        env_config(sandbox_env(sandbox, config, image_of(sandbox, config.default_image))),
    )
}

/// The specification from which the instance of a sandbox is created.
pub open spec fn instance_spec(sandbox: DriverSandboxView, config: LxdComputeConfigView) -> Json {
    Json::Object(
        map![
            "name"@ => Json::Text(name_of_instance(sandbox.name)),
            "source"@ => Json::Object(map![
                "type"@ => Json::Text("image"@),
                "alias"@ => Json::Text(image_of(sandbox, config.default_image))
            ]),
            "config"@ => Json::Object(instance_config(sandbox, config)),
            "devices"@ => Json::Object(device_config(wants_gpu(sandbox), config.network_name)),
            "type"@ => Json::Text("container"@)
        ],
    )
}

/// Whether a sandbox asks for a GPU.
pub fn gpu_requested(sandbox: &DriverSandbox) -> (r: bool)
    ensures
        r == wants_gpu(sandbox@),
{
    match &sandbox.spec {
        Some(spec) => spec.gpu,
        None => false,
    }
}

fn resource_limits(sandbox: &DriverSandbox) -> (r: (String, String))
    ensures
        r.0@ == cpu_limit_of(sandbox@),
        r.1@ == memory_limit_of(sandbox@),
{
    let mut cpu_limit = "2".to_owned();
    let mut memory_limit = "4GiB".to_owned();
    if let Some(spec) = &sandbox.spec {
        if let Some(template) = &spec.template {
            if let Some(resources) = &template.resources {
                if !resources.cpu_limit.as_str().is_empty() {
                    cpu_limit = resources.cpu_limit.clone();
                }
                if !resources.memory_limit.as_str().is_empty() {
                    memory_limit = resources.memory_limit.clone();
                }
            }
        }
    }
    (cpu_limit, memory_limit)
}

/// Storing one more variable adds one more entry.
proof fn lemma_env_config_insert(
    env: Map<Seq<char>, Seq<char>>,
    key: Seq<char>,
    value: Seq<char>,
)
    ensures
        env_config(env.insert(key, value)) == env_config(env).insert(
            ENV_PREFIX@ + key,
            Json::Text(value),
        ),
{
    let n = ENV_PREFIX@.len() as int;
    let full = ENV_PREFIX@ + key;
    assert(full.skip(n) =~= key);
    assert(ENV_PREFIX@ =~= full.subrange(0, n));
    assert forall|k: Seq<char>| ENV_PREFIX@.is_prefix_of(k) && #[trigger] k.skip(n)
        == key implies k == full by {
        assert(k =~= ENV_PREFIX@ + k.skip(n));
    }
    assert(env_config(env.insert(key, value)) =~= env_config(env).insert(full, Json::Text(value)));
}

/// Stores an environment in the config entries of an instance.
fn add_env(map: &mut serde_json::Map<String, Value>, env: &StringMap<String>)
    ensures
        json::members_of(*final(map)) == json::members_of(*old(map)).union_prefer_right(
            env_config(string_map::text_map(*env)),
        ),
{
    let ghost texts = string_map::text_pairs(*env);
    let mut i: usize = 0;
    proof {
        use_type_invariant(env);
        string_map::text_map_of_pairs(*env);
        assert(string_map::map_of(texts.take(0)) =~= Map::empty());
        assert(env_config(Map::empty()) =~= Map::empty());
        assert(json::members_of(*map) =~= json::members_of(*old(map)).union_prefer_right(
            env_config(string_map::map_of(texts.take(0))),
        ));
    }
    while i < env.len()
        invariant
            i <= env.pairs().len(),
            texts == string_map::text_pairs(*env),
            string_map::ascending(texts),
            json::members_of(*map) == json::members_of(*old(map)).union_prefer_right(
                env_config(string_map::map_of(texts.take(i as int))),
            ),
        decreases env.pairs().len() - i,
    {
        let key = env.key_at(i);
        let value = env.value_at(i);
        json::add_text(map, ENV_PREFIX.to_owned().concat(key).as_str(), value.as_str());
        proof {
            string_map::map_of_push(texts, i as int);
            assert(texts[i as int] == (key@, value@));
            lemma_env_config_insert(string_map::map_of(texts.take(i as int)), key@, value@);
            assert(json::members_of(*map) =~= json::members_of(*old(map)).union_prefer_right(
                env_config(string_map::map_of(texts.take(i + 1))),
            ));
        }
        i = i + 1;
    }
    proof {
        assert(texts.take(texts.len() as int) =~= texts);
    }
}

/// Describes the devices of an instance.
fn device_members(gpu: bool, network_name: &str) -> (r: serde_json::Map<String, Value>)
    ensures
        json::members_of(r) == device_config(gpu, network_name@),
{
    let mut root = json::no_members();
    json::add_text(&mut root, "type", "disk");
    json::add_text(&mut root, "path", "/");
    json::add_text(&mut root, "pool", "default");
    let mut eth0 = json::no_members();
    json::add_text(&mut eth0, "type", "nic");
    json::add_text(&mut eth0, "network", network_name);
    json::add_text(&mut eth0, "name", "eth0");
    let mut workspace = json::no_members();
    json::add_text(&mut workspace, "type", "disk");
    json::add_text(&mut workspace, "source", String::new().as_str());
    json::add_text(&mut workspace, "path", "/sandbox");
    let mut devices = json::no_members();
    json::add_member(&mut devices, "root".to_owned(), json::json_object(root));
    json::add_member(&mut devices, "eth0".to_owned(), json::json_object(eth0));
    json::add_member(&mut devices, "workspace".to_owned(), json::json_object(workspace));
    if gpu {
        let mut device = json::no_members();
        json::add_text(&mut device, "type", "gpu");
        json::add_member(&mut devices, "gpu".to_owned(), json::json_object(device));
    }
    devices
}

/// Builds the JSON specification from which LXD creates the instance.
pub fn build_instance_spec(sandbox: &DriverSandbox, config: &LxdComputeConfig) -> (r: Value)
    ensures
        json::json_of(r) == instance_spec(sandbox@, config@),
{
    let image = resolve_image(sandbox, config);
    let env = build_env(sandbox, config, image);
    let (cpu_limit, memory_limit) = resource_limits(sandbox);
    let mut entries = json::no_members();
    json::add_text(&mut entries, CONFIG_SANDBOX_ID, sandbox.id.as_str());
    json::add_text(&mut entries, CONFIG_SANDBOX_NAME, sandbox.name.as_str());
    json::add_text(&mut entries, CONFIG_MANAGED, "true");
    json::add_text(&mut entries, "limits.cpu", cpu_limit.as_str());
    json::add_text(&mut entries, "limits.memory", memory_limit.as_str());
    json::add_text(&mut entries, "security.nesting", "true");
    json::add_text(&mut entries, "security.privileged", "false");
    add_env(&mut entries, &env);
    let devices = device_members(gpu_requested(sandbox), config.network_name.as_str());
    let mut source = json::no_members();
    json::add_text(&mut source, "type", "image");
    json::add_text(&mut source, "alias", image);
    let mut spec = json::no_members();
    json::add_text(&mut spec, "name", instance_name(sandbox.name.as_str()).as_str());
    json::add_member(&mut spec, "source".to_owned(), json::json_object(source));
    json::add_member(&mut spec, "config".to_owned(), json::json_object(entries));
    json::add_member(&mut spec, "devices".to_owned(), json::json_object(devices));
    json::add_text(&mut spec, "type", "container");
    json::json_object(spec)
}

/// No variable of the environment takes the place of one of the entries that
/// every instance has.
pub proof fn fixed_entries_are_kept(
    sandbox: DriverSandboxView,
    config: LxdComputeConfigView,
    key: Seq<char>,
)
    requires
        fixed_config(sandbox).contains_key(key),
    ensures
        instance_config(sandbox, config).contains_key(key),
        instance_config(sandbox, config)[key] == fixed_config(sandbox)[key],
{
    reveal_strlit("user.env.");
    reveal_strlit("user.openshell.sandbox-id");
    reveal_strlit("user.openshell.sandbox-name");
    reveal_strlit("user.openshell.managed");
    reveal_strlit("limits.cpu");
    reveal_strlit("limits.memory");
    reveal_strlit("security.nesting");
    reveal_strlit("security.privileged");
    assert(key[0] != ENV_PREFIX@[0] || key[5] != ENV_PREFIX@[5]);
    assert(!ENV_PREFIX@.is_prefix_of(key));
}

/// Every variable of the environment is stored in the config of the instance.
pub proof fn environment_is_stored(
    sandbox: DriverSandboxView,
    config: LxdComputeConfigView,
    key: Seq<char>,
)
    requires
        sandbox_env(sandbox, config, image_of(sandbox, config.default_image)).contains_key(key),
    ensures
        instance_config(sandbox, config).contains_key(ENV_PREFIX@ + key),
        instance_config(sandbox, config)[ENV_PREFIX@ + key] == Json::Text(
            sandbox_env(sandbox, config, image_of(sandbox, config.default_image))[key],
        ),
{
    let full = ENV_PREFIX@ + key;
    let n = ENV_PREFIX@.len() as int;
    assert(full.skip(n) =~= key);
    assert(ENV_PREFIX@ =~= full.subrange(0, n));
}

} // verus!
