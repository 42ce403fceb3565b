//! What the LXD driver does to the daemon, and what it tells of that.
//!
//! The laws speak of the requests that are sent, of the answers, and of what comes
//! of a whole creation or deletion.
use vstd::prelude::*;
use vstd::string::*;
use crate::compute;
use crate::compute::{
    ComputeDriverError, ComputeDriverErrorView, DriverCondition, DriverConditionView,
    DriverSandbox, DriverSandboxView, WatchSandboxesEvent, WatchSandboxesEventView,
};
use crate::environment;
use crate::json;
use crate::json::Json;
use crate::lxd::client;
use crate::lxd::client::{
    CallStep, CallStepView, Instance, InstanceView, LxdApiError, LxdApiErrorView, LxdClient,
    LxdEvent, LxdReply, LxdRequest, LxdRequestView, LxdResponse, Method, OperationStatus,
    ProjectStep,
};
use crate::lxd::config;
use crate::lxd::config::{LxdComputeConfig, LxdComputeConfigView};
use crate::lxd::driver;
use crate::lxd::driver::{
    ConnectStage, ConnectStep, ConnectStepView, CreateStageView, CreateStep, DeleteStage,
    DeleteStep, DeleteStepView, LxdComputeDriver,
};
use crate::lxd::instance;
use crate::lxd::watcher;
use crate::lxd::watcher::{EventAction, Listing, Subscribing, WatchStep};
use crate::platform;
use crate::shell;
use crate::string_map;
use crate::text;

verus! {

// ---------------------------------------------------------------------------
// Requests
// ---------------------------------------------------------------------------

/// The address of a path of the API.
pub open spec fn address(path: Seq<char>) -> Seq<char> {
    "http://localhost/1.0"@ + path
}

/// What stands at the end of an address to confine a request to a project. LXD's
/// own default project needs nothing.
pub open spec fn scope(separator: Seq<char>, project: Seq<char>) -> Seq<char> {
    if project.len() == 0 || project == "default"@ {
        Seq::empty()
    } else {
        separator + "project="@ + client::url_encoded(project)
    }
}

/// The address of an instance, or of a part of it.
pub open spec fn instance_address(name: Seq<char>, part: Seq<char>, project: Seq<char>) -> Seq<
    char,
> {
    address("/instances/"@ + name + part + scope("?"@, project))
}

/// Whether a request has these members as its JSON body.
pub open spec fn sends(q: LxdRequestView, members: Map<Seq<char>, Json>) -> bool {
    &&& q.body == json::json_bytes(Json::Object(members))
    &&& q.headers.contains(("Content-Type"@, "application/json"@))
}

/// Whether a request has no body.
pub open spec fn sends_nothing(q: LxdRequestView) -> bool {
    &&& q.body.len() == 0
    &&& q.headers == seq![("Host"@, "localhost"@)]
}

proof fn lemma_address(path: Seq<char>)
    ensures
        "http://localhost"@ + ("/"@ + client::API_VERSION@ + path) == address(path),
{
    reveal_strlit("http://localhost");
    reveal_strlit("http://localhost/1.0");
    reveal_strlit("/");
    reveal_strlit("1.0");
    assert("http://localhost"@ + ("/"@ + client::API_VERSION@ + path) =~= address(path));
}

proof fn lemma_headers()
    ensures
        seq![("Host"@, "localhost"@)].push(("Content-Type"@, "application/json"@)).contains(
            ("Content-Type"@, "application/json"@),
        ),
{
    let headers = seq![("Host"@, "localhost"@)].push(("Content-Type"@, "application/json"@));
    assert(headers[1] == ("Content-Type"@, "application/json"@));
}

/// A request about an instance is refused if and only if the name is not safe in
/// an address.
pub proof fn unsafe_names_are_refused(
    c: &LxdClient,
    name: &str,
    timeout_secs: u32,
    command: &[&str],
    path: &str,
    content: &[u8],
    mode: &str,
    r: Result<LxdRequest, LxdApiError>,
)
    requires
        call_ensures(LxdClient::start_instance, (c, name), r) || call_ensures(
            LxdClient::stop_instance,
            (c, name, timeout_secs),
            r,
        ) || call_ensures(LxdClient::force_stop_instance, (c, name), r) || call_ensures(
            LxdClient::delete_instance,
            (c, name),
            r,
        ) || call_ensures(LxdClient::get_instance, (c, name), r) || call_ensures(
            LxdClient::get_instance_state,
            (c, name),
            r,
        ) || call_ensures(LxdClient::exec_instance, (c, name, command), r) || call_ensures(
            LxdClient::push_file,
            (c, name, path, content, mode),
            r,
        ),
    ensures
        r is Ok == client::valid_name(name@),
        r matches Err(e) ==> e is InvalidInput,
{
}

/// An instance is started by setting its state.
pub proof fn start_sets_the_state(c: &LxdClient, name: &str, q: LxdRequest)
    requires
        call_ensures(LxdClient::start_instance, (c, name), Ok(q)),
    ensures
        q@.method == Method::Put,
        q@.uri == instance_address(name@, "/state"@, c.project@),
        sends(q@, map!["action"@ => Json::Text("start"@)]),
{
    lemma_address("/instances/"@ + name@ + "/state"@ + scope("?"@, c.project@));
    lemma_headers();
}

/// An instance is stopped by setting its state, within the time that it is given
/// and not by force. The answer is waited for longer than that.
pub proof fn stop_gives_time(c: &LxdClient, name: &str, timeout_secs: u32, q: LxdRequest)
    requires
        call_ensures(LxdClient::stop_instance, (c, name, timeout_secs), Ok(q)),
    ensures
        q@.method == Method::Put,
        q@.uri == instance_address(name@, "/state"@, c.project@),
        sends(
            q@,
            map![
                "action"@ => Json::Text("stop"@),
                "timeout"@ => Json::Number(text::decimal(timeout_secs as nat)),
                "force"@ => Json::Bool(false)
            ],
        ),
        q@.timeout_secs == timeout_secs + 10,
{
    lemma_address("/instances/"@ + name@ + "/state"@ + scope("?"@, c.project@));
    lemma_headers();
}

/// An instance is stopped at once by force.
pub proof fn force_stop_forces(c: &LxdClient, name: &str, q: LxdRequest)
    requires
        call_ensures(LxdClient::force_stop_instance, (c, name), Ok(q)),
    ensures
        q@.method == Method::Put,
        q@.uri == instance_address(name@, "/state"@, c.project@),
        sends(q@, map!["action"@ => Json::Text("stop"@), "force"@ => Json::Bool(true)]),
{
    lemma_address("/instances/"@ + name@ + "/state"@ + scope("?"@, c.project@));
    lemma_headers();
}

/// What is read and what is deleted is the same thing: the instance itself.
pub proof fn delete_removes_what_get_reads(
    c: &LxdClient,
    name: &str,
    read: LxdRequest,
    deletion: LxdRequest,
)
    requires
        call_ensures(LxdClient::get_instance, (c, name), Ok(read)),
        call_ensures(LxdClient::delete_instance, (c, name), Ok(deletion)),
    ensures
        read@.method == Method::Get,
        deletion@.method == Method::Delete,
        read@.uri == deletion@.uri,
        deletion@.uri == instance_address(name@, Seq::empty(), c.project@),
        sends_nothing(read@),
        sends_nothing(deletion@),
{
    lemma_address("/instances/"@ + name@ + Seq::<char>::empty() + scope("?"@, c.project@));
}

/// What is read of a state is what starting and stopping sets.
pub proof fn state_is_what_is_set(
    c: &LxdClient,
    name: &str,
    read: LxdRequest,
    start: LxdRequest,
    stop: LxdRequest,
)
    requires
        call_ensures(LxdClient::get_instance_state, (c, name), Ok(read)),
        call_ensures(LxdClient::start_instance, (c, name), Ok(start)),
        call_ensures(LxdClient::force_stop_instance, (c, name), Ok(stop)),
    ensures
        read@.method == Method::Get,
        read@.uri == start@.uri,
        read@.uri == stop@.uri,
        sends_nothing(read@),
{
}

/// A command is run with its words as they are, and nothing of what it prints is
/// kept or waited for.
pub proof fn exec_runs_the_words(c: &LxdClient, name: &str, command: &[&str], q: LxdRequest)
    requires
        call_ensures(LxdClient::exec_instance, (c, name, command), Ok(q)),
    ensures
        q@.method == Method::Post,
        q@.uri == instance_address(name@, "/exec"@, c.project@),
        exists|words: Seq<Json>| #[trigger]
            sends(
                q@,
                map![
                    "command"@ => Json::Array(words),
                    "wait-for-websocket"@ => Json::Bool(false),
                    "record-output"@ => Json::Bool(false)
                ],
            ) && words.len() == command@.len() && forall|i: int|
                0 <= i < words.len() ==> words[i] == Json::Text((#[trigger] command@[i])@),
{
    lemma_address("/instances/"@ + name@ + "/exec"@ + scope("?"@, c.project@));
    lemma_headers();
    let words = client::str_views(command@).map_values(|s: Seq<char>| Json::Text(s));
    assert(sends(
        q@,
        map![
            "command"@ => Json::Array(words),
            "wait-for-websocket"@ => Json::Bool(false),
            "record-output"@ => Json::Bool(false)
        ],
    ));
}

/// A file is pushed byte for byte, to the path and with the mode that are given.
pub proof fn push_sends_the_file(
    c: &LxdClient,
    name: &str,
    path: &str,
    content: &[u8],
    mode: &str,
    q: LxdRequest,
)
    requires
        call_ensures(LxdClient::push_file, (c, name, path, content, mode), Ok(q)),
    ensures
        q@.method == Method::Post,
        q@.uri == address(
            "/instances/"@ + name@ + "/files?path="@ + client::url_encoded(path@) + scope(
                "&"@,
                c.project@,
            ),
        ),
        q@.body == content@,
        q@.headers.contains(("X-LXD-type"@, "file"@)),
        q@.headers.contains(("X-LXD-mode"@, mode@)),
{
    let tail = "/instances/"@ + name@ + "/files?path="@ + client::url_encoded(path@) + scope(
        "&"@,
        c.project@,
    );
    lemma_address(tail);
    assert("/"@ + client::API_VERSION@ + "/instances/"@ + name@ + "/files?path="@
        + client::url_encoded(path@) + scope("&"@, c.project@) =~= "/"@ + client::API_VERSION@
        + tail);
    assert(q@.headers[2] == ("X-LXD-type"@, "file"@));
    assert(q@.headers[3] == ("X-LXD-mode"@, mode@));
}

/// All instances of the project are listed with what is known of each, and events
/// of their lives are subscribed to.
pub proof fn list_and_events_are_of_the_project(
    c: &LxdClient,
    list: LxdRequest,
    events: LxdRequest,
)
    requires
        call_ensures(LxdClient::list_instances, (c,), list),
        call_ensures(LxdClient::events_stream, (c,), events),
    ensures
        list@.method == Method::Get,
        list@.uri == address("/instances?recursion=1"@ + scope("&"@, c.project@)),
        sends_nothing(list@),
        events@.method == Method::Get,
        events@.uri == address("/events?type=lifecycle"@ + scope("&"@, c.project@)),
        sends_nothing(events@),
{
    lemma_address("/instances?recursion=1"@ + scope("&"@, c.project@));
    lemma_address("/events?type=lifecycle"@ + scope("&"@, c.project@));
    assert("/"@ + client::API_VERSION@ + "/events?type=lifecycle"@ + scope("&"@, c.project@)
        =~= "/"@ + client::API_VERSION@ + ("/events?type=lifecycle"@ + scope("&"@, c.project@)));
}

/// The daemon is asked at the root of the API, whatever the project.
pub proof fn daemon_is_asked_at_the_root(c: &LxdClient, ping: LxdRequest, info: LxdRequest)
    requires
        call_ensures(LxdClient::ping, (c,), ping),
        call_ensures(LxdClient::server_info, (c,), info),
    ensures
        ping@.method == Method::Get,
        ping@.uri == "http://localhost/1.0"@,
        sends_nothing(ping@),
        info@ == ping@,
{
    lemma_address(Seq::empty());
    assert("/"@ + client::API_VERSION@ + Seq::<char>::empty() =~= "/"@ + client::API_VERSION@);
    assert(address(Seq::empty()) =~= "http://localhost/1.0"@);
}

/// A project is looked up first, and created under its own name only when it is
/// not found; it keeps its instances apart, and shares images, volumes and
/// networks. LXD's own default project is neither looked up nor created.
pub proof fn project_is_looked_up_before_it_is_created(
    c: &LxdClient,
    first: ProjectStep,
    found: Result<(), LxdApiError>,
    second: ProjectStep,
)
    requires
        call_ensures(LxdClient::ensure_project, (c,), first),
        call_ensures(LxdClient::after_project_lookup, (c, found), second),
    ensures
        (first is Done) == (c.project@.len() == 0 || c.project@ == "default"@),
        first matches ProjectStep::Done(r) ==> r is Ok,
        first matches ProjectStep::Lookup(q) ==> q@.method == Method::Get && q@.uri == address(
            "/projects/"@ + client::url_encoded(c.project@),
        ) && sends_nothing(q@),
        !(first is Create),
        (second is Create) == (found matches Err(LxdApiError::NotFound(_))),
        second matches ProjectStep::Create(q) ==> q@.method == Method::Post && q@.uri == address(
            "/projects"@,
        ) && exists|members: Map<Seq<char>, Json>| #[trigger]
            sends(q@, members) && members["name"@] == Json::Text(c.project@) && {
                let config = members["config"@];
                &&& json::member(config, "features.images"@) == Some(Json::Text("false"@))
                &&& json::member(config, "features.profiles"@) == Some(Json::Text("true"@))
                &&& json::member(config, "features.storage.volumes"@) == Some(Json::Text("false"@))
                &&& json::member(config, "features.networks"@) == Some(Json::Text("false"@))
            },
        second matches ProjectStep::Done(r) ==> (r is Ok) == (found is Ok),
        second matches ProjectStep::Done(Err(e)) ==> found matches Err(f) && e@ == f@,
{
    lemma_address("/projects/"@ + client::url_encoded(c.project@));
    lemma_address("/projects"@);
    lemma_headers();
    if let ProjectStep::Create(q) = second {
        reveal_strlit("name");
        reveal_strlit("description");
        reveal_strlit("config");
        reveal_strlit("features.images");
        reveal_strlit("features.profiles");
        reveal_strlit("features.storage.volumes");
        reveal_strlit("features.networks");
        assert("features.profiles"@[9] != "features.networks"@[9]);
        let config = map![
            "features.images"@ => Json::Text("false"@),
            "features.profiles"@ => Json::Text("true"@),
            "features.storage.volumes"@ => Json::Text("false"@),
            "features.networks"@ => Json::Text("false"@)
        ];
        let members = map![
            "name"@ => Json::Text(c.project@),
            "description"@ => Json::Text("OpenShell sandbox instances"@),
            "config"@ => Json::Object(config)
        ];
        assert(sends(q@, members));
        assert("name"@.len() == 4 && "config"@.len() == 6 && "description"@.len() == 11);
        assert(members["name"@] == Json::Text(c.project@));
        assert(members["config"@] == Json::Object(config));
        assert("features.images"@.len() == 15 && "features.profiles"@.len() == 17);
        assert("features.storage.volumes"@.len() == 24 && "features.networks"@.len() == 17);
        assert(config.contains_key("features.images"@));
        assert(config["features.images"@] == Json::Text("false"@));
        assert(config["features.profiles"@] == Json::Text("true"@));
    }
}

/// Whoever created the project, it is there: only another failure to create it is
/// one.
pub proof fn project_made_by_another_counts(
    created: Result<(), LxdApiError>,
    r: Result<(), LxdApiError>,
)
    requires
        call_ensures(client::after_project_create, (created,), r),
    ensures
        (r is Ok) == (created is Ok || created matches Err(LxdApiError::Conflict(_))),
        r matches Err(e) ==> created matches Err(f) && e@ == f@,
{
}

// ---------------------------------------------------------------------------
// Startup script
// ---------------------------------------------------------------------------

/// The commands that set variables for what runs after them.
pub open spec fn export_commands(vars: Seq<(Seq<char>, Seq<char>)>) -> Seq<Seq<Seq<char>>> {
    vars.map_values(|v: (Seq<char>, Seq<char>)| seq!["export"@, v.0 + "="@ + v.1])
}

/// Whether the names of all variables are plain, as names of variables are.
pub open spec fn plain_names(vars: Seq<(Seq<char>, Seq<char>)>) -> bool {
    forall|i: int| 0 <= i < vars.len() ==> shell::plain_text((#[trigger] vars[i]).0)
}

proof fn lemma_exports(vars: Seq<(Seq<char>, Seq<char>)>, rest: Seq<char>)
    requires
        plain_names(vars),
    ensures
        shell::script_commands(driver::export_lines(vars) + rest) == (match shell::script_commands(
            rest,
        ) {
            Some(later) => Some(export_commands(vars) + later),
            None => None,
        }),
    decreases vars.len(),
{
    if vars.len() == 0 {
        assert(driver::export_lines(vars) + rest =~= rest);
        if let Some(later) = shell::script_commands(rest) {
            assert(export_commands(vars) + later =~= later);
        }
    } else {
        let front = vars.drop_last();
        let (key, value) = vars.last();
        let tail = driver::export_line(key, value) + rest;
        assert forall|i: int| 0 <= i < front.len() implies shell::plain_text(
            (#[trigger] front[i]).0,
        ) by {
            assert(front[i] == vars[i]);
        }
        lemma_exports(front, tail);
        assert(driver::export_lines(vars) + rest =~= driver::export_lines(front) + tail);
        reveal_strlit("export ");
        reveal_strlit("export");
        reveal_strlit(" ");
        reveal_strlit("='");
        reveal_strlit("=");
        reveal_strlit("'");
        let plain = key + "="@;
        assert(shell::plain_text(vars[vars.len() - 1].0));
        assert forall|i: int| 0 <= i < plain.len() implies shell::script_char(
            #[trigger] plain[i],
        ) by {
            if i < key.len() {
                assert(shell::plain_char(key[i]));
            }
        }
        shell::quoted_line_is_a_command("export"@, plain, value, rest);
        assert(tail =~= "export"@ + " "@ + plain + "'"@ + shell::shell_escaped(value) + "'\n"@
            + rest);
        let command = seq!["export"@, key + "="@ + value];
        assert(plain + value =~= key + "="@ + value);
        assert(seq!["export"@, plain + value] =~= command);
        if let Some(later) = shell::script_commands(rest) {
            assert(export_commands(front) + (seq![command] + later) =~= export_commands(vars)
                + later);
        }
    }
}

proof fn lemma_script(vars: Seq<(Seq<char>, Seq<char>)>)
    requires
        plain_names(vars),
    ensures
        "#!/bin/sh\n"@.is_prefix_of(driver::startup_script(vars)),
        shell::script_commands(driver::startup_script(vars)) == Some(
            seq![
                seq!["set"@, "-e"@],
                seq!["mkdir"@, "-p"@, "/opt/openshell/bin"@, "/run/openshell"@, "/sandbox"@],
            ] + export_commands(vars) + seq![
                seq!["exec"@, "/opt/openshell/bin/openshell-sandbox"@],
            ],
        ),
{
    let script = driver::startup_script(vars);
    reveal_strlit("#!/bin/sh\nset -e\nmkdir -p /opt/openshell/bin /run/openshell /sandbox\n");
    reveal_strlit("#!/bin/sh\n");
    reveal_strlit("exec /opt/openshell/bin/openshell-sandbox\n");
    reveal_strlit("!/bin/sh");
    reveal_strlit("#");
    reveal_strlit("\n");
    reveal_strlit(" ");
    reveal_strlit("set");
    reveal_strlit("-e");
    reveal_strlit("mkdir");
    reveal_strlit("-p");
    reveal_strlit("/opt/openshell/bin");
    reveal_strlit("/run/openshell");
    reveal_strlit("/sandbox");
    reveal_strlit("exec");
    reveal_strlit("/opt/openshell/bin/openshell-sandbox");
    let last = seq!["exec"@, "/opt/openshell/bin/openshell-sandbox"@];
    let second = seq!["mkdir"@, "-p"@, "/opt/openshell/bin"@, "/run/openshell"@, "/sandbox"@];
    let first = seq!["set"@, "-e"@];
    let ending = "exec /opt/openshell/bin/openshell-sandbox\n"@;
    // The last line.
    reveal_with_fuel(text::joined, 6);
    assert(last.drop_last() =~= seq!["exec"@]);
    assert(text::joined(last, " "@) + "\n"@ + Seq::<char>::empty() =~= ending);
    shell::plain_line_is_a_command(last, Seq::empty());
    assert(shell::script_commands(Seq::empty()) == Some(Seq::<Seq<Seq<char>>>::empty()));
    assert(seq![last] + Seq::<Seq<Seq<char>>>::empty() =~= seq![last]);
    // The variables.
    let body = driver::export_lines(vars) + ending;
    lemma_exports(vars, ending);
    // The lines before them.
    let dirs = seq!["mkdir"@, "-p"@, "/opt/openshell/bin"@, "/run/openshell"@];
    assert(second.drop_last() =~= dirs);
    assert(dirs.drop_last() =~= seq!["mkdir"@, "-p"@, "/opt/openshell/bin"@]);
    assert(dirs.drop_last().drop_last() =~= seq!["mkdir"@, "-p"@]);
    assert(seq!["mkdir"@, "-p"@].drop_last() =~= seq!["mkdir"@]);
    shell::plain_line_is_a_command(second, body);
    let from_second = text::joined(second, " "@) + "\n"@ + body;
    assert(first.drop_last() =~= seq!["set"@]);
    shell::plain_line_is_a_command(first, from_second);
    let from_first = text::joined(first, " "@) + "\n"@ + from_second;
    assert(!"!/bin/sh"@.contains('\n'));
    shell::comment_is_skipped("!/bin/sh"@, from_first);
    assert(script =~= "#"@ + "!/bin/sh"@ + "\n"@ + from_first);
    let commands = export_commands(vars) + seq![last];
    assert(seq![first] + (seq![second] + commands) =~= seq![first, second] + export_commands(vars)
        + seq![last]);
    assert("#!/bin/sh\n"@ =~= script.subrange(0, "#!/bin/sh\n"@.len() as int));
}

/// What a shell does with the startup script: it stops at the first failure, makes
/// the directories, sets every variable to its value, whatever that holds, and
/// then becomes the supervisor.
pub proof fn script_sets_variables_and_runs_supervisor(env: &[(String, String)], script: String)
    requires
        call_ensures(driver::build_startup_script, (env,), script),
        plain_names(text::pair_views(env@)),
    ensures
        "#!/bin/sh\n"@.is_prefix_of(script@),
        shell::script_commands(script@) == Some(
            seq![
                seq!["set"@, "-e"@],
                seq!["mkdir"@, "-p"@, "/opt/openshell/bin"@, "/run/openshell"@, "/sandbox"@],
            ] + export_commands(text::pair_views(env@)) + seq![
                seq!["exec"@, "/opt/openshell/bin/openshell-sandbox"@],
            ],
        ),
{
    lemma_script(text::pair_views(env@));
}

/// What the commands of a script leave in a variable.
pub open spec fn exported(commands: Seq<Seq<Seq<char>>>, key: Seq<char>) -> Option<Seq<char>>
    decreases commands.len(),
{
    if commands.len() == 0 {
        None
    } else {
        let last = commands.last();
        if last.len() == 2 && last[0] == "export"@ && (key + "="@).is_prefix_of(last[1]) {
            Some(last[1].skip((key.len() + 1) as int))
        } else {
            exported(commands.drop_last(), key)
        }
    }
}

/// What a script leaves in a variable for the program that it runs.
pub open spec fn script_value(script: Seq<char>, key: Seq<char>) -> Option<Seq<char>> {
    match shell::script_commands(script) {
        Some(commands) => exported(commands, key),
        None => None,
    }
}

proof fn lemma_exported(
    before: Seq<Seq<Seq<char>>>,
    vars: Seq<(Seq<char>, Seq<char>)>,
    key: Seq<char>,
)
    requires
        plain_names(vars),
        shell::plain_text(key),
    ensures
        exported(before + export_commands(vars), key) == (match environment::value_in(vars, key) {
            Some(value) => Some(value),
            None => exported(before, key),
        }),
    decreases vars.len(),
{
    let all = before + export_commands(vars);
    if vars.len() == 0 {
        assert(all =~= before);
    } else {
        reveal_strlit("=");
        let front = vars.drop_last();
        let (name, value) = vars.last();
        assert(shell::plain_text(vars[vars.len() - 1].0));
        assert forall|i: int| 0 <= i < front.len() implies shell::plain_text(
            (#[trigger] front[i]).0,
        ) by {
            assert(front[i] == vars[i]);
        }
        assert(all.drop_last() =~= before + export_commands(front));
        lemma_exported(before, front, key);
        let setting = name + "="@ + value;
        let wanted = key + "="@;
        assert(all.last() == seq!["export"@, setting]);
        if name == key {
            assert(wanted =~= setting.subrange(0, wanted.len() as int));
            assert(setting.skip((key.len() + 1) as int) =~= value);
        } else if wanted.is_prefix_of(setting) {
            assert(setting[key.len() as int] == wanted[key.len() as int]);
            if key.len() < name.len() {
                assert(shell::plain_char(name[key.len() as int]));
            } else if name.len() < key.len() {
                assert(setting[name.len() as int] == wanted[name.len() as int]);
                assert(shell::plain_char(key[name.len() as int]));
            } else {
                assert forall|i: int| 0 <= i < key.len() implies key[i] == name[i] by {
                    assert(setting[i] == wanted[i]);
                }
                assert(key =~= name);
            }
        }
    }
}

/// The script leaves in every variable what the list says.
proof fn lemma_script_value(vars: Seq<(Seq<char>, Seq<char>)>, key: Seq<char>)
    requires
        plain_names(vars),
        shell::plain_text(key),
    ensures
        script_value(driver::startup_script(vars), key) == environment::value_in(vars, key),
{
    lemma_script(vars);
    let first = seq!["set"@, "-e"@];
    let second = seq!["mkdir"@, "-p"@, "/opt/openshell/bin"@, "/run/openshell"@, "/sandbox"@];
    let last = seq!["exec"@, "/opt/openshell/bin/openshell-sandbox"@];
    let head = seq![first, second];
    let commands = head + export_commands(vars) + seq![last];
    reveal_strlit("export");
    reveal_strlit("set");
    reveal_strlit("exec");
    assert("set"@.len() != "export"@.len() && "exec"@.len() != "export"@.len());
    assert(commands.drop_last() =~= head + export_commands(vars));
    assert(commands.last() == last);
    lemma_exported(head, vars, key);
    assert(head.drop_last() =~= seq![first]);
    assert(seq![first].drop_last() =~= Seq::<Seq<Seq<char>>>::empty());
    assert(exported(Seq::empty(), key) is None);
    assert(exported(seq![first], key) is None);
    assert(exported(head, key) is None);
}

// ---------------------------------------------------------------------------
// Environment
// ---------------------------------------------------------------------------

/// The variables that the driver needs.
pub open spec fn needed() -> Seq<Seq<char>> {
    seq![
        "OPENSHELL_SANDBOX"@,
        "OPENSHELL_SANDBOX_ID"@,
        "OPENSHELL_ENDPOINT"@,
        "OPENSHELL_SSH_SOCKET_PATH"@,
        "OPENSHELL_SSH_LISTEN_ADDR"@,
        "OPENSHELL_SSH_HANDSHAKE_SECRET"@,
        "OPENSHELL_SSH_HANDSHAKE_SKEW_SECS"@,
        "OPENSHELL_CONTAINER_IMAGE"@,
        "OPENSHELL_SANDBOX_COMMAND"@,
    ]
}

proof fn lemma_needed()
    ensures
        forall|i: int, j: int|
            0 <= i < j < needed().len() ==> (#[trigger] needed()[i]) != (#[trigger] needed()[j]),
        forall|i: int| 0 <= i < needed().len() ==> shell::plain_text(#[trigger] needed()[i]),
        shell::plain_text("OPENSHELL_LOG_LEVEL"@),
        forall|i: int| 0 <= i < needed().len() ==> (#[trigger] needed()[i]) != "OPENSHELL_LOG_LEVEL"@,
{
    reveal_strlit("OPENSHELL_SANDBOX");
    reveal_strlit("OPENSHELL_SANDBOX_ID");
    reveal_strlit("OPENSHELL_ENDPOINT");
    reveal_strlit("OPENSHELL_SSH_SOCKET_PATH");
    reveal_strlit("OPENSHELL_SSH_LISTEN_ADDR");
    reveal_strlit("OPENSHELL_SSH_HANDSHAKE_SECRET");
    reveal_strlit("OPENSHELL_SSH_HANDSHAKE_SKEW_SECS");
    reveal_strlit("OPENSHELL_CONTAINER_IMAGE");
    reveal_strlit("OPENSHELL_SANDBOX_COMMAND");
    reveal_strlit("OPENSHELL_LOG_LEVEL");
    assert("OPENSHELL_SSH_SOCKET_PATH"@[14] == 'S' && "OPENSHELL_SSH_SOCKET_PATH"@[11] == 'S');
    assert("OPENSHELL_SSH_LISTEN_ADDR"@[14] == 'L' && "OPENSHELL_SSH_LISTEN_ADDR"@[11] == 'S');
    assert("OPENSHELL_CONTAINER_IMAGE"@[10] == 'C' && "OPENSHELL_CONTAINER_IMAGE"@[11] == 'O');
    assert("OPENSHELL_SANDBOX_COMMAND"@[10] == 'S' && "OPENSHELL_SANDBOX_COMMAND"@[11] == 'A');
    assert("OPENSHELL_SANDBOX"@.len() == 17 && "OPENSHELL_SANDBOX_ID"@.len() == 20);
    assert("OPENSHELL_ENDPOINT"@.len() == 18 && "OPENSHELL_LOG_LEVEL"@.len() == 19);
    assert("OPENSHELL_SSH_HANDSHAKE_SECRET"@.len() == 30);
    assert("OPENSHELL_SSH_HANDSHAKE_SKEW_SECS"@.len() == 33);
    assert forall|i: int| 0 <= i < needed().len() implies shell::plain_text(
        #[trigger] needed()[i],
    ) by {
        assert(i == 0 || i == 1 || i == 2 || i == 3 || i == 4 || i == 5 || i == 6 || i == 7 || i
            == 8);
    }
}

/// Whether the user sets a variable, in the specification or in the template.
pub open spec fn user_sets(sandbox: DriverSandboxView, key: Seq<char>) -> bool {
    sandbox.spec matches Some(s) && (environment::sets(s.environment, key) || (s.template matches Some(
        t,
    ) && environment::sets(t.environment, key)))
}

/// Whether the names of all variables that the user sets are plain.
pub open spec fn user_names_are_plain(sandbox: DriverSandboxView) -> bool {
    sandbox.spec matches Some(s) ==> plain_names(s.environment) && (s.template matches Some(t)
        ==> plain_names(t.environment))
}

/// The supervisor gets the variables that it needs: it reports as its own sandbox,
/// and connects where the settings say. A variable that the user sets holds what
/// the user says: the template before the specification, and that before the log
/// level.
pub proof fn supervisor_gets_what_it_needs(
    d: &LxdComputeDriver,
    sandbox: &DriverSandbox,
    image: &str,
    env: Vec<(String, String)>,
)
    requires
        call_ensures(LxdComputeDriver::build_supervisor_env, (d, sandbox, image), env),
    ensures
        ({
            let vars = text::pair_views(env@);
            let c = d.config@;
            &&& !user_sets(sandbox@, "OPENSHELL_SANDBOX_ID"@) ==> environment::value_in(
                vars,
                "OPENSHELL_SANDBOX_ID"@,
            ) == Some(sandbox@.id)
            &&& !user_sets(sandbox@, "OPENSHELL_SANDBOX"@) ==> environment::value_in(
                vars,
                "OPENSHELL_SANDBOX"@,
            ) == Some(sandbox@.name)
            &&& !user_sets(sandbox@, "OPENSHELL_ENDPOINT"@) ==> environment::value_in(
                vars,
                "OPENSHELL_ENDPOINT"@,
            ) == Some(c.grpc_endpoint)
            &&& !user_sets(sandbox@, "OPENSHELL_SSH_SOCKET_PATH"@) ==> environment::value_in(
                vars,
                "OPENSHELL_SSH_SOCKET_PATH"@,
            ) == Some(c.sandbox_ssh_socket_path)
            &&& !user_sets(sandbox@, "OPENSHELL_SSH_LISTEN_ADDR"@) ==> environment::value_in(
                vars,
                "OPENSHELL_SSH_LISTEN_ADDR"@,
            ) == Some(c.ssh_listen_addr)
            &&& !user_sets(sandbox@, "OPENSHELL_SSH_HANDSHAKE_SECRET"@) ==> environment::value_in(
                vars,
                "OPENSHELL_SSH_HANDSHAKE_SECRET"@,
            ) == Some(c.ssh_handshake_secret)
            &&& !user_sets(sandbox@, "OPENSHELL_SSH_HANDSHAKE_SKEW_SECS"@)
                ==> environment::value_in(vars, "OPENSHELL_SSH_HANDSHAKE_SKEW_SECS"@) == Some(
                text::decimal(c.ssh_handshake_skew_secs as nat),
            )
            &&& !user_sets(sandbox@, "OPENSHELL_CONTAINER_IMAGE"@) ==> environment::value_in(
                vars,
                "OPENSHELL_CONTAINER_IMAGE"@,
            ) == Some(image@)
            &&& !user_sets(sandbox@, "OPENSHELL_SANDBOX_COMMAND"@) ==> environment::value_in(
                vars,
                "OPENSHELL_SANDBOX_COMMAND"@,
            ) == Some("sleep infinity"@)
            &&& forall|key: Seq<char>| #[trigger]
                user_sets(sandbox@, key) ==> environment::value_in(vars, key) == user_value(
                    sandbox@,
                    key,
                )
            &&& !user_sets(sandbox@, "OPENSHELL_LOG_LEVEL"@) ==> environment::value_in(
                vars,
                "OPENSHELL_LOG_LEVEL"@,
            ) == (match sandbox@.spec {
                Some(s) if s.log_level.len() > 0 => Some(s.log_level),
                _ => None,
            })
            &&& forall|key: Seq<char>|
                #![trigger environment::value_in(vars, key)]
                !user_sets(sandbox@, key) && !needed().contains(key) && key
                    != "OPENSHELL_LOG_LEVEL"@ ==> environment::value_in(vars, key) is None
        }),
{
    let image = image@;
    let c = d.config@;
    let vars = driver::supervisor_vars(sandbox@, c, image);
    assert forall|key: Seq<char>| environment::value_in(vars, key) == #[trigger] script_env(
        sandbox@,
        c,
        image,
        key,
    ) by {
        lemma_vars(sandbox@, c, image, key);
    }
    lemma_needed();
    assert forall|i: int| 0 <= i < needed().len() && !user_sets(
        sandbox@,
        #[trigger] needed()[i],
    ) implies environment::value_in(vars, needed()[i]) == Some(
        driver::required_vars(sandbox@, c, image)[i].1,
    ) by {
        lemma_required(sandbox@, c, image, i);
        assert(script_env(sandbox@, c, image, needed()[i]) == environment::value_in(
            vars,
            needed()[i],
        ));
    }
    assert(needed()[0] == "OPENSHELL_SANDBOX"@);
    assert(needed()[1] == "OPENSHELL_SANDBOX_ID"@);
    assert(needed()[2] == "OPENSHELL_ENDPOINT"@);
    assert(needed()[3] == "OPENSHELL_SSH_SOCKET_PATH"@);
    assert(needed()[4] == "OPENSHELL_SSH_LISTEN_ADDR"@);
    assert(needed()[5] == "OPENSHELL_SSH_HANDSHAKE_SECRET"@);
    assert(needed()[6] == "OPENSHELL_SSH_HANDSHAKE_SKEW_SECS"@);
    assert(needed()[7] == "OPENSHELL_CONTAINER_IMAGE"@);
    assert(needed()[8] == "OPENSHELL_SANDBOX_COMMAND"@);
    assert forall|key: Seq<char>| #[trigger] user_sets(
        sandbox@,
        key,
    ) implies environment::value_in(vars, key) == user_value(sandbox@, key) by {
        assert(script_env(sandbox@, c, image, key) == environment::value_in(vars, key));
    }
    assert(!needed().contains("OPENSHELL_LOG_LEVEL"@));
    lemma_not_required(sandbox@, c, image, "OPENSHELL_LOG_LEVEL"@);
    assert(script_env(sandbox@, c, image, "OPENSHELL_LOG_LEVEL"@) == environment::value_in(
        vars,
        "OPENSHELL_LOG_LEVEL"@,
    ));
    assert forall|key: Seq<char>|
        #![trigger environment::value_in(vars, key)]
        !user_sets(sandbox@, key) && !needed().contains(key) && key
            != "OPENSHELL_LOG_LEVEL"@ implies environment::value_in(vars, key) is None by {
        lemma_not_required(sandbox@, c, image, key);
        assert(script_env(sandbox@, c, image, key) == environment::value_in(vars, key));
    }
}

/// What the user sets a variable to: the template counts more than the
/// specification.
pub open spec fn user_value(sandbox: DriverSandboxView, key: Seq<char>) -> Option<Seq<char>> {
    match sandbox.spec {
        Some(s) => match s.template {
            Some(t) if environment::sets(t.environment, key) => environment::value_in(
                t.environment,
                key,
            ),
            _ => environment::value_in(s.environment, key),
        },
        None => None,
    }
}

spec fn script_env(
    sandbox: DriverSandboxView,
    config: LxdComputeConfigView,
    image: Seq<char>,
    key: Seq<char>,
) -> Option<Seq<char>> {
    if user_sets(sandbox, key) {
        user_value(sandbox, key)
    } else if key == "OPENSHELL_LOG_LEVEL"@ && sandbox.spec is Some && sandbox.spec->0.log_level.len()
        > 0 {
        Some(sandbox.spec->0.log_level)
    } else {
        environment::value_in(driver::required_vars(sandbox, config, image), key)
    }
}

proof fn lemma_vars(
    sandbox: DriverSandboxView,
    config: LxdComputeConfigView,
    image: Seq<char>,
    key: Seq<char>,
)
    ensures
        environment::value_in(driver::supervisor_vars(sandbox, config, image), key) == script_env(
            sandbox,
            config,
            image,
            key,
        ),
{
    let required = driver::required_vars(sandbox, config, image);
    let user = driver::user_vars(sandbox.spec);
    environment::later_settings_win(required, user, key);
    match sandbox.spec {
        None => {},
        Some(s) => {
            let level = if s.log_level.len() > 0 {
                seq![("OPENSHELL_LOG_LEVEL"@, s.log_level)]
            } else {
                Seq::empty()
            };
            let template = match s.template {
                Some(t) => t.environment,
                None => Seq::empty(),
            };
            assert(user =~= level + s.environment + template);
            environment::later_settings_win(level + s.environment, template, key);
            environment::later_settings_win(level, s.environment, key);
            environment::later_settings_win(Seq::empty(), level, key);
            assert(Seq::<(Seq<char>, Seq<char>)>::empty() + level =~= level);
            if s.log_level.len() > 0 {
                assert(level.drop_last() =~= Seq::empty());
                assert(level[0].0 == "OPENSHELL_LOG_LEVEL"@);
                if key != "OPENSHELL_LOG_LEVEL"@ {
                    assert(environment::value_in(level, key) is None);
                }
            }
        },
    }
}

proof fn lemma_required(
    sandbox: DriverSandboxView,
    config: LxdComputeConfigView,
    image: Seq<char>,
    i: int,
)
    requires
        0 <= i < needed().len(),
    ensures
        driver::required_vars(sandbox, config, image).len() == needed().len(),
        environment::value_in(driver::required_vars(sandbox, config, image), needed()[i]) == Some(
            driver::required_vars(sandbox, config, image)[i].1,
        ),
{
    let required = driver::required_vars(sandbox, config, image);
    lemma_needed();
    assert forall|j: int| 0 <= j < needed().len() implies (#[trigger] required[j]).0
        == needed()[j] by {}
    assert forall|j: int| 0 <= j < required.len() && j != i implies (#[trigger] required[j]).0
        != required[i].0 by {
        assert(required[j].0 == needed()[j]);
        assert(required[i].0 == needed()[i]);
    }
    environment::single_setting_holds(required, i);
}

proof fn lemma_not_required(
    sandbox: DriverSandboxView,
    config: LxdComputeConfigView,
    image: Seq<char>,
    key: Seq<char>,
)
    requires
        !needed().contains(key),
    ensures
        environment::value_in(driver::required_vars(sandbox, config, image), key) is None,
{
    let required = driver::required_vars(sandbox, config, image);
    environment::later_settings_win(Seq::empty(), required, key);
    assert forall|j: int| 0 <= j < required.len() implies (#[trigger] required[j]).0 != key by {
        assert(required[j].0 == needed()[j]);
    }
}

// ---------------------------------------------------------------------------
// Instances
// ---------------------------------------------------------------------------

/// The text of a member of a member.
pub open spec fn text_in(value: Json, outer: Seq<char>, key: Seq<char>) -> Option<Seq<char>> {
    match json::member(value, outer) {
        Some(inside) => match json::member(inside, key) {
            Some(Json::Text(t)) => Some(t),
            _ => None,
        },
        None => None,
    }
}

/// The text of an entry in the config of an instance.
pub open spec fn entry(spec: Json, key: Seq<char>) -> Option<Seq<char>> {
    text_in(spec, "config"@, key)
}

/// What is said of a device of an instance.
pub open spec fn device(spec: Json, name: Seq<char>, key: Seq<char>) -> Option<Seq<char>> {
    match json::member(spec, "devices"@) {
        Some(devices) => text_in(devices, name, key),
        None => None,
    }
}

/// The image that a sandbox runs: the one that its template names, if it names one.
pub open spec fn wanted_image(sandbox: DriverSandboxView, default_image: Seq<char>) -> Seq<char> {
    match sandbox.spec {
        Some(s) => match s.template {
            Some(t) if t.image.len() > 0 => t.image,
            _ => default_image,
        },
        None => default_image,
    }
}

proof fn lemma_spec_members(sandbox: DriverSandboxView, config: LxdComputeConfigView)
    ensures
        ({
            let spec = instance::instance_spec(sandbox, config);
            &&& json::member(spec, "name"@) == Some(
                Json::Text(instance::name_of_instance(sandbox.name)),
            )
            &&& json::member(spec, "type"@) == Some(Json::Text("container"@))
            &&& json::member(spec, "source"@) == Some(
                Json::Object(
                    map![
                        "type"@ => Json::Text("image"@),
                        "alias"@ => Json::Text(
                            instance::image_of(sandbox, config.default_image),
                        )
                    ],
                ),
            )
            &&& json::member(spec, "config"@) == Some(
                Json::Object(instance::instance_config(sandbox, config)),
            )
            &&& json::member(spec, "devices"@) == Some(
                Json::Object(
                    instance::device_config(instance::wants_gpu(sandbox), config.network_name),
                ),
            )
        }),
{
    reveal_strlit("name");
    reveal_strlit("source");
    reveal_strlit("config");
    reveal_strlit("devices");
    reveal_strlit("type");
    assert("name"@[0] == 'n' && "type"@[0] == 't');
    assert("source"@[0] == 's' && "config"@[0] == 'c');
    assert("devices"@.len() == 7 && "config"@.len() == 6 && "name"@.len() == 4);
}

proof fn lemma_fixed(s: DriverSandboxView, c: LxdComputeConfigView)
    ensures
        ({
            let config = instance::instance_config(s, c);
            &&& forall|key: Seq<char>|
                instance::fixed_config(s).contains_key(key) ==> #[trigger] config.contains_key(key)
            &&& config["user.openshell.sandbox-id"@] == Json::Text(s.id)
            &&& config["user.openshell.sandbox-name"@] == Json::Text(s.name)
            &&& config["user.openshell.managed"@] == Json::Text("true"@)
            &&& config["limits.cpu"@] == Json::Text(instance::cpu_limit_of(s))
            &&& config["limits.memory"@] == Json::Text(instance::memory_limit_of(s))
            &&& config["security.nesting"@] == Json::Text("true"@)
            &&& config["security.privileged"@] == Json::Text("false"@)
            &&& config.contains_key("user.openshell.sandbox-id"@)
            &&& config.contains_key("user.openshell.sandbox-name"@)
        }),
{
    reveal_strlit("user.openshell.sandbox-id");
    reveal_strlit("user.openshell.sandbox-name");
    reveal_strlit("user.openshell.managed");
    reveal_strlit("limits.cpu");
    reveal_strlit("limits.memory");
    reveal_strlit("security.nesting");
    reveal_strlit("security.privileged");
    let fixed = instance::fixed_config(s);
    assert(fixed["user.openshell.sandbox-id"@] == Json::Text(s.id));
    assert(fixed["user.openshell.sandbox-name"@] == Json::Text(s.name));
    assert(fixed["user.openshell.managed"@] == Json::Text("true"@));
    assert(fixed["limits.cpu"@] == Json::Text(instance::cpu_limit_of(s)));
    assert(fixed["limits.memory"@] == Json::Text(instance::memory_limit_of(s)));
    assert(fixed["security.nesting"@] == Json::Text("true"@));
    assert(fixed["security.privileged"@] == Json::Text("false"@));
    instance::fixed_entries_are_kept(s, c, "user.openshell.sandbox-id"@);
    instance::fixed_entries_are_kept(s, c, "user.openshell.sandbox-name"@);
    instance::fixed_entries_are_kept(s, c, "user.openshell.managed"@);
    instance::fixed_entries_are_kept(s, c, "limits.cpu"@);
    instance::fixed_entries_are_kept(s, c, "limits.memory"@);
    instance::fixed_entries_are_kept(s, c, "security.nesting"@);
    instance::fixed_entries_are_kept(s, c, "security.privileged"@);
}

/// An instance is made for its sandbox: it is called after it, runs its image, is
/// marked as managed, and has the limits that the template asks for. It is not
/// privileged. It has a root disk, the network of the settings, a workspace, and a
/// GPU if and only if the sandbox asks for one.
pub proof fn instance_is_made_for_its_sandbox(
    sandbox: &DriverSandbox,
    config: &LxdComputeConfig,
    r: serde_json::Value,
)
    requires
        call_ensures(instance::build_instance_spec, (sandbox, config), r),
    ensures
        ({
            let spec = json::json_of(r);
            let resources = match sandbox@.spec {
                Some(s) => match s.template {
                    Some(t) => t.resources,
                    None => None,
                },
                None => None,
            };
            &&& json::member(spec, "name"@) == Some(
                Json::Text("openshell-sandbox-"@ + sandbox@.name),
            )
            &&& json::member(spec, "type"@) == Some(Json::Text("container"@))
            &&& text_in(spec, "source"@, "type"@) == Some("image"@)
            &&& text_in(spec, "source"@, "alias"@) == Some(
                wanted_image(sandbox@, config@.default_image),
            )
            &&& entry(spec, "user.openshell.sandbox-id"@) == Some(sandbox@.id)
            &&& entry(spec, "user.openshell.sandbox-name"@) == Some(sandbox@.name)
            &&& entry(spec, "user.openshell.managed"@) == Some("true"@)
            &&& entry(spec, "limits.cpu"@) == (match resources {
                Some(wanted) if wanted.cpu_limit.len() > 0 => Some(wanted.cpu_limit),
                _ => Some("2"@),
            })
            &&& entry(spec, "limits.memory"@) == (match resources {
                Some(wanted) if wanted.memory_limit.len() > 0 => Some(wanted.memory_limit),
                _ => Some("4GiB"@),
            })
            &&& entry(spec, "security.nesting"@) == Some("true"@)
            &&& entry(spec, "security.privileged"@) == Some("false"@)
            &&& device(spec, "root"@, "type"@) == Some("disk"@)
            &&& device(spec, "root"@, "path"@) == Some("/"@)
            &&& device(spec, "root"@, "pool"@) == Some("default"@)
            &&& device(spec, "eth0"@, "type"@) == Some("nic"@)
            &&& device(spec, "eth0"@, "network"@) == Some(config@.network_name)
            &&& device(spec, "eth0"@, "name"@) == Some("eth0"@)
            &&& device(spec, "workspace"@, "type"@) == Some("disk"@)
            &&& device(spec, "workspace"@, "path"@) == Some("/sandbox"@)
            &&& device(spec, "gpu"@, "type"@) == (if sandbox@.spec is Some && sandbox@.spec->0.gpu {
                Some("gpu"@)
            } else {
                None
            })
        }),
{
    let s = sandbox@;
    let c = config@;
    lemma_spec_members(s, c);
    lemma_fixed(s, c);
    lemma_devices(instance::wants_gpu(s), c.network_name);
    reveal_strlit("type");
    reveal_strlit("alias");
    assert("type"@.len() != "alias"@.len());
}

proof fn lemma_devices(gpu: bool, network_name: Seq<char>)
    ensures
        ({
            let devices = Json::Object(instance::device_config(gpu, network_name));
            &&& text_in(devices, "root"@, "type"@) == Some("disk"@)
            &&& text_in(devices, "root"@, "path"@) == Some("/"@)
            &&& text_in(devices, "root"@, "pool"@) == Some("default"@)
            &&& text_in(devices, "eth0"@, "type"@) == Some("nic"@)
            &&& text_in(devices, "eth0"@, "network"@) == Some(network_name)
            &&& text_in(devices, "eth0"@, "name"@) == Some("eth0"@)
            &&& text_in(devices, "workspace"@, "type"@) == Some("disk"@)
            &&& text_in(devices, "workspace"@, "path"@) == Some("/sandbox"@)
            &&& text_in(devices, "gpu"@, "type"@) == (if gpu {
                Some("gpu"@)
            } else {
                None
            })
        }),
{
    reveal_strlit("root");
    reveal_strlit("eth0");
    reveal_strlit("workspace");
    reveal_strlit("gpu");
    reveal_strlit("type");
    reveal_strlit("path");
    reveal_strlit("pool");
    reveal_strlit("network");
    reveal_strlit("name");
    reveal_strlit("source");
    assert("root"@[0] == 'r' && "eth0"@[0] == 'e');
    assert("type"@[0] == 't' && "path"@[0] == 'p' && "pool"@[0] == 'p' && "name"@[0] == 'n');
    assert("path"@[1] == 'a' && "pool"@[1] == 'o');
    assert("workspace"@.len() == 9 && "gpu"@.len() == 3 && "root"@.len() == 4);
    assert("network"@.len() == 7 && "source"@.len() == 6 && "type"@.len() == 4);
    let root = map![
        "type"@ => Json::Text("disk"@),
        "path"@ => Json::Text("/"@),
        "pool"@ => Json::Text("default"@)
    ];
    let eth0 = map![
        "type"@ => Json::Text("nic"@),
        "network"@ => Json::Text(network_name),
        "name"@ => Json::Text("eth0"@)
    ];
    let workspace = map![
        "type"@ => Json::Text("disk"@),
        "source"@ => Json::Text(Seq::empty()),
        "path"@ => Json::Text("/sandbox"@)
    ];
    let devices = instance::device_config(gpu, network_name);
    assert(devices["root"@] == Json::Object(root));
    assert(devices["eth0"@] == Json::Object(eth0));
    assert(devices["workspace"@] == Json::Object(workspace));
    assert(root["type"@] == Json::Text("disk"@));
    assert(root["path"@] == Json::Text("/"@));
    assert(eth0["type"@] == Json::Text("nic"@));
    assert(eth0["network"@] == Json::Text(network_name));
    assert(workspace["type"@] == Json::Text("disk"@));
    assert(devices.contains_key("gpu"@) == gpu);
}

proof fn lemma_ascending_value(vars: Seq<(Seq<char>, Seq<char>)>, key: Seq<char>)
    requires
        string_map::ascending(vars),
    ensures
        string_map::map_of(vars).contains_key(key) == environment::sets(vars, key),
        environment::sets(vars, key) ==> environment::value_in(vars, key) == Some(
            string_map::map_of(vars)[key],
        ),
{
    if string_map::has_key(vars, key) {
        let i = choose|i: int| 0 <= i < vars.len() && #[trigger] vars[i].0 == key;
        assert(vars[i].0 == key);
        string_map::ascending_lookup(vars, i);
        environment::single_setting_holds(vars, i);
    }
}

/// Whether the variables that the user sets stand in the order of their names, each
/// once, as those of a map do.
pub open spec fn user_vars_are_maps(sandbox: DriverSandboxView) -> bool {
    sandbox.spec matches Some(s) ==> string_map::ascending(s.environment) && (s.template matches Some(
        t,
    ) ==> string_map::ascending(t.environment))
}

proof fn lemma_stored(sandbox: DriverSandboxView, config: LxdComputeConfigView, key: Seq<char>)
    requires
        user_vars_are_maps(sandbox),
        needed().contains(key) ==> !user_sets(sandbox, key),
    ensures
        entry(instance::instance_spec(sandbox, config), "user.env."@ + key)
            == environment::value_in(
            driver::supervisor_vars(
                sandbox,
                config,
                instance::image_of(sandbox, config.default_image),
            ),
            key,
        ),
{
    let image = instance::image_of(sandbox, config.default_image);
    let required = instance::required_env(sandbox, config, image);
    let env = instance::sandbox_env(sandbox, config, image);
    lemma_spec_members(sandbox, config);
    lemma_vars(sandbox, config, image, key);
    lemma_needed();
    lemma_same_required(sandbox, config, image);
    if let Some(s) = sandbox.spec {
        lemma_ascending_value(s.environment, key);
        if let Some(t) = s.template {
            lemma_ascending_value(t.environment, key);
        }
    }
    if needed().contains(key) {
        let i = needed().index_of(key);
        lemma_required(sandbox, config, image, i);
        assert(key == needed()[i]);
        assert(key != "OPENSHELL_LOG_LEVEL"@);
    } else {
        lemma_not_required(sandbox, config, image, key);
        assert(!required.contains_key(key));
    }
    assert(env.contains_key(key) == (script_env(sandbox, config, image, key) is Some));
    if env.contains_key(key) {
        assert(script_env(sandbox, config, image, key) == Some(env[key]));
        instance::environment_is_stored(sandbox, config, key);
    } else {
        let full = "user.env."@ + key;
        assert(full.skip(instance::ENV_PREFIX@.len() as int) =~= key);
        reveal_strlit("user.env.");
        reveal_strlit("user.openshell.sandbox-id");
        reveal_strlit("user.openshell.sandbox-name");
        reveal_strlit("user.openshell.managed");
        reveal_strlit("limits.cpu");
        reveal_strlit("limits.memory");
        reveal_strlit("security.nesting");
        reveal_strlit("security.privileged");
        assert(full[0] == 'u' && full[5] == 'e');
        assert(!instance::fixed_config(sandbox).contains_key(full));
    }
}

proof fn lemma_same_required(
    sandbox: DriverSandboxView,
    config: LxdComputeConfigView,
    image: Seq<char>,
)
    ensures
        ({
            let required = instance::required_env(sandbox, config, image);
            &&& forall|key: Seq<char>| #[trigger] required.contains_key(key) == needed().contains(key)
            &&& forall|i: int|
                0 <= i < needed().len() ==> required[#[trigger] needed()[i]]
                    == driver::required_vars(sandbox, config, image)[i].1
        }),
{
    let required = instance::required_env(sandbox, config, image);
    let vars = driver::required_vars(sandbox, config, image);
    lemma_needed();
    assert(needed()[0] == "OPENSHELL_SANDBOX"@);
    assert(needed()[1] == "OPENSHELL_SANDBOX_ID"@);
    assert(needed()[2] == "OPENSHELL_ENDPOINT"@);
    assert(needed()[3] == "OPENSHELL_SSH_SOCKET_PATH"@);
    assert(needed()[4] == "OPENSHELL_SSH_LISTEN_ADDR"@);
    assert(needed()[5] == "OPENSHELL_SSH_HANDSHAKE_SECRET"@);
    assert(needed()[6] == "OPENSHELL_SSH_HANDSHAKE_SKEW_SECS"@);
    assert(needed()[7] == "OPENSHELL_CONTAINER_IMAGE"@);
    assert(needed()[8] == "OPENSHELL_SANDBOX_COMMAND"@);
    assert forall|key: Seq<char>| #[trigger] required.contains_key(key) == needed().contains(
        key,
    ) by {
        if needed().contains(key) {
            let i = needed().index_of(key);
            assert(needed()[i] == key);
        }
    }
    assert forall|i: int| 0 <= i < needed().len() implies required[#[trigger] needed()[i]]
        == vars[i].1 by {
        assert(i == 0 || i == 1 || i == 2 || i == 3 || i == 4 || i == 5 || i == 6 || i == 7 || i
            == 8);
    }
}

// ---------------------------------------------------------------------------
// Creation
// ---------------------------------------------------------------------------

/// Whether a step of a creation follows another, by the answer to its request.
pub open spec fn creation_follows(
    d: &LxdComputeDriver,
    step: CreateStep,
    answer: Result<(), LxdApiError>,
    next: CreateStep,
) -> bool {
    step matches CreateStep::Call(run, _) && call_ensures(
        LxdComputeDriver::after_create_call,
        (d, run, answer),
        next,
    )
}

/// Whether these are the steps of a creation that gets these answers, one for each
/// request.
pub open spec fn creation(
    d: &LxdComputeDriver,
    sandbox: &DriverSandbox,
    steps: Seq<CreateStep>,
    answers: Seq<Result<(), LxdApiError>>,
) -> bool {
    &&& steps.len() == answers.len() + 1
    &&& call_ensures(LxdComputeDriver::create_sandbox, (d, sandbox), steps[0])
    &&& forall|i: int|
        0 <= i < answers.len() ==> #[trigger] creation_follows(d, steps[i], answers[i], steps[i + 1])
}

/// The request of a step of a creation.
pub open spec fn creation_request(step: CreateStep) -> LxdRequestView {
    step->Call_1@
}

/// The name of the instance of a sandbox.
pub open spec fn own_instance(sandbox_name: Seq<char>) -> Seq<char> {
    "openshell-sandbox-"@ + sandbox_name
}

/// Whether a request starts an instance.
pub open spec fn starts(q: LxdRequestView, name: Seq<char>, project: Seq<char>) -> bool {
    &&& q.method == Method::Put
    &&& q.uri == instance_address(name, "/state"@, project)
    &&& sends(q, map!["action"@ => Json::Text("start"@)])
}

/// Whether a request stops an instance by force.
pub open spec fn stops_by_force(q: LxdRequestView, name: Seq<char>, project: Seq<char>) -> bool {
    &&& q.method == Method::Put
    &&& q.uri == instance_address(name, "/state"@, project)
    &&& sends(q, map!["action"@ => Json::Text("stop"@), "force"@ => Json::Bool(true)])
}

/// Whether a request deletes an instance.
pub open spec fn deletes(q: LxdRequestView, name: Seq<char>, project: Seq<char>) -> bool {
    &&& q.method == Method::Delete
    &&& q.uri == instance_address(name, Seq::empty(), project)
    &&& sends_nothing(q)
}

/// Whether a request reads an instance.
pub open spec fn reads(q: LxdRequestView, name: Seq<char>, project: Seq<char>) -> bool {
    &&& q.method == Method::Get
    &&& q.uri == instance_address(name, Seq::empty(), project)
    &&& sends_nothing(q)
}

/// Whether a request creates an instance from a specification. The image may have
/// to be fetched, so that the answer may take its time.
pub open spec fn creates(q: LxdRequestView, spec: Json, project: Seq<char>) -> bool {
    &&& q.method == Method::Post
    &&& q.uri == address("/instances"@ + scope("?"@, project))
    &&& q.body == json::json_bytes(spec)
    &&& q.headers.contains(("Content-Type"@, "application/json"@))
    &&& q.timeout_secs == 300
}

/// Whether a request puts an executable file with this text into an instance.
pub open spec fn puts_executable(
    q: LxdRequestView,
    name: Seq<char>,
    path: Seq<char>,
    contents: Seq<char>,
    project: Seq<char>,
) -> bool {
    &&& q.method == Method::Post
    &&& q.uri == address(
        "/instances/"@ + name + "/files?path="@ + client::url_encoded(path) + scope("&"@, project),
    )
    &&& q.body == vstd::utf8::encode_utf8(contents)
    &&& q.headers.contains(("X-LXD-type"@, "file"@))
    &&& q.headers.contains(("X-LXD-mode"@, "0755"@))
}

/// Whether a request runs a command of two words in an instance.
pub open spec fn runs(
    q: LxdRequestView,
    name: Seq<char>,
    program: Seq<char>,
    argument: Seq<char>,
    project: Seq<char>,
) -> bool {
    &&& q.method == Method::Post
    &&& q.uri == instance_address(name, "/exec"@, project)
    &&& sends(
        q,
        map![
            "command"@ => Json::Array(seq![Json::Text(program), Json::Text(argument)]),
            "wait-for-websocket"@ => Json::Bool(false),
            "record-output"@ => Json::Bool(false)
        ],
    )
}

/// The script for which the environment of a sandbox is written.
pub open spec fn is_startup_script(
    script: Seq<char>,
    d: &LxdComputeDriver,
    sandbox: &DriverSandbox,
) -> bool {
    script == driver::startup_script(
        driver::supervisor_vars(
            sandbox@,
            d.config@,
            wanted_image(sandbox@, d.config@.default_image),
        ),
    )
}

proof fn lemma_instance_requests(name: Seq<char>, project: Seq<char>)
    ensures
        starts(client::start_call(name, project), name, project),
        stops_by_force(client::force_stop_call(name, project), name, project),
        deletes(client::delete_call(name, project), name, project),
        reads(client::get_call(name, project), name, project),
        forall|script: Seq<char>|
            puts_executable(
                #[trigger] client::push_request(
                    name,
                    driver::STARTUP_SCRIPT_PATH@,
                    vstd::utf8::encode_utf8(script),
                    driver::STARTUP_SCRIPT_MODE@,
                    project,
                ),
                name,
                "/opt/openshell/bin/start.sh"@,
                script,
                project,
            ),
        runs(
            client::exec_call(name, seq!["/bin/sh"@, driver::STARTUP_SCRIPT_PATH@], project),
            name,
            "/bin/sh"@,
            "/opt/openshell/bin/start.sh"@,
            project,
        ),
{
    lemma_headers();
    lemma_address("/instances/"@ + name + "/state"@ + scope("?"@, project));
    lemma_address("/instances/"@ + name + Seq::<char>::empty() + scope("?"@, project));
    lemma_address("/instances/"@ + name + "/exec"@ + scope("?"@, project));
    let path = driver::STARTUP_SCRIPT_PATH@;
    let tail = "/instances/"@ + name + "/files?path="@ + client::url_encoded(path) + scope(
        "&"@,
        project,
    );
    lemma_address(tail);
    assert("/"@ + client::API_VERSION@ + "/instances/"@ + name + "/files?path="@
        + client::url_encoded(path) + scope("&"@, project) =~= "/"@ + client::API_VERSION@ + tail);
    assert forall|script: Seq<char>|
        puts_executable(
            #[trigger] client::push_request(
                name,
                path,
                vstd::utf8::encode_utf8(script),
                driver::STARTUP_SCRIPT_MODE@,
                project,
            ),
            name,
            "/opt/openshell/bin/start.sh"@,
            script,
            project,
        ) by {
        let q = client::push_request(
            name,
            path,
            vstd::utf8::encode_utf8(script),
            driver::STARTUP_SCRIPT_MODE@,
            project,
        );
        assert(q.headers[2] == ("X-LXD-type"@, "file"@));
        assert(q.headers[3] == ("X-LXD-mode"@, "0755"@));
    }
    let command = seq!["/bin/sh"@, path];
    assert(command.map_values(|s: Seq<char>| Json::Text(s)) =~= seq![
        Json::Text("/bin/sh"@),
        Json::Text(path),
    ]);
}

proof fn lemma_creates(d: &LxdComputeDriver, sandbox: &DriverSandbox, step: CreateStep)
    requires
        call_ensures(LxdComputeDriver::create_sandbox, (d, sandbox), step),
        step is Call,
    ensures
        creates(
            creation_request(step),
            instance::instance_spec(sandbox@, d.config@),
            d.client.project@,
        ),
        step->Call_0@.name == own_instance(sandbox@.name),
        is_startup_script(step->Call_0@.script, d, sandbox),
        step->Call_0@.stage is Create,
{
    lemma_headers();
    lemma_address("/instances"@ + scope("?"@, d.client.project@));
}

/// A creation is refused before anything is sent if and only if the sandbox has no
/// name, no identifier, a name that is not safe in an address, or no image; and
/// then that is said.
pub proof fn creation_needs_name_identifier_and_image(
    d: &LxdComputeDriver,
    sandbox: &DriverSandbox,
    step: CreateStep,
)
    requires
        call_ensures(LxdComputeDriver::create_sandbox, (d, sandbox), step),
    ensures
        (step is Call) == (sandbox@.name.len() > 0 && sandbox@.id.len() > 0 && client::valid_name(
            own_instance(sandbox@.name),
        ) && wanted_image(sandbox@, d.config@.default_image).len() > 0),
        step matches CreateStep::Done(r) ==> r matches Err(ComputeDriverError::Precondition(m)) && {
            &&& sandbox@.name.len() == 0 ==> m@ == "sandbox name is required"@
            &&& sandbox@.name.len() > 0 && sandbox@.id.len() == 0 ==> m@ == "sandbox id is required"@
        },
{
    match step {
        CreateStep::Done(r) => {
            let view = driver::driver_outcome(r);
            assert(step@ == driver::CreateStepView::Done(view));
            assert(view is Err);
            assert(r is Err);
            assert(view->Err_0 == r->Err_0@);
            assert(r->Err_0@ is Precondition);
        },
        _ => {},
    }
}

/// A sandbox that was created has an instance of its own, which was made from the
/// description of the sandbox, started, and given a startup script that was run:
/// the very file that was put there. Each of the four requests was answered with
/// success, and nothing else was sent.
pub proof fn created_sandbox_runs_its_script(
    d: &LxdComputeDriver,
    sandbox: &DriverSandbox,
    steps: Seq<CreateStep>,
    answers: Seq<Result<(), LxdApiError>>,
)
    requires
        creation(d, sandbox, steps, answers),
        steps.last() matches CreateStep::Done(Ok(_)),
    ensures
        answers.len() == 4,
        forall|i: int| 0 <= i < 4 ==> #[trigger] answers[i] is Ok,
        creates(
            creation_request(steps[0]),
            instance::instance_spec(sandbox@, d.config@),
            d.client.project@,
        ),
        starts(creation_request(steps[1]), own_instance(sandbox@.name), d.client.project@),
        exists|script: Seq<char>|
            is_startup_script(script, d, sandbox) && #[trigger] puts_executable(
                creation_request(steps[2]),
                own_instance(sandbox@.name),
                "/opt/openshell/bin/start.sh"@,
                script,
                d.client.project@,
            ),
        runs(
            creation_request(steps[3]),
            own_instance(sandbox@.name),
            "/bin/sh"@,
            "/opt/openshell/bin/start.sh"@,
            d.client.project@,
        ),
{
    let name = own_instance(sandbox@.name);
    let project = d.client.project@;
    lemma_creation(d, sandbox, steps, answers, answers.len() as int);
    lemma_instance_requests(name, project);
    let n = answers.len() as int;
    if n > 0 {
        assert(creation_follows(d, steps[n - 1], answers[n - 1], steps[n - 1 + 1]));
        lemma_creation(d, sandbox, steps, answers, n - 1);
        assert(steps[n]@ == driver::CreateStepView::Done(Ok(())));
        assert(steps[n - 1]->Call_0@.stage is Exec);
        lemma_creation(d, sandbox, steps, answers, 0);
        lemma_creation(d, sandbox, steps, answers, 1);
        lemma_creation(d, sandbox, steps, answers, 2);
        lemma_creation(d, sandbox, steps, answers, 3);
        assert(puts_executable(
            creation_request(steps[2]),
            name,
            "/opt/openshell/bin/start.sh"@,
            steps[2]->Call_0@.script,
            project,
        ));
    } else {
        creation_needs_name_identifier_and_image(d, sandbox, steps[0]);
    }
}

/// Where a creation stands after some answers.
proof fn lemma_creation(
    d: &LxdComputeDriver,
    sandbox: &DriverSandbox,
    steps: Seq<CreateStep>,
    answers: Seq<Result<(), LxdApiError>>,
    i: int,
)
    requires
        creation(d, sandbox, steps, answers),
        0 <= i < steps.len(),
    ensures
        steps[i] matches CreateStep::Call(run, q) ==> {
            &&& run@.name == own_instance(sandbox@.name)
            &&& is_startup_script(run@.script, d, sandbox)
            &&& (run@.stage is Create) == (i == 0)
            &&& run@.stage is Create ==> creates(
                q@,
                instance::instance_spec(sandbox@, d.config@),
                d.client.project@,
            )
            &&& !(run@.stage is Create) ==> q@ == driver::stage_call(
                d.client.project@,
                run@.name,
                run@.script,
                run@.stage,
            )
            &&& (run@.stage is Start) == (i == 1)
            &&& run@.stage is Push ==> i == 2
            &&& run@.stage is Exec ==> i == 3
            &&& run@.stage is Start || run@.stage is Push || run@.stage is Exec ==> forall|
                j: int,
            | 0 <= j < i ==> #[trigger] answers[j] is Ok
            &&& i > 0 ==> answers[0] is Ok
            &&& run@.stage matches CreateStageView::ForceStop(e) ==> first_failure(answers, i)
                == Some(e)
            &&& run@.stage matches CreateStageView::Delete(e) ==> first_failure(answers, i)
                == Some(e)
        },
        forall|j: int| 0 <= j < i ==> #[trigger] steps[j] is Call,
    decreases i,
{
    if i == 0 {
        if steps[0] is Call {
            lemma_creates(d, sandbox, steps[0]);
        }
    } else {
        lemma_creation(d, sandbox, steps, answers, i - 1);
        assert(creation_follows(d, steps[i - 1], answers[i - 1], steps[i - 1 + 1]));
        let run = steps[i - 1]->Call_0;
        let answer = client::outcome(answers[i - 1]);
        assert(steps[i]@ == driver::create_next(d.client.project@, run@, answer));
        lemma_first_failure(answers, i - 1);
    }
}

/// What the gateway is told of the first of some answers that is a failure.
pub open spec fn first_failure(answers: Seq<Result<(), LxdApiError>>, n: int) -> Option<
    ComputeDriverErrorView,
>
    decreases n,
{
    if n <= 0 {
        None
    } else {
        match first_failure(answers, n - 1) {
            Some(e) => Some(e),
            None => match answers[n - 1] {
                Ok(_) => None,
                Err(e) => Some(driver::driver_error(e@)),
            },
        }
    }
}

proof fn lemma_first_failure(answers: Seq<Result<(), LxdApiError>>, n: int)
    requires
        0 <= n <= answers.len(),
    ensures
        (first_failure(answers, n) is None) == (forall|j: int|
            0 <= j < n ==> #[trigger] answers[j] is Ok),
    decreases n,
{
    if n > 0 {
        lemma_first_failure(answers, n - 1);
        if first_failure(answers, n) is Some {
            if first_failure(answers, n - 1) is None {
                assert(!(answers[n - 1] is Ok));
            }
        }
    }
}

/// A creation that fails once its instance is there leaves nothing behind: the
/// last request deletes the instance. What is reported is the first failure, not
/// what came of cleaning up.
pub proof fn failed_creation_leaves_nothing_behind(
    d: &LxdComputeDriver,
    sandbox: &DriverSandbox,
    steps: Seq<CreateStep>,
    answers: Seq<Result<(), LxdApiError>>,
    error: ComputeDriverError,
)
    requires
        creation(d, sandbox, steps, answers),
        steps.last() == CreateStep::Done(Err(error)),
        answers.len() > 0,
    ensures
        answers[0] is Ok ==> deletes(
            creation_request(steps[steps.len() - 2]),
            own_instance(sandbox@.name),
            d.client.project@,
        ),
        answers[0] is Err ==> answers.len() == 1,
        first_failure(answers, answers.len() as int) == Some(error@),
{
    let n = answers.len() as int;
    let project = d.client.project@;
    lemma_creation(d, sandbox, steps, answers, n - 1);
    lemma_creation(d, sandbox, steps, answers, n);
    lemma_instance_requests(own_instance(sandbox@.name), project);
    assert(creation_follows(d, steps[n - 1], answers[n - 1], steps[n - 1 + 1]));
    assert(steps[n]@ == driver::CreateStepView::Done(Err(error@)));
    lemma_first_failure(answers, n - 1);
    if answers[0] is Err {
        if n > 1 {
            assert(steps[n - 1] is Call);
        }
    }
}

/// An instance that was started is stopped before it is deleted again, and one
/// that was not is deleted at once.
pub proof fn started_instance_is_stopped_before_its_deletion(
    d: &LxdComputeDriver,
    sandbox: &DriverSandbox,
    steps: Seq<CreateStep>,
    answers: Seq<Result<(), LxdApiError>>,
    i: int,
)
    requires
        creation(d, sandbox, steps, answers),
        0 < i < steps.len(),
        steps[i] matches CreateStep::Call(_, q) && q@.method == Method::Delete,
    ensures
        i == 2 ==> answers[1] is Err,
        i > 2 ==> stops_by_force(
            creation_request(steps[i - 1]),
            own_instance(sandbox@.name),
            d.client.project@,
        ),
        i >= 2,
{
    let project = d.client.project@;
    lemma_creation(d, sandbox, steps, answers, i - 1);
    lemma_creation(d, sandbox, steps, answers, i);
    lemma_instance_requests(own_instance(sandbox@.name), project);
    assert(creation_follows(d, steps[i - 1], answers[i - 1], steps[i - 1 + 1]));
    let run = steps[i - 1]->Call_0;
    assert(steps[i]@ == driver::create_next(project, run@, client::outcome(answers[i - 1])));
}

/// The startup script and the instance agree: in every variable that the driver
/// needs the script leaves what is stored for it in the config of the instance,
/// and so it does in every variable of the user. (A user who sets a variable that
/// the driver needs has it in the script alone.) The supervisor reports as the
/// sandbox that is read back from the instance.
pub proof fn script_and_instance_agree(
    d: &LxdComputeDriver,
    sandbox: &DriverSandbox,
    step: CreateStep,
    key: Seq<char>,
)
    requires
        call_ensures(LxdComputeDriver::create_sandbox, (d, sandbox), step),
        step is Call,
        user_vars_are_maps(sandbox@),
        user_names_are_plain(sandbox@),
        shell::plain_text(key),
        needed().contains(key) ==> !user_sets(sandbox@, key),
    ensures
        exists|spec: Json| #[trigger]
            creates(creation_request(step), spec, d.client.project@) && {
                let script = step->Call_0@.script;
                &&& script_value(script, key) == entry(spec, "user.env."@ + key)
                &&& needed().contains(key) ==> script_value(script, key) is Some
                &&& key == "OPENSHELL_SANDBOX_ID"@ ==> script_value(script, key) == entry(
                    spec,
                    "user.openshell.sandbox-id"@,
                ) && script_value(script, key) == Some(sandbox@.id)
                &&& key == "OPENSHELL_SANDBOX"@ ==> script_value(script, key) == entry(
                    spec,
                    "user.openshell.sandbox-name"@,
                ) && script_value(script, key) == Some(sandbox@.name)
            },
{
    let s = sandbox@;
    let c = d.config@;
    let image = wanted_image(s, c.default_image);
    let spec = instance::instance_spec(s, c);
    let vars = driver::supervisor_vars(s, c, image);
    lemma_creates(d, sandbox, step);
    lemma_plain_vars(s, c, image);
    lemma_script_value(vars, key);
    lemma_stored(s, c, key);
    lemma_needed();
    lemma_vars(s, c, image, key);
    if needed().contains(key) {
        let i = needed().index_of(key);
        lemma_required(s, c, image, i);
        assert(needed()[i] == key);
        assert(needed()[0] == "OPENSHELL_SANDBOX"@);
        assert(needed()[1] == "OPENSHELL_SANDBOX_ID"@);
    }
    assert(needed()[0] == "OPENSHELL_SANDBOX"@ && needed()[1] == "OPENSHELL_SANDBOX_ID"@);
    assert(needed().contains(needed()[0]) && needed().contains(needed()[1]));
    lemma_spec_members(s, c);
    lemma_fixed(s, c);
    assert(creates(creation_request(step), spec, d.client.project@));
}

proof fn lemma_plain_vars(
    sandbox: DriverSandboxView,
    config: LxdComputeConfigView,
    image: Seq<char>,
)
    requires
        user_names_are_plain(sandbox),
    ensures
        plain_names(driver::supervisor_vars(sandbox, config, image)),
{
    let required = driver::required_vars(sandbox, config, image);
    let user = driver::user_vars(sandbox.spec);
    let vars = driver::supervisor_vars(sandbox, config, image);
    lemma_needed();
    assert forall|i: int| 0 <= i < vars.len() implies shell::plain_text((#[trigger] vars[i]).0) by {
        if i < required.len() {
            assert(vars[i] == required[i]);
            assert(required[i].0 == needed()[i]);
        } else {
            let k = i - required.len();
            assert(vars[i] == user[k]);
            let s = sandbox.spec->0;
            let level: nat = if s.log_level.len() > 0 {
                1
            } else {
                0
            };
            if k < level {
                assert(user[k].0 == "OPENSHELL_LOG_LEVEL"@);
            } else if k < level + s.environment.len() {
                assert(user[k] == s.environment[k - level]);
            } else {
                let t = s.template->0;
                assert(user[k] == t.environment[k - level - s.environment.len()]);
            }
        }
    }
}

// ---------------------------------------------------------------------------
// Deletion
// ---------------------------------------------------------------------------

/// Whether a step of a deletion follows another, by the answer to its request.
pub open spec fn deletion_follows(
    d: &LxdComputeDriver,
    step: DeleteStep,
    answer: Result<(), LxdApiError>,
    next: DeleteStep,
) -> bool {
    step matches DeleteStep::Call(run, _) && call_ensures(
        LxdComputeDriver::after_delete_call,
        (d, run, answer),
        next,
    )
}

/// Whether these are the steps of a deletion that gets these answers, one for each
/// request.
pub open spec fn deletion(
    d: &LxdComputeDriver,
    sandbox_id: &str,
    sandbox_name: &str,
    steps: Seq<DeleteStep>,
    answers: Seq<Result<(), LxdApiError>>,
) -> bool {
    &&& steps.len() == answers.len() + 1
    &&& call_ensures(LxdComputeDriver::delete_sandbox, (d, sandbox_id, sandbox_name), steps[0])
    &&& forall|i: int|
        0 <= i < answers.len() ==> #[trigger] deletion_follows(d, steps[i], answers[i], steps[i + 1])
}

/// The request of a step of a deletion.
pub open spec fn deletion_request(step: DeleteStep) -> LxdRequestView {
    step->Call_1@
}

proof fn lemma_deletion(
    d: &LxdComputeDriver,
    sandbox_id: &str,
    sandbox_name: &str,
    steps: Seq<DeleteStep>,
    answers: Seq<Result<(), LxdApiError>>,
    i: int,
)
    requires
        deletion(d, sandbox_id, sandbox_name, steps, answers),
        0 <= i < steps.len(),
    ensures
        steps[i] matches DeleteStep::Call(run, q) ==> {
            &&& run@.name == own_instance(sandbox_name@)
            &&& i <= 2
            &&& run@.stage == (if i == 0 {
                DeleteStage::Lookup
            } else if i == 1 {
                DeleteStage::ForceStop
            } else {
                DeleteStage::Delete
            })
            &&& i == 0 ==> reads(q@, run@.name, d.client.project@)
            &&& i == 1 ==> stops_by_force(q@, run@.name, d.client.project@)
            &&& i == 2 ==> deletes(q@, run@.name, d.client.project@)
            &&& i > 0 ==> answers[0] is Ok
        },
        forall|j: int| 0 <= j < i ==> #[trigger] steps[j] is Call,
    decreases i,
{
    lemma_instance_requests(own_instance(sandbox_name@), d.client.project@);
    if i > 0 {
        lemma_deletion(d, sandbox_id, sandbox_name, steps, answers, i - 1);
        assert(deletion_follows(d, steps[i - 1], answers[i - 1], steps[i - 1 + 1]));
        let run = steps[i - 1]->Call_0;
        assert(steps[i]@ == driver::delete_next(
            d.client.project@,
            run@,
            client::outcome(answers[i - 1]),
        ));
    }
}

/// A deletion says that it deleted the sandbox if and only if it sent a request
/// that deletes the sandbox's own instance, and that was answered with success. It
/// was looked up and stopped by force before.
pub proof fn deleted_sandbox_was_deleted(
    d: &LxdComputeDriver,
    sandbox_id: &str,
    sandbox_name: &str,
    steps: Seq<DeleteStep>,
    answers: Seq<Result<(), LxdApiError>>,
    outcome: Result<bool, ComputeDriverError>,
)
    requires
        deletion(d, sandbox_id, sandbox_name, steps, answers),
        steps.last() == DeleteStep::Done(outcome),
    ensures
        (outcome matches Ok(true)) == (answers.len() > 0 && answers.last() is Ok && deletes(
            deletion_request(steps[steps.len() - 2]),
            own_instance(sandbox_name@),
            d.client.project@,
        )),
        outcome matches Ok(true) ==> answers.len() == 3 && reads(
            deletion_request(steps[0]),
            own_instance(sandbox_name@),
            d.client.project@,
        ) && stops_by_force(
            deletion_request(steps[1]),
            own_instance(sandbox_name@),
            d.client.project@,
        ),
        outcome matches Ok(false) ==> answers.len() > 0 && answers.last() matches Err(
            LxdApiError::NotFound(_),
        ),
        outcome matches Err(e) ==> (answers.len() > 0 ==> (answers.last() matches Err(f) && e@
            == driver::driver_error(f@) && !(f is NotFound))),
        answers.len() <= 3,
{
    let n = answers.len() as int;
    lemma_deletion(d, sandbox_id, sandbox_name, steps, answers, n);
    match outcome {
        Ok(b) => {
            assert(steps[n]@ == DeleteStepView::Done(Ok(b)));
        },
        Err(e) => {
            assert(steps[n]@ == DeleteStepView::Done(Err(e@)));
        },
    }
    if n > 0 {
        lemma_deletion(d, sandbox_id, sandbox_name, steps, answers, n - 1);
        lemma_deletion(d, sandbox_id, sandbox_name, steps, answers, 0);
        assert(deletion_follows(d, steps[n - 1], answers[n - 1], steps[n - 1 + 1]));
        if n > 1 {
            lemma_deletion(d, sandbox_id, sandbox_name, steps, answers, 1);
        }
        let run = steps[n - 1]->Call_0;
        assert(steps[n]@ == driver::delete_next(
            d.client.project@,
            run@,
            client::outcome(answers[n - 1]),
        ));
    }
}

/// A deletion is refused before anything is sent if and only if no identifier is
/// given, or the name is not safe in an address.
pub proof fn deletion_needs_an_identifier(
    d: &LxdComputeDriver,
    sandbox_id: &str,
    sandbox_name: &str,
    step: DeleteStep,
)
    requires
        call_ensures(LxdComputeDriver::delete_sandbox, (d, sandbox_id, sandbox_name), step),
    ensures
        (step is Call) == (sandbox_id@.len() > 0 && client::valid_name(own_instance(sandbox_name@))),
        step matches DeleteStep::Done(r) ==> r matches Err(ComputeDriverError::Precondition(_)),
{
    match step {
        DeleteStep::Done(r) => {
            assert(step@ == DeleteStepView::Done(driver::driver_outcome(r)));
            assert(r is Err);
            assert(r->Err_0@ is Precondition);
        },
        _ => {},
    }
}

// ---------------------------------------------------------------------------
// Connection
// ---------------------------------------------------------------------------

/// Whether a driver is the one that the settings ask for: it talks to the daemon
/// and in the project that they name, and keeps them; where they name no endpoint,
/// sandboxes connect to the port of the gateway on the bridge of the host.
pub open spec fn works_as_asked(d: LxdComputeDriver, config: LxdComputeConfigView) -> bool {
    &&& d.client.socket_path@ == config.socket_path
    &&& d.client.project@ == config.project
    &&& config.grpc_endpoint.len() > 0 ==> d.config@ == config
    &&& config.grpc_endpoint.len() == 0 ==> d.config@ == (LxdComputeConfigView {
        grpc_endpoint: "http://10.0.0.1:"@ + text::decimal(config.gateway_port as nat),
        ..config
    })
}

/// A driver is ready once the daemon has answered twice and its project is there:
/// found, created, or created by another at the same time. Everything else that
/// the daemon says ends the attempt with what it said.
pub proof fn driver_is_ready_when_its_project_is_there(
    config: &LxdComputeConfig,
    first: ConnectStep,
    stage: ConnectStage,
    answer: Result<(), LxdApiError>,
    next: ConnectStep,
)
    requires
        call_ensures(LxdComputeDriver::new, (config,), first),
        call_ensures(LxdComputeDriver::after_connect_call, (config, stage, answer), next),
    ensures
        first matches ConnectStep::Call(s, q) && s == ConnectStage::Ping && q@.method == Method::Get
            && q@.uri == "http://localhost/1.0"@ && sends_nothing(q@),
        next matches ConnectStep::Done(Ok(d)) ==> works_as_asked(d, config@),
        (next matches ConnectStep::Done(Ok(_))) == (match stage {
            ConnectStage::Ping => false,
            ConnectStage::Info => answer is Ok && (config@.project.len() == 0 || config@.project
                == "default"@),
            ConnectStage::FindProject => answer is Ok,
            ConnectStage::MakeProject => answer is Ok || answer matches Err(
                LxdApiError::Conflict(_),
            ),
        }),
        next matches ConnectStep::Call(s, q) ==> match stage {
            ConnectStage::Ping => answer is Ok && s == ConnectStage::Info && q@.method
                == Method::Get && q@.uri == "http://localhost/1.0"@,
            ConnectStage::Info => answer is Ok && s == ConnectStage::FindProject && q@.method
                == Method::Get && q@.uri == address(
                "/projects/"@ + client::url_encoded(config@.project),
            ),
            ConnectStage::FindProject => answer matches Err(LxdApiError::NotFound(_)) && s
                == ConnectStage::MakeProject && q@.method == Method::Post && q@.uri == address(
                "/projects"@,
            ) && exists|members: Map<Seq<char>, Json>| #[trigger]
                sends(q@, members) && members["name"@] == Json::Text(config@.project),
            ConnectStage::MakeProject => false,
        },
        next matches ConnectStep::Done(Err(e)) ==> answer matches Err(f) && (if stage
            == ConnectStage::Info {
            e@ == LxdApiErrorView::Connection(
                "failed to query LXD server info: "@ + client::error_text(f@),
            )
        } else {
            e@ == f@
        }),
{
    lemma_headers();
    lemma_address(Seq::empty());
    assert("/"@ + client::API_VERSION@ + Seq::<char>::empty() =~= "/"@ + client::API_VERSION@);
    assert(address(Seq::empty()) =~= "http://localhost/1.0"@);
    lemma_address("/projects/"@ + client::url_encoded(config@.project));
    lemma_address("/projects"@);
    if let ConnectStep::Call(ConnectStage::MakeProject, q) = next {
        reveal_strlit("name");
        reveal_strlit("description");
        reveal_strlit("config");
        let members = client::project_body(config@.project)->Object_0;
        assert("name"@.len() == 4 && "config"@.len() == 6 && "description"@.len() == 11);
        assert(members["name"@] == Json::Text(config@.project));
        assert(sends(q@, members));
    }
    match next {
        ConnectStep::Done(Ok(d)) => {
            assert(next@ == ConnectStepView::Done(Ok(d@)));
        },
        ConnectStep::Done(Err(e)) => {
            assert(next@ == ConnectStepView::Done(Err(e@)));
        },
        _ => {},
    }
}

// ---------------------------------------------------------------------------
// Other operations
// ---------------------------------------------------------------------------

/// A sandbox is stopped by asking its own instance to stop within the time of the
/// settings; it is not deleted, and its name has to be safe in an address.
pub proof fn stop_asks_its_own_instance(
    d: &LxdComputeDriver,
    sandbox_name: &str,
    r: Result<LxdRequest, ComputeDriverError>,
)
    requires
        call_ensures(LxdComputeDriver::stop_sandbox, (d, sandbox_name), r),
    ensures
        (r is Ok) == client::valid_name(own_instance(sandbox_name@)),
        r matches Err(e) ==> e is Precondition,
        r matches Ok(q) ==> q@.method == Method::Put && q@.uri == instance_address(
            own_instance(sandbox_name@),
            "/state"@,
            d.client.project@,
        ) && sends(
            q@,
            map![
                "action"@ => Json::Text("stop"@),
                "timeout"@ => Json::Number(text::decimal(d.config@.stop_timeout_secs as nat)),
                "force"@ => Json::Bool(false)
            ],
        ) && q@.timeout_secs > d.config@.stop_timeout_secs,
{
    let name = own_instance(sandbox_name@);
    lemma_headers();
    lemma_address("/instances/"@ + name + "/state"@ + scope("?"@, d.client.project@));
    match r {
        Err(e) => {
            assert(driver::call_outcome(r) == Err::<LxdRequestView, ComputeDriverErrorView>(e@));
            assert(e@ is Precondition);
        },
        Ok(q) => {
            assert(driver::call_outcome(r) == Ok::<LxdRequestView, ComputeDriverErrorView>(q@));
        },
    }
}

/// A sandbox is looked up by reading its own instance, whether it is asked for or
/// only whether it exists.
pub proof fn lookup_reads_its_own_instance(
    d: &LxdComputeDriver,
    sandbox_name: &str,
    r: Result<LxdRequest, ComputeDriverError>,
)
    requires
        call_ensures(LxdComputeDriver::sandbox_exists, (d, sandbox_name), r) || call_ensures(
            LxdComputeDriver::get_sandbox,
            (d, sandbox_name),
            r,
        ),
    ensures
        (r is Ok) == client::valid_name(own_instance(sandbox_name@)),
        r matches Ok(q) ==> reads(q@, own_instance(sandbox_name@), d.client.project@),
{
    lemma_instance_requests(own_instance(sandbox_name@), d.client.project@);
    match r {
        Ok(q) => {
            assert(driver::call_outcome(r) == Ok::<LxdRequestView, ComputeDriverErrorView>(q@));
        },
        Err(e) => {
            assert(driver::call_outcome(r) == Err::<LxdRequestView, ComputeDriverErrorView>(e@));
        },
    }
}

/// All instances of the project are asked for, and it is their sandboxes that are
/// listed.
pub proof fn list_asks_for_all_instances(d: &LxdComputeDriver, q: LxdRequest)
    requires
        call_ensures(LxdComputeDriver::list_sandboxes, (d,), q),
    ensures
        q@.method == Method::Get,
        q@.uri == address("/instances?recursion=1"@ + scope("&"@, d.client.project@)),
        sends_nothing(q@),
{
    lemma_address("/instances?recursion=1"@ + scope("&"@, d.client.project@));
}

/// What the gateway is told of a failure: that the sandbox is there already where
/// the daemon speaks of a conflict, and otherwise what went wrong.
pub proof fn failures_are_passed_on(value: LxdApiError, r: ComputeDriverError)
    requires
        call_ensures(driver::compute_error, (value,), r) || call_ensures(
            <ComputeDriverError as From<LxdApiError>>::from,
            (value,),
            r,
        ),
    ensures
        (r is AlreadyExists) == (value is Conflict),
        value matches LxdApiError::NotFound(m) ==> r@ == ComputeDriverErrorView::Message(
            "not found: "@ + m@,
        ),
        !(value is Conflict) && !(value is NotFound) ==> r@ == ComputeDriverErrorView::Message(
            client::error_text(value@),
        ),
{
    assert(r@ == driver::driver_error(value@));
}

/// An error is shown with what was said of it.
pub proof fn errors_say_what_happened(e: LxdApiError, r: String)
    requires
        call_ensures(LxdApiError::text, (&e,), r),
    ensures
        e matches LxdApiError::NotFound(m) ==> m@.is_suffix_of(r@),
        e matches LxdApiError::Conflict(m) ==> m@.is_suffix_of(r@),
        e matches LxdApiError::Api { status, message } ==> r@ == "LXD API error ("@
            + text::decimal(status as nat) + "): "@ + message@,
        e matches LxdApiError::Connection(m) ==> m@.is_suffix_of(r@),
        e matches LxdApiError::Timeout(secs) ==> r@ == "timeout after "@ + text::decimal(
            secs as nat,
        ) + "s"@,
        e matches LxdApiError::Json(m) ==> m@.is_suffix_of(r@),
        e matches LxdApiError::InvalidInput(m) ==> m@.is_suffix_of(r@),
        e matches LxdApiError::OperationFailed(m) ==> m@.is_suffix_of(r@),
{
    match e {
        LxdApiError::NotFound(m) => {
            text::end_is_a_suffix("LXD API not found (404): "@, m@);
        },
        LxdApiError::Conflict(m) => {
            text::end_is_a_suffix("LXD API conflict (409): "@, m@);
        },
        LxdApiError::Connection(m) => {
            text::end_is_a_suffix("connection error: "@, m@);
        },
        LxdApiError::Json(m) => {
            text::end_is_a_suffix("JSON error: "@, m@);
        },
        LxdApiError::InvalidInput(m) => {
            text::end_is_a_suffix("invalid input: "@, m@);
        },
        LxdApiError::OperationFailed(m) => {
            text::end_is_a_suffix("LXD async operation failed: "@, m@);
        },
        _ => {},
    }
}

/// What is said of a sandbox that was stopped, and whether one exists, follows the
/// answer of the daemon: a sandbox that is not found does not exist, and any other
/// failure is one.
pub proof fn answers_are_taken_at_their_word(
    stop: Result<(), LxdApiError>,
    stopped: Result<(), ComputeDriverError>,
    found: Result<Instance, LxdApiError>,
    exists: Result<bool, ComputeDriverError>,
    got: Result<Option<DriverSandbox>, ComputeDriverError>,
)
    requires
        call_ensures(driver::stop_result, (stop,), stopped),
        call_ensures(driver::exists_result, (found,), exists),
        call_ensures(driver::get_result, (found,), got),
    ensures
        (stopped is Ok) == (stop is Ok),
        stop matches Err(e) ==> (stopped matches Err(f) && f@ == driver::driver_error(e@)),
        (exists matches Ok(true)) == (found is Ok),
        (exists matches Ok(false)) == (found matches Err(LxdApiError::NotFound(_))),
        exists matches Err(f) ==> (found matches Err(e) && f@ == driver::driver_error(e@)),
        (got is Err) == (exists is Err),
        exists matches Ok(false) ==> got matches Ok(None),
        got matches Err(f) ==> (found matches Err(e) && f@ == driver::driver_error(e@)),
        found matches Ok(inst) ==> (got matches Ok(s) ==> ((s is Some)
            == inst@.config.contains_key("user.openshell.sandbox-id"@)) && (s matches Some(sandbox)
            ==> reads_as(inst@, sandbox@))),
{
    match exists {
        Ok(b) => {
            assert(driver::driver_outcome(exists) == Ok::<bool, ComputeDriverErrorView>(b));
        },
        Err(e) => {
            assert(driver::driver_outcome(exists) == Err::<bool, ComputeDriverErrorView>(e@));
        },
    }
    match stopped {
        Ok(_) => {
            assert(driver::driver_outcome(stopped) == Ok::<(), ComputeDriverErrorView>(()));
        },
        Err(e) => {
            assert(driver::driver_outcome(stopped) == Err::<(), ComputeDriverErrorView>(e@));
        },
    }
    if let Ok(inst) = found {
        lemma_reads_as(inst@);
    }
}

// ---------------------------------------------------------------------------
// Sandboxes
// ---------------------------------------------------------------------------

/// Whether a sandbox is what is known of an instance: who it is stands in the
/// config of the instance, where it is is the instance itself, and how it does is
/// one condition that says whether it is ready.
pub open spec fn reads_as(inst: InstanceView, s: DriverSandboxView) -> bool {
    let lower = platform::lowercase(inst.status);
    &&& s.id == inst.config["user.openshell.sandbox-id"@]
    &&& inst.config.contains_key("user.openshell.sandbox-name"@) ==> s.name
        == inst.config["user.openshell.sandbox-name"@]
    &&& !inst.config.contains_key("user.openshell.sandbox-name"@) ==> s.name.len() == 0
    &&& s.namespace.len() == 0
    &&& s.spec is None
    &&& s.status matches Some(status) && {
        &&& status.sandbox_name == inst.name
        &&& status.instance_id == (if inst.name.len() <= 12 {
            inst.name
        } else {
            inst.name.take(12)
        })
        &&& status.deleting == (lower == "deleting"@)
        &&& status.conditions.len() == 1
        &&& status.conditions[0].condition_type == "Ready"@
        &&& (status.conditions[0].status == "True"@) == (lower == "running"@)
        &&& tells_status(status.conditions[0], lower, inst.status_code)
    }
}

/// What the condition of an instance says of each status.
pub open spec fn tells_status(c: DriverConditionView, lower: Seq<char>, code: i32) -> bool {
    let shown = text::signed_decimal(code as int);
    &&& lower == "running"@ ==> c.reason == "InstanceRunning"@ && c.message.len() == 0
    &&& lower == "starting"@ ==> c.status == "False"@ && c.reason == "InstanceStarting"@
    &&& lower == "stopped"@ ==> c.status == "False"@ && c.reason == "InstanceStopped"@ && c.message
        == "Instance stopped (code "@ + shown + ")"@
    &&& lower == "frozen"@ ==> c.status == "False"@ && c.reason == "InstanceFrozen"@
    &&& lower == "error"@ ==> c.status == "False"@ && c.reason == "InstanceError"@ && c.message
        == "Instance in error state (code "@ + shown + ")"@
    &&& !seq!["running"@, "starting"@, "stopped"@, "frozen"@, "error"@].contains(lower)
        ==> c.status == "Unknown"@ && c.message == "Unknown instance status: "@ + lower
}

proof fn lemma_status(lower: Seq<char>, code: i32)
    ensures
        tells_status(watcher::status_condition(lower, code), lower, code),
        watcher::status_condition(lower, code).condition_type == "Ready"@,
{
    reveal_strlit("running");
    reveal_strlit("starting");
    reveal_strlit("stopped");
    reveal_strlit("frozen");
    reveal_strlit("error");
    assert("running"@[0] == 'r' && "stopped"@[0] == 's');
    assert("running"@.len() == 7 && "starting"@.len() == 8 && "frozen"@.len() == 6);
    let known = seq!["running"@, "starting"@, "stopped"@, "frozen"@, "error"@];
    assert(known[0] == "running"@ && known[1] == "starting"@ && known[2] == "stopped"@);
    assert(known[3] == "frozen"@ && known[4] == "error"@);
    assert(known.contains(known[0]) && known.contains(known[1]) && known.contains(known[2]));
    assert(known.contains(known[3]) && known.contains(known[4]));
}

proof fn lemma_reads_as(inst: InstanceView)
    ensures
        ({
            let s = watcher::sandbox_of(inst, platform::lowercase(inst.status));
            &&& (s is Some) == inst.config.contains_key("user.openshell.sandbox-id"@)
            &&& s matches Some(sandbox) ==> reads_as(inst, sandbox)
        }),
{
    let lower = platform::lowercase(inst.status);
    lemma_status(lower, inst.status_code);
    watcher::ready_iff_running(lower, inst.status_code);
}

/// An instance with a sandbox identifier stands for that sandbox, and one without
/// stands for none.
pub proof fn instance_stands_for_its_sandbox(inst: &Instance, r: Option<DriverSandbox>)
    requires
        call_ensures(watcher::driver_sandbox_from_instance, (inst,), r),
    ensures
        (r is Some) == inst@.config.contains_key("user.openshell.sandbox-id"@),
        r matches Some(s) ==> reads_as(inst@, s@),
{
    lemma_reads_as(inst@);
}

/// How a status is shown.
pub proof fn status_is_shown(status: &str, code: i32, c: DriverCondition)
    requires
        call_ensures(watcher::condition_from_status, (status, code), c),
    ensures
        c@.condition_type == "Ready"@,
        (c@.status == "True"@) == (platform::lowercase(status@) == "running"@),
        tells_status(c@, platform::lowercase(status@), code),
{
    lemma_status(platform::lowercase(status@), code);
    watcher::ready_iff_running(platform::lowercase(status@), code);
}

/// Whether an instance is one of the driver's, and says of which sandbox.
pub open spec fn is_ours(inst: InstanceView) -> bool {
    &&& inst.config.contains_key("user.openshell.managed"@)
    &&& inst.config["user.openshell.managed"@] == "true"@
    &&& inst.config.contains_key("user.openshell.sandbox-id"@)
}

/// The instances of a list that are the driver's, in order.
pub open spec fn ours(instances: Seq<InstanceView>) -> Seq<InstanceView> {
    instances.filter(|i: InstanceView| is_ours(i))
}

proof fn lemma_ours(instances: Seq<InstanceView>)
    ensures
        watcher::managed_sandboxes(instances).len() == ours(instances).len(),
        forall|k: int|
            0 <= k < ours(instances).len() ==> reads_as(
                #[trigger] ours(instances)[k],
                watcher::managed_sandboxes(instances)[k],
            ),
    decreases instances.len(),
{
    reveal(Seq::filter);
    if instances.len() > 0 {
        let front = instances.drop_last();
        let last = instances.last();
        lemma_ours(front);
        lemma_reads_as(last);
        let before = ours(front);
        let all = ours(instances);
        if is_ours(last) {
            assert(all =~= before.push(last));
        } else {
            assert(all =~= before);
        }
        let sandboxes = watcher::managed_sandboxes(instances);
        assert forall|k: int| 0 <= k < all.len() implies reads_as(
            #[trigger] all[k],
            sandboxes[k],
        ) by {
            if k < before.len() {
                assert(all[k] == before[k]);
                assert(sandboxes[k] == watcher::managed_sandboxes(front)[k]);
            }
        }
    }
}

/// The sandboxes of a list of instances are those of the driver's own instances,
/// one for each and in the same order.
pub proof fn own_instances_are_collected(instances: &Vec<Instance>, r: Vec<DriverSandbox>)
    requires
        call_ensures(watcher::sandboxes_of, (instances,), r),
    ensures
        ({
            let own = ours(watcher::instance_views(instances@));
            &&& r@.len() == own.len()
            &&& forall|k: int| 0 <= k < own.len() ==> reads_as(#[trigger] own[k], r@[k]@)
        }),
{
    let views = watcher::instance_views(instances@);
    lemma_ours(views);
    assert(compute::sandbox_views(r@).len() == r@.len());
    assert forall|k: int| 0 <= k < ours(views).len() implies reads_as(
        #[trigger] ours(views)[k],
        r@[k]@,
    ) by {
        assert(compute::sandbox_views(r@)[k] == r@[k]@);
    }
}

/// Sandboxes are listed in the order of their names, and of their identifiers where
/// the names are the same; they are those of the driver's own instances, no more
/// and no less.
pub proof fn own_instances_are_listed_in_order(
    answer: Result<Vec<Instance>, LxdApiError>,
    r: Result<Vec<DriverSandbox>, ComputeDriverError>,
    i: int,
    j: int,
)
    requires
        call_ensures(driver::list_result, (answer,), r),
    ensures
        (r is Ok) == (answer is Ok),
        r matches Err(f) ==> (answer matches Err(e) && f@ == driver::driver_error(e@)),
        r matches Ok(list) ==> {
            &&& list@.len() == ours(watcher::instance_views(answer->Ok_0@)).len()
            &&& compute::sandbox_views(list@).to_multiset() == watcher::managed_sandboxes(
                watcher::instance_views(answer->Ok_0@),
            ).to_multiset()
            &&& 0 <= i < j < list@.len() ==> !text::text_less(list@[j]@.name, list@[i]@.name) && (
            list@[j]@.name == list@[i]@.name ==> !text::text_less(list@[j]@.id, list@[i]@.id))
        },
{
    if let Ok(list) = r {
        let views = watcher::instance_views(answer->Ok_0@);
        let sandboxes = watcher::managed_sandboxes(views);
        lemma_ours(views);
        compute::in_order_sorts(sandboxes);
        assert(compute::sandbox_views(list@) == compute::in_order(sandboxes));
        if 0 <= i < j < list@.len() {
            assert(compute::sandbox_views(list@)[i] == list@[i]@);
            assert(compute::sandbox_views(list@)[j] == list@[j]@);
            assert(!compute::comes_before(
                compute::in_order(sandboxes)[j],
                compute::in_order(sandboxes)[i],
            ));
        }
    }
}

// ---------------------------------------------------------------------------
// Watches
// ---------------------------------------------------------------------------

/// Whether an event tells of the sandbox of an instance.
pub open spec fn tells_of(inst: InstanceView, event: WatchSandboxesEventView) -> bool {
    event matches WatchSandboxesEventView::Sandbox(s) && reads_as(inst, s)
}

/// A watch subscribes to the events of the project, then lists its instances, and
/// then tells of each of the driver's own, in order. A failure is passed on.
pub proof fn watch_tells_of_own_instances(
    c: &LxdClient,
    first: WatchStep,
    subscribed: Result<(), LxdApiError>,
    second: WatchStep,
    listed: Result<Vec<Instance>, LxdApiError>,
    listing: Listing,
    third: WatchStep,
)
    requires
        call_ensures(watcher::start_watch, (c,), first),
        first is Subscribe,
        call_ensures(Subscribing::after, (first->Subscribe_0, subscribed), second),
        call_ensures(Listing::after, (listing, listed), third),
    ensures
        first matches WatchStep::Subscribe(_, q) && q@.method == Method::Get && q@.uri == address(
            "/events?type=lifecycle"@ + scope("&"@, c.project@),
        ),
        (second is List) == (subscribed is Ok),
        second matches WatchStep::List(_, q) ==> q@.method == Method::Get && q@.uri == address(
            "/instances?recursion=1"@ + scope("&"@, c.project@),
        ),
        second matches WatchStep::Failed(e) ==> (subscribed matches Err(f) && e@ == f@),
        !(second is Tell),
        (third is Tell) == (listed is Ok),
        third matches WatchStep::Failed(e) ==> (listed matches Err(f) && e@ == f@),
        third matches WatchStep::Tell(events) ==> {
            let own = ours(watcher::instance_views(listed->Ok_0@));
            &&& events@.len() == own.len()
            &&& forall|k: int| 0 <= k < own.len() ==> tells_of(#[trigger] own[k], events@[k]@)
        },
{
    lemma_address("/events?type=lifecycle"@ + scope("&"@, c.project@));
    lemma_address("/instances?recursion=1"@ + scope("&"@, c.project@));
    assert("/"@ + client::API_VERSION@ + "/events?type=lifecycle"@ + scope("&"@, c.project@)
        =~= "/"@ + client::API_VERSION@ + ("/events?type=lifecycle"@ + scope("&"@, c.project@)));
    assert(first@ == watcher::watch_start(c.project@));
    assert(first->Subscribe_0.project() == c.project@);
    if let WatchStep::Tell(events) = third {
        let views = watcher::instance_views(listed->Ok_0@);
        lemma_ours(views);
        let sandboxes = watcher::managed_sandboxes(views);
        assert(compute::event_views(events@) == compute::told(sandboxes));
        assert(compute::event_views(events@).len() == events@.len());
        assert(compute::told(sandboxes).len() == sandboxes.len());
        assert forall|k: int| 0 <= k < ours(views).len() implies tells_of(
            #[trigger] ours(views)[k],
            events@[k]@,
        ) by {
            assert(compute::event_views(events@)[k] == events@[k]@);
            assert(compute::told(sandboxes)[k] == WatchSandboxesEventView::Sandbox(sandboxes[k]));
        }
    }
}

/// The driver watches its own project.
pub proof fn driver_watches_its_project(d: &LxdComputeDriver, step: WatchStep)
    requires
        call_ensures(LxdComputeDriver::watch_sandboxes, (d,), step),
    ensures
        step matches WatchStep::Subscribe(run, q) && run.project() == d.client.project@ && q@.uri
            == address("/events?type=lifecycle"@ + scope("&"@, d.client.project@)),
{
    let project = d.client.project@;
    lemma_address("/events?type=lifecycle"@ + scope("&"@, project));
    assert("/"@ + client::API_VERSION@ + "/events?type=lifecycle"@ + scope("&"@, project) =~= "/"@
        + client::API_VERSION@ + ("/events?type=lifecycle"@ + scope("&"@, project)));
    assert(step@ == watcher::watch_start(project));
}

/// The events of an instance of a sandbox are told: its deletion at once, with the
/// identifier that the event names or, where it names none, the name of the
/// instance; after it came to be, started, stopped or restarted it is read. Other
/// events, and those of other instances, are passed over.
pub proof fn events_of_own_instances_are_told(
    event: &LxdEvent,
    c: &LxdClient,
    sandbox_name: Seq<char>,
    r: EventAction,
)
    requires
        call_ensures(watcher::map_lxd_event, (event, c), r),
        event.metadata matches Some(m) && m.source@ == "/1.0/instances/"@ + own_instance(
            sandbox_name,
        ),
        client::valid_name(own_instance(sandbox_name)),
    ensures
        ({
            let action = event.metadata->0.action@;
            let context = string_map::text_map(event.metadata->0.context);
            let lifecycle = event.event_type@ == "lifecycle"@;
            &&& (r is Emit) == (lifecycle && action == "instance-deleted"@)
            &&& r matches EventAction::Emit(e) ==> e@ == WatchSandboxesEventView::Deleted(
                if context.contains_key("sandbox-id"@) {
                    context["sandbox-id"@]
                } else {
                    own_instance(sandbox_name)
                },
            )
            &&& (r is Fetch) == (lifecycle && seq![
                "instance-created"@,
                "instance-started"@,
                "instance-stopped"@,
                "instance-shutdown"@,
                "instance-restarted"@,
            ].contains(action))
            &&& r matches EventAction::Fetch(q) ==> reads(
                q@,
                own_instance(sandbox_name),
                c.project@,
            )
        }),
{
    let name = own_instance(sandbox_name);
    let source = "/1.0/instances/"@ + name;
    reveal_strlit("/1.0/instances/");
    let head = "/1.0/instances/"@.drop_last();
    client::valid_name_has_no_slash(name);
    text::after_last_splits(head, name, '/');
    assert(source =~= head.push('/') + name);
    instance::instance_name_round_trip(sandbox_name);
    lemma_instance_requests(name, c.project@);
    let action = event.metadata->0.action@;
    let changes = seq![
        "instance-created"@,
        "instance-started"@,
        "instance-stopped"@,
        "instance-shutdown"@,
        "instance-restarted"@,
    ];
    assert(changes[0] == "instance-created"@ && changes[1] == "instance-started"@);
    assert(changes[2] == "instance-stopped"@ && changes[3] == "instance-shutdown"@);
    assert(changes[4] == "instance-restarted"@);
    assert(changes.contains(changes[0]) && changes.contains(changes[1]));
    assert(changes.contains(changes[2]) && changes.contains(changes[3]));
    assert(changes.contains(changes[4]));
    reveal_strlit("instance-deleted");
    reveal_strlit("instance-created");
    reveal_strlit("instance-started");
    reveal_strlit("instance-stopped");
    reveal_strlit("instance-shutdown");
    reveal_strlit("instance-restarted");
    assert("instance-deleted"@[9] == 'd' && "instance-created"@[9] == 'c');
    assert("instance-started"@[9] == 's' && "instance-stopped"@[9] == 's');
    assert("instance-shutdown"@[9] == 's' && "instance-restarted"@[9] == 'r');
    assert(!changes.contains("instance-deleted"@));
    assert(r@ == watcher::event_action(*event, c.project@));
}

/// Events that are not of the life of an instance of a sandbox are passed over.
pub proof fn other_events_are_passed_over(event: &LxdEvent, c: &LxdClient, r: EventAction)
    requires
        call_ensures(watcher::map_lxd_event, (event, c), r),
        event.event_type@ != "lifecycle"@ || event.metadata is None || !"openshell-sandbox-"@.is_prefix_of(
            text::after_last(event.metadata->0.source@, '/'),
        ),
    ensures
        r is Ignore,
{
    assert(r@ is Ignore);
}

/// After an instance was read, watchers are told of its sandbox as it is now; where
/// there is none, or the instance is gone, they are told nothing.
pub proof fn read_instance_is_told(
    fetched: Result<Instance, LxdApiError>,
    r: Option<WatchSandboxesEvent>,
)
    requires
        call_ensures(watcher::after_fetch, (fetched,), r),
    ensures
        (r is Some) == (fetched is Ok && fetched->Ok_0@.config.contains_key(
            "user.openshell.sandbox-id"@,
        )),
        r matches Some(e) ==> (e@ matches WatchSandboxesEventView::Sandbox(s) && reads_as(
            fetched->Ok_0@,
            s,
        )),
{
    if let Ok(inst) = fetched {
        lemma_reads_as(inst@);
    }
}

// ---------------------------------------------------------------------------
// Replies
// ---------------------------------------------------------------------------

/// Whether a reply reports success: by its status, and in the wrapper that it holds.
pub open spec fn reports_success<T>(reply: LxdReply, parsed: Result<LxdResponse<T>, String>) -> bool {
    &&& 200 <= reply.status <= 299
    &&& parsed is Ok
    &&& !(parsed->Ok_0.error_code is Some && parsed->Ok_0.error_code->0 >= 400)
}

/// What a code of failure stands for.
pub open spec fn failure_kind(code: u16, e: LxdApiError) -> bool {
    &&& (e is NotFound) == (code == 404)
    &&& (e is Conflict) == (code == 409)
    &&& code != 404 && code != 409 ==> (e matches LxdApiError::Api { status, .. } && status == code)
}

/// A reply gives the data that it holds if and only if it reports success and
/// holds any. A status of failure is what is reported, whatever the body says.
pub proof fn data_comes_of_success<T>(
    reply: LxdReply,
    parsed: Result<LxdResponse<T>, String>,
    r: Result<T, LxdApiError>,
)
    requires
        call_ensures(client::request_json::<T>, (reply, parsed), r),
    ensures
        (r is Ok) == (reports_success(reply, parsed) && parsed->Ok_0.metadata is Some),
        r matches Ok(t) ==> parsed->Ok_0.metadata == Some(t),
        r matches Err(e) ==> {
            &&& !(200 <= reply.status <= 299) ==> failure_kind(reply.status, e)
            &&& 200 <= reply.status <= 299 && parsed is Err ==> e is Json
        },
{
    match r {
        Ok(t) => {
            assert(client::outcome(r) == Ok::<T, LxdApiErrorView>(t));
        },
        Err(e) => {
            assert(client::outcome(r) == Err::<T, LxdApiErrorView>(e@));
        },
    }
}

/// A call is over with success if and only if the reply reports success and names
/// no operation to wait for; otherwise it waits for the operation that it names.
pub proof fn operations_are_waited_for<T>(
    reply: LxdReply,
    parsed: Result<LxdResponse<T>, String>,
    timeout_secs: u64,
    step: CallStep,
)
    requires
        call_ensures(client::request_and_wait::<T>, (reply, parsed, timeout_secs), step),
        timeout_secs <= u64::MAX - 5,
    ensures
        (step matches CallStep::Finished(Err(_))) == !reports_success(reply, parsed),
        (step is Wait) == (reports_success(reply, parsed) && parsed->Ok_0.response_type@ != "sync"@
            && parsed->Ok_0.operation is Some),
        step matches CallStep::Wait(q) ==> q@.method == Method::Get && q@ == client::wait_request(
            parsed->Ok_0.operation->0@,
            timeout_secs,
        ) && q@.timeout_secs == timeout_secs + 5,
        step matches CallStep::Finished(Err(e)) ==> (!(200 <= reply.status <= 299) ==> failure_kind(
            reply.status,
            e,
        )),
{
    match step {
        CallStep::Finished(r) => {
            assert(step@ == CallStepView::Finished(client::outcome(r)));
            match r {
                Ok(_) => {
                    assert(client::outcome(r) is Ok);
                },
                Err(e) => {
                    assert(client::outcome(r) == Err::<(), LxdApiErrorView>(e@));
                },
            }
        },
        CallStep::Wait(q) => {
            assert(step@ == CallStepView::Wait(q@));
        },
    }
}

/// An operation succeeded if and only if the reply reports a status of success and
/// the operation no code of failure.
pub proof fn operation_succeeds_without_a_code_of_failure(
    reply: LxdReply,
    parsed: Result<LxdResponse<OperationStatus>, String>,
    r: Result<(), LxdApiError>,
)
    requires
        call_ensures(client::operation_result, (reply, parsed), r),
    ensures
        (r is Ok) == (200 <= reply.status <= 299 && parsed is Ok && !(parsed->Ok_0.metadata is Some
            && parsed->Ok_0.metadata->0.status_code >= 400)),
        200 <= reply.status <= 299 && parsed is Ok ==> (r matches Err(e) ==> e is OperationFailed),
        !(200 <= reply.status <= 299) ==> (r matches Err(e) && failure_kind(reply.status, e)),
{
    match r {
        Ok(_) => {
            assert(client::outcome(r) is Ok);
        },
        Err(e) => {
            assert(client::outcome(r) == Err::<(), LxdApiErrorView>(e@));
        },
    }
}

/// Replies of which only the status counts.
pub proof fn statuses_count(
    status: u16,
    ping: Result<(), LxdApiError>,
    events: Result<(), LxdApiError>,
    reply: LxdReply,
    push: Result<(), LxdApiError>,
)
    requires
        call_ensures(client::ping_result, (status,), ping),
        call_ensures(client::events_result, (status,), events),
        call_ensures(client::push_result, (reply,), push),
    ensures
        (ping is Ok) == (200 <= status <= 299),
        (events is Ok) == (200 <= status <= 299),
        (push is Ok) == (200 <= reply.status <= 299),
        push matches Err(e) ==> failure_kind(reply.status, e),
{
    if let Err(e) = push {
        assert(client::outcome(push) == Err::<(), LxdApiErrorView>(e@));
    }
}

// ---------------------------------------------------------------------------
// Parts of requests and replies
// ---------------------------------------------------------------------------

/// An instance is created in the project of the client from the whole of its
/// specification.
pub proof fn instance_is_created_from_its_specification(
    c: &LxdClient,
    spec: &serde_json::Value,
    q: LxdRequest,
)
    requires
        call_ensures(LxdClient::create_instance, (c, spec), q),
    ensures
        q@.method == Method::Post,
        q@.uri == address("/instances"@ + scope("?"@, c.project@)),
        q@.body == json::json_bytes(json::json_of(*spec)),
        q@.headers.contains(("Content-Type"@, "application/json"@)),
{
    lemma_headers();
    lemma_address("/instances"@ + scope("?"@, c.project@));
    let headers = q@.headers;
    assert(headers[1] == ("Content-Type"@, "application/json"@));
}

/// What confines a request to the project, behind a path and behind a query.
pub proof fn project_is_named_in_queries(c: &LxdClient, first: String, later: String)
    requires
        call_ensures(LxdClient::project_query, (c,), first),
        call_ensures(LxdClient::project_query_extra, (c,), later),
    ensures
        first@ == scope("?"@, c.project@),
        later@ == scope("&"@, c.project@),
{
}

/// Every request goes to the host that the daemon answers for, with its body and
/// within its time.
pub proof fn requests_carry_what_they_are_given(
    method: Method,
    path: &str,
    body: Vec<u8>,
    content_type: Option<&str>,
    timeout_secs: u64,
    raw: LxdRequest,
    value: Option<&serde_json::Value>,
    q: LxdRequest,
)
    requires
        call_ensures(
            client::build_request,
            (method, path, body, content_type, timeout_secs),
            raw,
        ),
        call_ensures(client::request, (method, path, value, timeout_secs), q),
    ensures
        raw@.method == method,
        raw@.uri == "http://localhost"@ + path@,
        raw@.body == body@,
        raw@.timeout_secs == timeout_secs,
        raw@.headers == (match content_type {
            Some(t) => seq![("Host"@, "localhost"@), ("Content-Type"@, t@)],
            None => seq![("Host"@, "localhost"@)],
        }),
        q@.method == method,
        q@.uri == address(path@),
        q@.timeout_secs == timeout_secs,
        match value {
            Some(v) => q@.body == json::json_bytes(json::json_of(*v)) && q@.headers == seq![
                ("Host"@, "localhost"@),
                ("Content-Type"@, "application/json"@),
            ],
            None => q@.body.len() == 0 && q@.headers == seq![("Host"@, "localhost"@)],
        },
{
    lemma_address(path@);
    let host = seq![("Host"@, "localhost"@)];
    if let Some(t) = content_type {
        assert(host.push(("Content-Type"@, t@)) =~= seq![
            ("Host"@, "localhost"@),
            ("Content-Type"@, t@),
        ]);
    }
    assert(host.push(("Content-Type"@, "application/json"@)) =~= seq![
        ("Host"@, "localhost"@),
        ("Content-Type"@, "application/json"@),
    ]);
}

/// An error code stands for what is said with it: that something is not there, that
/// there is a conflict, or an error with that code.
pub proof fn codes_stand_for_errors(
    code: u16,
    message: &str,
    r: LxdApiError,
    bytes: &[u8],
    of_reply: LxdApiError,
    checked: Result<(), LxdApiError>,
)
    requires
        call_ensures(client::error_from_lxd, (code, message), r),
        call_ensures(client::error_from_response, (code, bytes), of_reply),
        call_ensures(client::status_result, (code, message), checked),
    ensures
        failure_kind(code, r) && failure_kind(code, of_reply),
        r matches LxdApiError::NotFound(m) ==> m@ == message@,
        r matches LxdApiError::Conflict(m) ==> m@ == message@,
        r matches LxdApiError::Api { message: m, .. } ==> m@ == message@,
        ({
            let said = match json::json_parsed(bytes@) {
                Some(Json::Object(members)) => if members.contains_key("error"@)
                    && members["error"@] is Text {
                    members["error"@]->Text_0
                } else {
                    platform::utf8_lossy(bytes@)
                },
                _ => platform::utf8_lossy(bytes@),
            };
            &&& of_reply matches LxdApiError::NotFound(m) ==> m@ == said
            &&& of_reply matches LxdApiError::Conflict(m) ==> m@ == said
            &&& of_reply matches LxdApiError::Api { message: m, .. } ==> m@ == said
        }),
        (checked is Ok) == (200 <= code <= 299),
        checked matches Err(e) ==> e@ == (LxdApiErrorView::Api { status: code, message: message@ }),
{
    assert(r@ == client::code_error(code, message@));
    assert(of_reply@ == client::code_error(code, client::body_message(bytes@)));
    match checked {
        Ok(_) => {
            assert(client::outcome(checked) is Ok);
        },
        Err(e) => {
            assert(client::outcome(checked) == Err::<(), LxdApiErrorView>(e@));
        },
    }
}

/// The code and the text that a wrapper reports count, where the status does not
/// report a failure already.
pub proof fn wrapper_reports_its_error<T>(
    reply: LxdReply,
    parsed: Result<LxdResponse<T>, String>,
    r: Result<T, LxdApiError>,
)
    requires
        call_ensures(client::request_json::<T>, (reply, parsed), r),
        200 <= reply.status <= 299,
        parsed is Ok,
        parsed->Ok_0.error_code is Some,
        400 <= parsed->Ok_0.error_code->0 <= 0xFFFF,
    ensures
        r matches Err(e) && {
            let code = parsed->Ok_0.error_code->0;
            let said = match parsed->Ok_0.error {
                Some(m) => m@,
                None => Seq::empty(),
            };
            e@ == (if code == 404 {
                LxdApiErrorView::NotFound(said)
            } else if code == 409 {
                LxdApiErrorView::Conflict(said)
            } else {
                LxdApiErrorView::Api { status: code as u16, message: said }
            })
        },
{
    match r {
        Ok(t) => {
            assert(client::outcome(r) == Ok::<T, LxdApiErrorView>(t));
        },
        Err(e) => {
            assert(client::outcome(r) == Err::<T, LxdApiErrorView>(e@));
        },
    }
}

/// What cannot be read is shown with the complaint of the reader; a line that can be
/// read is its event.
pub proof fn unreadable_is_shown(
    error: &str,
    bytes: &[u8],
    r: LxdApiError,
    parsed: Result<LxdEvent, String>,
    item: Result<LxdEvent, LxdApiError>,
)
    requires
        call_ensures(client::json_error, (error, bytes), r),
        call_ensures(client::event_item, (bytes, parsed), item),
    ensures
        r@ == LxdApiErrorView::Json(error@ + ": "@ + platform::utf8_lossy(bytes@)),
        (item is Ok) == (parsed is Ok),
        item matches Ok(event) ==> parsed == Ok::<LxdEvent, String>(event),
        item matches Err(e) ==> e@ == LxdApiErrorView::Json(
            parsed->Err_0@ + ": "@ + platform::utf8_lossy(bytes@),
        ),
{
    match item {
        Ok(event) => {
            assert(client::outcome(item) == Ok::<LxdEvent, LxdApiErrorView>(event));
        },
        Err(e) => {
            assert(client::outcome(item) == Err::<LxdEvent, LxdApiErrorView>(e@));
        },
    }
}

/// An operation is waited for at its own path, for at least half a minute.
pub proof fn wait_is_for_the_operation(operation_url: &str, timeout_secs: u64, q: LxdRequest)
    requires
        call_ensures(client::wait_for_operation, (operation_url, timeout_secs), q),
        timeout_secs <= u64::MAX - 5,
    ensures
        q@.method == Method::Get,
        sends_nothing(q@),
        q@.timeout_secs == timeout_secs + 5,
        forall|path: Seq<char>|
            operation_url@ == "/1.0"@ + path ==> q@.uri == #[trigger] address(path)
                + "/wait?timeout="@ + text::decimal(
                if timeout_secs < 30 {
                    30
                } else {
                    timeout_secs as nat
                },
            ),
{
    let secs: nat = if timeout_secs < 30 {
        30
    } else {
        timeout_secs as nat
    };
    assert forall|path: Seq<char>| operation_url@ == "/1.0"@ + path implies q@.uri
        == #[trigger] address(path) + "/wait?timeout="@ + text::decimal(secs) by {
        reveal_strlit("/");
        reveal_strlit("1.0");
        reveal_strlit("/1.0");
        let version = "/"@ + client::API_VERSION@;
        assert(version =~= "/1.0"@);
        assert(operation_url@.subrange(0, version.len() as int) =~= version);
        assert(operation_url@.skip(version.len() as int) =~= path);
        let tail = "/wait?timeout="@ + text::decimal(secs);
        lemma_address(path + "/wait?timeout="@ + text::decimal(secs));
        assert(address(path + "/wait?timeout="@ + text::decimal(secs)) =~= address(path)
            + "/wait?timeout="@ + text::decimal(secs));
    }
}

/// Bytes that arrive are put behind those that are left over. What comes out are
/// the lines that are complete; the rest waits for more. A stream whose lines grow
/// beyond a mebibyte is given up.
pub proof fn bytes_become_lines(
    events: &mut client::EventBuffer,
    data: &[u8],
    r: Result<Vec<Vec<u8>>, LxdApiError>,
)
    requires
        call_ensures(client::EventBuffer::feed, (events, data), r),
    ensures
        (r is Err) == (old(events).buffer@.len() + data@.len() > 0x10_0000),
        r matches Err(e) ==> e is Connection && final(events).buffer@ == old(events).buffer@
            + data@,
        r matches Ok(lines) ==> {
            &&& !final(events).buffer@.contains(10u8)
            &&& forall|i: int|
                0 <= i < lines@.len() ==> (#[trigger] lines@[i])@.len() > 0
                    && !lines@[i]@.contains(10u8)
            &&& (
                client::line_views(lines@),
                final(events).buffer@,
            ) == client::split_lines(old(events).buffer@ + data@)
        },
{
    let all = old(events).buffer@ + data@;
    client::split_lines_rest(all);
    if let Ok(lines) = r {
        assert forall|i: int| 0 <= i < lines@.len() implies (#[trigger] lines@[i])@.len() > 0
            && !lines@[i]@.contains(10u8) by {
            assert(client::line_views(lines@)[i] == lines@[i]@);
            client::split_lines_are_lines(all, i);
        }
    }
}

/// A frame with bytes goes on; one that says that the connection broke is the last,
/// with what it says, and so is the end of the stream, without more to tell.
pub proof fn frames_end_the_stream(
    events: &mut client::EventBuffer,
    frame: client::StreamFrame,
    r: client::FrameStep,
)
    requires
        call_ensures(client::EventBuffer::after_frame, (events, frame), r),
    ensures
        match frame {
            client::StreamFrame::Data(data) => {
                let all = old(events).buffer@ + data@;
                if all.len() > 0x10_0000 {
                    r@.lines.len() == 0 && (r@.end matches Some(Err(e)) && e is Connection)
                } else {
                    r@.end is None && (r@.lines, final(events).buffer@) == client::split_lines(all)
                }
            },
            client::StreamFrame::Failed(message) => r@.lines.len() == 0 && r@.end == Some(
                Err::<(), LxdApiErrorView>(LxdApiErrorView::Connection(message@)),
            ),
            client::StreamFrame::Ended => r@.lines.len() == 0 && (r@.end matches Some(Ok(_))),
        },
{
}

// ---------------------------------------------------------------------------
// Settings and parts of the driver
// ---------------------------------------------------------------------------

/// The settings that hold where nothing else is said.
pub proof fn settings_have_defaults(
    snap_exists: bool,
    path: String,
    socket_path: String,
    c: LxdComputeConfig,
)
    requires
        call_ensures(config::socket_path_for, (snap_exists,), path),
        call_ensures(LxdComputeConfig::with_socket_path, (socket_path,), c),
    ensures
        snap_exists ==> path@ == "/var/snap/lxd/common/lxd/unix.socket"@,
        !snap_exists ==> path@ == "/var/lib/lxd/unix.socket"@,
        c@.socket_path == socket_path@,
        c@.project == "openshell"@,
        c@.default_image.len() == 0,
        c@.grpc_endpoint.len() == 0,
        c@.gateway_port == 8080,
        c@.sandbox_ssh_socket_path == "/run/openshell/ssh.sock"@,
        c@.network_name == "openshell"@,
        c@.ssh_listen_addr.len() == 0,
        c@.ssh_port == 2222,
        c@.ssh_handshake_secret.len() == 0,
        c@.ssh_handshake_skew_secs == 300,
        c@.stop_timeout_secs == 10,
{
}

/// The secret shows in no log: settings that differ only in it are shown alike.
pub proof fn secret_shows_in_no_log(
    a: &LxdComputeConfig,
    b: &LxdComputeConfig,
    of_a: String,
    of_b: String,
)
    requires
        call_ensures(LxdComputeConfig::debug_text, (a,), of_a),
        call_ensures(LxdComputeConfig::debug_text, (b,), of_b),
        b@ == (LxdComputeConfigView { ssh_handshake_secret: b@.ssh_handshake_secret, ..a@ }),
    ensures
        of_a@ == of_b@,
{
    config::secret_is_not_logged(a@, b@.ssh_handshake_secret);
}

/// Where no endpoint is set, sandboxes connect to the port of the gateway on the
/// bridge of the host; one that is set is kept, and so is all else.
pub proof fn endpoint_is_filled_in(c: LxdComputeConfig, r: LxdComputeConfig)
    requires
        call_ensures(driver::detect_grpc_endpoint, (c,), r),
    ensures
        c@.grpc_endpoint.len() > 0 ==> r@ == c@,
        c@.grpc_endpoint.len() == 0 ==> r@ == (LxdComputeConfigView {
            grpc_endpoint: "http://10.0.0.1:"@ + text::decimal(c@.gateway_port as nat),
            ..c@
        }),
{
}

/// A driver talks to the daemon and in the project of its settings, and keeps them.
pub proof fn driver_keeps_its_settings(c: LxdComputeConfig, d: LxdComputeDriver)
    requires
        call_ensures(LxdComputeDriver::with_config, (c,), d),
    ensures
        d.client.socket_path@ == c@.socket_path,
        d.client.project@ == c@.project,
        d.config@ == c@,
{
    assert(d@ == driver::driver_for(c@));
}

/// A sandbox with a GPU is accepted if and only if there is one; any other is
/// accepted.
pub proof fn gpu_sandboxes_need_a_gpu(
    sandbox: &DriverSandbox,
    gpu_available: bool,
    asked: bool,
    r: Result<(), ComputeDriverError>,
)
    requires
        call_ensures(driver::check_gpu, (sandbox, gpu_available), r),
        call_ensures(instance::gpu_requested, (sandbox,), asked),
    ensures
        asked == (sandbox@.spec is Some && sandbox@.spec->0.gpu),
        (r is Err) == (asked && !gpu_available),
        r matches Err(e) ==> e is Precondition,
{
    match r {
        Ok(_) => {
            assert(driver::driver_outcome(r) is Ok);
        },
        Err(e) => {
            assert(driver::driver_outcome(r) == Err::<(), ComputeDriverErrorView>(e@));
        },
    }
}

/// What the driver says of itself.
pub proof fn driver_says_what_it_can_do(
    d: &LxdComputeDriver,
    supports_gpu: bool,
    r: compute::GetCapabilitiesResponse,
    image: &str,
)
    requires
        call_ensures(LxdComputeDriver::capabilities_with, (d, supports_gpu), r),
        call_ensures(LxdComputeDriver::default_image, (d,), image),
    ensures
        r.driver_name@ == "lxd"@,
        r.default_image@ == d.config@.default_image,
        image@ == d.config@.default_image,
        r.supports_gpu == supports_gpu,
        r.gpu_count == 0,
{
}

/// The instance of a sandbox is called by a prefix and the name of the sandbox,
/// which is found again; names of other instances are those of no sandbox.
pub proof fn instances_are_called_after_their_sandboxes(
    sandbox_name: &str,
    name: String,
    checked: Result<String, ComputeDriverError>,
    any: &str,
    found: Option<&str>,
)
    requires
        call_ensures(instance::instance_name, (sandbox_name,), name),
        call_ensures(driver::validated_instance_name, (sandbox_name,), checked),
        call_ensures(instance::sandbox_name_from_instance, (any,), found),
    ensures
        name@ == "openshell-sandbox-"@ + sandbox_name@,
        (checked is Ok) == client::valid_name(name@),
        checked matches Ok(n) ==> n@ == name@,
        checked matches Err(e) ==> e is Precondition,
        any@ == name@ ==> (found matches Some(s) && s@ == sandbox_name@),
        found matches Some(s) ==> any@ == "openshell-sandbox-"@ + s@,
        !"openshell-sandbox-"@.is_prefix_of(any@) ==> found is None,
{
    let prefix = "openshell-sandbox-"@;
    instance::instance_name_round_trip(sandbox_name@);
    match checked {
        Ok(n) => {},
        Err(e) => {
            assert(e@ is Precondition);
        },
    }
    if let Some(s) = found {
        assert(any@ =~= prefix + s@);
    }
}

/// A short identifier is the first dozen of characters.
pub proof fn short_identifiers_are_the_beginning(id: &str, r: String)
    requires
        call_ensures(instance::short_id, (id,), r),
    ensures
        r@.is_prefix_of(id@),
        r@.len() == (if id@.len() < 12 {
            id@.len() as int
        } else {
            12
        }),
{
    assert(id@.take(id@.len() as int) =~= id@);
}

/// The image of a sandbox is that of its template, where it names one, and
/// otherwise that of the settings.
pub proof fn template_names_the_image(
    sandbox: &DriverSandbox,
    c: &LxdComputeConfig,
    r: &str,
)
    requires
        call_ensures(instance::resolve_image, (sandbox, c), r),
    ensures
        r@ == (if sandbox@.spec is Some && sandbox@.spec->0.template is Some
            && sandbox@.spec->0.template->0.image.len() > 0 {
            sandbox@.spec->0.template->0.image
        } else {
            c@.default_image
        }),
{
}

/// The environment that is noted of a sandbox: what it needs counts most.
pub proof fn noted_environment_is_the_needed_one(
    sandbox: &DriverSandbox,
    c: &LxdComputeConfig,
    image: &str,
    r: string_map::StringMap<String>,
)
    requires
        call_ensures(instance::build_env, (sandbox, c, image), r),
    ensures
        ({
            let env = string_map::text_map(r);
            &&& env.contains_key("OPENSHELL_SANDBOX"@) && env["OPENSHELL_SANDBOX"@]
                == sandbox@.name
            &&& env.contains_key("OPENSHELL_SANDBOX_ID"@) && env["OPENSHELL_SANDBOX_ID"@]
                == sandbox@.id
            &&& env.contains_key("OPENSHELL_ENDPOINT"@) && env["OPENSHELL_ENDPOINT"@]
                == c@.grpc_endpoint
            &&& env.contains_key("OPENSHELL_CONTAINER_IMAGE"@)
                && env["OPENSHELL_CONTAINER_IMAGE"@] == image@
            &&& env.contains_key("OPENSHELL_SSH_SOCKET_PATH"@)
                && env["OPENSHELL_SSH_SOCKET_PATH"@] == c@.sandbox_ssh_socket_path
            &&& env.contains_key("OPENSHELL_SSH_LISTEN_ADDR"@)
                && env["OPENSHELL_SSH_LISTEN_ADDR"@] == c@.ssh_listen_addr
            &&& env.contains_key("OPENSHELL_SSH_HANDSHAKE_SECRET"@)
                && env["OPENSHELL_SSH_HANDSHAKE_SECRET"@] == c@.ssh_handshake_secret
            &&& env.contains_key("OPENSHELL_SSH_HANDSHAKE_SKEW_SECS"@)
                && env["OPENSHELL_SSH_HANDSHAKE_SKEW_SECS"@] == text::decimal(
                c@.ssh_handshake_skew_secs as nat,
            )
            &&& env.contains_key("OPENSHELL_SANDBOX_COMMAND"@)
                && env["OPENSHELL_SANDBOX_COMMAND"@] == "sleep infinity"@
        }),
{
    lemma_needed();
    let names = needed();
    assert(names[0] == "OPENSHELL_SANDBOX"@ && names[1] == "OPENSHELL_SANDBOX_ID"@);
    assert(names[2] == "OPENSHELL_ENDPOINT"@ && names[3] == "OPENSHELL_SSH_SOCKET_PATH"@);
    assert(names[4] == "OPENSHELL_SSH_LISTEN_ADDR"@);
    assert(names[5] == "OPENSHELL_SSH_HANDSHAKE_SECRET"@);
    assert(names[6] == "OPENSHELL_SSH_HANDSHAKE_SKEW_SECS"@);
    assert(names[7] == "OPENSHELL_CONTAINER_IMAGE"@);
    assert(names[8] == "OPENSHELL_SANDBOX_COMMAND"@);
}

/// What stands in an event, and whether an instance is one of the driver's.
pub proof fn events_hold_what_they_tell(
    sandbox: DriverSandbox,
    told: WatchSandboxesEvent,
    id: String,
    gone: WatchSandboxesEvent,
    inst: &Instance,
    ours: bool,
    error: &LxdApiError,
    shown: ComputeDriverError,
)
    requires
        call_ensures(watcher::sandbox_event, (sandbox,), told),
        call_ensures(watcher::deleted_event, (id,), gone),
        call_ensures(watcher::is_managed, (inst,), ours),
        call_ensures(watcher::stream_error, (error,), shown),
    ensures
        told@ == WatchSandboxesEventView::Sandbox(sandbox@),
        gone@ == WatchSandboxesEventView::Deleted(id@),
        ours == (inst@.config.contains_key("user.openshell.managed"@)
            && inst@.config["user.openshell.managed"@] == "true"@),
        shown@ == ComputeDriverErrorView::Message(client::error_text(error@)),
{
}

/// The parts of a sandbox that is seen come where they belong.
pub proof fn seen_sandbox_is_put_together(
    sandbox_id: String,
    sandbox_name: String,
    instance_name: String,
    instance_id: String,
    condition: DriverCondition,
    deleting: bool,
    r: DriverSandbox,
)
    requires
        call_ensures(
            watcher::build_driver_sandbox,
            (sandbox_id, sandbox_name, instance_name, instance_id, condition, deleting),
            r,
        ),
    ensures
        r@.id == sandbox_id@,
        r@.name == sandbox_name@,
        r@.spec is None,
        r@.namespace.len() == 0,
        r@.status matches Some(status) && status.sandbox_name == instance_name@
            && status.instance_id == instance_id@ && status.conditions == seq![condition@]
            && status.deleting == deleting,
{
}

/// Pushes are told from the other calls of a creation, and lookups from the other
/// calls of a deletion: their replies are read otherwise.
pub proof fn replies_are_read_by_their_stage(
    creation: &driver::SandboxCreation,
    push: bool,
    deletion: &driver::SandboxDeletion,
    lookup: bool,
)
    requires
        call_ensures(driver::SandboxCreation::is_push, (creation,), push),
        call_ensures(driver::SandboxDeletion::is_lookup, (deletion,), lookup),
    ensures
        push == (creation@.stage is Push),
        lookup == (deletion@.stage == DeleteStage::Lookup),
{
}

/// Settings are shown behind their own names, in the text of the driver too.
pub proof fn settings_are_shown(
    c: &LxdComputeConfig,
    of_c: String,
    d: &LxdComputeDriver,
    of_d: String,
)
    requires
        call_ensures(LxdComputeConfig::debug_text, (c,), of_c),
        call_ensures(LxdComputeDriver::debug_text, (d,), of_d),
    ensures
        text::shows_value(of_c@, "{ socket_path: "@, platform::debug_text(c@.socket_path) + ","@),
        text::shows_value(of_c@, ", project: "@, platform::debug_text(c@.project) + ","@),
        text::shows_value(of_c@, ", default_image: "@, platform::debug_text(c@.default_image) + ","@),
        text::shows_value(of_c@, ", grpc_endpoint: "@, platform::debug_text(c@.grpc_endpoint) + ","@),
        text::shows_value(of_c@, ", gateway_port: "@, text::decimal(c@.gateway_port as nat) + ","@),
        text::shows_value(
            of_c@,
            ", sandbox_ssh_socket_path: "@,
            platform::debug_text(c@.sandbox_ssh_socket_path) + ","@,
        ),
        text::shows_value(of_c@, ", network_name: "@, platform::debug_text(c@.network_name) + ","@),
        text::shows_value(of_c@, ", ssh_listen_addr: "@, platform::debug_text(c@.ssh_listen_addr) + ","@),
        text::shows_value(of_c@, ", ssh_port: "@, text::decimal(c@.ssh_port as nat) + ","@),
        text::shows_value(
            of_c@,
            ", ssh_handshake_skew_secs: "@,
            text::decimal(c@.ssh_handshake_skew_secs as nat) + ","@,
        ),
        text::shows_value(
            of_c@,
            ", stop_timeout_secs: "@,
            text::decimal(c@.stop_timeout_secs as nat) + " }"@,
        ),
        text::shows_value(of_d@, "{ socket_path: "@, platform::debug_text(d.config@.socket_path) + ","@),
        text::shows_value(of_d@, ", project: "@, platform::debug_text(d.config@.project) + ","@),
        text::shows_value(
            of_d@,
            ", default_image: "@,
            platform::debug_text(d.config@.default_image) + ","@,
        ),
        text::shows_value(
            of_d@,
            ", network_name: "@,
            platform::debug_text(d.config@.network_name) + " }"@,
        ),
{
    lemma_config_shown(c@);
    lemma_driver_shown(d.config@, of_d@);
}

proof fn lemma_driver_shown(c: LxdComputeConfigView, log: Seq<char>)
    requires
        log == "LxdComputeDriver { socket_path: "@ + platform::debug_text(c.socket_path)
            + ", project: "@ + platform::debug_text(c.project) + ", default_image: "@
            + platform::debug_text(c.default_image) + ", network_name: "@ + platform::debug_text(
            c.network_name,
        ) + " }"@,
    ensures
        text::shows_value(log, "{ socket_path: "@, platform::debug_text(c.socket_path) + ","@),
        text::shows_value(log, ", project: "@, platform::debug_text(c.project) + ","@),
        text::shows_value(log, ", default_image: "@, platform::debug_text(c.default_image) + ","@),
        text::shows_value(log, ", network_name: "@, platform::debug_text(c.network_name) + " }"@),
{
    let q = |t: Seq<char>| platform::debug_text(t);
    reveal_strlit(",");
    reveal_strlit("LxdComputeDriver ");
    reveal_strlit("{ socket_path: ");
    reveal_strlit("LxdComputeDriver { socket_path: ");
    reveal_strlit(", project: ");
    reveal_strlit(", default_image: ");
    reveal_strlit(", network_name: ");
    assert("LxdComputeDriver { socket_path: "@ =~= "LxdComputeDriver "@ + "{ socket_path: "@);
    let a0 = "LxdComputeDriver "@;
    let a1 = a0 + "{ socket_path: "@ + q(c.socket_path);
    let a2 = a1 + ", project: "@ + q(c.project);
    let a3 = a2 + ", default_image: "@ + q(c.default_image);
    let a4 = a3 + ", network_name: "@ + q(c.network_name);
    assert(log == a4 + " }"@);
    text::value_is_shown(log, a0, "{ socket_path: "@, q(c.socket_path), ","@);
    text::value_is_shown(log, a1, ", project: "@, q(c.project), ","@);
    text::value_is_shown(log, a2, ", default_image: "@, q(c.default_image), ","@);
    text::value_is_shown(log, a3, ", network_name: "@, q(c.network_name), " }"@);
}

proof fn lemma_config_shown(c: LxdComputeConfigView)
    ensures
        ({
            let log = config::config_text(c);
            &&& text::shows_value(log, "{ socket_path: "@, platform::debug_text(c.socket_path) + ","@)
            &&& text::shows_value(log, ", project: "@, platform::debug_text(c.project) + ","@)
            &&& text::shows_value(log, ", default_image: "@, platform::debug_text(c.default_image) + ","@)
            &&& text::shows_value(log, ", grpc_endpoint: "@, platform::debug_text(c.grpc_endpoint) + ","@)
            &&& text::shows_value(log, ", gateway_port: "@, text::decimal(c.gateway_port as nat) + ","@)
            &&& text::shows_value(
                log,
                ", sandbox_ssh_socket_path: "@,
                platform::debug_text(c.sandbox_ssh_socket_path) + ","@,
            )
            &&& text::shows_value(log, ", network_name: "@, platform::debug_text(c.network_name) + ","@)
            &&& text::shows_value(
                log,
                ", ssh_listen_addr: "@,
                platform::debug_text(c.ssh_listen_addr) + ","@,
            )
            &&& text::shows_value(log, ", ssh_port: "@, text::decimal(c.ssh_port as nat) + ","@)
            &&& text::shows_value(
                log,
                ", ssh_handshake_skew_secs: "@,
                text::decimal(c.ssh_handshake_skew_secs as nat) + ","@,
            )
            &&& text::shows_value(
                log,
                ", stop_timeout_secs: "@,
                text::decimal(c.stop_timeout_secs as nat) + " }"@,
            )
        }),
{
    let log = config::config_text(c);
    let q = |t: Seq<char>| platform::debug_text(t);
    let n = |k: nat| text::decimal(k);
    reveal_strlit(",");
    reveal_strlit("LxdComputeConfig ");
    reveal_strlit("{ socket_path: ");
    reveal_strlit("LxdComputeConfig { socket_path: ");
    reveal_strlit(", project: ");
    reveal_strlit(", default_image: ");
    reveal_strlit(", grpc_endpoint: ");
    reveal_strlit(", gateway_port: ");
    reveal_strlit(", sandbox_ssh_socket_path: ");
    reveal_strlit(", network_name: ");
    reveal_strlit(", ssh_listen_addr: ");
    reveal_strlit(", ssh_port: ");
    reveal_strlit(", ssh_handshake_secret: \"[REDACTED]\"");
    reveal_strlit(", ssh_handshake_skew_secs: ");
    reveal_strlit(", ssh_handshake_secret: \"[REDACTED]\", ssh_handshake_skew_secs: ");
    reveal_strlit(", stop_timeout_secs: ");
    assert("LxdComputeConfig { socket_path: "@ =~= "LxdComputeConfig "@ + "{ socket_path: "@);
    assert(", ssh_handshake_secret: \"[REDACTED]\", ssh_handshake_skew_secs: "@
        =~= ", ssh_handshake_secret: \"[REDACTED]\""@ + ", ssh_handshake_skew_secs: "@);
    let a0 = "LxdComputeConfig "@;
    let a1 = a0 + "{ socket_path: "@ + q(c.socket_path);
    let a2 = a1 + ", project: "@ + q(c.project);
    let a3 = a2 + ", default_image: "@ + q(c.default_image);
    let a4 = a3 + ", grpc_endpoint: "@ + q(c.grpc_endpoint);
    let a5 = a4 + ", gateway_port: "@ + n(c.gateway_port as nat);
    let a6 = a5 + ", sandbox_ssh_socket_path: "@ + q(c.sandbox_ssh_socket_path);
    let a7 = a6 + ", network_name: "@ + q(c.network_name);
    let a8 = a7 + ", ssh_listen_addr: "@ + q(c.ssh_listen_addr);
    let a9 = a8 + ", ssh_port: "@ + n(c.ssh_port as nat);
    let b0 = a9 + ", ssh_handshake_secret: \"[REDACTED]\""@;
    let b1 = b0 + ", ssh_handshake_skew_secs: "@ + n(c.ssh_handshake_skew_secs as nat);
    let b2 = b1 + ", stop_timeout_secs: "@ + n(c.stop_timeout_secs as nat);
    assert(a9 + ", ssh_handshake_secret: \"[REDACTED]\", ssh_handshake_skew_secs: "@ =~= b0
        + ", ssh_handshake_skew_secs: "@);
    assert(log == b2 + " }"@);
    text::value_is_shown(log, a0, "{ socket_path: "@, q(c.socket_path), ","@);
    text::value_is_shown(log, a1, ", project: "@, q(c.project), ","@);
    text::value_is_shown(log, a2, ", default_image: "@, q(c.default_image), ","@);
    text::value_is_shown(log, a3, ", grpc_endpoint: "@, q(c.grpc_endpoint), ","@);
    text::value_is_shown(log, a4, ", gateway_port: "@, n(c.gateway_port as nat), ","@);
    text::value_is_shown(log, a5, ", sandbox_ssh_socket_path: "@, q(c.sandbox_ssh_socket_path), ","@);
    text::value_is_shown(log, a6, ", network_name: "@, q(c.network_name), ","@);
    text::value_is_shown(log, a7, ", ssh_listen_addr: "@, q(c.ssh_listen_addr), ","@);
    text::value_is_shown(log, a8, ", ssh_port: "@, n(c.ssh_port as nat), ","@);
    text::value_is_shown(log, b0, ", ssh_handshake_skew_secs: "@, n(c.ssh_handshake_skew_secs as nat), ","@);
    text::value_is_shown(log, b1, ", stop_timeout_secs: "@, n(c.stop_timeout_secs as nat), " }"@);
}

/// A driver that found its GPU says so, and a sandbox with a GPU is accepted only
/// where one was found.
pub proof fn gpu_is_looked_for(
    d: &LxdComputeDriver,
    r: compute::GetCapabilitiesResponse,
    sandbox: &DriverSandbox,
    valid: Result<(), ComputeDriverError>,
)
    requires
        call_ensures(LxdComputeDriver::capabilities, (d,), r),
        call_ensures(LxdComputeDriver::validate_sandbox_create, (d, sandbox), valid),
    ensures
        r.driver_name@ == "lxd"@,
        r.default_image@ == d.config@.default_image,
        platform::looked_for("/dev/nvidia0"@, r.supports_gpu),
        valid is Err ==> sandbox@.spec is Some && sandbox@.spec->0.gpu && platform::looked_for(
            "/dev/nvidia0"@,
            false,
        ),
        valid is Ok ==> !(sandbox@.spec is Some && sandbox@.spec->0.gpu) || platform::looked_for(
            "/dev/nvidia0"@,
            true,
        ),
{
    match valid {
        Ok(_) => {
            assert(driver::driver_outcome(valid) is Ok);
        },
        Err(e) => {
            assert(driver::driver_outcome(valid) == Err::<(), ComputeDriverErrorView>(e@));
        },
    }
}

/// What is said of a name that is refused fits it: that there is none, how long it
/// is, how it begins, or what it holds.
pub proof fn complaints_fit_the_name(name: &str, r: Result<(), LxdApiError>)
    requires
        call_ensures(client::validate_name, (name,), r),
    ensures
        r matches Err(e) ==> (e matches LxdApiError::InvalidInput(m) && {
            let bytes = vstd::utf8::encode_utf8(name@);
            if name@.len() == 0 {
                m@ == "name must not be empty"@
            } else if bytes.len() > 63 {
                m@ == "name exceeds maximum length of "@ + text::decimal(63) + " characters (got "@
                    + text::decimal(bytes.len()) + ")"@
            } else {
                platform::debug_text(name@).is_suffix_of(m@)
            }
        }),
{
    if let Err(e) = r {
        assert(client::outcome(r) == Err::<(), LxdApiErrorView>(e@));
        text::end_is_a_suffix(
            "name must start with an alphanumeric character: "@,
            platform::debug_text(name@),
        );
        text::end_is_a_suffix(
            "name contains invalid characters (only alphanumerics and hyphens allowed): "@,
            platform::debug_text(name@),
        );
    }
}

/// What is said of an operation that failed names it, what went wrong and its code.
pub proof fn failed_operation_is_named(
    reply: LxdReply,
    parsed: Result<LxdResponse<OperationStatus>, String>,
    r: Result<(), LxdApiError>,
)
    requires
        call_ensures(client::operation_result, (reply, parsed), r),
        200 <= reply.status <= 299,
        parsed is Ok,
        parsed->Ok_0.metadata is Some,
        parsed->Ok_0.metadata->0.description is Some,
        parsed->Ok_0.metadata->0.err is Some,
    ensures
        r matches Err(e) ==> {
            let operation = parsed->Ok_0.metadata->0;
            e@ == LxdApiErrorView::OperationFailed(
                "operation "@ + operation.description->0@ + ": "@ + operation.err->0@ + " (code "@
                    + text::signed_decimal(operation.status_code as int) + ")"@,
            )
        },
{
    if let Err(e) = r {
        assert(client::outcome(r) == Err::<(), LxdApiErrorView>(e@));
    }
}

/// Where nothing is said of the socket it is that of the snap package, where that
/// was found, and otherwise that of the deb package.
pub proof fn socket_is_looked_for(path: String, c: LxdComputeConfig)
    requires
        call_ensures(LxdComputeConfig::default_socket_path, (), path),
        call_ensures(<LxdComputeConfig as Default>::default, (), c),
    ensures
        path@ == "/var/snap/lxd/common/lxd/unix.socket"@ ==> platform::looked_for(path@, true),
        path@ == "/var/snap/lxd/common/lxd/unix.socket"@ || path@ == "/var/lib/lxd/unix.socket"@,
        path@ != "/var/snap/lxd/common/lxd/unix.socket"@ ==> platform::looked_for(
            "/var/snap/lxd/common/lxd/unix.socket"@,
            false,
        ),
        c@.socket_path == "/var/snap/lxd/common/lxd/unix.socket"@ || c@.socket_path
            == "/var/lib/lxd/unix.socket"@,
        c@.project == "openshell"@,
        c@.network_name == "openshell"@,
        c@.gateway_port == 8080,
        c@.stop_timeout_secs == 10,
{
    reveal_strlit("/var/snap/lxd/common/lxd/unix.socket");
    reveal_strlit("/var/lib/lxd/unix.socket");
    assert("/var/snap/lxd/common/lxd/unix.socket"@[5] == 's' && "/var/lib/lxd/unix.socket"@[5]
        == 'l');
}

/// The daemon has half a minute to answer a call.
pub proof fn calls_have_half_a_minute(
    c: &LxdClient,
    name: &str,
    command: &[&str],
    path: &str,
    content: &[u8],
    mode: &str,
    q: LxdRequest,
)
    requires
        ({
            ||| call_ensures(LxdClient::start_instance, (c, name), Ok(q))
            ||| call_ensures(LxdClient::force_stop_instance, (c, name), Ok(q))
            ||| call_ensures(LxdClient::delete_instance, (c, name), Ok(q))
            ||| call_ensures(LxdClient::get_instance, (c, name), Ok(q))
            ||| call_ensures(LxdClient::get_instance_state, (c, name), Ok(q))
            ||| call_ensures(LxdClient::exec_instance, (c, name, command), Ok(q))
            ||| call_ensures(LxdClient::push_file, (c, name, path, content, mode), Ok(q))
            ||| call_ensures(LxdClient::list_instances, (c,), q)
            ||| call_ensures(LxdClient::events_stream, (c,), q)
            ||| call_ensures(LxdClient::ping, (c,), q)
            ||| call_ensures(LxdClient::server_info, (c,), q)
        }),
    ensures
        q@.timeout_secs == 30,
{
    let r: Result<LxdRequest, LxdApiError> = Ok(q);
    assert(client::request_outcome(r) == Ok::<LxdRequestView, LxdApiErrorView>(q@));
}

/// The text of a JSON object with an error is that of its member; nothing else has
/// one. A stream begins with nothing left over.
pub proof fn errors_are_found_in_objects(
    value: Option<serde_json::Value>,
    r: Option<String>,
    events: client::EventBuffer,
)
    requires
        call_ensures(client::error_field, (value,), r),
        call_ensures(client::EventBuffer::new, (), events),
    ensures
        match value {
            Some(v) => match json::json_of(v) {
                Json::Object(members) => if members.contains_key("error"@)
                    && members["error"@] is Text {
                    r matches Some(m) && m@ == members["error"@]->Text_0
                } else {
                    r is None
                },
                _ => r is None,
            },
            None => r is None,
        },
        events.buffer@.len() == 0,
{
}

} // verus!
