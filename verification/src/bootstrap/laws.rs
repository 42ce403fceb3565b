//! What a run that brings the gateway up does to the cluster, to the registry and
//! to this host.
//!
//! The laws speak of a whole run: of what was asked for, of what came of the actions
//! so far, and of the action that comes next.
use vstd::prelude::*;
use vstd::string::*;
use vstd::utf8::*;
use crate::bootstrap::apply;
use crate::bootstrap::apply::{
    ApplyError, ApplyErrorView, ApplyFailure, ApplyFailureView, ApplyStep, ApplyStepView,
    Discovering, ManifestObject, ManifestObjectView, PatchTarget, Patching, Resolving, Yaml,
};
use crate::bootstrap::k8s_init;
use crate::bootstrap::k8s_init::{
    Bundled, ClusterInit, ClusterInitView, ClusterRequest, ClusterRequestView, Credentials,
    GatewayMetadata, GatewayMetadataView, HelmOutcome, InitAction, InitActionView, InitError,
    InitErrorView, InitEvent, InitStage, InitStep, InitStepView, LoginOutcome, PkiBundle,
    PkiBundleView, RandomOutcome, SecretManifest, SecretManifestView, Settings, SettingsView,
};
use crate::process;
use crate::process::{Command, CommandView};
use crate::text;

verus! {

// ---------------------------------------------------------------------------
// Runs
// ---------------------------------------------------------------------------

/// Whether a step of a run follows another, after what came of its action.
pub open spec fn run_follows(step: InitStep, event: InitEvent, next: InitStep) -> bool {
    step matches InitStep::Act(run, _) && call_ensures(
        ClusterInit::accepts,
        (&run, &event),
        true,
    ) && call_ensures(ClusterInit::next, (run, event), next)
}

/// Whether these are the steps of a run, with what came of the actions.
pub open spec fn cluster_run(
    request: ClusterRequest,
    steps: Seq<InitStep>,
    events: Seq<InitEvent>,
) -> bool {
    &&& steps.len() == events.len() + 1
    &&& call_ensures(k8s_init::init_external_cluster, (request,), steps[0])
    &&& forall|i: int|
        0 <= i < events.len() ==> #[trigger] run_follows(steps[i], events[i], steps[i + 1])
}

/// The certificates that were loaded or generated.
pub open spec fn bundle_seen(events: Seq<InitEvent>) -> Option<PkiBundleView>
    decreases events.len(),
{
    if events.len() == 0 {
        None
    } else {
        match events.last() {
            InitEvent::Loaded(Ok(Some(bundle))) => Some(bundle@),
            InitEvent::Generated(Ok(bundle)) => Some(bundle@),
            _ => bundle_seen(events.drop_last()),
        }
    }
}

/// The random bytes that were got.
pub open spec fn random_seen(events: Seq<InitEvent>) -> Option<Seq<u8>>
    decreases events.len(),
{
    if events.len() == 0 {
        None
    } else {
        match events.last() {
            InitEvent::Random(RandomOutcome::Bytes(bytes)) => Some(bytes@),
            _ => random_seen(events.drop_last()),
        }
    }
}

/// The settings that were read.
pub open spec fn settings_seen(events: Seq<InitEvent>) -> Option<SettingsView>
    decreases events.len(),
{
    if events.len() == 0 {
        None
    } else {
        match events.last() {
            InitEvent::SettingsRead(settings) => Some(settings@),
            _ => settings_seen(events.drop_last()),
        }
    }
}

/// The archives that were found: that with one image for both, and those of the
/// gateway and of the supervisor.
pub open spec fn archives_seen(events: Seq<InitEvent>) -> (bool, bool, bool)
    decreases events.len(),
{
    if events.len() == 0 {
        (false, false, false)
    } else {
        match events.last() {
            InitEvent::Probed { core, gateway, supervisor } => (core, gateway, supervisor),
            _ => archives_seen(events.drop_last()),
        }
    }
}

/// The temporary directory that was made.
pub open spec fn temp_dir_seen(events: Seq<InitEvent>) -> Option<Seq<char>>
    decreases events.len(),
{
    if events.len() == 0 {
        None
    } else {
        match events.last() {
            InitEvent::TempDir(Ok(dir)) => Some(dir@),
            _ => temp_dir_seen(events.drop_last()),
        }
    }
}

/// The home directory that was found.
pub open spec fn home_seen(events: Seq<InitEvent>) -> Option<Seq<char>>
    decreases events.len(),
{
    if events.len() == 0 {
        None
    } else {
        match events.last() {
            InitEvent::Home(Some(home)) => Some(home@),
            _ => home_seen(events.drop_last()),
        }
    }
}

/// The directory with the archives.
pub open spec fn images_dir_seen(events: Seq<InitEvent>) -> Option<Seq<char>> {
    match settings_seen(events) {
        Some(settings) => settings.images_dir,
        None => None,
    }
}

/// The file that tells the registry who pushes: the one that was asked for, or the
/// one that the login writes, where there is a token to log in with.
pub open spec fn authfile_meant(request: ClusterRequestView, events: Seq<InitEvent>) -> Option<
    Seq<char>,
> {
    match (request.registry_authfile, request.registry_token, temp_dir_seen(events)) {
        (Some(path), _, _) => Some(path),
        (None, Some(_), Some(dir)) => Some(k8s_init::path_join(dir, "auth.json"@)),
        _ => None,
    }
}

spec fn stands(request: ClusterRequestView, past: Seq<InitEvent>, run: ClusterInitView) -> bool {
    let rank = k8s_init::rank(run.stage);
    let (core, gateway, supervisor) = archives_seen(past);
    &&& run.request == request
    &&& bundle_seen(past) matches Some(b) ==> run.bundle == b
    &&& random_seen(past) matches Some(b) ==> run.random == b
    &&& settings_seen(past) matches Some(s) ==> run.settings == s
    &&& home_seen(past) matches Some(h) ==> run.home == h
    &&& rank >= 4 ==> bundle_seen(past) is Some
    &&& run.stage == InitStage::CreateHandshake ==> random_seen(past) is Some
    &&& rank <= 13 ==> archives_seen(past) == (false, false, false) && temp_dir_seen(past) is None
    &&& rank >= 13 ==> settings_seen(past) is Some
    &&& 13 <= rank <= 17 ==> images_dir_seen(past) is Some
    &&& 14 <= rank <= 17 ==> run.bundled != Bundled::Nothing
    &&& rank >= 14 ==> (run.bundled == Bundled::CoreRock) == core
    &&& rank >= 14 ==> (run.bundled == Bundled::Archives) == (!core && gateway && supervisor)
    &&& rank == 14 ==> temp_dir_seen(past) is None
    &&& 14 <= rank <= 15 ==> request.registry_authfile is None && request.registry_token is Some
    &&& rank == 15 ==> temp_dir_seen(past) is Some
    &&& 15 <= rank <= 17 ==> run.authfile == authfile_meant(request, past)
    &&& 16 <= rank <= 17 ==> request.registry_authfile is None && request.registry_token is Some
        ==> temp_dir_seen(past) is Some
    &&& 16 <= rank <= 17 ==> !(request.registry_authfile is None && request.registry_token is None
        && request.registry_username is Some)
    &&& run.stage == InitStage::PushSecond ==> run.bundled == Bundled::Archives && past.len() > 0
        && past.last() == InitEvent::Pushed(run.pushed)
    &&& rank >= 20 ==> home_seen(past) is Some
}

proof fn lemma_seen(past: Seq<InitEvent>, event: InitEvent)
    ensures
        past.push(event).drop_last() == past,
        past.push(event).last() == event,
{
    assert(past.push(event).drop_last() =~= past);
}

#[verifier::rlimit(40)]
proof fn lemma_advance(
    request: ClusterRequestView,
    past: Seq<InitEvent>,
    run: ClusterInitView,
    event: InitEvent,
)
    requires
        stands(request, past, run),
        k8s_init::fits(run.stage, event),
    ensures
        k8s_init::advance(run, event) matches Ok(next) ==> stands(request, past.push(event), next),
{
    lemma_seen(past, event);
}

proof fn lemma_run(
    request: ClusterRequest,
    steps: Seq<InitStep>,
    events: Seq<InitEvent>,
    i: int,
)
    requires
        cluster_run(request, steps, events),
        0 <= i < steps.len(),
    ensures
        steps[i] matches InitStep::Act(run, action) ==> stands(request@, events.take(i), run@)
            && action@ == k8s_init::action_of(run@),
        i < events.len() ==> steps[i] is Act,
    decreases i,
{
    if i < events.len() {
        assert(run_follows(steps[i], events[i], steps[i + 1]));
    }
    if i == 0 {
        assert(events.take(0) =~= Seq::empty());
        match steps[0] {
            InitStep::Act(run, action) => {
                assert(steps[0]@ == InitStepView::Act(run@, action@));
            },
            InitStep::Done(_) => {},
        }
    } else {
        lemma_run(request, steps, events, i - 1);
        assert(run_follows(steps[i - 1], events[i - 1], steps[i - 1 + 1]));
        assert(events.take(i) =~= events.take(i - 1).push(events[i - 1]));
        match steps[i] {
            InitStep::Act(run, action) => {
                assert(steps[i]@ == InitStepView::Act(run@, action@));
                let before = steps[i - 1]->Act_0@;
                lemma_advance(request@, events.take(i - 1), before, events[i - 1]);
            },
            InitStep::Done(_) => {},
        }
    }
}

// ---------------------------------------------------------------------------
// Registry
// ---------------------------------------------------------------------------

/// Whether a command runs `skopeo` without the registries that this host has set up.
pub open spec fn runs_skopeo(c: CommandView) -> bool {
    c.program == "skopeo"@ && c.env == seq![("CONTAINERS_REGISTRIES_CONF"@, "/dev/null"@)]
}

/// Whether a command logs in to a registry: the token is what it reads, and no
/// argument.
pub open spec fn logs_in(
    c: CommandView,
    authfile: Seq<char>,
    username: Seq<char>,
    token: Seq<char>,
    registry: Seq<char>,
) -> bool {
    &&& runs_skopeo(c)
    &&& c.args.len() == 7
    &&& c.args[0] == "login"@
    &&& process::option_is(c.args, "--authfile"@, authfile)
    &&& process::option_is(c.args, "--username"@, username)
    &&& process::word_is(c.args, "--password-stdin"@)
    &&& c.args.last() == registry
    &&& c.stdin == Some(token)
}

/// Whether a command pushes an archive to a registry, as the one whom the file
/// names.
pub open spec fn pushes(
    c: CommandView,
    archive: Seq<char>,
    target: Seq<char>,
    temp_dir: Seq<char>,
    authfile: Option<Seq<char>>,
) -> bool {
    let args = c.args;
    &&& runs_skopeo(c)
    &&& args.len() == (if authfile is Some {
        9int
    } else {
        7int
    })
    &&& args[0] == "--insecure-policy"@
    &&& args[1] == "copy"@
    &&& process::word_is(args, "--dest-tls-verify=false"@)
    &&& authfile matches Some(path) ==> process::option_is(args, "--authfile"@, path)
    &&& process::option_is(args, "--tmpdir"@, temp_dir)
    &&& args[args.len() - 2] == "oci-archive:"@ + archive
    &&& args[args.len() - 1] == "docker://"@ + target
    &&& c.stdin is None
}

proof fn lemma_logs_in(
    authfile: Seq<char>,
    username: Seq<char>,
    token: Seq<char>,
    registry: Seq<char>,
)
    ensures
        logs_in(
            k8s_init::login_call(authfile, username, token, registry),
            authfile,
            username,
            token,
            registry,
        ),
{
    let args = k8s_init::login_call(authfile, username, token, registry).args;
    assert(args[1] == "--authfile"@ && args[1int + 1] == authfile);
    assert(args[3] == "--username"@ && args[3int + 1] == username);
    assert(args[5] == "--password-stdin"@);
}

proof fn lemma_pushes(
    archive: Seq<char>,
    target: Seq<char>,
    temp_dir: Seq<char>,
    authfile: Option<Seq<char>>,
)
    ensures
        pushes(
            k8s_init::copy_call(archive, target, temp_dir, authfile),
            archive,
            target,
            temp_dir,
            authfile,
        ),
{
    let args = k8s_init::copy_call(archive, target, temp_dir, authfile).args;
    assert(args[2] == "--dest-tls-verify=false"@);
    match authfile {
        Some(path) => {
            assert(args[3] == "--authfile"@ && args[3int + 1] == path);
            assert(args[5] == "--tmpdir"@ && args[5int + 1] == temp_dir);
        },
        None => {
            assert(args[3] == "--tmpdir"@ && args[3int + 1] == temp_dir);
        },
    }
}

/// The two commands to the registry.
pub proof fn registry_commands_say_what_they_are_given(
    authfile: &str,
    username: &str,
    token: &str,
    registry: &str,
    login: Command,
    source: &str,
    target: &str,
    temp_dir: &str,
    known: &Option<String>,
    copy: Command,
)
    requires
        call_ensures(k8s_init::skopeo_login, (authfile, username, token, registry), login),
        call_ensures(k8s_init::skopeo_copy, (source, target, temp_dir, known), copy),
    ensures
        logs_in(login@, authfile@, username@, token@, registry@),
        pushes(copy@, source@, target@, temp_dir@, text::optional(*known)),
{
    lemma_logs_in(authfile@, username@, token@, registry@);
    lemma_pushes(source@, target@, temp_dir@, text::optional(*known));
}

/// The registry is told who pushes: by the file that was asked for; else by a login
/// with the token, as the user that was asked for or as the token's own; and not at
/// all where there is neither. Only a user name without a token is refused.
pub proof fn credentials_are_those_of_the_request(
    request: &ClusterRequest,
    r: Result<Credentials, String>,
)
    requires
        call_ensures(k8s_init::resolve_credentials, (request,), r),
    ensures
        match r {
            Ok(Credentials::File(path)) => request@.registry_authfile == Some(path@),
            Ok(Credentials::Login { username, token }) => {
                &&& request@.registry_authfile is None
                &&& request@.registry_token == Some(token@)
                &&& request@.registry_username matches Some(name) ==> username@ == name
                &&& request@.registry_username is None ==> username@ == "__token__"@
            },
            Ok(Credentials::Anonymous) => request@.registry_authfile is None
                && request@.registry_token is None && request@.registry_username is None,
            Err(_) => request@.registry_authfile is None && request@.registry_token is None
                && request@.registry_username is Some,
        },
{
    match r {
        Ok(Credentials::File(path)) => {},
        Ok(Credentials::Login { username, token }) => {},
        Ok(Credentials::Anonymous) => {},
        Err(m) => {},
    }
}

/// Whenever a run logs in, it does so with the token that was asked for, as the user
/// that was asked for or, where there is none, as the token's own; at the registry
/// that was asked for; and what comes of it goes to a file of its own.
pub proof fn run_logs_in_as_asked(
    request: ClusterRequest,
    steps: Seq<InitStep>,
    events: Seq<InitEvent>,
    i: int,
)
    requires
        cluster_run(request, steps, events),
        0 <= i < steps.len(),
    ensures
        steps[i] matches InitStep::Act(_, InitAction::Login(c)) ==> {
            &&& request@.registry_token matches Some(token) && logs_in(
                c@,
                k8s_init::path_join(temp_dir_seen(events.take(i))->0, "auth.json"@),
                match request@.registry_username {
                    Some(name) => name,
                    None => "__token__"@,
                },
                token,
                request@.registry,
            )
            &&& temp_dir_seen(events.take(i)) is Some
            &&& request@.registry_authfile is None
        },
{
    lemma_run(request, steps, events, i);
    if let InitStep::Act(run, InitAction::Login(c)) = steps[i] {
        assert(run@.stage == InitStage::Login);
        let authfile = k8s_init::path_join(temp_dir_seen(events.take(i))->0, "auth.json"@);
        let username = match request@.registry_username {
            Some(name) => name,
            None => "__token__"@,
        };
        lemma_logs_in(authfile, username, request@.registry_token->0, request@.registry);
    }
}

/// The images that a run pushes, given what was found: one for both, or one each.
pub open spec fn pushed_images(request: ClusterRequestView, past: Seq<InitEvent>) -> Seq<
    (Seq<char>, Seq<char>),
> {
    let dir = images_dir_seen(past)->0;
    if archives_seen(past).0 {
        seq![
            (
                k8s_init::path_join(dir, "openshell-core.rock"@),
                request.registry + "/openshell-core:local"@,
            ),
        ]
    } else {
        seq![
            (k8s_init::path_join(dir, "gateway.tar"@), request.registry + "/openshell-gateway:dev"@),
            (
                k8s_init::path_join(dir, "supervisor.tar"@),
                request.registry + "/openshell-supervisor:dev"@,
            ),
        ]
    }
}

/// Whenever a run pushes, it pushes an archive that was found, to the registry that
/// was asked for, as the one whom it was told to push as.
pub proof fn run_pushes_what_was_found(
    request: ClusterRequest,
    steps: Seq<InitStep>,
    events: Seq<InitEvent>,
    i: int,
)
    requires
        cluster_run(request, steps, events),
        0 <= i < steps.len(),
    ensures
        steps[i] matches InitStep::Act(run, InitAction::Push(c)) ==> {
            let past = events.take(i);
            let images = pushed_images(request@, past);
            let k: int = if run.stage == InitStage::PushSecond {
                1
            } else {
                0
            };
            &&& images_dir_seen(past) is Some
            &&& archives_seen(past).0 || (archives_seen(past).1 && archives_seen(past).2)
            &&& k < images.len()
            &&& pushes(
                c@,
                images[k].0,
                images[k].1,
                settings_seen(past)->0.temp_dir,
                authfile_meant(request@, past),
            )
        },
        steps[i] matches InitStep::Act(_, InitAction::Probe { core, gateway, supervisor }) ==> {
            let dir = images_dir_seen(events.take(i))->0;
            &&& images_dir_seen(events.take(i)) is Some
            &&& core@ == k8s_init::path_join(dir, "openshell-core.rock"@)
            &&& gateway@ == k8s_init::path_join(dir, "gateway.tar"@)
            &&& supervisor@ == k8s_init::path_join(dir, "supervisor.tar"@)
        },
{
    lemma_run(request, steps, events, i);
    if let InitStep::Act(run, InitAction::Push(c)) = steps[i] {
        let past = events.take(i);
        let stage = run@.stage;
        assert(stage == InitStage::PushFirst || stage == InitStage::PushSecond);
        let images = pushed_images(request@, past);
        let k: int = if stage == InitStage::PushSecond {
            1
        } else {
            0
        };
        lemma_pushes(
            images[k].0,
            images[k].1,
            settings_seen(past)->0.temp_dir,
            authfile_meant(request@, past),
        );
    }
    if let InitStep::Act(run, InitAction::Probe { core, gateway, supervisor }) = steps[i] {
        assert(run@.stage == InitStage::Probe);
    }
}

// ---------------------------------------------------------------------------
// Chart
// ---------------------------------------------------------------------------

/// Whether a command installs the gateway from a chart, or upgrades it, in a
/// namespace, with these images of the gateway and of the supervisor, or with those
/// of the chart.
pub open spec fn installs(
    c: CommandView,
    settings: SettingsView,
    namespace: Seq<char>,
    images: Option<(Seq<char>, Seq<char>, Seq<char>)>,
) -> bool {
    &&& c.program == (match settings.helm_bin {
        Some(bin) => bin,
        None => "helm"@,
    })
    &&& c.args.len() == (if images is Some {
        19int
    } else {
        9int
    })
    &&& c.args[0] == "upgrade"@
    &&& c.args[1] == "--install"@
    &&& c.args[2] == "gateway"@
    &&& c.args[3] == (match settings.chart_path {
        Some(path) => path,
        None => "deploy/helm/openshell"@,
    })
    &&& process::option_is(c.args, "--namespace"@, namespace)
    &&& process::word_is(c.args, "--wait"@)
    &&& process::option_is(c.args, "--timeout"@, "2m"@)
    &&& images matches Some((repository, tag, supervisor)) ==> {
        &&& process::option_is(c.args, "--set"@, "image.repository="@ + repository)
        &&& process::option_is(c.args, "--set"@, "image.tag="@ + tag)
        &&& process::option_is(c.args, "--set"@, "image.pullPolicy=Always"@)
        &&& process::option_is(c.args, "--set"@, "supervisorImage="@ + supervisor)
        &&& process::option_is(c.args, "--set"@, "supervisorImagePullPolicy=Always"@)
    }
    &&& c.env.len() == 0
    &&& c.stdin is None
}

/// The images that the chart is pointed to, given what was pushed: repository and
/// tag of the gateway, and the supervisor.
pub open spec fn chart_images(bundled: Bundled, registry: Seq<char>) -> Option<
    (Seq<char>, Seq<char>, Seq<char>),
> {
    match bundled {
        Bundled::Nothing => None,
        Bundled::CoreRock => Some(
            (registry + "/openshell-core"@, "local"@, registry + "/openshell-core:local"@),
        ),
        Bundled::Archives => Some(
            (registry + "/openshell-gateway"@, "dev"@, registry + "/openshell-supervisor:dev"@),
        ),
    }
}

proof fn lemma_installs(
    settings: SettingsView,
    namespace: Seq<char>,
    bundled: Bundled,
    registry: Seq<char>,
)
    ensures
        installs(
            k8s_init::helm_call(settings, namespace, bundled, registry),
            settings,
            namespace,
            chart_images(bundled, registry),
        ),
{
    let args = k8s_init::helm_call(settings, namespace, bundled, registry).args;
    assert(args[4] == "--namespace"@ && args[4int + 1] == namespace);
    assert(args[6] == "--wait"@);
    assert(args[7] == "--timeout"@ && args[7int + 1] == "2m"@);
    if let Some((repository, tag, supervisor)) = chart_images(bundled, registry) {
        reveal_strlit("image.repository=");
        reveal_strlit("image.tag=");
        reveal_strlit("image.tag=local");
        reveal_strlit("image.tag=dev");
        reveal_strlit("local");
        reveal_strlit("dev");
        let more = k8s_init::image_args(bundled, registry);
        assert(forall|k: int| 0 <= k < more.len() ==> args[9 + k] == #[trigger] more[k]);
        assert(args[9] == more[0] && args[9int + 1] == more[1]);
        assert(more[1] =~= "image.repository="@ + repository);
        assert(args[11] == more[2] && args[11int + 1] == more[3]);
        assert(more[3] =~= "image.tag="@ + tag);
        assert(args[13] == more[4] && args[13int + 1] == more[5]);
        assert(args[15] == more[6] && args[15int + 1] == more[7]);
        assert(more[7] =~= "supervisorImage="@ + supervisor);
        assert(args[17] == more[8] && args[17int + 1] == more[9]);
    }
}

/// The command that installs the gateway says what it is given.
pub proof fn chart_is_installed_as_asked(
    settings: &Settings,
    namespace: &str,
    bundled: Bundled,
    registry: &str,
    r: Command,
)
    requires
        call_ensures(k8s_init::helm_upgrade, (settings, namespace, bundled, registry), r),
    ensures
        installs(r@, settings@, namespace@, chart_images(bundled, registry@)),
{
    lemma_installs(settings@, namespace@, bundled, registry@);
}

/// Whenever a run installs the gateway, it does so in the namespace that was asked
/// for, and the images are those that it pushed: what it calls the gateway and the
/// supervisor are the targets of its pushes. Where it pushed none the chart keeps
/// its own.
pub proof fn run_installs_what_it_pushed(
    request: ClusterRequest,
    steps: Seq<InitStep>,
    events: Seq<InitEvent>,
    i: int,
)
    requires
        cluster_run(request, steps, events),
        0 <= i < steps.len(),
    ensures
        steps[i] matches InitStep::Act(_, InitAction::Helm(c)) ==> {
            let past = events.take(i);
            let (core, gateway, supervisor) = archives_seen(past);
            let images = pushed_images(request@, past);
            let bundled = if core {
                Bundled::CoreRock
            } else if gateway && supervisor {
                Bundled::Archives
            } else {
                Bundled::Nothing
            };
            let chart = chart_images(bundled, request@.registry);
            &&& settings_seen(past) is Some
            &&& installs(c@, settings_seen(past)->0, request@.namespace, chart)
            &&& chart matches Some((repository, tag, runs)) ==> images[0].1 == repository + ":"@
                + tag && images[images.len() - 1].1 == runs
        },
{
    lemma_run(request, steps, events, i);
    if let InitStep::Act(run, InitAction::Helm(c)) = steps[i] {
        assert(run@.stage == InitStage::Helm);
        lemma_installs(run@.settings, request@.namespace, run@.bundled, request@.registry);
        reveal_strlit("/openshell-core");
        reveal_strlit("/openshell-core:local");
        reveal_strlit("/openshell-gateway");
        reveal_strlit("/openshell-gateway:dev");
        reveal_strlit(":");
        reveal_strlit("local");
        reveal_strlit("dev");
        let registry = request@.registry;
        assert(registry + "/openshell-core"@ + ":"@ + "local"@ =~= registry
            + "/openshell-core:local"@);
        assert(registry + "/openshell-gateway"@ + ":"@ + "dev"@ =~= registry
            + "/openshell-gateway:dev"@);
    }
}

// ---------------------------------------------------------------------------
// Secrets
// ---------------------------------------------------------------------------

/// Whether a secret holds what a client needs to connect.
pub open spec fn is_for_clients(s: SecretManifestView, b: PkiBundleView) -> bool {
    &&& s.name == "openshell-client-tls"@
    &&& s.secret_type == "Opaque"@
    &&& s.data.dom() == set!["tls.crt"@, "tls.key"@, "ca.crt"@]
    &&& s.data["tls.crt"@] == encode_utf8(b.client_cert_pem)
    &&& s.data["tls.key"@] == encode_utf8(b.client_key_pem)
    &&& s.data["ca.crt"@] == encode_utf8(b.ca_cert_pem)
}

/// Whether a secret holds what the server shows.
pub open spec fn is_for_the_server(s: SecretManifestView, b: PkiBundleView) -> bool {
    &&& s.name == "openshell-server-tls"@
    &&& s.secret_type == "kubernetes.io/tls"@
    &&& s.data.dom() == set!["tls.crt"@, "tls.key"@]
    &&& s.data["tls.crt"@] == encode_utf8(b.server_cert_pem)
    &&& s.data["tls.key"@] == encode_utf8(b.server_key_pem)
}

/// Whether a secret holds what the server verifies clients with, and no key.
pub open spec fn verifies_clients(s: SecretManifestView, b: PkiBundleView) -> bool {
    &&& s.name == "openshell-server-client-ca"@
    &&& s.secret_type == "Opaque"@
    &&& s.data.dom() == set!["ca.crt"@]
    &&& s.data["ca.crt"@] == encode_utf8(b.ca_cert_pem)
}

/// Whether a secret is that of the SSH handshake, made from these bytes.
pub open spec fn is_for_handshakes(s: SecretManifestView, random: Seq<u8>) -> bool {
    &&& s.name == "openshell-ssh-handshake"@
    &&& s.secret_type == "Opaque"@
    &&& s.data.dom() == set!["secret"@]
    &&& s.data["secret"@] == encode_utf8(k8s_init::hex(random))
}

proof fn lemma_secrets(namespace: Seq<char>, b: PkiBundleView, random: Seq<u8>)
    ensures
        is_for_clients(k8s_init::client_tls_secret(namespace, b), b),
        is_for_the_server(k8s_init::server_tls_secret(namespace, b), b),
        verifies_clients(k8s_init::client_ca_secret(namespace, b), b),
        is_for_handshakes(k8s_init::handshake_secret(namespace, random), random),
{
    reveal_strlit("tls.crt");
    reveal_strlit("tls.key");
    reveal_strlit("ca.crt");
    assert("tls.crt"@[4] == 'c' && "tls.key"@[4] == 'k' && "ca.crt"@.len() == 6);
    assert("tls.crt"@.len() == 7 && "tls.key"@.len() == 7);
    assert(k8s_init::client_tls_secret(namespace, b).data.dom() =~= set![
        "tls.crt"@,
        "tls.key"@,
        "ca.crt"@,
    ]);
    assert(k8s_init::server_tls_secret(namespace, b).data.dom() =~= set!["tls.crt"@, "tls.key"@]);
    assert(k8s_init::client_ca_secret(namespace, b).data.dom() =~= set!["ca.crt"@]);
    assert(k8s_init::handshake_secret(namespace, random).data.dom() =~= set!["secret"@]);
}

/// Each secret holds the certificates that it is for, in the namespace that it is
/// for.
pub proof fn secrets_hold_their_certificates(
    namespace: &str,
    bundle: &PkiBundle,
    random: &[u8],
    client: SecretManifest,
    server: SecretManifest,
    ca: SecretManifest,
    handshake: SecretManifest,
)
    requires
        call_ensures(k8s_init::ensure_client_tls_secret, (namespace, bundle), client),
        call_ensures(k8s_init::ensure_server_tls_secret, (namespace, bundle), server),
        call_ensures(k8s_init::ensure_server_client_ca_secret, (namespace, bundle), ca),
        call_ensures(k8s_init::ensure_ssh_handshake_secret, (namespace, random), handshake),
    ensures
        is_for_clients(client@, bundle@) && client@.namespace == namespace@,
        is_for_the_server(server@, bundle@) && server@.namespace == namespace@,
        verifies_clients(ca@, bundle@) && ca@.namespace == namespace@,
        is_for_handshakes(handshake@, random@) && handshake@.namespace == namespace@,
{
    lemma_secrets(namespace@, bundle@, random@);
}

/// The secrets that a run writes hold the certificates and the random bytes that it
/// was given, in the namespace that was asked for; and it creates the very secret
/// that it looked for before.
pub proof fn run_writes_its_secrets(
    request: ClusterRequest,
    steps: Seq<InitStep>,
    events: Seq<InitEvent>,
    i: int,
)
    requires
        cluster_run(request, steps, events),
        0 <= i < steps.len(),
    ensures
        steps[i] matches InitStep::Act(run, InitAction::ApplySecret(s)) ==> {
            let b = bundle_seen(events.take(i))->0;
            &&& bundle_seen(events.take(i)) is Some
            &&& s@.namespace == request@.namespace
            &&& match run.stage {
                InitStage::ClientSecret => is_for_clients(s@, b),
                InitStage::ServerSecret => is_for_the_server(s@, b),
                InitStage::ClientCaSecret => verifies_clients(s@, b),
                _ => false,
            }
        },
        steps[i] matches InitStep::Act(_, InitAction::CreateSecret(s)) ==> {
            &&& random_seen(events.take(i)) matches Some(random) && is_for_handshakes(s@, random)
            &&& s@.namespace == request@.namespace
        },
        steps[i] matches InitStep::Act(_, InitAction::FindSecret { name, namespace }) ==> name@
            == "openshell-ssh-handshake"@ && namespace@ == request@.namespace,
        steps[i] matches InitStep::Act(_, InitAction::Random(n)) ==> n == 32,
{
    lemma_run(request, steps, events, i);
    if let InitStep::Act(run, action) = steps[i] {
        lemma_secrets(request@.namespace, run@.bundle, run@.random);
        match action {
            InitAction::ApplySecret(s) => {
                assert(action@ == InitActionView::ApplySecret(s@));
            },
            InitAction::CreateSecret(s) => {
                assert(action@ == InitActionView::CreateSecret(s@));
                assert(run@.stage == InitStage::CreateHandshake);
            },
            _ => {},
        }
    }
}

// ---------------------------------------------------------------------------
// This host
// ---------------------------------------------------------------------------

/// Whether a description is that of the gateway of a cluster: it is reached on this
/// host at the port of the chart, and clients show certificates.
pub open spec fn describes_gateway(m: GatewayMetadataView, gateway_name: Seq<char>) -> bool {
    &&& m.name == gateway_name
    &&& m.gateway_endpoint == "https://127.0.0.1:30051"@
    &&& m.gateway_port == 30051
    &&& !m.is_remote
    &&& m.auth_mode == Some("mtls"@)
    &&& m.remote_host is None && m.resolved_host is None
    &&& m.edge_team_domain is None && m.edge_auth_url is None
    &&& m.oidc_issuer is None && m.oidc_client_id is None
    &&& m.oidc_audience is None && m.oidc_scopes is None
    &&& m.vm_driver_state_dir is None
}

proof fn lemma_metadata(gateway_name: Seq<char>)
    ensures
        describes_gateway(k8s_init::cluster_metadata(gateway_name), gateway_name),
{
    reveal_strlit("https://127.0.0.1:");
    reveal_strlit("https://127.0.0.1:30051");
    reveal_with_fuel(text::decimal, 6);
    assert(text::decimal(30051) =~= seq!['3', '0', '0', '5', '1']);
    assert("https://127.0.0.1:"@ + text::decimal(30051) =~= "https://127.0.0.1:30051"@);
}

/// The path at which a file with this name lies below a directory, where the name is
/// a plain one.
pub open spec fn below(dir: Seq<char>, name: Seq<char>) -> Seq<char> {
    if dir.len() == 0 || dir.last() == '/' {
        dir + name
    } else {
        dir + "/"@ + name
    }
}

proof fn lemma_below(dir: Seq<char>, name: Seq<char>)
    requires
        name.len() > 0 ==> name[0] != '/',
    ensures
        k8s_init::path_join(dir, name) == below(dir, name),
{
    reveal_strlit("/");
    assert(dir.push('/') + name =~= dir + "/"@ + name);
}

/// A path below another lies there, and an absolute one stands for itself.
pub proof fn paths_are_joined(base: &str, part: &str, r: String)
    requires
        call_ensures(k8s_init::join_path, (base, part), r),
    ensures
        part@.len() > 0 && part@[0] == '/' ==> r@ == part@,
        !(part@.len() > 0 && part@[0] == '/') ==> r@ == below(base@, part@),
{
    if !(part@.len() > 0 && part@[0] == '/') {
        lemma_below(base@, part@);
    }
}

/// Whether files are those that clients of this host need: what the secret for
/// clients holds, under the same names.
pub open spec fn are_for_clients(
    files: Seq<(Seq<char>, Seq<char>)>,
    dir: Seq<char>,
    b: PkiBundleView,
) -> bool {
    files == seq![
        (below(dir, "tls.crt"@), b.client_cert_pem),
        (below(dir, "tls.key"@), b.client_key_pem),
        (below(dir, "ca.crt"@), b.ca_cert_pem),
    ]
}

proof fn lemma_files(dir: Seq<char>, b: PkiBundleView)
    ensures
        are_for_clients(k8s_init::mtls_files(dir, b), dir, b),
{
    reveal_strlit("tls.crt");
    reveal_strlit("tls.key");
    reveal_strlit("ca.crt");
    lemma_below(dir, "tls.crt"@);
    lemma_below(dir, "tls.key"@);
    lemma_below(dir, "ca.crt"@);
}

/// What is kept of a gateway on this host is its own: a directory of its name below
/// the home directory, with what clients need, and a description of it.
pub proof fn gateway_is_kept_under_its_name(
    home: &str,
    gateway_name: &str,
    path: String,
    dir: &str,
    bundle: &PkiBundle,
    files: Vec<(String, String)>,
    metadata: GatewayMetadata,
)
    requires
        call_ensures(k8s_init::mtls_path, (home, gateway_name), path),
        call_ensures(k8s_init::client_files, (dir, bundle), files),
        call_ensures(k8s_init::gateway_metadata, (gateway_name,), metadata),
    ensures
        gateway_name@.len() > 0 && gateway_name@[0] != '/' && gateway_name@.last() != '/'
            ==> path@ == below(home@, ".config/openshell/gateways/"@ + gateway_name@ + "/mtls"@),
        are_for_clients(text::pair_views(files@), dir@, bundle@),
        describes_gateway(metadata@, gateway_name@),
{
    lemma_files(dir@, bundle@);
    lemma_metadata(gateway_name@);
    if gateway_name@.len() > 0 && gateway_name@[0] != '/' && gateway_name@.last() != '/' {
        lemma_dir(home@, gateway_name@);
    }
}

proof fn lemma_dir(home: Seq<char>, gateway_name: Seq<char>)
    requires
        gateway_name.len() > 0,
        gateway_name[0] != '/',
        gateway_name.last() != '/',
    ensures
        k8s_init::mtls_dir(home, gateway_name) == below(
            home,
            ".config/openshell/gateways/"@ + gateway_name + "/mtls"@,
        ),
{
    reveal_strlit(".config");
    reveal_strlit("openshell");
    reveal_strlit("gateways");
    reveal_strlit("mtls");
    reveal_strlit("/mtls");
    reveal_strlit("/");
    reveal_strlit(".config/openshell/gateways/");
    let config = k8s_init::path_join(home, ".config"@);
    assert(config.last() == 'g');
    let openshell = k8s_init::path_join(config, "openshell"@);
    assert(openshell.last() == 'l');
    let gateways = k8s_init::path_join(openshell, "gateways"@);
    assert(gateways.last() == 's');
    let gateway = k8s_init::path_join(gateways, gateway_name);
    assert(gateway.last() == gateway_name.last());
    assert(k8s_init::path_join(gateway, "mtls"@) =~= below(
        home,
        ".config/openshell/gateways/"@ + gateway_name + "/mtls"@,
    ));
}

/// What a run keeps on this host is of the gateway that was asked for, below the
/// home directory that was found, and the files are what the cluster's clients
/// need: the certificates that were loaded or generated.
pub proof fn run_keeps_its_gateway(
    request: ClusterRequest,
    steps: Seq<InitStep>,
    events: Seq<InitEvent>,
    i: int,
)
    requires
        cluster_run(request, steps, events),
        0 <= i < steps.len(),
    ensures
        steps[i] matches InitStep::Act(_, InitAction::WriteFiles { dir, files }) ==> {
            let name = request@.gateway_name;
            &&& home_seen(events.take(i)) matches Some(home) && (name.len() > 0 && name[0] != '/'
                && name.last() != '/' ==> dir@ == below(
                home,
                ".config/openshell/gateways/"@ + name + "/mtls"@,
            ))
            &&& bundle_seen(events.take(i)) matches Some(b) && are_for_clients(
                text::pair_views(files@),
                dir@,
                b,
            )
        },
        steps[i] matches InitStep::Act(_, InitAction::StoreMetadata(m)) ==> describes_gateway(
            m@,
            request@.gateway_name,
        ),
        steps[i] matches InitStep::Act(_, InitAction::SetActive(n)) ==> n@
            == request@.gateway_name,
{
    lemma_run(request, steps, events, i);
    if let InitStep::Act(run, action) = steps[i] {
        match action {
            InitAction::WriteFiles { dir, files } => {
                assert(run@.stage == InitStage::WriteFiles);
                assert(action@ == (InitActionView::WriteFiles {
                    dir: dir@,
                    files: text::pair_views(files@),
                }));
                lemma_files(dir@, run@.bundle);
                let name = request@.gateway_name;
                if name.len() > 0 && name[0] != '/' && name.last() != '/' {
                    lemma_dir(run@.home, name);
                }
            },
            InitAction::StoreMetadata(m) => {
                assert(action@ == InitActionView::StoreMetadata(m@));
                lemma_metadata(request@.gateway_name);
            },
            InitAction::SetActive(n) => {
                assert(action@ == InitActionView::SetActive(n@));
            },
            _ => {},
        }
    }
}

// ---------------------------------------------------------------------------
// Order and end
// ---------------------------------------------------------------------------

/// Whether pushes are over with success: the one push, or both.
pub open spec fn images_are_pushed(past: Seq<InitEvent>, stage: InitStage, ok: bool) -> bool {
    if stage == InitStage::PushSecond {
        ok && past.last() == InitEvent::Pushed(true)
    } else {
        ok
    }
}

/// Whether images came along, and it is not said how the registry is told who
/// pushes: there is a user name, and nothing to show for it.
pub open spec fn push_is_refused(request: ClusterRequestView, event: InitEvent) -> bool {
    &&& event matches InitEvent::Probed { core, gateway, supervisor } && (core || (gateway
        && supervisor))
    &&& request.registry_authfile is None
    &&& request.registry_token is None
    &&& request.registry_username is Some
}

/// Whether what came of an action ends a run.
pub open spec fn run_fails(
    request: ClusterRequestView,
    past: Seq<InitEvent>,
    run: ClusterInitView,
    event: InitEvent,
) -> bool {
    match event {
        InitEvent::Done(r) => r is Err,
        InitEvent::Loaded(r) => r is Err,
        InitEvent::Generated(r) => r is Err,
        InitEvent::Random(outcome) => !(outcome is Bytes),
        InitEvent::TempDir(r) => r is Err,
        InitEvent::LoggedIn(outcome) => !(outcome matches LoginOutcome::Finished { success, .. }
            && success),
        InitEvent::HelmRan(outcome) => !(outcome matches HelmOutcome::Finished { success, .. }
            && success),
        InitEvent::Home(home) => home is None,
        InitEvent::Pushed(ok) => !(run.stage == InitStage::PushFirst && !archives_seen(past).0)
            && !images_are_pushed(past, run.stage, ok),
        InitEvent::Probed { .. } => push_is_refused(request, event),
        _ => false,
    }
}

/// Which action comes after which, by what came of it.
pub open spec fn comes_next(
    request: ClusterRequestView,
    past: Seq<InitEvent>,
    run: ClusterInitView,
    action: InitAction,
    event: InitEvent,
    next: InitAction,
) -> bool {
    match action {
        InitAction::Connect => next matches InitAction::ApplyNamespace(n) && n@
            == request.namespace,
        InitAction::ApplyNamespace(_) => next matches InitAction::LoadPki(n) && n@
            == request.namespace,
        InitAction::LoadPki(_) => if event matches InitEvent::Loaded(Ok(Some(_))) {
            next is FindSecret
        } else {
            next is GeneratePki
        },
        InitAction::GeneratePki => next matches InitAction::ApplySecret(s) && s@.name
            == "openshell-client-tls"@,
        InitAction::ApplySecret(s) => if s@.name == "openshell-client-tls"@ {
            next matches InitAction::ApplySecret(t) && t@.name == "openshell-server-tls"@
        } else if s@.name == "openshell-server-tls"@ {
            next matches InitAction::ApplySecret(t) && t@.name == "openshell-server-client-ca"@
        } else {
            next is FindSecret
        },
        InitAction::FindSecret { .. } => if event == InitEvent::Found(true) {
            next matches InitAction::ApplyManifests(n) && n@ == request.namespace
        } else {
            next is Random
        },
        InitAction::Random(_) => next is CreateSecret,
        InitAction::CreateSecret(_) => next matches InitAction::ApplyManifests(n) && n@
            == request.namespace,
        InitAction::ApplyManifests(_) => next matches InitAction::AdoptLegacy(n) && n@
            == request.namespace,
        InitAction::AdoptLegacy(_) => next is ReadSettings,
        InitAction::ReadSettings => if event matches InitEvent::SettingsRead(s)
            && s@.images_dir is Some {
            next is Probe
        } else {
            next is Helm
        },
        InitAction::Probe { .. } => if event matches InitEvent::Probed { core, gateway, supervisor }
            && (core || (gateway && supervisor)) {
            if request.registry_authfile is None && request.registry_token is Some {
                next is MakeTempDir
            } else {
                next is Push
            }
        } else {
            next is Helm
        },
        InitAction::MakeTempDir => next is Login,
        InitAction::Login(_) => next is Push,
        InitAction::Push(_) => if run.stage == InitStage::PushFirst && !archives_seen(past).0 {
            next is Push
        } else {
            next is Helm
        },
        InitAction::Helm(_) => next is FindHome,
        InitAction::FindHome => next is WriteFiles,
        InitAction::WriteFiles { .. } => next is StoreMetadata,
        InitAction::StoreMetadata(_) => next is SetActive,
        InitAction::SetActive(_) => false,
    }
}

proof fn lemma_names()
    ensures
        "openshell-client-tls"@ != "openshell-server-tls"@,
        "openshell-client-tls"@ != "openshell-server-client-ca"@,
        "openshell-server-tls"@ != "openshell-server-client-ca"@,
{
    reveal_strlit("openshell-client-tls");
    reveal_strlit("openshell-server-tls");
    reveal_strlit("openshell-server-client-ca");
    assert("openshell-client-tls"@[10] == 'c' && "openshell-server-tls"@[10] == 's');
    assert("openshell-client-tls"@.len() == 20 && "openshell-server-tls"@.len() == 20);
    assert("openshell-server-client-ca"@.len() == 26);
}

/// The actions of a run come in order, each once its predecessor is done. The run
/// ends with success if and only if the last of them is done, and with a failure if
/// and only if what came of an action is one.
pub proof fn run_goes_on_in_order(
    request: ClusterRequest,
    steps: Seq<InitStep>,
    events: Seq<InitEvent>,
    i: int,
)
    requires
        cluster_run(request, steps, events),
        0 <= i < events.len(),
    ensures
        steps[i] matches InitStep::Act(run, action) && match steps[i + 1] {
            InitStep::Act(_, next) => !run_fails(request@, events.take(i), run@, events[i])
                && comes_next(request@, events.take(i), run@, action, events[i], next),
            InitStep::Done(Ok(_)) => action is SetActive && (events[i] matches InitEvent::Done(Ok(_))),
            InitStep::Done(Err(_)) => run_fails(request@, events.take(i), run@, events[i]),
        },
{
    lemma_run(request, steps, events, i);
    lemma_run(request, steps, events, i + 1);
    lemma_names();
    assert(run_follows(steps[i], events[i], steps[i + 1]));
    let past = events.take(i);
    if let InitStep::Act(run, action) = steps[i] {
        match steps[i + 1] {
            InitStep::Act(later, next) => {
                assert(steps[i + 1]@ == InitStepView::Act(later@, next@));
            },
            InitStep::Done(Ok(u)) => {
                assert(steps[i + 1]@ == InitStepView::Done(Ok(u)));
            },
            InitStep::Done(Err(e)) => {
                assert(steps[i + 1]@ == InitStepView::Done(Err(e@)));
            },
        }
        match action {
            InitAction::ApplySecret(s) => {
                assert(action@ == InitActionView::ApplySecret(s@));
            },
            _ => {},
        }
    }
}

/// A run begins by connecting to the cluster.
pub proof fn run_begins_with_a_connection(
    request: ClusterRequest,
    steps: Seq<InitStep>,
    events: Seq<InitEvent>,
)
    requires
        cluster_run(request, steps, events),
    ensures
        steps[0] matches InitStep::Act(_, InitAction::Connect),
{
    match steps[0] {
        InitStep::Act(run, action) => {
            assert(steps[0]@ == InitStepView::Act(run@, action@));
        },
        InitStep::Done(_) => {},
    }
}

/// A run that succeeds has connected and applied the namespace first; at its end it
/// has installed the gateway, with success, written the files, noted the gateway and
/// made it the active one.
pub proof fn successful_run_did_it_all(
    request: ClusterRequest,
    steps: Seq<InitStep>,
    events: Seq<InitEvent>,
)
    requires
        cluster_run(request, steps, events),
        steps.last() matches InitStep::Done(Ok(_)),
    ensures
        ({
            let n = events.len() as int;
            &&& n >= 8
            &&& steps[0] matches InitStep::Act(_, InitAction::Connect)
            &&& steps[1] matches InitStep::Act(_, InitAction::ApplyNamespace(_))
            &&& steps[2] matches InitStep::Act(_, InitAction::LoadPki(_))
            &&& steps[n - 5] matches InitStep::Act(_, InitAction::Helm(_))
            &&& events[n - 5] matches InitEvent::HelmRan(HelmOutcome::Finished { success, .. })
                && success
            &&& steps[n - 4] matches InitStep::Act(_, InitAction::FindHome)
            &&& steps[n - 3] matches InitStep::Act(_, InitAction::WriteFiles { .. })
            &&& events[n - 3] matches InitEvent::Done(Ok(_))
            &&& steps[n - 2] matches InitStep::Act(_, InitAction::StoreMetadata(_))
            &&& events[n - 2] matches InitEvent::Done(Ok(_))
            &&& steps[n - 1] matches InitStep::Act(_, InitAction::SetActive(_))
            &&& events[n - 1] matches InitEvent::Done(Ok(_))
        }),
{
    let n = events.len() as int;
    run_begins_with_a_connection(request, steps, events);
    assert(n > 0);
    run_goes_on_in_order(request, steps, events, 0);
    run_goes_on_in_order(request, steps, events, n - 1);
    lemma_back(request, steps, events, n - 1);
    lemma_back(request, steps, events, n - 2);
    lemma_back(request, steps, events, n - 3);
    lemma_back(request, steps, events, n - 4);
    lemma_place(request, steps, events, n - 5);
    assert(n >= 8);
    run_goes_on_in_order(request, steps, events, 1);
    run_goes_on_in_order(request, steps, events, 2);
    assert(steps[0int + 1] == steps[1] && steps[1int + 1] == steps[2]);
    assert(steps[1]->Act_1 is ApplyNamespace);
    assert(steps[2]->Act_1 is LoadPki);
}

/// Where an action stands in a run at the earliest.
spec fn earliest(action: InitAction) -> int {
    match action {
        InitAction::Connect => 0,
        InitAction::ApplyNamespace(_) => 1,
        InitAction::LoadPki(_) => 2,
        _ => 3,
    }
}

proof fn lemma_place(
    request: ClusterRequest,
    steps: Seq<InitStep>,
    events: Seq<InitEvent>,
    i: int,
)
    requires
        cluster_run(request, steps, events),
        0 <= i < steps.len(),
    ensures
        steps[i] matches InitStep::Act(_, action) ==> i >= earliest(action),
    decreases i,
{
    if i == 0 {
        run_begins_with_a_connection(request, steps, events);
    } else {
        lemma_place(request, steps, events, i - 1);
        run_goes_on_in_order(request, steps, events, i - 1);
        assert(steps[i - 1 + 1] == steps[i]);
        if i > 1 {
            lemma_place(request, steps, events, i - 2);
            run_goes_on_in_order(request, steps, events, i - 2);
            assert(steps[i - 2 + 1] == steps[i - 1]);
        }
    }
}

proof fn lemma_back(
    request: ClusterRequest,
    steps: Seq<InitStep>,
    events: Seq<InitEvent>,
    i: int,
)
    requires
        cluster_run(request, steps, events),
        0 <= i < events.len(),
    ensures
        steps[i] matches InitStep::Act(_, action) && (match action {
            InitAction::SetActive(_) => i > 0 && (steps[i - 1] matches InitStep::Act(
                _,
                InitAction::StoreMetadata(_),
            )) && (events[i - 1] matches InitEvent::Done(Ok(_))),
            InitAction::StoreMetadata(_) => i > 0 && (steps[i - 1] matches InitStep::Act(
                _,
                InitAction::WriteFiles { .. },
            )) && (events[i - 1] matches InitEvent::Done(Ok(_))),
            InitAction::WriteFiles { .. } => i > 0 && (steps[i - 1] matches InitStep::Act(
                _,
                InitAction::FindHome,
            )),
            InitAction::FindHome => i > 0 && (steps[i - 1] matches InitStep::Act(
                _,
                InitAction::Helm(_),
            )) && (events[i - 1] matches InitEvent::HelmRan(HelmOutcome::Finished { success, .. })
                && success),
            _ => true,
        }),
{
    run_goes_on_in_order(request, steps, events, i);
    if i == 0 {
        run_begins_with_a_connection(request, steps, events);
    } else {
        run_goes_on_in_order(request, steps, events, i - 1);
        assert(steps[i - 1 + 1] == steps[i]);
        lemma_run(request, steps, events, i - 1);
        assert(run_follows(steps[i - 1], events[i - 1], steps[i - 1 + 1]));
    }
}

/// What is said of a failure: what was tried, where that is said, and what went
/// wrong.
pub open spec fn failure_said(
    request: ClusterRequestView,
    action: InitAction,
    event: InitEvent,
) -> (Option<Seq<char>>, Seq<char>) {
    match event {
        InitEvent::Done(Err(m)) => (
            match action {
                InitAction::Connect => Some("failed to create Kubernetes client"@),
                InitAction::ApplyNamespace(_) => Some("failed to apply namespace"@),
                InitAction::ApplySecret(s) => if s@.name == "openshell-client-tls"@ {
                    Some("failed to apply client TLS secret"@)
                } else if s@.name == "openshell-server-tls"@ {
                    Some("failed to apply server TLS secret"@)
                } else {
                    Some("failed to apply server client CA secret"@)
                },
                InitAction::CreateSecret(_) => Some("failed to create ssh handshake secret"@),
                _ => None,
            },
            m@,
        ),
        InitEvent::Loaded(Err(m)) => (None, m@),
        InitEvent::Generated(Err(m)) => (Some("failed to generate PKI"@), m@),
        InitEvent::Random(RandomOutcome::OpenFailed(m)) => (
            Some("failed to open /dev/urandom"@),
            m@,
        ),
        InitEvent::Random(RandomOutcome::ReadFailed(m)) => (
            Some("failed to read from /dev/urandom"@),
            m@,
        ),
        InitEvent::TempDir(Err(m)) => (
            Some("Failed to create temporary directory for secure auth"@),
            m@,
        ),
        InitEvent::LoggedIn(LoginOutcome::SpawnFailed(m)) => (
            Some("Failed to spawn skopeo login"@),
            m@,
        ),
        InitEvent::LoggedIn(LoginOutcome::WriteFailed(m)) => (None, m@),
        InitEvent::LoggedIn(LoginOutcome::WaitFailed(m)) => (
            Some("Failed to wait on skopeo login"@),
            m@,
        ),
        InitEvent::LoggedIn(LoginOutcome::Finished { stderr, .. }) => (
            None,
            "Failed to authenticate with registry using skopeo login. Error:\n"@ + text::trimmed(
                stderr@,
            ),
        ),
        InitEvent::HelmRan(HelmOutcome::ExecFailed(m)) => (
            Some("Failed to execute helm upgrade"@),
            m@,
        ),
        InitEvent::HelmRan(HelmOutcome::Finished { status, .. }) => (
            None,
            "Helm upgrade failed with status: "@ + status@,
        ),
        InitEvent::Pushed(_) => (
            None,
            "Local registry is not available or unreachable at "@ + request.registry + "."@,
        ),
        InitEvent::Probed { .. } => (
            None,
            "A registry token/password must be provided when a username is specified."@,
        ),
        _ => (None, "Could not find home directory"@),
    }
}

/// A run that fails says what it tried last, and what went wrong.
pub proof fn failed_run_says_why(
    request: ClusterRequest,
    steps: Seq<InitStep>,
    events: Seq<InitEvent>,
)
    requires
        cluster_run(request, steps, events),
        steps.last() matches InitStep::Done(Err(_)),
    ensures
        events.len() > 0,
        steps[events.len() - 1] matches InitStep::Act(_, action) && (
            steps.last()->Done_0->Err_0@.context,
            steps.last()->Done_0->Err_0@.message,
        ) == failure_said(request@, action, events.last()),
{
    let i = events.len() - 1;
    lemma_names();
    run_begins_with_a_connection(request, steps, events);
    lemma_run(request, steps, events, i);
    run_goes_on_in_order(request, steps, events, i);
    assert(run_follows(steps[i], events[i], steps[i + 1]));
    if let InitStep::Done(Err(e)) = steps[i + 1] {
        assert(steps[i + 1]@ == InitStepView::Done(Err(e@)));
        if let InitStep::Act(_, InitAction::ApplySecret(s)) = steps[i] {
            assert(steps[i]->Act_1@ == InitActionView::ApplySecret(s@));
        }
    }
}

/// Which events an action takes.
pub proof fn events_fit_their_actions(run: &ClusterInit, event: &InitEvent, r: bool)
    requires
        call_ensures(ClusterInit::accepts, (run, event), r),
    ensures
        r == (match k8s_init::action_of(run@) {
            InitActionView::LoadPki(_) => event is Loaded,
            InitActionView::GeneratePki => event is Generated,
            InitActionView::FindSecret { .. } => event is Found,
            InitActionView::Random(_) => event is Random,
            InitActionView::ReadSettings => event is SettingsRead,
            InitActionView::Probe { .. } => event is Probed,
            InitActionView::MakeTempDir => event is TempDir,
            InitActionView::Login(_) => event is LoggedIn,
            InitActionView::Push(_) => event is Pushed,
            InitActionView::Helm(_) => event is HelmRan,
            InitActionView::FindHome => event is Home,
            _ => event is Done,
        }),
{
}

// ---------------------------------------------------------------------------
// Manifests
// ---------------------------------------------------------------------------

/// Whether an object is what a document holds: with the kind, the namespace and the
/// name that it says, and all its contents. The API version of its kind is `group`,
/// a slash and `version`, or `version` alone.
pub open spec fn is_object_of(o: ManifestObjectView, doc: Yaml) -> bool {
    apply::object_read(doc) matches Ok(read) && {
        &&& o.contents == read.contents
        &&& o.namespace == read.header.namespace
        &&& o.name == read.header.name
        &&& read.header.types matches Some((api_version, kind)) && {
            &&& o.gvk.kind == kind
            &&& !o.gvk.group.contains('/')
            &&& api_version.contains('/') ==> api_version == o.gvk.group + seq!['/']
                + o.gvk.version
            &&& !api_version.contains('/') ==> api_version == o.gvk.version && o.gvk.group.len()
                == 0
        }
    }
}

/// Whether the documents that are left begin with this one, but for documents that
/// hold nothing, and end with these.
pub open spec fn begins_with(docs: Seq<Yaml>, doc: Yaml, rest: Seq<Yaml>) -> bool {
    exists|n: int|
        0 <= n < docs.len() && #[trigger] docs[n] == doc && docs.skip(n + 1) == rest && !(
        apply::untagged(doc) is Null) && forall|k: int|
            0 <= k < n ==> apply::untagged(#[trigger] docs[k]) is Null
}

/// Whether none of the documents that are left holds anything.
pub open spec fn all_are_empty(docs: Seq<Yaml>) -> bool {
    forall|k: int| 0 <= k < docs.len() ==> apply::untagged(#[trigger] docs[k]) is Null
}

proof fn lemma_skip_nulls(docs: Seq<Yaml>)
    ensures
        apply::skip_nulls(docs).len() == 0 ==> all_are_empty(docs),
        apply::skip_nulls(docs).len() > 0 ==> begins_with(
            docs,
            apply::skip_nulls(docs)[0],
            apply::skip_nulls(docs).drop_first(),
        ),
    decreases docs.len(),
{
    if docs.len() > 0 && apply::untagged(docs[0]) is Null {
        let later = docs.drop_first();
        lemma_skip_nulls(later);
        let left = apply::skip_nulls(docs);
        if left.len() == 0 {
            assert forall|k: int| 0 <= k < docs.len() implies apply::untagged(
                #[trigger] docs[k],
            ) is Null by {
                if k > 0 {
                    assert(docs[k] == later[k - 1]);
                }
            }
        } else {
            let n = choose|n: int|
                0 <= n < later.len() && #[trigger] later[n] == left[0] && later.skip(n + 1)
                    == left.drop_first() && !(apply::untagged(left[0]) is Null) && forall|k: int|
                    0 <= k < n ==> apply::untagged(#[trigger] later[k]) is Null;
            assert(docs[n + 1] == left[0]);
            assert(docs.skip(n + 1 + 1) =~= later.skip(n + 1));
            assert forall|k: int| 0 <= k < n + 1 implies apply::untagged(
                #[trigger] docs[k],
            ) is Null by {
                if k > 0 {
                    assert(docs[k] == later[k - 1]);
                }
            }
        }
    } else if docs.len() > 0 {
        assert(docs.skip(0int + 1) =~= docs.drop_first());
        assert(docs[0] == apply::skip_nulls(docs)[0]);
    }
}

proof fn lemma_object(doc: Yaml)
    ensures
        match apply::document_object(doc) {
            Ok(o) => is_object_of(o, doc),
            Err(e) => match apply::object_read(doc) {
                Err(m) => e == ApplyErrorView::Yaml(m),
                Ok(read) => read.header.types is None && e == ApplyErrorView::MissingTypes,
            },
        },
{
    if let Ok(read) = apply::object_read(doc) {
        if let Some((api_version, kind)) = read.header.types {
            apply::group_version_round_trip(api_version);
            if !api_version.contains('/') {
                assert(apply::group_version(api_version).0.len() == 0);
            }
        }
    }
}

/// Whether a step goes on with the documents that are left: with the object of the
/// first one that holds something, in the same namespace; it ends where there is
/// none, and where what it holds is no object.
pub open spec fn goes_on_with(step: ApplyStep, docs: Seq<Yaml>, namespace: Seq<char>) -> bool {
    match step {
        ApplyStep::Resolve(run) => run.namespace@ == namespace && exists|doc: Yaml| #[trigger]
            begins_with(docs, doc, run.manifest@) && is_object_of(run.object@, doc),
        ApplyStep::Done(Ok(_)) => all_are_empty(docs),
        ApplyStep::Done(Err(e)) => e matches ApplyFailure::Manifest(why) && exists|
            doc: Yaml,
            rest: Seq<Yaml>,
        | #[trigger]
            begins_with(docs, doc, rest) && match apply::object_read(doc) {
                Err(m) => why@ == ApplyErrorView::Yaml(m),
                Ok(read) => read.header.types is None && why@ == ApplyErrorView::MissingTypes,
            },
        _ => false,
    }
}

proof fn lemma_goes_on(step: ApplyStep, docs: Seq<Yaml>, namespace: Seq<char>)
    requires
        step@ == apply::to_next_object(docs, namespace),
    ensures
        goes_on_with(step, docs, namespace),
{
    lemma_skip_nulls(docs);
    let left = apply::skip_nulls(docs);
    if left.len() > 0 {
        lemma_object(left[0]);
        assert(begins_with(docs, left[0], left.drop_first()));
    }
    match step {
        ApplyStep::Resolve(run) => {
            assert(step@ == (ApplyStepView::Resolve {
                docs: run.manifest@,
                namespace: run.namespace@,
                object: run.object@,
            }));
        },
        ApplyStep::Done(Ok(u)) => {
            assert(step@ == ApplyStepView::Done(Ok(u)));
        },
        ApplyStep::Done(Err(e)) => {
            assert(step@ == ApplyStepView::Done(Err(e@)));
            match e {
                ApplyFailure::Manifest(why) => {
                    assert(e@ == ApplyFailureView::Manifest(why@));
                },
                _ => {},
            }
        },
        _ => {},
    }
}

/// All documents of a manifest are read before anything is done. What kinds of
/// objects the cluster knows is then asked for, ten times at most; the first answer
/// goes on with the documents, and the last refusal is the end.
pub proof fn manifest_is_read_before_it_is_applied(
    yaml: &str,
    namespace: &str,
    first: ApplyStep,
    run: Discovering,
    discovered: Result<(), String>,
    next: ApplyStep,
)
    requires
        call_ensures(apply::apply_yaml, (yaml, namespace), first),
        call_ensures(Discovering::after, (run, discovered), next),
    ensures
        match apply::yaml_stream(yaml@) {
            Ok(docs) => first matches ApplyStep::Discover(d) && d.manifest@ == docs
                && d.namespace@ == namespace@ && d.failed == 0,
            Err(m) => first matches ApplyStep::Done(Err(ApplyFailure::Manifest(e))) && e@
                == ApplyErrorView::Yaml(m),
        },
        match discovered {
            Ok(_) => goes_on_with(next, run.manifest@, run.namespace@),
            Err(m) => if run.failed < 9 {
                next matches ApplyStep::Discover(d) && d.manifest@ == run.manifest@
                    && d.namespace@ == run.namespace@ && d.failed == run.failed + 1
            } else {
                next matches ApplyStep::Done(Err(ApplyFailure::Discovery(said))) && said@ == m@
            },
        },
{
    match first {
        ApplyStep::Done(Err(e)) => {
            assert(first@ == ApplyStepView::Done(Err(e@)));
        },
        _ => {},
    }
    match discovered {
        Ok(_) => {
            lemma_goes_on(next, run.manifest@, run.namespace@);
        },
        Err(m) => {
            match next {
                ApplyStep::Done(Err(e)) => {
                    assert(next@ == ApplyStepView::Done(Err(e@)));
                },
                _ => {},
            }
        },
    }
}

/// Whether a target is that of an object: it is applied under its own name; in its
/// own namespace, or in the given one where it asks for none; and in no namespace
/// where such objects live in none.
pub open spec fn is_target_of(
    t: PatchTarget,
    o: ManifestObjectView,
    in_namespace: bool,
    namespace: Seq<char>,
) -> bool {
    &&& o.name == Some(t.name@)
    &&& (t.namespace is Some) == in_namespace
    &&& in_namespace ==> match o.namespace {
        Some(own) => t.namespace->0@ == own,
        None => t.namespace->0@ == namespace,
    }
}

/// Where an object is applied, or why it is not: the cluster does not know its kind,
/// or it has no name.
pub proof fn objects_are_applied_where_they_belong(
    o: &ManifestObject,
    namespaced: Option<bool>,
    namespace: &str,
    r: Result<PatchTarget, ApplyError>,
    name: &str,
    said: String,
)
    requires
        call_ensures(ManifestObject::target, (o, namespaced, namespace), r),
        call_ensures(ManifestObject::failure, (o, name), said),
    ensures
        match r {
            Ok(t) => namespaced matches Some(in_namespace) && is_target_of(
                t,
                o@,
                in_namespace,
                namespace@,
            ),
            Err(e) => if namespaced is None {
                e matches ApplyError::UnknownKind { group, kind } && group@ == o@.gvk.group && kind@
                    == o@.gvk.kind
            } else {
                o@.name is None && (e matches ApplyError::MissingName { kind } && kind@
                    == o@.gvk.kind)
            },
        },
        said@ == "Failed to apply "@ + o@.gvk.kind + " "@ + name@,
{
    match r {
        Ok(t) => {},
        Err(e) => {
            match e {
                ApplyError::UnknownKind { group, kind } => {},
                ApplyError::MissingName { kind } => {},
                _ => {},
            }
        },
    }
}

/// The object that was found is the one that is sent, to where it belongs; the
/// documents that are left wait, and come next once it was sent. An object that is
/// refused ends the run with what was said.
pub proof fn found_object_is_sent(
    run: Resolving,
    namespaced: Option<bool>,
    next: ApplyStep,
    sending: Patching,
    sent: Result<(), String>,
    later: ApplyStep,
)
    requires
        call_ensures(Resolving::after, (run, namespaced), next),
        call_ensures(Patching::after, (sending, sent), later),
    ensures
        match next {
            ApplyStep::Patch(p) => p.object@ == run.object@ && p.manifest@ == run.manifest@
                && p.namespace@ == run.namespace@ && namespaced is Some && is_target_of(
                p.target,
                run.object@,
                namespaced->0,
                run.namespace@,
            ),
            ApplyStep::Done(Err(ApplyFailure::Manifest(_))) => namespaced is None
                || run.object@.name is None,
            _ => false,
        },
        match sent {
            Ok(_) => goes_on_with(later, sending.manifest@, sending.namespace@),
            Err(m) => later matches ApplyStep::Done(
                Err(ApplyFailure::Patch { context, message }),
            ) && message@ == m@ && context@ == "Failed to apply "@ + sending.object@.gvk.kind
                + " "@ + sending.target.name@,
        },
{
    match next {
        ApplyStep::Patch(p) => {
            assert(next@ == (ApplyStepView::Patch {
                docs: p.manifest@,
                namespace: p.namespace@,
                object: p.object@,
                target: (text::optional(p.target.namespace), p.target.name@),
            }));
        },
        ApplyStep::Done(Ok(u)) => {
            assert(next@ == ApplyStepView::Done(Ok(u)));
        },
        ApplyStep::Done(Err(e)) => {
            assert(next@ == ApplyStepView::Done(Err(e@)));
            match e {
                ApplyFailure::Manifest(why) => {},
                _ => {},
            }
        },
        _ => {},
    }
    match sent {
        Ok(_) => {
            lemma_goes_on(later, sending.manifest@, sending.namespace@);
        },
        Err(m) => {
            match later {
                ApplyStep::Done(Err(e)) => {
                    assert(later@ == ApplyStepView::Done(Err(e@)));
                },
                _ => {},
            }
        },
    }
}

/// An error says what is wrong: in the words of the library that found it, or of
/// which object.
pub proof fn manifest_errors_say_what_is_wrong(e: &ApplyError, r: String)
    requires
        call_ensures(ApplyError::text, (e,), r),
    ensures
        match *e {
            ApplyError::Yaml(y) => r@ == apply::yaml_error_text(y),
            ApplyError::GroupVersion(g) => r@ == apply::group_version_error_text(g),
            ApplyError::MissingTypes => r@ == "YAML object is missing type metadata"@,
            ApplyError::UnknownKind { group, kind } => r@ == "unknown GVK: "@ + group@ + "/"@
                + kind@,
            ApplyError::MissingName { kind } => r@ == "YAML object of kind '"@ + kind@
                + "' is missing a name"@,
        },
{
}

/// Which images came along: the one for both counts first, and the two others only
/// together.
pub proof fn bundles_are_complete(core: bool, gateway: bool, supervisor: bool, r: Bundled)
    requires
        call_ensures(k8s_init::detect_bundle, (core, gateway, supervisor), r),
    ensures
        (r == Bundled::CoreRock) == core,
        (r == Bundled::Archives) == (!core && gateway && supervisor),
        (r == Bundled::Nothing) == (!core && !(gateway && supervisor)),
{
}

/// What a lower-case hexadecimal digit stands for.
pub open spec fn digit_value(c: char) -> int {
    if '0' <= c <= '9' {
        c as int - '0' as int
    } else {
        c as int - 'a' as int + 10
    }
}

/// Each byte gives two lower-case hexadecimal digits, the higher first.
pub proof fn bytes_are_written_in_hexadecimal(bytes: &[u8], r: String, i: int)
    requires
        call_ensures(k8s_init::hex_text, (bytes,), r),
        0 <= i < bytes@.len(),
    ensures
        r@.len() == 2 * bytes@.len(),
        ('0' <= r@[2 * i] <= '9') || ('a' <= r@[2 * i] <= 'f'),
        ('0' <= r@[2 * i + 1] <= '9') || ('a' <= r@[2 * i + 1] <= 'f'),
        digit_value(r@[2 * i]) * 16 + digit_value(r@[2 * i + 1]) == bytes@[i] as int,
{
    k8s_init::hex_has_two_digits_per_byte(bytes@);
    lemma_hex(bytes@, i);
}

proof fn lemma_hex(bytes: Seq<u8>, i: int)
    requires
        0 <= i < bytes.len(),
    ensures
        k8s_init::hex(bytes).len() == 2 * bytes.len(),
        k8s_init::hex(bytes)[2 * i] == k8s_init::lower_hex(bytes[i] as int / 16),
        k8s_init::hex(bytes)[2 * i + 1] == k8s_init::lower_hex(bytes[i] as int % 16),
    decreases bytes.len(),
{
    k8s_init::hex_has_two_digits_per_byte(bytes);
    k8s_init::hex_has_two_digits_per_byte(bytes.drop_last());
    if i < bytes.len() - 1 {
        lemma_hex(bytes.drop_last(), i);
    }
}

/// What the action of a run says, whatever has been found out so far: a login and a
/// push go to the registry that was asked for, with the file of the run, and the
/// push and the search for archives are about the same directory.
pub proof fn actions_go_to_the_registry(run: &ClusterInit, action: InitAction)
    requires
        call_ensures(ClusterInit::action, (run,), action),
    ensures
        ({
            let r = run@;
            let dir = match r.settings.images_dir {
                Some(dir) => dir,
                None => Seq::empty(),
            };
            &&& action matches InitAction::Login(c) ==> c@.args.last() == r.request.registry
                && process::option_is(
                c@.args,
                "--authfile"@,
                match r.authfile {
                    Some(path) => path,
                    None => Seq::empty(),
                },
            )
            &&& action matches InitAction::Push(c) ==> {
                let (archive, image) = if r.bundled == Bundled::CoreRock {
                    ("openshell-core.rock"@, "/openshell-core:local"@)
                } else if r.stage == InitStage::PushFirst {
                    ("gateway.tar"@, "/openshell-gateway:dev"@)
                } else {
                    ("supervisor.tar"@, "/openshell-supervisor:dev"@)
                };
                pushes(
                    c@,
                    k8s_init::path_join(dir, archive),
                    r.request.registry + image,
                    r.settings.temp_dir,
                    r.authfile,
                )
            }
            &&& action matches InitAction::Probe { core, gateway, supervisor } ==> core@
                == k8s_init::path_join(dir, "openshell-core.rock"@) && gateway@
                == k8s_init::path_join(dir, "gateway.tar"@) && supervisor@ == k8s_init::path_join(
                dir,
                "supervisor.tar"@,
            )
        }),
{
    let r = run@;
    let dir = match r.settings.images_dir {
        Some(dir) => dir,
        None => Seq::empty(),
    };
    match action {
        InitAction::Login(c) => {
            assert(action@ == InitActionView::Login(c@));
            let args = c@.args;
            assert(args[1] == "--authfile"@ && args[1int + 1] == (match r.authfile {
                Some(path) => path,
                None => Seq::empty(),
            }));
        },
        InitAction::Push(c) => {
            assert(action@ == InitActionView::Push(c@));
            let (archive, image) = if r.bundled == Bundled::CoreRock {
                ("openshell-core.rock"@, "/openshell-core:local"@)
            } else if r.stage == InitStage::PushFirst {
                ("gateway.tar"@, "/openshell-gateway:dev"@)
            } else {
                ("supervisor.tar"@, "/openshell-supervisor:dev"@)
            };
            lemma_pushes(
                k8s_init::path_join(dir, archive),
                r.request.registry + image,
                r.settings.temp_dir,
                r.authfile,
            );
        },
        _ => {},
    }
}

} // verus!
