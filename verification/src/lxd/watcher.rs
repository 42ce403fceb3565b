//! Maps LXD instances and their lifecycle events to the watch protocol of
//! compute drivers.
use vstd::prelude::*;
use vstd::string::*;
use crate::compute;
use crate::compute::{
    ComputeDriverError, ComputeDriverErrorView, DriverCondition, DriverConditionView,
    DriverSandbox, DriverSandboxStatus, DriverSandboxStatusView, DriverSandboxView,
    WatchSandboxesEvent, WatchSandboxesEventView,
};
use crate::json::Json;
use crate::lxd::client;
use crate::lxd::client::{
    Instance, InstanceView, LxdApiError, LxdApiErrorView, LxdClient, LxdEvent, LxdRequest,
    LxdRequestView,
};
use crate::lxd::config::LxdComputeConfigView;
use crate::lxd::instance;
use crate::platform;
use crate::string_map;
use crate::text;

verus! {

/// Reason of the condition of an instance that runs.
pub const CONDITION_RUNNING: &'static str = "InstanceRunning";

/// Reason of the condition of an instance that is starting.
pub const CONDITION_STARTING: &'static str = "InstanceStarting";

/// Reason of the condition of an instance that has stopped.
pub const CONDITION_STOPPED: &'static str = "InstanceStopped";

// ---------------------------------------------------------------------------
// Conditions
// ---------------------------------------------------------------------------

/// The condition of an instance whose status is `lower`, in lower case.
pub open spec fn status_condition(lower: Seq<char>, status_code: i32) -> DriverConditionView {
    let code = text::signed_decimal(status_code as int);
    if lower == "running"@ {
        compute::condition_view("Ready"@, "True"@, CONDITION_RUNNING@, Seq::empty())
    } else if lower == "starting"@ {
        compute::condition_view("Ready"@, "False"@, CONDITION_STARTING@, Seq::empty())
    } else if lower == "stopped"@ {
        compute::condition_view(
            "Ready"@,
            "False"@,
            CONDITION_STOPPED@,
            "Instance stopped (code "@ + code + ")"@,
        )
    } else if lower == "frozen"@ {
        compute::condition_view("Ready"@, "False"@, "InstanceFrozen"@, "Instance is frozen"@)
    } else if lower == "error"@ {
        compute::condition_view(
            "Ready"@,
            "False"@,
            "InstanceError"@,
            "Instance in error state (code "@ + code + ")"@,
        )
    } else {
        compute::condition_view(
            "Ready"@,
            "Unknown"@,
            "Unknown"@,
            "Unknown instance status: "@ + lower,
        )
    }
}

/// Derives the condition from a status in lower case.
pub fn condition_for(lower: &str, status_code: i32) -> (r: DriverCondition)
    ensures
        r@ == status_condition(lower@, status_code),
{
    let code = text::i32_text(status_code);
    if text::same(lower, "running") {
        compute::condition("Ready", "True", CONDITION_RUNNING, String::new())
    } else if text::same(lower, "starting") {
        compute::condition("Ready", "False", CONDITION_STARTING, String::new())
    } else if text::same(lower, "stopped") {
        compute::condition(
            "Ready",
            "False",
            CONDITION_STOPPED,
            "Instance stopped (code ".to_owned().concat(code.as_str()).concat(")"),
        )
    } else if text::same(lower, "frozen") {
        compute::condition("Ready", "False", "InstanceFrozen", "Instance is frozen".to_owned())
    } else if text::same(lower, "error") {
        compute::condition(
            "Ready",
            "False",
            "InstanceError",
            "Instance in error state (code ".to_owned().concat(code.as_str()).concat(")"),
        )
    } else {
        compute::condition(
            "Ready",
            "Unknown",
            "Unknown",
            "Unknown instance status: ".to_owned().concat(lower),
        )
    }
}

/// Derives the condition from the status of an LXD instance, in whatever case it
/// is written.
pub fn condition_from_status(status: &str, status_code: i32) -> (r: DriverCondition)
    ensures
        r@ == status_condition(platform::lowercase(status@), status_code),
{
    condition_for(platform::to_lowercase(status).as_str(), status_code)
}

/// An instance is reported as ready if and only if it runs.
pub proof fn ready_iff_running(lower: Seq<char>, status_code: i32)
    ensures
        (status_condition(lower, status_code).status == "True"@) == (lower == "running"@),
{
    reveal_strlit("True");
    reveal_strlit("False");
    reveal_strlit("Unknown");
    assert("False"@.len() != "True"@.len());
    assert("Unknown"@.len() != "True"@.len());
}

// ---------------------------------------------------------------------------
// Sandboxes
// ---------------------------------------------------------------------------

/// The sandbox of an instance, as far as the driver knows it.
pub open spec fn observed_sandbox(
    id: Seq<char>,
    name: Seq<char>,
    instance_name: Seq<char>,
    instance_id: Seq<char>,
    condition: DriverConditionView,
    deleting: bool,
) -> DriverSandboxView {
    DriverSandboxView {
        id,
        name,
        namespace: Seq::empty(),
        spec: None,
        status: Some(
            DriverSandboxStatusView {
                sandbox_name: instance_name,
                instance_id,
                agent_fd: Seq::empty(),
                sandbox_fd: Seq::empty(),
                conditions: seq![condition],
                deleting,
            },
        ),
    }
}

/// Constructs a sandbox from common fields.
pub fn build_driver_sandbox(
    sandbox_id: String,
    sandbox_name: String,
    instance_name: String,
    instance_id: String,
    condition: DriverCondition,
    deleting: bool,
) -> (r: DriverSandbox)
    ensures
        r@ == observed_sandbox(
            sandbox_id@,
            sandbox_name@,
            instance_name@,
            instance_id@,
            condition@,
            deleting,
        ),
{
    let ghost view = condition@;
    let mut conditions: Vec<DriverCondition> = Vec::new();
    conditions.push(condition);
    proof {
        assert(compute::condition_views(conditions@) =~= seq![view]);
    }
    DriverSandbox {
        id: sandbox_id,
        name: sandbox_name,
        namespace: String::new(),
        spec: None,
        status: Some(
            DriverSandboxStatus {
                sandbox_name: instance_name,
                instance_id,
                agent_fd: String::new(),
                sandbox_fd: String::new(),
                conditions,
                deleting,
            },
        ),
    }
}

/// The sandbox that an instance stands for, given its status in lower case. An
/// instance without a sandbox identifier stands for none.
pub open spec fn sandbox_of(inst: InstanceView, lower: Seq<char>) -> Option<DriverSandboxView> {
    if inst.config.contains_key(instance::CONFIG_SANDBOX_ID@) {
        Some(
            observed_sandbox(
                inst.config[instance::CONFIG_SANDBOX_ID@],
                if inst.config.contains_key(instance::CONFIG_SANDBOX_NAME@) {
                    inst.config[instance::CONFIG_SANDBOX_NAME@]
                } else {
                    Seq::empty()
                },
                inst.name,
                text::first_chars(inst.name, 12),
                status_condition(lower, inst.status_code),
                lower == "deleting"@,
            ),
        )
    } else {
        None
    }
}

/// The view of a sandbox that may be absent.
pub open spec fn optional_sandbox(s: Option<DriverSandbox>) -> Option<DriverSandboxView> {
    match s {
        Some(sandbox) => Some(sandbox@),
        None => None,
    }
}

/// Builds the sandbox that an instance stands for, given its status in lower
/// case.
pub fn sandbox_with_status(inst: &Instance, lower: &str) -> (r: Option<DriverSandbox>)
    ensures
        optional_sandbox(r) == sandbox_of(inst@, lower@),
{
    match inst.config.get(instance::CONFIG_SANDBOX_ID) {
        None => None,
        Some(id) => {
            let name = match inst.config.get(instance::CONFIG_SANDBOX_NAME) {
                Some(name) => name.clone(),
                None => String::new(),
            };
            let condition = condition_for(lower, inst.status_code);
            let deleting = text::same(lower, "deleting");
            Some(
                build_driver_sandbox(
                    id.clone(),
                    name,
                    inst.name.clone(),
                    instance::short_id(inst.name.as_str()),
                    condition,
                    deleting,
                ),
            )
        },
    }
}

/// Builds the sandbox that an instance stands for.
pub fn driver_sandbox_from_instance(inst: &Instance) -> (r: Option<DriverSandbox>)
    ensures
        optional_sandbox(r) == sandbox_of(inst@, platform::lowercase(inst@.status)),
{
    sandbox_with_status(inst, platform::to_lowercase(inst.status.as_str()).as_str())
}

/// An instance that was created for a sandbox, and whose config is the one with
/// which it was created, stands for that sandbox: its identifier and its name
/// are read back.
pub proof fn created_instance_reads_back(
    sandbox: DriverSandboxView,
    config: LxdComputeConfigView,
    inst: InstanceView,
    lower: Seq<char>,
)
    requires
        forall|key: Seq<char>| #[trigger]
            instance::instance_config(sandbox, config).contains_key(key)
                ==> inst.config.contains_key(key) && Json::Text(inst.config[key])
                == instance::instance_config(sandbox, config)[key],
    ensures
        managed(inst),
        sandbox_of(inst, lower) matches Some(s) && s.id == sandbox.id && s.name == sandbox.name,
{
    instance::fixed_entries_are_kept(sandbox, config, instance::CONFIG_MANAGED@);
    instance::fixed_entries_are_kept(sandbox, config, instance::CONFIG_SANDBOX_ID@);
    instance::fixed_entries_are_kept(sandbox, config, instance::CONFIG_SANDBOX_NAME@);
    reveal_strlit("user.openshell.sandbox-id");
    reveal_strlit("user.openshell.sandbox-name");
    reveal_strlit("user.openshell.managed");
    reveal_strlit("limits.cpu");
    reveal_strlit("limits.memory");
    reveal_strlit("security.nesting");
    reveal_strlit("security.privileged");
    let fixed = instance::fixed_config(sandbox);
    assert(fixed[instance::CONFIG_MANAGED@] == Json::Text("true"@));
    assert(fixed[instance::CONFIG_SANDBOX_ID@] == Json::Text(sandbox.id));
    assert(fixed[instance::CONFIG_SANDBOX_NAME@] == Json::Text(sandbox.name));
}

/// Whether an instance is managed by the driver.
pub open spec fn managed(inst: InstanceView) -> bool {
    inst.config.contains_key(instance::CONFIG_MANAGED@) && inst.config[instance::CONFIG_MANAGED@]
        == "true"@
}

/// Whether an instance is managed by the driver.
pub fn is_managed(inst: &Instance) -> (r: bool)
    ensures
        r == managed(inst@),
{
    match inst.config.get(instance::CONFIG_MANAGED) {
        Some(v) => text::same(v.as_str(), "true"),
        None => false,
    }
}

/// The sandboxes that a list of instances stands for, in order: those of the
/// managed instances that have a sandbox identifier.
pub open spec fn managed_sandboxes(instances: Seq<InstanceView>) -> Seq<DriverSandboxView>
    decreases instances.len(),
{
    if instances.len() == 0 {
        Seq::empty()
    } else {
        let before = managed_sandboxes(instances.drop_last());
        let last = instances.last();
        if managed(last) {
            match sandbox_of(last, platform::lowercase(last.status)) {
                Some(s) => before.push(s),
                None => before,
            }
        } else {
            before
        }
    }
}

/// The views of a list of instances.
pub open spec fn instance_views(instances: Seq<Instance>) -> Seq<InstanceView> {
    instances.map_values(|i: Instance| i@)
}

/// Collects the sandboxes that a list of instances stands for.
pub fn sandboxes_of(instances: &Vec<Instance>) -> (r: Vec<DriverSandbox>)
    ensures
        compute::sandbox_views(r@) == managed_sandboxes(instance_views(instances@)),
{
    let mut r: Vec<DriverSandbox> = Vec::new();
    let ghost all = instance_views(instances@);
    let mut i: usize = 0;
    proof {
        assert(all.take(0) =~= Seq::empty());
        assert(compute::sandbox_views(r@) =~= Seq::empty());
    }
    while i < instances.len()
        invariant
            i <= instances.len(),
            all == instance_views(instances@),
            compute::sandbox_views(r@) == managed_sandboxes(all.take(i as int)),
        decreases instances.len() - i,
    {
        let inst = &instances[i];
        let ghost before = r@;
        proof {
            assert(all.take(i + 1).drop_last() =~= all.take(i as int));
            assert(all.take(i + 1).last() == inst@);
        }
        if is_managed(inst) {
            if let Some(sandbox) = driver_sandbox_from_instance(inst) {
                r.push(sandbox);
                proof {
                    assert(compute::sandbox_views(r@) =~= compute::sandbox_views(before).push(
                        sandbox@,
                    ));
                }
            }
        }
        i = i + 1;
    }
    proof {
        assert(all.take(all.len() as int) =~= all);
    }
    r
}

// ---------------------------------------------------------------------------
// Watch events
// ---------------------------------------------------------------------------

/// An event that carries a sandbox as it is now.
pub fn sandbox_event(sandbox: DriverSandbox) -> (r: WatchSandboxesEvent)
    ensures
        r@ == WatchSandboxesEventView::Sandbox(sandbox@),
{
    WatchSandboxesEvent::Sandbox(sandbox)
}

/// An event for a sandbox that was deleted.
pub fn deleted_event(sandbox_id: String) -> (r: WatchSandboxesEvent)
    ensures
        r@ == WatchSandboxesEventView::Deleted(sandbox_id@),
{
    WatchSandboxesEvent::Deleted(sandbox_id)
}

/// A watch that waits for its subscription to the event stream.
pub struct Subscribing {
    client: LxdClient,
}

/// A watch that has subscribed, and waits for the list of instances.
pub struct Listing {
    waiting: (),
}

/// What to do next to start a watch.
pub enum WatchStep {
    /// Open the event stream with this request, and come back with the answer.
    Subscribe(Subscribing, LxdRequest),
    /// List the instances with this request, and come back with the answer.
    List(Listing, LxdRequest),
    /// Tell the watcher these events, and then go on with the event stream.
    Tell(Vec<WatchSandboxesEvent>),
    /// The watch could not be started.
    Failed(LxdApiError),
}

pub enum WatchStepView {
    Subscribe { project: Seq<char>, call: LxdRequestView },
    List(LxdRequestView),
    Tell(Seq<WatchSandboxesEventView>),
    Failed(LxdApiErrorView),
}

impl Subscribing {
    /// The project whose instances are watched.
    pub closed spec fn project(&self) -> Seq<char> {
        self.client.project@
    }
}

impl View for WatchStep {
    type V = WatchStepView;

    open spec fn view(&self) -> WatchStepView {
        match self {
            WatchStep::Subscribe(run, q) => WatchStepView::Subscribe {
                project: run.project(),
                call: q@,
            },
            WatchStep::List(_, q) => WatchStepView::List(q@),
            WatchStep::Tell(events) => WatchStepView::Tell(compute::event_views(events@)),
            WatchStep::Failed(e) => WatchStepView::Failed(e@),
        }
    }
}

/// The first step of a watch.
pub open spec fn watch_start(project: Seq<char>) -> WatchStepView {
    WatchStepView::Subscribe { project, call: client::events_call(project) }
}

/// The step after the answer to the subscription.
pub open spec fn watch_subscribed(
    project: Seq<char>,
    answer: Result<(), LxdApiErrorView>,
) -> WatchStepView {
    match answer {
        Ok(_) => WatchStepView::List(client::list_call(project)),
        Err(e) => WatchStepView::Failed(e),
    }
}

/// The step after the answer to the list: one event for every managed sandbox.
pub open spec fn watch_listed(answer: Result<Seq<InstanceView>, LxdApiErrorView>) -> WatchStepView {
    match answer {
        Ok(instances) => WatchStepView::Tell(compute::told(managed_sandboxes(instances))),
        Err(e) => WatchStepView::Failed(e),
    }
}

/// The view of a list of instances that may have been refused.
pub open spec fn list_outcome(answer: Result<Vec<Instance>, LxdApiError>) -> Result<
    Seq<InstanceView>,
    LxdApiErrorView,
> {
    match answer {
        Ok(instances) => Ok(instance_views(instances@)),
        Err(e) => Err(e@),
    }
}

/// The first step of a watch: it subscribes to the event stream before it lists
/// the instances, so that no change in between is missed.
pub fn start_watch(client: &LxdClient) -> (r: WatchStep)
    ensures
        r@ == watch_start(client.project@),
{
    WatchStep::Subscribe(Subscribing { client: client.clone() }, client.events_stream())
}

impl Subscribing {
    /// The step after the answer to the subscription.
    pub fn after(self, answer: Result<(), LxdApiError>) -> (r: WatchStep)
        ensures
            r@ == watch_subscribed(self.project(), client::outcome(answer)),
    {
        match answer {
            Ok(()) => WatchStep::List(Listing { waiting: () }, self.client.list_instances()),
            Err(e) => WatchStep::Failed(e),
        }
    }
}

impl Listing {
    /// The step after the answer to the list.
    pub fn after(self, answer: Result<Vec<Instance>, LxdApiError>) -> (r: WatchStep)
        ensures
            r@ == watch_listed(list_outcome(answer)),
    {
        match answer {
            Ok(instances) => WatchStep::Tell(
                compute::snapshot_events(sandboxes_of(&instances)),
            ),
            Err(e) => WatchStep::Failed(e),
        }
    }
}

/// A watch lists the instances only once it has subscribed: the list is asked for
/// in the one step after a subscription that succeeded, and no other step leads
/// there.
pub proof fn watch_subscribes_before_it_lists(
    project: Seq<char>,
    subscribed: Result<(), LxdApiErrorView>,
    listed: Result<Seq<InstanceView>, LxdApiErrorView>,
)
    ensures
        watch_start(project) is Subscribe,
        (watch_subscribed(project, subscribed) is List) == (subscribed is Ok),
        !(watch_listed(listed) is List),
{
}

/// The error when the receiver of a watch goes away while it starts.
pub fn receiver_dropped() -> (r: LxdApiError)
    ensures
        r@ == LxdApiErrorView::Connection("watch receiver dropped during initial sync"@),
{
    LxdApiError::Connection("watch receiver dropped during initial sync".to_owned())
}

/// What the watcher is told of an error in the event stream.
pub fn stream_error(error: &LxdApiError) -> (r: ComputeDriverError)
    ensures
        r@ == ComputeDriverErrorView::Message(client::error_text(error@)),
{
    ComputeDriverError::Message(error.text())
}

/// What the watcher is told at the end of the event stream.
pub fn stream_ended() -> (r: ComputeDriverError)
    ensures
        r@ == ComputeDriverErrorView::Message("LXD event stream ended unexpectedly"@),
{
    ComputeDriverError::Message("LXD event stream ended unexpectedly".to_owned())
}

/// What to do with a lifecycle event.
pub enum EventAction {
    /// Nothing: the event is of no concern to watchers.
    Ignore,
    /// Tell the watchers.
    Emit(WatchSandboxesEvent),
    /// Read the instance, and go on with [`after_fetch`].
    Fetch(LxdRequest),
}

pub enum EventActionView {
    Ignore,
    Emit(WatchSandboxesEventView),
    Fetch(LxdRequestView),
}

impl View for EventAction {
    type V = EventActionView;

    open spec fn view(&self) -> EventActionView {
        match self {
            EventAction::Ignore => EventActionView::Ignore,
            EventAction::Emit(e) => EventActionView::Emit(e@),
            EventAction::Fetch(q) => EventActionView::Fetch(q@),
        }
    }
}

/// Whether an action changes the state of an instance that goes on to exist.
pub open spec fn state_action(action: Seq<char>) -> bool {
    ||| action == "instance-created"@
    ||| action == "instance-started"@
    ||| action == "instance-stopped"@
    ||| action == "instance-shutdown"@
    ||| action == "instance-restarted"@
}

/// What is done with an event about an instance of a sandbox.
pub open spec fn instance_action(
    action: Seq<char>,
    name: Seq<char>,
    context: Map<Seq<char>, Seq<char>>,
    project: Seq<char>,
) -> EventActionView {
    if action == "instance-deleted"@ {
        EventActionView::Emit(
            WatchSandboxesEventView::Deleted(
                if context.contains_key("sandbox-id"@) {
                    context["sandbox-id"@]
                } else {
                    name
                },
            ),
        )
    } else if state_action(action) && client::valid_name(name) {
        EventActionView::Fetch(client::get_call(name, project))
    } else {
        EventActionView::Ignore
    }
}

/// What is done with an event. Only lifecycle events count, and of these only
/// those whose source, such as `/1.0/instances/<name>`, names an instance of a
/// sandbox.
pub open spec fn event_action(event: LxdEvent, project: Seq<char>) -> EventActionView {
    if event.event_type@ != "lifecycle"@ {
        EventActionView::Ignore
    } else {
        match event.metadata {
            None => EventActionView::Ignore,
            Some(metadata) => {
                let name = text::after_last(metadata.source@, '/');
                if instance::INSTANCE_PREFIX@.is_prefix_of(name) {
                    instance_action(
                        metadata.action@,
                        name,
                        string_map::text_map(metadata.context),
                        project,
                    )
                } else {
                    EventActionView::Ignore
                }
            },
        }
    }
}

fn is_state_action(action: &str) -> (r: bool)
    ensures
        r == state_action(action@),
{
    text::same(action, "instance-created") || text::same(action, "instance-started") || text::same(
        action,
        "instance-stopped",
    ) || text::same(action, "instance-shutdown") || text::same(action, "instance-restarted")
}

/// Maps an LXD lifecycle event to what is to be done.
pub fn map_lxd_event(event: &LxdEvent, client: &LxdClient) -> (r: EventAction)
    ensures
        r@ == event_action(*event, client.project@),
{
    if !text::same(event.event_type.as_str(), "lifecycle") {
        return EventAction::Ignore;
    }
    let metadata = match &event.metadata {
        Some(metadata) => metadata,
        None => return EventAction::Ignore,
    };
    let name = text::tail_after(metadata.source.as_str(), '/');
    if !text::starts_with(name.as_str(), instance::INSTANCE_PREFIX) {
        return EventAction::Ignore;
    }
    if text::same(metadata.action.as_str(), "instance-deleted") {
        let sandbox_id = match metadata.context.get("sandbox-id") {
            Some(id) => id.clone(),
            None => name,
        };
        return EventAction::Emit(deleted_event(sandbox_id));
    }
    if is_state_action(metadata.action.as_str()) {
        match client.get_instance(name.as_str()) {
            Ok(request) => EventAction::Fetch(request),
            Err(_) => EventAction::Ignore,
        }
    } else {
        EventAction::Ignore
    }
}

/// The event that watchers get after an instance was read. An instance that is
/// gone already, or that could not be read, gives none.
pub fn after_fetch(fetched: Result<Instance, LxdApiError>) -> (r: Option<WatchSandboxesEvent>)
    ensures
        compute::event_view(r) == (match fetched {
            Ok(inst) => match sandbox_of(inst@, platform::lowercase(inst@.status)) {
                Some(s) => Some(WatchSandboxesEventView::Sandbox(s)),
                None => None,
            },
            Err(_) => None,
        }),
{
    match fetched {
        Ok(inst) => match driver_sandbox_from_instance(&inst) {
            Some(sandbox) => Some(sandbox_event(sandbox)),
            None => None,
        },
        Err(_) => None,
    }
}

/// The events of the instance of a sandbox get through: a deletion is told to
/// the watchers, and after any change of state the instance is read.
pub proof fn sandbox_events_get_through(event: LxdEvent, sandbox_name: Seq<char>, project: Seq<char>)
    requires
        event.event_type@ == "lifecycle"@,
        event.metadata matches Some(m) && m.source@ == "/1.0/instances/"@
            + instance::name_of_instance(sandbox_name),
        client::valid_name(instance::name_of_instance(sandbox_name)),
    ensures
        event.metadata->0.action@ == "instance-deleted"@ ==> event_action(event, project) is Emit,
        state_action(event.metadata->0.action@) && event.metadata->0.action@
            != "instance-deleted"@ ==> event_action(event, project) == EventActionView::Fetch(
            client::get_call(instance::name_of_instance(sandbox_name), project),
        ),
{
    let name = instance::name_of_instance(sandbox_name);
    let source = "/1.0/instances/"@ + name;
    reveal_strlit("/1.0/instances/");
    let head = "/1.0/instances/"@.drop_last();
    client::valid_name_has_no_slash(name);
    text::after_last_splits(head, name, '/');
    assert(source =~= head.push('/') + name);
    instance::instance_name_round_trip(sandbox_name);
}

} // verus!
