//! The data that compute drivers exchange with the gateway: sandboxes, their
//! status, watch events and errors.
use vstd::prelude::*;
use serde_json::Value;
use crate::json;
use crate::string_map;
use crate::string_map::StringMap;
use crate::text;

verus! {

/// The version that the drivers report.
pub const VERSION: &'static str = "0.1.0";

/// Resource limits of a sandbox. An empty text leaves the limit open.
pub struct DriverResources {
    pub cpu_limit: String,
    pub memory_limit: String,
}

pub struct DriverResourcesView {
    pub cpu_limit: Seq<char>,
    pub memory_limit: Seq<char>,
}

impl View for DriverResources {
    type V = DriverResourcesView;

    open spec fn view(&self) -> DriverResourcesView {
        DriverResourcesView { cpu_limit: self.cpu_limit@, memory_limit: self.memory_limit@ }
    }
}

impl Clone for DriverResources {
    fn clone(&self) -> (r: Self)
        ensures
            r@ == self@,
    {
        DriverResources {
            cpu_limit: self.cpu_limit.clone(),
            memory_limit: self.memory_limit.clone(),
        }
    }
}

/// What a sandbox is made from.
pub struct DriverSandboxTemplate {
    pub image: String,
    pub agent_socket_path: String,
    pub labels: StringMap<String>,
    pub environment: StringMap<String>,
    pub resources: Option<DriverResources>,
    pub platform_config: Option<Value>,
}

pub struct DriverSandboxTemplateView {
    pub image: Seq<char>,
    pub agent_socket_path: Seq<char>,
    pub labels: Seq<(Seq<char>, Seq<char>)>,
    pub environment: Seq<(Seq<char>, Seq<char>)>,
    pub resources: Option<DriverResourcesView>,
    pub platform_config: Option<json::Json>,
}

impl View for DriverSandboxTemplate {
    type V = DriverSandboxTemplateView;

    open spec fn view(&self) -> DriverSandboxTemplateView {
        DriverSandboxTemplateView {
            image: self.image@,
            agent_socket_path: self.agent_socket_path@,
            labels: string_map::text_pairs(self.labels),
            environment: string_map::text_pairs(self.environment),
            resources: match self.resources {
                Some(r) => Some(r@),
                None => None,
            },
            platform_config: match self.platform_config {
                Some(v) => Some(json::json_of(v)),
                None => None,
            },
        }
    }
}

impl Clone for DriverSandboxTemplate {
    fn clone(&self) -> (r: Self)
        ensures
            r@ == self@,
    {
        DriverSandboxTemplate {
            image: self.image.clone(),
            agent_socket_path: self.agent_socket_path.clone(),
            labels: self.labels.clone(),
            environment: self.environment.clone(),
            resources: match &self.resources {
                Some(r) => Some(r.clone()),
                None => None,
            },
            platform_config: match &self.platform_config {
                Some(v) => Some(json::json_clone(v)),
                None => None,
            },
        }
    }
}

/// What is wanted of a sandbox.
pub struct DriverSandboxSpec {
    pub log_level: String,
    pub environment: StringMap<String>,
    pub template: Option<DriverSandboxTemplate>,
    pub gpu: bool,
    pub gpu_device: String,
}

pub struct DriverSandboxSpecView {
    pub log_level: Seq<char>,
    pub environment: Seq<(Seq<char>, Seq<char>)>,
    pub template: Option<DriverSandboxTemplateView>,
    pub gpu: bool,
    pub gpu_device: Seq<char>,
}

impl View for DriverSandboxSpec {
    type V = DriverSandboxSpecView;

    open spec fn view(&self) -> DriverSandboxSpecView {
        DriverSandboxSpecView {
            log_level: self.log_level@,
            environment: string_map::text_pairs(self.environment),
            template: match self.template {
                Some(t) => Some(t@),
                None => None,
            },
            gpu: self.gpu,
            gpu_device: self.gpu_device@,
        }
    }
}

impl Clone for DriverSandboxSpec {
    fn clone(&self) -> (r: Self)
        ensures
            r@ == self@,
    {
        DriverSandboxSpec {
            log_level: self.log_level.clone(),
            environment: self.environment.clone(),
            template: match &self.template {
                Some(t) => Some(t.clone()),
                None => None,
            },
            gpu: self.gpu,
            gpu_device: self.gpu_device.clone(),
        }
    }
}

/// One observed condition of a sandbox.
pub struct DriverCondition {
    pub condition_type: String,
    pub status: String,
    pub reason: String,
    pub message: String,
    pub last_transition_time: String,
}

pub struct DriverConditionView {
    pub condition_type: Seq<char>,
    pub status: Seq<char>,
    pub reason: Seq<char>,
    pub message: Seq<char>,
    pub last_transition_time: Seq<char>,
}

impl View for DriverCondition {
    type V = DriverConditionView;

    open spec fn view(&self) -> DriverConditionView {
        DriverConditionView {
            condition_type: self.condition_type@,
            status: self.status@,
            reason: self.reason@,
            message: self.message@,
            last_transition_time: self.last_transition_time@,
        }
    }
}

impl Clone for DriverCondition {
    fn clone(&self) -> (r: Self)
        ensures
            r@ == self@,
    {
        DriverCondition {
            condition_type: self.condition_type.clone(),
            status: self.status.clone(),
            reason: self.reason.clone(),
            message: self.message.clone(),
            last_transition_time: self.last_transition_time.clone(),
        }
    }
}

/// The condition that the four texts describe. The time of the last transition
/// is left to the gateway.
pub open spec fn condition_view(
    condition_type: Seq<char>,
    status: Seq<char>,
    reason: Seq<char>,
    message: Seq<char>,
) -> DriverConditionView {
    DriverConditionView {
        condition_type,
        status,
        reason,
        message,
        last_transition_time: Seq::empty(),
    }
}

/// A condition without a transition time.
pub fn condition(condition_type: &str, status: &str, reason: &str, message: String) -> (r:
    DriverCondition)
    ensures
        r@ == condition_view(condition_type@, status@, reason@, message@),
{
    DriverCondition {
        condition_type: condition_type.to_owned(),
        status: status.to_owned(),
        reason: reason.to_owned(),
        message,
        last_transition_time: String::new(),
    }
}

/// The views of a list of conditions.
pub open spec fn condition_views(conditions: Seq<DriverCondition>) -> Seq<DriverConditionView> {
    conditions.map_values(|c: DriverCondition| c@)
}

/// What is observed of a sandbox.
pub struct DriverSandboxStatus {
    pub sandbox_name: String,
    pub instance_id: String,
    pub agent_fd: String,
    pub sandbox_fd: String,
    pub conditions: Vec<DriverCondition>,
    pub deleting: bool,
}

pub struct DriverSandboxStatusView {
    pub sandbox_name: Seq<char>,
    pub instance_id: Seq<char>,
    pub agent_fd: Seq<char>,
    pub sandbox_fd: Seq<char>,
    pub conditions: Seq<DriverConditionView>,
    pub deleting: bool,
}

impl View for DriverSandboxStatus {
    type V = DriverSandboxStatusView;

    open spec fn view(&self) -> DriverSandboxStatusView {
        DriverSandboxStatusView {
            sandbox_name: self.sandbox_name@,
            instance_id: self.instance_id@,
            agent_fd: self.agent_fd@,
            sandbox_fd: self.sandbox_fd@,
            conditions: condition_views(self.conditions@),
            deleting: self.deleting,
        }
    }
}

impl Clone for DriverSandboxStatus {
    fn clone(&self) -> (r: Self)
        ensures
            r@ == self@,
    {
        let mut conditions: Vec<DriverCondition> = Vec::new();
        let mut i: usize = 0;
        while i < self.conditions.len()
            invariant
                i <= self.conditions.len(),
                conditions.len() == i,
                forall|j: int| 0 <= j < i ==> #[trigger] conditions@[j]@ == self.conditions@[j]@,
            decreases self.conditions.len() - i,
        {
            conditions.push(self.conditions[i].clone());
            i = i + 1;
        }
        proof {
            assert(condition_views(conditions@) =~= condition_views(self.conditions@));
        }
        DriverSandboxStatus {
            sandbox_name: self.sandbox_name.clone(),
            instance_id: self.instance_id.clone(),
            agent_fd: self.agent_fd.clone(),
            sandbox_fd: self.sandbox_fd.clone(),
            conditions,
            deleting: self.deleting,
        }
    }
}

/// A sandbox as the drivers and the gateway know it.
pub struct DriverSandbox {
    pub id: String,
    pub name: String,
    pub namespace: String,
    pub spec: Option<DriverSandboxSpec>,
    pub status: Option<DriverSandboxStatus>,
}

pub struct DriverSandboxView {
    pub id: Seq<char>,
    pub name: Seq<char>,
    pub namespace: Seq<char>,
    pub spec: Option<DriverSandboxSpecView>,
    pub status: Option<DriverSandboxStatusView>,
}

/// The view of an optional specification.
pub open spec fn spec_view(spec: Option<DriverSandboxSpec>) -> Option<DriverSandboxSpecView> {
    match spec {
        Some(s) => Some(s@),
        None => None,
    }
}

impl View for DriverSandbox {
    type V = DriverSandboxView;

    open spec fn view(&self) -> DriverSandboxView {
        DriverSandboxView {
            id: self.id@,
            name: self.name@,
            namespace: self.namespace@,
            spec: spec_view(self.spec),
            status: match self.status {
                Some(s) => Some(s@),
                None => None,
            },
        }
    }
}

impl Clone for DriverSandbox {
    fn clone(&self) -> (r: Self)
        ensures
            r@ == self@,
    {
        DriverSandbox {
            id: self.id.clone(),
            name: self.name.clone(),
            namespace: self.namespace.clone(),
            spec: clone_spec(&self.spec),
            status: match &self.status {
                Some(s) => Some(s.clone()),
                None => None,
            },
        }
    }
}

/// Copies an optional specification.
pub fn clone_spec(spec: &Option<DriverSandboxSpec>) -> (r: Option<DriverSandboxSpec>)
    ensures
        spec_view(r) == spec_view(*spec),
{
    match spec {
        Some(s) => Some(s.clone()),
        None => None,
    }
}

/// The views of a list of sandboxes.
pub open spec fn sandbox_views(sandboxes: Seq<DriverSandbox>) -> Seq<DriverSandboxView> {
    sandboxes.map_values(|s: DriverSandbox| s@)
}

/// What a driver can do.
pub struct GetCapabilitiesResponse {
    pub driver_name: String,
    pub driver_version: String,
    pub default_image: String,
    pub supports_gpu: bool,
    pub gpu_count: u32,
}

/// A change that is told to those who watch sandboxes.
pub enum WatchSandboxesEvent {
    /// The sandbox as it is now.
    Sandbox(DriverSandbox),
    /// The sandbox with this identifier is gone.
    Deleted(String),
}

pub enum WatchSandboxesEventView {
    Sandbox(DriverSandboxView),
    Deleted(Seq<char>),
}

impl View for WatchSandboxesEvent {
    type V = WatchSandboxesEventView;

    open spec fn view(&self) -> WatchSandboxesEventView {
        match self {
            WatchSandboxesEvent::Sandbox(s) => WatchSandboxesEventView::Sandbox(s@),
            WatchSandboxesEvent::Deleted(id) => WatchSandboxesEventView::Deleted(id@),
        }
    }
}

impl Clone for WatchSandboxesEvent {
    fn clone(&self) -> (r: Self)
        ensures
            r@ == self@,
    {
        match self {
            WatchSandboxesEvent::Sandbox(s) => WatchSandboxesEvent::Sandbox(s.clone()),
            WatchSandboxesEvent::Deleted(id) => WatchSandboxesEvent::Deleted(id.clone()),
        }
    }
}

/// The view of an event that may be absent.
pub open spec fn event_view(event: Option<WatchSandboxesEvent>) -> Option<WatchSandboxesEventView> {
    match event {
        Some(e) => Some(e@),
        None => None,
    }
}

/// The events that tell of a list of snapshots.
pub open spec fn told(snapshots: Seq<DriverSandboxView>) -> Seq<WatchSandboxesEventView> {
    snapshots.map_values(|s: DriverSandboxView| WatchSandboxesEventView::Sandbox(s))
}

/// The views of a list of events.
pub open spec fn event_views(events: Seq<WatchSandboxesEvent>) -> Seq<WatchSandboxesEventView> {
    events.map_values(|e: WatchSandboxesEvent| e@)
}

/// The events with which a watch starts: one for each snapshot.
pub fn snapshot_events(snapshots: Vec<DriverSandbox>) -> (r: Vec<WatchSandboxesEvent>)
    ensures
        event_views(r@) == told(sandbox_views(snapshots@)),
{
    let ghost all = sandbox_views(snapshots@);
    let mut events: Vec<WatchSandboxesEvent> = Vec::new();
    for sandbox in it: snapshots
        invariant
            all == sandbox_views(it.seq()),
            events.len() == it.index(),
            forall|j: int|
                0 <= j < it.index() ==> #[trigger] events@[j]@ == WatchSandboxesEventView::Sandbox(
                    all[j],
                ),
    {
        events.push(WatchSandboxesEvent::Sandbox(sandbox));
    }
    proof {
        assert(event_views(events@) =~= told(all));
    }
    events
}

/// How a request to a driver failed.
#[derive(Clone, Copy, Debug, PartialEq, Eq, Structural)]
pub enum StatusCode {
    InvalidArgument,
    NotFound,
    AlreadyExists,
    FailedPrecondition,
    Internal,
}

/// The answer to a request that failed.
#[derive(Debug)]
pub struct Status {
    pub code: StatusCode,
    pub message: String,
}

pub struct StatusView {
    pub code: StatusCode,
    pub message: Seq<char>,
}

impl View for Status {
    type V = StatusView;

    open spec fn view(&self) -> StatusView {
        StatusView { code: self.code, message: self.message@ }
    }
}

/// A status with a code and a message.
pub fn status(code: StatusCode, message: &str) -> (r: Status)
    ensures
        r@ == (StatusView { code, message: message@ }),
{
    Status { code, message: message.to_owned() }
}

/// Why a driver that runs in the gateway did not do what it was asked.
#[derive(Debug)]
pub enum ComputeDriverError {
    /// The sandbox is there already.
    AlreadyExists,
    /// The request cannot be served as it stands.
    Precondition(String),
    /// Anything else.
    Message(String),
}

pub enum ComputeDriverErrorView {
    AlreadyExists,
    Precondition(Seq<char>),
    Message(Seq<char>),
}

impl View for ComputeDriverError {
    type V = ComputeDriverErrorView;

    open spec fn view(&self) -> ComputeDriverErrorView {
        match self {
            ComputeDriverError::AlreadyExists => ComputeDriverErrorView::AlreadyExists,
            ComputeDriverError::Precondition(m) => ComputeDriverErrorView::Precondition(m@),
            ComputeDriverError::Message(m) => ComputeDriverErrorView::Message(m@),
        }
    }
}

// ---------------------------------------------------------------------------
// Order of sandboxes
// ---------------------------------------------------------------------------

/// The order in which sandboxes are listed: by name, and by identifier where the
/// names are the same.
pub open spec fn comes_before(a: DriverSandboxView, b: DriverSandboxView) -> bool {
    text::text_less(a.name, b.name) || (a.name == b.name && text::text_less(a.id, b.id))
}

/// An ordered list with one more sandbox, which goes behind those that do not
/// come after it.
pub open spec fn with_sandbox(
    list: Seq<DriverSandboxView>,
    sandbox: DriverSandboxView,
) -> Seq<DriverSandboxView>
    decreases list.len(),
{
    if list.len() > 0 && comes_before(sandbox, list.last()) {
        with_sandbox(list.drop_last(), sandbox).push(list.last())
    } else {
        list.push(sandbox)
    }
}

/// The sandboxes in order. Those that neither come before the other stay as they
/// were.
pub open spec fn in_order(list: Seq<DriverSandboxView>) -> Seq<DriverSandboxView>
    decreases list.len(),
{
    if list.len() == 0 {
        Seq::empty()
    } else {
        with_sandbox(in_order(list.drop_last()), list.last())
    }
}

/// Whether a list is in order.
pub open spec fn ordered(list: Seq<DriverSandboxView>) -> bool {
    forall|i: int, j: int|
        0 <= i < j < list.len() ==> !comes_before(#[trigger] list[j], #[trigger] list[i])
}

fn sandbox_before(a: &DriverSandbox, b: &DriverSandbox) -> (r: bool)
    ensures
        r == comes_before(a@, b@),
{
    text::less(a.name.as_str(), b.name.as_str()) || (text::same(a.name.as_str(), b.name.as_str())
        && text::less(a.id.as_str(), b.id.as_str()))
}

/// A sandbox is inserted behind the last one that does not come after it.
proof fn lemma_with_sandbox(list: Seq<DriverSandboxView>, sandbox: DriverSandboxView, at: int)
    requires
        0 <= at <= list.len(),
        forall|j: int| at <= j < list.len() ==> comes_before(sandbox, #[trigger] list[j]),
        at > 0 ==> !comes_before(sandbox, list[at - 1]),
    ensures
        with_sandbox(list, sandbox) == list.insert(at, sandbox),
    decreases list.len(),
{
    if at < list.len() {
        lemma_with_sandbox(list.drop_last(), sandbox, at);
        assert(list.drop_last().insert(at, sandbox).push(list.last()) =~= list.insert(at, sandbox));
    } else {
        assert(list.push(sandbox) =~= list.insert(at, sandbox));
    }
}

/// Sorts sandboxes by name and identifier.
pub fn sort_sandboxes(list: Vec<DriverSandbox>) -> (r: Vec<DriverSandbox>)
    ensures
        sandbox_views(r@) == in_order(sandbox_views(list@)),
{
    let ghost all = sandbox_views(list@);
    let mut r: Vec<DriverSandbox> = Vec::new();
    proof {
        assert(all.take(0) =~= Seq::empty());
        assert(sandbox_views(r@) =~= Seq::empty());
    }
    for sandbox in it: list
        invariant
            all == sandbox_views(it.seq()),
            sandbox_views(r@) == in_order(all.take(it.index())),
    {
        let ghost view = sandbox@;
        let ghost before = sandbox_views(r@);
        let mut at: usize = r.len();
        while at > 0 && sandbox_before(&sandbox, &r[at - 1])
            invariant
                at <= r.len(),
                before == sandbox_views(r@),
                view == sandbox@,
                forall|j: int| at <= j < r.len() ==> comes_before(view, #[trigger] before[j]),
            decreases at,
        {
            at = at - 1;
        }
        r.insert(at, sandbox);
        proof {
            assert(sandbox_views(r@) =~= before.insert(at as int, view));
            lemma_with_sandbox(before, view, at as int);
            assert(all.take(it.index() + 1).drop_last() =~= all.take(it.index()));
            assert(all.take(it.index() + 1).last() == view);
        }
    }
    proof {
        assert(all.take(all.len() as int) =~= all);
    }
    r
}

/// Of two sandboxes the one may come before the other, but not both ways.
pub proof fn comes_before_is_strict(a: DriverSandboxView, b: DriverSandboxView)
    requires
        comes_before(a, b),
    ensures
        !comes_before(b, a),
{
    text::text_less_irreflexive(a.name);
    text::text_less_irreflexive(a.id);
    if comes_before(b, a) {
        if text::text_less(a.name, b.name) && text::text_less(b.name, a.name) {
            text::text_less_transitive(a.name, b.name, a.name);
        }
        if text::text_less(a.id, b.id) && text::text_less(b.id, a.id) {
            text::text_less_transitive(a.id, b.id, a.id);
        }
    }
}

/// What comes before a sandbox comes before all that do not come before that
/// sandbox.
proof fn lemma_comes_before_chain(
    a: DriverSandboxView,
    b: DriverSandboxView,
    c: DriverSandboxView,
)
    requires
        comes_before(a, b),
        !comes_before(c, b),
    ensures
        comes_before(a, c),
{
    text::text_less_total(c.name, b.name);
    text::text_less_total(c.id, b.id);
    if text::text_less(a.name, b.name) && text::text_less(b.name, c.name) {
        text::text_less_transitive(a.name, b.name, c.name);
    }
    if text::text_less(a.id, b.id) && text::text_less(b.id, c.id) {
        text::text_less_transitive(a.id, b.id, c.id);
    }
}

proof fn lemma_with_sandbox_ordered(list: Seq<DriverSandboxView>, sandbox: DriverSandboxView)
    requires
        ordered(list),
    ensures
        ordered(with_sandbox(list, sandbox)),
        with_sandbox(list, sandbox).to_multiset() == list.to_multiset().insert(sandbox),
        with_sandbox(list, sandbox).len() == list.len() + 1,
        forall|x: DriverSandboxView|
            #[trigger] with_sandbox(list, sandbox).contains(x) ==> x == sandbox || list.contains(x),
    decreases list.len(),
{
    broadcast use vstd::seq_lib::group_to_multiset_ensures;

    let r = with_sandbox(list, sandbox);
    if list.len() > 0 && comes_before(sandbox, list.last()) {
        let front = list.drop_last();
        assert(ordered(front));
        lemma_with_sandbox_ordered(front, sandbox);
        let head = with_sandbox(front, sandbox);
        assert(list =~= front.push(list.last()));
        assert forall|i: int, j: int| 0 <= i < j < r.len() implies !comes_before(
            #[trigger] r[j],
            #[trigger] r[i],
        ) by {
            if j == r.len() - 1 {
                assert(head.contains(r[i]));
                if r[i] == sandbox {
                    comes_before_is_strict(sandbox, list.last());
                } else {
                    let k = choose|k: int| 0 <= k < front.len() && front[k] == r[i];
                    assert(!comes_before(list[list.len() - 1], list[k]));
                }
            }
        }
        assert forall|x: DriverSandboxView| #[trigger] r.contains(x) implies x == sandbox
            || list.contains(x) by {
            let k = choose|k: int| 0 <= k < r.len() && r[k] == x;
            if k == r.len() - 1 {
                assert(list[list.len() - 1] == x);
            } else {
                assert(head.contains(x));
                if x != sandbox {
                    let m = choose|m: int| 0 <= m < front.len() && front[m] == x;
                    assert(list[m] == x);
                }
            }
        }
    } else {
        assert forall|i: int, j: int| 0 <= i < j < r.len() implies !comes_before(
            #[trigger] r[j],
            #[trigger] r[i],
        ) by {
            if j == r.len() - 1 && comes_before(sandbox, list[i]) {
                if i < list.len() - 1 {
                    assert(!comes_before(list[list.len() - 1], list[i]));
                    lemma_comes_before_chain(sandbox, list[i], list.last());
                }
            }
        }
        assert forall|x: DriverSandboxView| #[trigger] r.contains(x) implies x == sandbox
            || list.contains(x) by {
            let k = choose|k: int| 0 <= k < r.len() && r[k] == x;
            if k < list.len() {
                assert(list[k] == x);
            }
        }
    }
}

/// Sandboxes are listed in order, and none is lost or added.
pub proof fn in_order_sorts(list: Seq<DriverSandboxView>)
    ensures
        ordered(in_order(list)),
        in_order(list).to_multiset() == list.to_multiset(),
        in_order(list).len() == list.len(),
    decreases list.len(),
{
    broadcast use vstd::seq_lib::group_to_multiset_ensures;

    if list.len() > 0 {
        in_order_sorts(list.drop_last());
        lemma_with_sandbox_ordered(in_order(list.drop_last()), list.last());
        assert(list =~= list.drop_last().push(list.last()));
    }
}

/// The sandboxes of a list that have a given name and identifier.
pub open spec fn with_key(
    list: Seq<DriverSandboxView>,
    name: Seq<char>,
    id: Seq<char>,
) -> Seq<DriverSandboxView>
    decreases list.len(),
{
    if list.len() == 0 {
        Seq::empty()
    } else if list.last().name == name && list.last().id == id {
        with_key(list.drop_last(), name, id).push(list.last())
    } else {
        with_key(list.drop_last(), name, id)
    }
}

proof fn lemma_with_key_insert(
    list: Seq<DriverSandboxView>,
    sandbox: DriverSandboxView,
    name: Seq<char>,
    id: Seq<char>,
)
    requires
        ordered(list),
    ensures
        with_key(with_sandbox(list, sandbox), name, id) == with_key(
            list.push(sandbox),
            name,
            id,
        ),
    decreases list.len(),
{
    assert(list.push(sandbox).drop_last() =~= list);
    if list.len() > 0 && comes_before(sandbox, list.last()) {
        let front = list.drop_last();
        let head = with_sandbox(front, sandbox);
        assert(ordered(front));
        lemma_with_key_insert(front, sandbox, name, id);
        assert(head.push(list.last()).drop_last() =~= head);
        assert(front.push(sandbox).drop_last() =~= front);
        text::text_less_irreflexive(sandbox.name);
        text::text_less_irreflexive(sandbox.id);
        assert(!(sandbox.name == list.last().name && sandbox.id == list.last().id));
        assert(with_key(head, name, id) == with_key(front.push(sandbox), name, id));
        assert(with_sandbox(list, sandbox) == head.push(list.last()));
        assert(with_key(list, name, id) == (if list.last().name == name && list.last().id == id {
            with_key(front, name, id).push(list.last())
        } else {
            with_key(front, name, id)
        }));
        assert(with_key(list.push(sandbox), name, id) == (if sandbox.name == name && sandbox.id
            == id {
            with_key(list, name, id).push(sandbox)
        } else {
            with_key(list, name, id)
        }));
    }
}

/// Sandboxes with the same name and identifier stay in the order in which they
/// came.
pub proof fn in_order_is_stable(list: Seq<DriverSandboxView>, name: Seq<char>, id: Seq<char>)
    ensures
        with_key(in_order(list), name, id) == with_key(list, name, id),
    decreases list.len(),
{
    if list.len() > 0 {
        let front = list.drop_last();
        in_order_is_stable(front, name, id);
        in_order_sorts(front);
        lemma_with_key_insert(in_order(front), list.last(), name, id);
        assert(in_order(front).push(list.last()).drop_last() =~= in_order(front));
    }
}

} // verus!
