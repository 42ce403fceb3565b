//! The sandboxes that a driver on a single host manages, in memory.
use vstd::prelude::*;
use vstd::string::*;
use crate::compute;
use crate::compute::{
    DriverCondition, DriverConditionView, DriverSandbox, DriverSandboxStatus,
    DriverSandboxStatusView, DriverSandboxView, Status, StatusCode, StatusView,
    WatchSandboxesEvent, WatchSandboxesEventView,
};
use crate::string_map;
use crate::string_map::StringMap;
use crate::text;

verus! {

/// Queried by the drivers to decide when the supervisor relay of a sandbox is
/// live. Implementations return `true` once a sandbox has an active session with
/// the gateway.
pub trait SupervisorReadiness: Send + Sync + 'static {
    fn is_supervisor_connected(&self, sandbox_id: &str) -> bool;
}

/// Whether `connected` is an answer of [`SupervisorReadiness::is_supervisor_connected`]
/// for this sandbox. Which answer that is, is up to the implementation; only a
/// question about this very sandbox gives one.
pub open spec fn said<R: SupervisorReadiness>(
    readiness: &R,
    sandbox_id: Seq<char>,
    connected: bool,
) -> bool {
    exists|id: &str|
        id@ == sandbox_id && #[trigger] call_ensures(
            R::is_supervisor_connected,
            (readiness, id),
            connected,
        )
}

/// What is known of a managed sandbox.
pub struct SandboxModel {
    pub sandbox: DriverSandboxView,
    /// The process of the supervisor, as far as it is known.
    pub pid: Option<u32>,
    /// Whether the supervisor is running.
    pub running: bool,
}

/// What a driver keeps of a managed sandbox.
pub trait SandboxState: Sized {
    /// What is known of the sandbox.
    spec fn model(&self) -> SandboxModel;

    /// How the sandbox is shown, given whether its supervisor is connected.
    spec fn shown(model: SandboxModel, supervisor_ready: bool) -> DriverSandboxView;

    /// The sandbox as it was requested.
    fn sandbox(&self) -> (r: &DriverSandbox)
        ensures
            r@ == self.model().sandbox,
    ;

    /// Whether the supervisor is running.
    fn is_running(&self) -> (r: bool)
        ensures
            r == self.model().running,
    ;

    /// The same sandbox with a supervisor that runs, or does not.
    fn with_running(self, running: bool) -> (r: Self)
        ensures
            r.model() == (SandboxModel { running, ..self.model() }),
    ;

    /// A snapshot of the sandbox for the gateway.
    fn snapshot(&self, supervisor_ready: bool) -> (r: DriverSandbox)
        ensures
            r@ == Self::shown(self.model(), supervisor_ready),
    ;
}

/// The views of a result whose error is a status.
pub open spec fn status_outcome<T>(r: Result<T, Status>) -> Result<T, StatusView> {
    match r {
        Ok(t) => Ok(t),
        Err(e) => Err(e@),
    }
}

/// A status with a code and a message.
pub open spec fn failure(code: StatusCode, message: Seq<char>) -> StatusView {
    StatusView { code, message }
}

/// The sandboxes of a driver by their identifiers.
pub struct Registry<S: SandboxState> {
    sandboxes: StringMap<S>,
}

/// What is known of the sandboxes in a list of pairs.
pub open spec fn models<S: SandboxState>(pairs: Seq<(Seq<char>, S)>) -> Seq<
    (Seq<char>, SandboxModel),
> {
    pairs.map_values(|p: (Seq<char>, S)| (p.0, p.1.model()))
}

impl<S: SandboxState> View for Registry<S> {
    type V = Map<Seq<char>, SandboxModel>;

    closed spec fn view(&self) -> Map<Seq<char>, SandboxModel> {
        self.sandboxes@.map_values(|s: S| s.model())
    }
}

/// Whether every sandbox stands under its identifier.
pub open spec fn keyed_by_id(m: Map<Seq<char>, SandboxModel>) -> bool {
    forall|id: Seq<char>| #[trigger] m.contains_key(id) ==> m[id].sandbox.id == id
}

/// The first position in a list at which a sandbox has the name.
pub open spec fn first_named(list: Seq<(Seq<char>, SandboxModel)>, name: Seq<char>) -> Option<int>
    decreases list.len(),
{
    if list.len() == 0 {
        None
    } else {
        match first_named(list.drop_last(), name) {
            Some(i) => Some(i),
            None => if list.last().1.sandbox.name == name {
                Some(list.len() - 1)
            } else {
                None
            },
        }
    }
}

/// The identifier of the sandbox that a request means: the one with the given
/// identifier, or, when none is given, the first with the given name.
pub open spec fn meant(
    list: Seq<(Seq<char>, SandboxModel)>,
    sandbox_id: Seq<char>,
    sandbox_name: Seq<char>,
) -> Option<Seq<char>> {
    if sandbox_id.len() > 0 {
        if string_map::has_key(list, sandbox_id) {
            Some(sandbox_id)
        } else {
            None
        }
    } else {
        match first_named(list, sandbox_name) {
            Some(i) => Some(list[i].0),
            None => None,
        }
    }
}

/// What is said when neither an identifier nor a name is given.
pub open spec fn identifier_check(sandbox_id: Seq<char>, sandbox_name: Seq<char>) -> Result<
    (),
    StatusView,
> {
    if sandbox_id.len() == 0 && sandbox_name.len() == 0 {
        Err(failure(StatusCode::InvalidArgument, "sandbox_id or sandbox_name is required"@))
    } else {
        Ok(())
    }
}

/// Checks that a request says which sandbox it means.
pub fn require_sandbox_identifier(sandbox_id: &str, sandbox_name: &str) -> (r: Result<(), Status>)
    ensures
        status_outcome(r) == identifier_check(sandbox_id@, sandbox_name@),
{
    if sandbox_id.is_empty() && sandbox_name.is_empty() {
        return Err(
            compute::status(StatusCode::InvalidArgument, "sandbox_id or sandbox_name is required"),
        );
    }
    Ok(())
}

proof fn lemma_first_named(list: Seq<(Seq<char>, SandboxModel)>, name: Seq<char>, n: int)
    requires
        0 <= n <= list.len(),
        forall|j: int| 0 <= j < n ==> (#[trigger] list[j]).1.sandbox.name != name,
        n < list.len() ==> list[n].1.sandbox.name == name,
    ensures
        first_named(list, name) == (if n < list.len() {
            Some(n)
        } else {
            None
        }),
    decreases list.len(),
{
    if list.len() > 0 {
        let front = list.drop_last();
        if n < list.len() - 1 {
            assert(front[n] == list[n]);
            lemma_first_named(front, name, n);
        } else {
            lemma_first_named(front, name, front.len() as int);
        }
    }
}

impl<S: SandboxState> Registry<S> {
    #[verifier::type_invariant]
    spec fn well_formed(&self) -> bool {
        keyed_by_id(self@)
    }

    /// The sandboxes in the order of their identifiers.
    pub closed spec fn list(&self) -> Seq<(Seq<char>, SandboxModel)> {
        models(self.sandboxes.pairs())
    }

    /// The list and the map hold the same sandboxes.
    proof fn lemma_list(&self)
        requires
            self.sandboxes.well_formed(),
        ensures
            string_map::ascending(self.list()),
            self@ == string_map::map_of(self.list()),
    {
        let pairs = self.sandboxes.pairs();
        let list = self.list();
        assert(forall|i: int| 0 <= i < pairs.len() ==> #[trigger] list[i].0 == pairs[i].0);
        assert forall|k: Seq<char>|
            string_map::has_key(pairs, k) == string_map::has_key(list, k) by {
            if string_map::has_key(pairs, k) {
                let i = choose|i: int| 0 <= i < pairs.len() && #[trigger] pairs[i].0 == k;
                assert(list[i].0 == k);
            }
        }
        assert forall|k: Seq<char>| string_map::has_key(pairs, k) implies #[trigger] self@[k]
            == string_map::map_of(list)[k] by {
            let i = choose|i: int| 0 <= i < pairs.len() && #[trigger] pairs[i].0 == k;
            string_map::ascending_lookup(pairs, i);
            assert(list[i].0 == k);
            string_map::ascending_lookup(list, i);
        }
        assert(self@ =~= string_map::map_of(list));
    }

    /// A registry without sandboxes.
    pub fn new() -> (r: Self)
        ensures
            r@ == Map::<Seq<char>, SandboxModel>::empty(),
            r.list() == Seq::<(Seq<char>, SandboxModel)>::empty(),
    {
        let sandboxes: StringMap<S> = StringMap::new();
        proof {
            assert(models(sandboxes.pairs()) =~= Seq::empty());
            assert(sandboxes@.map_values(|s: S| s.model()) =~= Map::empty());
        }
        Registry { sandboxes }
    }

    /// The number of sandboxes. They are listed in the order of their
    /// identifiers, and each stands under its own.
    pub fn len(&self) -> (r: usize)
        ensures
            r == self.list().len(),
            string_map::ascending(self.list()),
            self@ == string_map::map_of(self.list()),
            keyed_by_id(self@),
    {
        proof {
            use_type_invariant(self);
            use_type_invariant(&self.sandboxes);
            self.lemma_list();
        }
        self.sandboxes.len()
    }

    /// The identifier at a position of the list.
    pub fn id_at(&self, i: usize) -> (r: &str)
        requires
            i < self.list().len(),
        ensures
            r@ == self.list()[i as int].0,
    {
        self.sandboxes.key_at(i)
    }

    /// The sandbox at a position of the list.
    pub fn state_at(&self, i: usize) -> (r: &S)
        requires
            i < self.list().len(),
        ensures
            r.model() == self.list()[i as int].1,
    {
        self.sandboxes.value_at(i)
    }

    /// Whether there is a sandbox with the identifier.
    pub fn contains(&self, sandbox_id: &str) -> (r: bool)
        ensures
            r == self@.contains_key(sandbox_id@),
    {
        self.sandboxes.contains_key(sandbox_id)
    }

    /// The sandbox with the identifier.
    pub fn get(&self, sandbox_id: &str) -> (r: Option<&S>)
        ensures
            r is Some == self@.contains_key(sandbox_id@),
            r matches Some(s) ==> s.model() == self@[sandbox_id@],
    {
        self.sandboxes.get(sandbox_id)
    }

    /// Puts a sandbox under its identifier, in place of the one that was there.
    pub fn insert(&mut self, state: S)
        ensures
            final(self)@ == old(self)@.insert(state.model().sandbox.id, state.model()),
    {
        proof {
            use_type_invariant(&*self);
        }
        let id = state.sandbox().id.clone();
        let ghost before = self@;
        let ghost model = state.model();
        let mut sandboxes: StringMap<S> = StringMap::new();
        proof {
            assert(sandboxes@.map_values(|s: S| s.model()) =~= Map::empty());
        }
        std::mem::swap(&mut sandboxes, &mut self.sandboxes);
        sandboxes.insert(id, state);
        proof {
            assert(sandboxes@.map_values(|s: S| s.model()) =~= before.insert(
                model.sandbox.id,
                model,
            ));
        }
        self.sandboxes = sandboxes;
    }

    /// Takes the sandbox with the identifier out of the registry.
    pub fn remove(&mut self, sandbox_id: &str) -> (r: Option<S>)
        ensures
            r is Some == old(self)@.contains_key(sandbox_id@),
            r matches Some(s) ==> s.model() == old(self)@[sandbox_id@],
            final(self)@ == old(self)@.remove(sandbox_id@),
    {
        proof {
            use_type_invariant(&*self);
        }
        let ghost before = self@;
        let mut sandboxes: StringMap<S> = StringMap::new();
        proof {
            assert(sandboxes@.map_values(|s: S| s.model()) =~= Map::empty());
        }
        std::mem::swap(&mut sandboxes, &mut self.sandboxes);
        let r = sandboxes.remove(sandbox_id);
        proof {
            assert(sandboxes@.map_values(|s: S| s.model()) =~= before.remove(sandbox_id@));
        }
        self.sandboxes = sandboxes;
        r
    }

    /// Notes whether the supervisor of a sandbox runs. Nothing happens when there
    /// is no such sandbox.
    pub fn set_running(&mut self, sandbox_id: &str, running: bool)
        ensures
            final(self)@ == with_running(old(self)@, sandbox_id@, running),
    {
        proof {
            use_type_invariant(&*self);
        }
        let ghost before = self@;
        if let Some(state) = self.remove(sandbox_id) {
            self.insert(state.with_running(running));
            proof {
                assert(self@ =~= with_running(before, sandbox_id@, running));
            }
        } else {
            proof {
                assert(self@ =~= before);
            }
        }
    }
}

/// The sandboxes after the supervisor of one was seen to run, or not to run.
pub open spec fn with_running(
    m: Map<Seq<char>, SandboxModel>,
    sandbox_id: Seq<char>,
    running: bool,
) -> Map<Seq<char>, SandboxModel> {
    if m.contains_key(sandbox_id) {
        m.insert(sandbox_id, SandboxModel { running, ..m[sandbox_id] })
    } else {
        m
    }
}

/// Finds the identifier of the sandbox that a request means.
pub fn find_sandbox_key<S: SandboxState>(
    sandboxes: &Registry<S>,
    sandbox_id: &str,
    sandbox_name: &str,
) -> (r: Option<String>)
    ensures
        (match r {
            Some(id) => Some(id@),
            None => None,
        }) == meant(sandboxes.list(), sandbox_id@, sandbox_name@),
        r matches Some(id) ==> sandboxes@.contains_key(id@),
{
    let n: usize = sandboxes.len();
    if !sandbox_id.is_empty() {
        if sandboxes.contains(sandbox_id) {
            return Some(sandbox_id.to_owned());
        }
        return None;
    }
    let mut i: usize = 0;
    while i < n
        invariant
            i <= n,
            n == sandboxes.list().len(),
            sandbox_id@.len() == 0,
            string_map::ascending(sandboxes.list()),
            sandboxes@ == string_map::map_of(sandboxes.list()),
            forall|j: int|
                0 <= j < i ==> (#[trigger] sandboxes.list()[j]).1.sandbox.name != sandbox_name@,
        decreases n - i,
    {
        if text::same(sandboxes.state_at(i).sandbox().name.as_str(), sandbox_name) {
            proof {
                lemma_first_named(sandboxes.list(), sandbox_name@, i as int);
                string_map::ascending_lookup(sandboxes.list(), i as int);
            }
            return Some(sandboxes.id_at(i).to_owned());
        }
        i = i + 1;
    }
    proof {
        lemma_first_named(sandboxes.list(), sandbox_name@, i as int);
    }
    None
}

/// Finds the sandbox that a request means.
pub fn find_sandbox<'a, S: SandboxState>(
    sandboxes: &'a Registry<S>,
    sandbox_id: &str,
    sandbox_name: &str,
) -> (r: Option<&'a S>)
    ensures
        r is Some == (meant(sandboxes.list(), sandbox_id@, sandbox_name@) is Some),
        r matches Some(s) ==> meant(sandboxes.list(), sandbox_id@, sandbox_name@) matches Some(id)
            && sandboxes@.contains_key(id) && s.model() == sandboxes@[id],
{
    match find_sandbox_key(sandboxes, sandbox_id, sandbox_name) {
        Some(id) => sandboxes.get(id.as_str()),
        None => None,
    }
}

// ---------------------------------------------------------------------------
// Snapshots
// ---------------------------------------------------------------------------

/// The answer to a request for one sandbox, given whether its supervisor is
/// connected.
pub open spec fn get_answer<S: SandboxState>(
    sandboxes: Registry<S>,
    sandbox_id: Seq<char>,
    sandbox_name: Seq<char>,
    connected: bool,
) -> Result<DriverSandboxView, StatusView> {
    match identifier_check(sandbox_id, sandbox_name) {
        Err(e) => Err(e),
        Ok(_) => match meant(sandboxes.list(), sandbox_id, sandbox_name) {
            Some(id) => Ok(S::shown(sandboxes@[id], connected)),
            None => Err(failure(StatusCode::NotFound, "sandbox not found"@)),
        },
    }
}

/// The view of a sandbox that may have been refused.
pub open spec fn sandbox_outcome(r: Result<DriverSandbox, Status>) -> Result<
    DriverSandboxView,
    StatusView,
> {
    match r {
        Ok(s) => Ok(s@),
        Err(e) => Err(e@),
    }
}

/// Answers a request for one sandbox, given whether its supervisor is connected.
pub fn get_with<S: SandboxState>(
    sandboxes: &Registry<S>,
    sandbox_id: &str,
    sandbox_name: &str,
    connected: bool,
) -> (r: Result<DriverSandbox, Status>)
    ensures
        sandbox_outcome(r) == get_answer(*sandboxes, sandbox_id@, sandbox_name@, connected),
{
    match require_sandbox_identifier(sandbox_id, sandbox_name) {
        Err(e) => Err(e),
        Ok(()) => match find_sandbox(sandboxes, sandbox_id, sandbox_name) {
            Some(state) => Ok(state.snapshot(connected)),
            None => Err(compute::status(StatusCode::NotFound, "sandbox not found")),
        },
    }
}

/// The identifier of the sandbox about whose supervisor a request asks: none when
/// the request is refused.
pub open spec fn asked_about<S: SandboxState>(
    sandboxes: Registry<S>,
    sandbox_id: Seq<char>,
    sandbox_name: Seq<char>,
) -> Option<Seq<char>> {
    match identifier_check(sandbox_id, sandbox_name) {
        Err(_) => None,
        Ok(_) => match meant(sandboxes.list(), sandbox_id, sandbox_name) {
            Some(id) => Some(sandboxes@[id].sandbox.id),
            None => None,
        },
    }
}

/// Finds the identifier of the sandbox about whose supervisor a request asks.
pub fn readiness_id<S: SandboxState>(
    sandboxes: &Registry<S>,
    sandbox_id: &str,
    sandbox_name: &str,
) -> (r: Option<String>)
    ensures
        text::optional(r) == asked_about(*sandboxes, sandbox_id@, sandbox_name@),
{
    if require_sandbox_identifier(sandbox_id, sandbox_name).is_err() {
        return None;
    }
    match find_sandbox(sandboxes, sandbox_id, sandbox_name) {
        Some(state) => Some(state.sandbox().id.clone()),
        None => None,
    }
}

/// The answer to a request for one sandbox, by what is said of its supervisor.
pub open spec fn get_answered<S: SandboxState, R: SupervisorReadiness>(
    sandboxes: Registry<S>,
    sandbox_id: Seq<char>,
    sandbox_name: Seq<char>,
    readiness: &R,
    answer: Result<DriverSandboxView, StatusView>,
) -> bool {
    exists|connected: bool|
        (asked_about(sandboxes, sandbox_id, sandbox_name) matches Some(id) ==> said(
            readiness,
            id,
            connected,
        )) && answer == #[trigger] get_answer(sandboxes, sandbox_id, sandbox_name, connected)
}

/// Answers a request for one sandbox.
pub fn get_snapshot<S: SandboxState, R: SupervisorReadiness>(
    sandboxes: &Registry<S>,
    sandbox_id: &str,
    sandbox_name: &str,
    readiness: &R,
) -> (r: Result<DriverSandbox, Status>)
    ensures
        get_answered(*sandboxes, sandbox_id@, sandbox_name@, readiness, sandbox_outcome(r)),
{
    let connected = match readiness_id(sandboxes, sandbox_id, sandbox_name) {
        Some(id) => readiness.is_supervisor_connected(id.as_str()),
        None => false,
    };
    get_with(sandboxes, sandbox_id, sandbox_name, connected)
}

/// The snapshots of all sandboxes in a list, given which supervisors are
/// connected.
pub open spec fn all_shown<S: SandboxState>(
    list: Seq<(Seq<char>, SandboxModel)>,
    connected: Seq<bool>,
) -> Seq<DriverSandboxView> {
    Seq::new(list.len(), |i: int| S::shown(list[i].1, connected[i]))
}

/// Takes snapshots of all sandboxes, in the order of their identifiers, given
/// which supervisors are connected.
pub fn snapshots_with<S: SandboxState>(sandboxes: &Registry<S>, connected: &[bool]) -> (r: Vec<
    DriverSandbox,
>)
    requires
        connected@.len() == sandboxes.list().len(),
    ensures
        compute::sandbox_views(r@) == all_shown::<S>(sandboxes.list(), connected@),
{
    let mut r: Vec<DriverSandbox> = Vec::new();
    let mut i: usize = 0;
    while i < connected.len()
        invariant
            i <= connected.len(),
            connected@.len() == sandboxes.list().len(),
            r.len() == i,
            forall|j: int|
                0 <= j < i ==> #[trigger] r@[j]@ == S::shown(sandboxes.list()[j].1, connected@[j]),
        decreases connected.len() - i,
    {
        r.push(sandboxes.state_at(i).snapshot(connected[i]));
        i = i + 1;
    }
    proof {
        assert(compute::sandbox_views(r@) =~= all_shown::<S>(sandboxes.list(), connected@));
    }
    r
}

/// The identifiers of the sandboxes about whose supervisors a list asks.
pub open spec fn all_asked_about(list: Seq<(Seq<char>, SandboxModel)>) -> Seq<Seq<char>> {
    list.map_values(|e: (Seq<char>, SandboxModel)| e.1.sandbox.id)
}

/// Lists the identifiers of the sandboxes about whose supervisors a list asks.
pub fn readiness_ids<S: SandboxState>(sandboxes: &Registry<S>) -> (r: Vec<String>)
    ensures
        text::views(r@) == all_asked_about(sandboxes.list()),
{
    let n: usize = sandboxes.len();
    let mut r: Vec<String> = Vec::new();
    let mut i: usize = 0;
    while i < n
        invariant
            i <= n,
            n == sandboxes.list().len(),
            r.len() == i,
            forall|j: int| 0 <= j < i ==> #[trigger] r@[j]@ == sandboxes.list()[j].1.sandbox.id,
        decreases n - i,
    {
        r.push(sandboxes.state_at(i).sandbox().id.clone());
        i = i + 1;
    }
    proof {
        assert(text::views(r@) =~= all_asked_about(sandboxes.list()));
    }
    r
}

/// Whether these are answers about the supervisors of the sandboxes in a list,
/// one for each and in order.
pub open spec fn all_said<R: SupervisorReadiness>(
    readiness: &R,
    list: Seq<(Seq<char>, SandboxModel)>,
    connected: Seq<bool>,
) -> bool {
    connected.len() == list.len() && forall|i: int|
        0 <= i < list.len() ==> #[trigger] said(readiness, list[i].1.sandbox.id, connected[i])
}

/// Asks for each sandbox, in the order of the identifiers, whether its
/// supervisor is connected.
fn connected_flags<S: SandboxState, R: SupervisorReadiness>(
    sandboxes: &Registry<S>,
    readiness: &R,
) -> (r: Vec<bool>)
    ensures
        all_said(readiness, sandboxes.list(), r@),
{
    let ids = readiness_ids(sandboxes);
    let ghost list = sandboxes.list();
    let mut r: Vec<bool> = Vec::new();
    let mut i: usize = 0;
    proof {
        assert(text::views(ids@).len() == list.len());
    }
    while i < ids.len()
        invariant
            i <= ids.len(),
            ids.len() == list.len(),
            text::views(ids@) == all_asked_about(list),
            r.len() == i,
            forall|j: int|
                0 <= j < i ==> #[trigger] said(readiness, list[j].1.sandbox.id, r@[j]),
        decreases ids.len() - i,
    {
        let id = ids[i].as_str();
        proof {
            assert(text::views(ids@)[i as int] == all_asked_about(list)[i as int]);
        }
        let connected = readiness.is_supervisor_connected(id);
        proof {
            assert(said(readiness, list[i as int].1.sandbox.id, connected));
        }
        r.push(connected);
        i = i + 1;
    }
    r
}

/// Takes snapshots of all sandboxes, in the order of their identifiers.
pub fn snapshots<S: SandboxState, R: SupervisorReadiness>(
    sandboxes: &Registry<S>,
    readiness: &R,
) -> (r: Vec<DriverSandbox>)
    ensures
        exists|connected: Seq<bool>|
            all_said(readiness, sandboxes.list(), connected) && compute::sandbox_views(r@)
                == #[trigger] all_shown::<S>(sandboxes.list(), connected),
{
    let connected = connected_flags(sandboxes, readiness);
    snapshots_with(sandboxes, connected.as_slice())
}

/// The condition that tells whether a sandbox is ready.
pub open spec fn ready_condition(running: bool, supervisor_ready: bool) -> DriverConditionView {
    if supervisor_ready {
        compute::condition_view(
            "Ready"@,
            "True"@,
            "SupervisorConnected"@,
            "Supervisor relay is connected"@,
        )
    } else if running {
        compute::condition_view(
            "Ready"@,
            "False"@,
            "DependenciesNotReady"@,
            "Waiting for supervisor to connect"@,
        )
    } else {
        compute::condition_view(
            "Ready"@,
            "False"@,
            "NotRunning"@,
            "Supervisor process is not running"@,
        )
    }
}

/// How a sandbox is shown whose supervisor is a process of a host.
pub open spec fn process_shown(
    sandbox: DriverSandboxView,
    instance_id: Seq<char>,
    running_message: Seq<char>,
    running: bool,
    supervisor_ready: bool,
) -> DriverSandboxView {
    let ready = ready_condition(running, supervisor_ready);
    DriverSandboxView {
        status: Some(
            DriverSandboxStatusView {
                sandbox_name: sandbox.name,
                instance_id,
                agent_fd: Seq::empty(),
                sandbox_fd: Seq::empty(),
                conditions: if running {
                    seq![
                        ready,
                        compute::condition_view("Scheduled"@, "True"@, "Running"@, running_message),
                    ]
                } else {
                    seq![ready]
                },
                deleting: false,
            },
        ),
        ..sandbox
    }
}

/// Takes a snapshot of a sandbox whose supervisor is a process of a host.
pub fn process_snapshot(
    sandbox: &DriverSandbox,
    instance_id: String,
    running_message: String,
    running: bool,
    supervisor_ready: bool,
) -> (r: DriverSandbox)
    ensures
        r@ == process_shown(
            sandbox@,
            instance_id@,
            running_message@,
            running,
            supervisor_ready,
        ),
{
    let ready = if supervisor_ready {
        compute::condition(
            "Ready",
            "True",
            "SupervisorConnected",
            "Supervisor relay is connected".to_owned(),
        )
    } else if running {
        compute::condition(
            "Ready",
            "False",
            "DependenciesNotReady",
            "Waiting for supervisor to connect".to_owned(),
        )
    } else {
        compute::condition(
            "Ready",
            "False",
            "NotRunning",
            "Supervisor process is not running".to_owned(),
        )
    };
    let ghost expected = process_shown(
        sandbox@,
        instance_id@,
        running_message@,
        running,
        supervisor_ready,
    );
    let mut conditions: Vec<DriverCondition> = Vec::new();
    conditions.push(ready);
    if running {
        conditions.push(compute::condition("Scheduled", "True", "Running", running_message));
    }
    proof {
        assert(compute::condition_views(conditions@) =~= expected.status->0.conditions);
    }
    DriverSandbox {
        id: sandbox.id.clone(),
        name: sandbox.name.clone(),
        namespace: sandbox.namespace.clone(),
        spec: compute::clone_spec(&sandbox.spec),
        status: Some(
            DriverSandboxStatus {
                sandbox_name: sandbox.name.clone(),
                instance_id,
                agent_fd: String::new(),
                sandbox_fd: String::new(),
                conditions,
                deleting: false,
            },
        ),
    }
}

/// A sandbox is shown as ready if and only if its supervisor is connected, and
/// as scheduled if and only if its supervisor is running.
pub proof fn conditions_tell_the_state(
    sandbox: DriverSandboxView,
    instance_id: Seq<char>,
    running_message: Seq<char>,
    running: bool,
    supervisor_ready: bool,
)
    ensures
        process_shown(
            sandbox,
            instance_id,
            running_message,
            running,
            supervisor_ready,
        ).status matches Some(status) && {
            &&& status.conditions[0].condition_type == "Ready"@
            &&& (status.conditions[0].status == "True"@) == supervisor_ready
            &&& (exists|i: int|
                0 <= i < status.conditions.len() && (#[trigger] status.conditions[i]).condition_type
                    == "Scheduled"@) == running
        },
{
    reveal_strlit("Ready");
    reveal_strlit("Scheduled");
    reveal_strlit("True");
    reveal_strlit("False");
    assert("Ready"@.len() != "Scheduled"@.len());
    assert("True"@.len() != "False"@.len());
    let shown = process_shown(sandbox, instance_id, running_message, running, supervisor_ready);
    let conditions = shown.status->0.conditions;
    if running {
        assert(conditions[1].condition_type == "Scheduled"@);
    }
}

// ---------------------------------------------------------------------------
// Changes
// ---------------------------------------------------------------------------

/// The event that watchers get after a look at the supervisor of a sandbox: one
/// when it has started or stopped running, and at every look while it is
/// connected.
pub open spec fn observed_event<S: SandboxState>(
    m: Map<Seq<char>, SandboxModel>,
    sandbox_id: Seq<char>,
    alive: bool,
    connected: bool,
) -> Option<WatchSandboxesEventView> {
    if m.contains_key(sandbox_id) && (m[sandbox_id].running != alive || connected) {
        Some(
            WatchSandboxesEventView::Sandbox(
                S::shown(SandboxModel { running: alive, ..m[sandbox_id] }, connected),
            ),
        )
    } else {
        None
    }
}

/// Notes what was seen of the supervisor of a sandbox, and says what watchers
/// are told.
pub fn observe<S: SandboxState>(
    sandboxes: &mut Registry<S>,
    sandbox_id: &str,
    alive: bool,
    connected: bool,
) -> (r: Option<WatchSandboxesEvent>)
    ensures
        final(sandboxes)@ == with_running(old(sandboxes)@, sandbox_id@, alive),
        compute::event_view(r) == observed_event::<S>(
            old(sandboxes)@,
            sandbox_id@,
            alive,
            connected,
        ),
{
    let was_running = match sandboxes.get(sandbox_id) {
        Some(state) => state.is_running(),
        None => return None,
    };
    sandboxes.set_running(sandbox_id, alive);
    if was_running == alive && !connected {
        return None;
    }
    match sandboxes.get(sandbox_id) {
        Some(state) => Some(WatchSandboxesEvent::Sandbox(state.snapshot(connected))),
        None => None,
    }
}

/// The first sandbox in a list when a new one may not stand beside it: there is
/// room for one sandbox, and that is not the one with the given identifier.
pub open spec fn occupant(list: Seq<(Seq<char>, SandboxModel)>, sandbox_id: Seq<char>) -> Option<
    Seq<char>,
> {
    if list.len() > 0 && !string_map::has_key(list, sandbox_id) {
        Some(list[0].0)
    } else {
        None
    }
}

/// Finds the sandbox that stands in the way of a new one.
pub fn find_occupant<'a, S: SandboxState>(sandboxes: &'a Registry<S>, sandbox_id: &str) -> (r:
    Option<&'a str>)
    ensures
        (match r {
            Some(id) => Some(id@),
            None => None,
        }) == occupant(sandboxes.list(), sandbox_id@),
{
    if sandboxes.len() > 0 && !sandboxes.contains(sandbox_id) {
        Some(sandboxes.id_at(0))
    } else {
        None
    }
}

/// What is said of a new sandbox whose identifier is taken, or that is missing.
pub open spec fn create_check(
    m: Map<Seq<char>, SandboxModel>,
    sandbox: Option<DriverSandboxView>,
) -> Result<(), StatusView> {
    match sandbox {
        None => Err(failure(StatusCode::InvalidArgument, "sandbox is required"@)),
        Some(s) => if m.contains_key(s.id) {
            Err(failure(StatusCode::AlreadyExists, "sandbox already exists"@))
        } else {
            Ok(())
        },
    }
}

/// The view of a sandbox that may be absent.
pub open spec fn optional_view(sandbox: Option<&DriverSandbox>) -> Option<DriverSandboxView> {
    match sandbox {
        Some(s) => Some(s@),
        None => None,
    }
}

/// Checks that a new sandbox is given and that its identifier is free.
pub fn check_create<S: SandboxState>(sandboxes: &Registry<S>, sandbox: Option<&DriverSandbox>) -> (r:
    Result<(), Status>)
    ensures
        status_outcome(r) == create_check(sandboxes@, optional_view(sandbox)),
{
    match sandbox {
        None => Err(compute::status(StatusCode::InvalidArgument, "sandbox is required")),
        Some(s) => if sandboxes.contains(s.id.as_str()) {
            Err(compute::status(StatusCode::AlreadyExists, "sandbox already exists"))
        } else {
            Ok(())
        },
    }
}

/// Puts a new sandbox into the registry, and returns what watchers are told.
pub fn register<S: SandboxState>(sandboxes: &mut Registry<S>, state: S) -> (r: WatchSandboxesEvent)
    ensures
        final(sandboxes)@ == old(sandboxes)@.insert(state.model().sandbox.id, state.model()),
        r@ == WatchSandboxesEventView::Sandbox(S::shown(state.model(), false)),
{
    let snapshot = state.snapshot(false);
    sandboxes.insert(state);
    WatchSandboxesEvent::Sandbox(snapshot)
}

/// Takes the sandbox that a request means out of the registry.
pub fn take<S: SandboxState>(
    sandboxes: &mut Registry<S>,
    sandbox_id: &str,
    sandbox_name: &str,
) -> (r: Option<S>)
    ensures
        (match r {
            Some(s) => Some(s.model()),
            None => None,
        }) == (match meant(old(sandboxes).list(), sandbox_id@, sandbox_name@) {
            Some(id) => Some(old(sandboxes)@[id]),
            None => None,
        }),
        final(sandboxes)@ == (match meant(old(sandboxes).list(), sandbox_id@, sandbox_name@) {
            Some(id) => old(sandboxes)@.remove(id),
            None => old(sandboxes)@,
        }),
{
    match find_sandbox_key(sandboxes, sandbox_id, sandbox_name) {
        Some(id) => sandboxes.remove(id.as_str()),
        None => None,
    }
}

/// What watchers are told of a deletion: nothing when the sandbox has no
/// identifier.
pub open spec fn deletion_event(sandbox_id: Seq<char>) -> Option<WatchSandboxesEventView> {
    if sandbox_id.len() > 0 {
        Some(WatchSandboxesEventView::Deleted(sandbox_id))
    } else {
        None
    }
}

/// Says what watchers are told of a deletion.
pub fn deleted<S: SandboxState>(state: &S) -> (r: Option<WatchSandboxesEvent>)
    ensures
        compute::event_view(r) == deletion_event(state.model().sandbox.id),
{
    let id = state.sandbox().id.as_str();
    if id.is_empty() {
        None
    } else {
        Some(WatchSandboxesEvent::Deleted(id.to_owned()))
    }
}

/// A watch that waits for its subscription to later events.
pub struct Subscribing {
    waiting: (),
}

/// What to do next to start a watch.
pub enum WatchStep {
    /// Subscribe to later events, and come back.
    Subscribe(Subscribing),
    /// Tell the watcher these events, and then those of the subscription.
    Tell(Vec<WatchSandboxesEvent>),
}

pub enum WatchStepView {
    Subscribe,
    Tell(Seq<WatchSandboxesEventView>),
}

impl View for WatchStep {
    type V = WatchStepView;

    open spec fn view(&self) -> WatchStepView {
        match self {
            WatchStep::Subscribe(_) => WatchStepView::Subscribe,
            WatchStep::Tell(events) => WatchStepView::Tell(compute::event_views(events@)),
        }
    }
}

/// The first step of a watch: it subscribes before it looks at the sandboxes, so
/// that no change in between is missed.
pub fn start_watch() -> (r: WatchStep)
    ensures
        r@ == WatchStepView::Subscribe,
{
    WatchStep::Subscribe(Subscribing { waiting: () })
}

/// What a watch tells first, by what is said of the supervisors: every sandbox as
/// it is after the subscription.
pub open spec fn watch_answered<S: SandboxState, R: SupervisorReadiness>(
    sandboxes: Registry<S>,
    readiness: &R,
    step: WatchStepView,
) -> bool {
    exists|connected: Seq<bool>|
        all_said(readiness, sandboxes.list(), connected) && step == WatchStepView::Tell(
            compute::told(#[trigger] all_shown::<S>(sandboxes.list(), connected)),
        )
}

/// The step after the subscription: only a watch that has subscribed gets here.
pub fn after_subscription<S: SandboxState, R: SupervisorReadiness>(
    run: Subscribing,
    sandboxes: &Registry<S>,
    readiness: &R,
) -> (r: WatchStep)
    ensures
        watch_answered(*sandboxes, readiness, r@),
{
    WatchStep::Tell(compute::snapshot_events(snapshots(sandboxes, readiness)))
}

/// What was received from the channel on which events are published.
pub enum Received {
    /// The next event.
    Event(WatchSandboxesEvent),
    /// Some events were missed.
    Lagged,
    /// There will be no more events.
    Closed,
}

/// What a watch does with what it received.
pub enum Relay {
    /// Pass the event on.
    Send(WatchSandboxesEvent),
    /// Wait for the next event.
    Skip,
    /// End the watch.
    Stop,
}

/// Decides what a watch does with what it received. Missed events do not end it.
pub fn relay(received: Received) -> (r: Relay)
    ensures
        r == (match received {
            Received::Event(e) => Relay::Send(e),
            Received::Lagged => Relay::Skip,
            Received::Closed => Relay::Stop,
        }),
{
    match received {
        Received::Event(event) => Relay::Send(event),
        Received::Lagged => Relay::Skip,
        Received::Closed => Relay::Stop,
    }
}

// ---------------------------------------------------------------------------
// Laws
// ---------------------------------------------------------------------------

/// A sandbox that was put into the registry is found under its identifier.
pub proof fn inserted_is_found(
    before: Map<Seq<char>, SandboxModel>,
    model: SandboxModel,
    after: Seq<(Seq<char>, SandboxModel)>,
    name: Seq<char>,
)
    requires
        model.sandbox.id.len() > 0,
        string_map::map_of(after) == before.insert(model.sandbox.id, model),
    ensures
        meant(after, model.sandbox.id, name) == Some(model.sandbox.id),
        string_map::map_of(after)[model.sandbox.id] == model,
{
    assert(string_map::map_of(after).contains_key(model.sandbox.id));
}

/// A sandbox that was taken out of the registry is not found any more, and all
/// others still are.
pub proof fn removed_is_not_found(
    before: Map<Seq<char>, SandboxModel>,
    id: Seq<char>,
    after: Seq<(Seq<char>, SandboxModel)>,
    other: Seq<char>,
    name: Seq<char>,
)
    requires
        id.len() > 0,
        string_map::map_of(after) == before.remove(id),
    ensures
        meant(after, id, name) is None,
        other.len() > 0 && other != id && before.contains_key(other) ==> meant(after, other, name)
            == Some(other) && string_map::map_of(after)[other] == before[other],
{
    assert(!string_map::map_of(after).contains_key(id));
    if before.contains_key(other) && other != id {
        assert(string_map::map_of(after).contains_key(other));
    }
}

/// A new sandbox is refused if and only if its identifier is taken.
pub proof fn taken_identifier_is_refused(
    m: Map<Seq<char>, SandboxModel>,
    sandbox: DriverSandboxView,
)
    ensures
        (create_check(m, Some(sandbox)) is Err) == m.contains_key(sandbox.id),
{
}

/// A request by name means a sandbox with that name, and there is none if it
/// means nothing.
pub proof fn named_sandbox_has_the_name(list: Seq<(Seq<char>, SandboxModel)>, name: Seq<char>)
    ensures
        match first_named(list, name) {
            Some(i) => 0 <= i < list.len() && list[i].1.sandbox.name == name && forall|j: int|
                0 <= j < i ==> (#[trigger] list[j]).1.sandbox.name != name,
            None => forall|j: int|
                0 <= j < list.len() ==> (#[trigger] list[j]).1.sandbox.name != name,
        },
    decreases list.len(),
{
    if list.len() > 0 {
        let front = list.drop_last();
        named_sandbox_has_the_name(front, name);
        assert forall|j: int| 0 <= j < front.len() implies #[trigger] list[j] == front[j] by {}
    }
}

/// To note whether a supervisor runs changes nothing else: the same sandboxes
/// are there, under the same identifiers, with what was requested of them.
pub proof fn running_is_all_that_changes(
    m: Map<Seq<char>, SandboxModel>,
    sandbox_id: Seq<char>,
    running: bool,
    other: Seq<char>,
)
    ensures
        with_running(m, sandbox_id, running).dom() == m.dom(),
        m.contains_key(other) ==> {
            &&& with_running(m, sandbox_id, running)[other].sandbox == m[other].sandbox
            &&& with_running(m, sandbox_id, running)[other].pid == m[other].pid
            &&& other != sandbox_id ==> with_running(m, sandbox_id, running)[other] == m[other]
            &&& other == sandbox_id ==> with_running(m, sandbox_id, running)[other].running
                == running
        },
{
    assert(with_running(m, sandbox_id, running).dom() =~= m.dom());
}

/// There is never room for a second sandbox: while one is there, every other
/// identifier is refused, and its own is not.
pub proof fn one_sandbox_at_a_time(list: Seq<(Seq<char>, SandboxModel)>, sandbox_id: Seq<char>)
    requires
        list.len() > 0,
    ensures
        (occupant(list, sandbox_id) is None) == string_map::has_key(list, sandbox_id),
{
}

// ---------------------------------------------------------------------------
// Rounds
// ---------------------------------------------------------------------------

/// A look at the supervisor of a sandbox: what was seen of it.
pub struct Look {
    pub id: Seq<char>,
    pub alive: bool,
    pub connected: bool,
}

/// Whether no two looks are at the same sandbox.
pub open spec fn one_look_each(looks: Seq<Look>) -> bool {
    forall|i: int, j: int|
        0 <= i < j < looks.len() ==> (#[trigger] looks[i]).id != (#[trigger] looks[j]).id
}

/// The list with an event at its end, when there is one.
pub open spec fn with_event(
    events: Seq<WatchSandboxesEventView>,
    event: Option<WatchSandboxesEventView>,
) -> Seq<WatchSandboxesEventView> {
    match event {
        Some(e) => events.push(e),
        None => events,
    }
}

/// The sandboxes after a round of looks, noted one after the other.
pub open spec fn after_looks(m: Map<Seq<char>, SandboxModel>, looks: Seq<Look>) -> Map<
    Seq<char>,
    SandboxModel,
>
    decreases looks.len(),
{
    if looks.len() == 0 {
        m
    } else {
        with_running(after_looks(m, looks.drop_last()), looks.last().id, looks.last().alive)
    }
}

/// What watchers are told in a round of looks, noted one after the other.
pub open spec fn look_events<S: SandboxState>(
    m: Map<Seq<char>, SandboxModel>,
    looks: Seq<Look>,
) -> Seq<WatchSandboxesEventView>
    decreases looks.len(),
{
    if looks.len() == 0 {
        Seq::empty()
    } else {
        with_event(
            look_events::<S>(m, looks.drop_last()),
            observed_event::<S>(
                after_looks(m, looks.drop_last()),
                looks.last().id,
                looks.last().alive,
                looks.last().connected,
            ),
        )
    }
}

/// What watchers are told of each look by itself, in order, with the sandboxes as
/// they were before.
pub open spec fn events_of_each<S: SandboxState>(
    m: Map<Seq<char>, SandboxModel>,
    looks: Seq<Look>,
) -> Seq<WatchSandboxesEventView>
    decreases looks.len(),
{
    if looks.len() == 0 {
        Seq::empty()
    } else {
        with_event(
            events_of_each::<S>(m, looks.drop_last()),
            observed_event::<S>(
                m,
                looks.last().id,
                looks.last().alive,
                looks.last().connected,
            ),
        )
    }
}

/// A round of looks adds no sandbox and removes none. Every sandbox that was
/// looked at counts as running just when its own supervisor was seen alive; all
/// else stays as it was.
pub proof fn round_notes_every_look(m: Map<Seq<char>, SandboxModel>, looks: Seq<Look>)
    requires
        one_look_each(looks),
    ensures
        after_looks(m, looks).dom() == m.dom(),
        forall|i: int|
            0 <= i < looks.len() && m.contains_key((#[trigger] looks[i]).id) ==> after_looks(
                m,
                looks,
            )[looks[i].id] == (SandboxModel { running: looks[i].alive, ..m[looks[i].id] }),
        forall|id: Seq<char>|
            (forall|i: int| 0 <= i < looks.len() ==> (#[trigger] looks[i]).id != id)
                && #[trigger] m.contains_key(id) ==> after_looks(m, looks)[id] == m[id],
    decreases looks.len(),
{
    if looks.len() > 0 {
        let front = looks.drop_last();
        let last = looks.last();
        let before = after_looks(m, front);
        assert forall|i: int| 0 <= i < front.len() implies #[trigger] front[i] == looks[i] by {}
        round_notes_every_look(m, front);
        running_is_all_that_changes(before, last.id, last.alive, last.id);
        assert(m.contains_key(last.id) ==> before[last.id] == m[last.id]);
        assert forall|i: int|
            0 <= i < looks.len() && m.contains_key((#[trigger] looks[i]).id) implies after_looks(
            m,
            looks,
        )[looks[i].id] == (SandboxModel { running: looks[i].alive, ..m[looks[i].id] }) by {
            if i < front.len() {
                assert(front[i] == looks[i]);
                assert(looks[looks.len() - 1].id != looks[i].id);
            }
        }
        assert forall|id: Seq<char>|
            (forall|i: int| 0 <= i < looks.len() ==> (#[trigger] looks[i]).id != id)
                && #[trigger] m.contains_key(id) implies after_looks(m, looks)[id] == m[id] by {
            assert(looks[looks.len() - 1].id != id);
            assert forall|i: int| 0 <= i < front.len() implies (#[trigger] front[i]).id != id by {
                assert(looks[i].id != id);
            }
        }
    }
}

/// In a round of looks watchers are told of each by itself and in order: of a
/// sandbox that has started or stopped running since the round before, or that is
/// connected, and of no other.
pub proof fn round_tells_of_every_look<S: SandboxState>(
    m: Map<Seq<char>, SandboxModel>,
    looks: Seq<Look>,
)
    requires
        one_look_each(looks),
    ensures
        look_events::<S>(m, looks) == events_of_each::<S>(m, looks),
    decreases looks.len(),
{
    if looks.len() > 0 {
        let front = looks.drop_last();
        assert forall|i: int| 0 <= i < front.len() implies #[trigger] front[i] == looks[i] by {}
        round_notes_every_look(m, front);
        round_tells_of_every_look::<S>(m, front);
        let id = looks.last().id;
        assert forall|i: int| 0 <= i < front.len() implies (#[trigger] front[i]).id != id by {
            assert(looks[i].id != looks[looks.len() - 1].id);
        }
        assert(after_looks(m, front).contains_key(id) == m.contains_key(id));
        if m.contains_key(id) {
            assert(after_looks(m, front)[id] == m[id]);
        }
    }
}

} // verus!
