//! The request surface: the registry of sandboxes and what each request does
//! to it. A request that needs the container host is answered in steps, and
//! every step is a function here; the caller performs what a step asks for.

use vstd::prelude::*;
use crate::sandbox::host::{
    standalone_request_of, standalone_result_of, ExecOutcome, ExecRequest,
};
use crate::sandbox::io::ReadError;
use crate::sandbox::session::{
    newlines, next_attempt, read_failure, Attempt, Exchange, ExchangeView, SessionStep,
    ShellOutcome,
};
use crate::sandbox::startup::{Failure, Launch, PhaseView, Startup, StartupView};
use crate::sandbox::types::{
    CommandExecutionView, CommandResult, CommandResultView, Error, ErrorView, StatusView,
    NOT_FOUND,
};
use crate::sandbox::{entries, formatted, fresh_id, session_result_of, Sandbox, SandboxView};

verus! {

/// How many sandboxes may have a running container at a time, where nothing
/// else is configured.
pub const DEFAULT_MAX_CONCURRENT_SANDBOXES: usize = 10;

/// After how many seconds a started sandbox is reaped, where nothing else is
/// configured.
pub const DEFAULT_IDLE_TIMEOUT_SECONDS: u64 = 600;

/// The port that the server binds, where nothing else is configured.
pub const DEFAULT_BIND_PORT: u16 = 3000;

/// What a request to create a sandbox holds.
#[derive(Debug)]
pub struct CreatePayload {
    /// The image of the container.
    pub image: String,
    /// The commands to run once the container runs, chained with `&&`.
    pub setup_commands: Vec<String>,
}

/// What a request to run a command holds.
#[derive(Debug)]
pub struct ExecPayload {
    pub command: String,
    /// Whether the command runs apart from the session; it does not where
    /// nothing is said.
    pub standalone: Option<bool>,
}

/// What a request to stop a sandbox holds.
#[derive(Debug)]
pub struct StopPayload {
    /// Whether the sandbox leaves the registry; it stays where nothing is
    /// said.
    pub remove: Option<bool>,
}

/// What a listing says of a sandbox.
#[derive(Debug)]
pub struct SandboxInfo {
    pub id: String,
    pub image: String,
    pub setup_commands: String,
    /// `created`, `started`, `exited` or `stopped`.
    pub status: String,
    pub session_command_count: usize,
    pub last_standalone_exit_code: Option<i64>,
}

/// A `SandboxInfo` with its texts as sequences of characters.
pub struct SandboxInfoView {
    pub id: Seq<char>,
    pub image: Seq<char>,
    pub setup_commands: Seq<char>,
    pub status: Seq<char>,
    pub session_command_count: usize,
    pub last_standalone_exit_code: Option<i64>,
}

impl View for SandboxInfo {
    type V = SandboxInfoView;

    open spec fn view(&self) -> SandboxInfoView {
        SandboxInfoView {
            id: self.id@,
            image: self.image@,
            setup_commands: self.setup_commands@,
            status: self.status@,
            session_command_count: self.session_command_count,
            last_standalone_exit_code: self.last_standalone_exit_code,
        }
    }
}

/// What a listing says of the sandbox `sandbox`.
pub open spec fn info_of(sandbox: SandboxView) -> SandboxInfoView {
    SandboxInfoView {
        id: sandbox.id,
        image: sandbox.image,
        setup_commands: sandbox.setup_commands,
        status: sandbox.status.label(),
        session_command_count: sandbox.trajectory.len() as usize,
        last_standalone_exit_code: sandbox.last_standalone_exit_code,
    }
}

/// The texts `parts` with `separator` between each two neighbours.
pub open spec fn joined(parts: Seq<Seq<char>>, separator: Seq<char>) -> Seq<char>
    decreases parts.len(),
{
    if parts.len() == 0 {
        Seq::empty()
    } else if parts.len() == 1 {
        parts[0]
    } else {
        joined(parts.drop_last(), separator) + separator + parts.last()
    }
}

/// The setup commands as one shell command, each run only where the one
/// before it succeeded.
pub fn join_setup_commands(commands: &Vec<String>) -> (setup: String)
    ensures
        setup@ == joined(commands.deep_view(), " && "@),
{
    let mut setup = String::new();
    let mut i: usize = 0;
    let ghost parts = commands.deep_view();
    assert(parts.take(0) == Seq::<Seq<char>>::empty());
    while i < commands.len()
        invariant
            i <= commands.len(),
            parts == commands.deep_view(),
            parts.len() == commands.len(),
            setup@ == joined(parts.take(i as int), " && "@),
        decreases commands.len() - i,
    {
        assert(parts.take(i + 1).drop_last() == parts.take(i as int));
        assert(parts.take(i + 1).last() == commands@[i as int]@);
        if i > 0 {
            setup.append(" && ");
        } else {
            assert(Seq::<char>::empty() + commands@[i as int]@ == commands@[i as int]@);
        }
        setup.append(commands[i].as_str());
        i += 1;
    }
    assert(parts.take(parts.len() as int) == parts);
    setup
}

/// The status code and the sentence with which a request fails.
pub open spec fn reply_of(error: ErrorView) -> (u16, Seq<char>) {
    (error.status_code(), error.message())
}

/// The view of a reply.
pub open spec fn reply_view(reply: (u16, String)) -> (u16, Seq<char>) {
    (reply.0, reply.1@)
}

/// The status code and the sentence with which a request fails.
pub fn reply(error: &Error) -> (reply: (u16, String))
    ensures
        reply_view(reply) == reply_of(error@),
{
    (error.to_status_code(), error.message())
}

/// The reply where a request names a sandbox that the registry does not hold.
pub open spec fn not_found() -> (u16, Seq<char>) {
    (NOT_FOUND, "Sandbox not found"@)
}

/// The reply where a request names a sandbox that the registry does not
/// hold, with the id in it.
pub open spec fn not_found_id(id: Seq<char>) -> (u16, Seq<char>) {
    (NOT_FOUND, "Sandbox "@ + id + " not found"@)
}

/// The first index at or after `from` of a sandbox with the id `id`.
pub open spec fn position_from(sandboxes: Seq<SandboxView>, id: Seq<char>, from: int) -> Option<int>
    decreases sandboxes.len() - from,
{
    if from < 0 || from >= sandboxes.len() {
        None
    } else if sandboxes[from].id == id {
        Some(from)
    } else {
        position_from(sandboxes, id, from + 1)
    }
}

/// The index of the sandbox with the id `id`.
pub open spec fn position(sandboxes: Seq<SandboxView>, id: Seq<char>) -> Option<int> {
    position_from(sandboxes, id, 0)
}

/// Where a position is found, the sandbox there has the id, and no sandbox
/// before it has; where none is found, no sandbox has the id.
proof fn lemma_position(sandboxes: Seq<SandboxView>, id: Seq<char>, from: int)
    requires
        0 <= from,
    ensures
        match position_from(sandboxes, id, from) {
            Some(at) => from <= at < sandboxes.len() && sandboxes[at].id == id && forall|j: int|
                from <= j < at ==> sandboxes[j].id != id,
            None => forall|j: int| from <= j < sandboxes.len() ==> sandboxes[j].id != id,
        },
    decreases sandboxes.len() - from,
{
    if from < sandboxes.len() && sandboxes[from].id != id {
        lemma_position(sandboxes, id, from + 1);
    }
}

/// The sandboxes of a process, each under its id.
pub struct Registry<P, S> {
    sandboxes: Vec<Sandbox<P, S>>,
}

/// The views of the sandboxes.
pub open spec fn sandbox_views<P, S>(sandboxes: Seq<Sandbox<P, S>>) -> Seq<SandboxView> {
    Seq::new(sandboxes.len(), |i: int| sandboxes[i]@)
}

impl<P, S> View for Registry<P, S> {
    type V = Seq<SandboxView>;

    closed spec fn view(&self) -> Seq<SandboxView> {
        sandbox_views(self.sandboxes@)
    }
}

impl<P, S> Registry<P, S> {
    /// The sandboxes that the registry holds, in the order in which they came.
    pub closed spec fn sandboxes(&self) -> Seq<Sandbox<P, S>> {
        self.sandboxes@
    }

    /// What holds of a registry at all times: no two sandboxes have one id,
    /// and each holds a permit just while its container runs.
    pub open spec fn wf(&self) -> bool {
        &&& self@ == sandbox_views(self.sandboxes())
        &&& forall|i: int| 0 <= i < self.sandboxes().len() ==> (#[trigger] self.sandboxes()[i]).wf()
        &&& distinct_ids(self@)
    }

    /// Whether the registry holds a sandbox with the id `id`.
    pub open spec fn contains(&self, id: Seq<char>) -> bool {
        position(self@, id) is Some
    }

    /// A registry that holds no sandbox.
    pub fn new() -> (registry: Self)
        ensures
            registry.wf(),
            registry@ == Seq::<SandboxView>::empty(),
    {
        let registry = Registry { sandboxes: Vec::new() };
        registry
    }

    /// The index of the sandbox with the id `id`.
    fn find(&self, id: &String) -> (at: Option<usize>)
        ensures
            match at {
                Some(i) => position(self@, id@) == Some(i as int) && i < self.sandboxes().len(),
                None => position(self@, id@).is_none(),
            },
    {
        let mut i: usize = 0;
        while i < self.sandboxes.len()
            invariant
                i <= self.sandboxes.len(),
                position(self@, id@) == position_from(self@, id@, i as int),
            decreases self.sandboxes.len() - i,
        {
            if *self.sandboxes[i].id() == *id {
                return Some(i);
            }
            i += 1;
        }
        None
    }

    /// The sandbox with the id `id`.
    pub fn get(&self, id: &String) -> (found: Option<&Sandbox<P, S>>)
        ensures
            match position(self@, id@) {
                Some(at) => found == Some(&self.sandboxes()[at]),
                None => found is None,
            },
    {
        match self.find(id) {
            Some(i) => Some(&self.sandboxes[i]),
            None => None,
        }
    }

    /// How many sandboxes the registry holds.
    pub fn len(&self) -> (n: usize)
        ensures
            n == self@.len(),
    {
        self.sandboxes.len()
    }

    /// Puts a sandbox into the registry. A sandbox whose id the registry
    /// holds already is handed back, and the registry stays as it is.
    pub fn insert(&mut self, sandbox: Sandbox<P, S>) -> (result: Result<(), Sandbox<P, S>>)
        ensures
            old(self).wf() && sandbox.wf() ==> final(self).wf(),
            if old(self).contains(sandbox@.id) {
                result == Err::<(), Sandbox<P, S>>(sandbox) && *final(self) == *old(self)
            } else {
                result is Ok && final(self).sandboxes() == old(self).sandboxes().push(sandbox)
                    && final(self)@ == old(self)@.push(sandbox@)
            },
    {
        match self.find(sandbox.id()) {
            Some(_) => Err(sandbox),
            None => {
                proof {
                    lemma_position(self@, sandbox@.id, 0);
                }
                self.sandboxes.push(sandbox);
                assert(self@ == old(self)@.push(sandbox@));
                Ok(())
            },
        }
    }

    /// Takes the sandbox with the id `id` out of the registry.
    pub fn remove(&mut self, id: &String) -> (removed: Option<Sandbox<P, S>>)
        ensures
            old(self).wf() ==> final(self).wf() && !final(self).contains(id@),
            match position(old(self)@, id@) {
                Some(at) => removed == Some(old(self).sandboxes()[at]) && final(self).sandboxes()
                    == old(self).sandboxes().remove(at) && final(self)@ == old(self)@.remove(at),
                None => removed is None && *final(self) == *old(self),
            },
    {
        match self.find(id) {
            Some(i) => {
                proof {
                    lemma_position(self@, id@, 0);
                }
                let sandbox = self.sandboxes.remove(i);
                assert(self@ == old(self)@.remove(i as int));
                proof {
                    lemma_position(self@, id@, 0);
                    if position(self@, id@) is Some {
                        let at = position(self@, id@)->0;
                        if at < i {
                            assert(old(self)@[at].id == id@);
                        } else {
                            assert(old(self)@[at + 1].id == id@);
                        }
                    }
                }
                Some(sandbox)
            },
            None => None,
        }
    }
}

/// What a request to run a command leads to.
#[derive(Debug)]
pub enum ExecPlan {
    /// A one-shot process to run in the container.
    Standalone(ExecRequest),
    /// An exchange with the shell of the session.
    Session(Exchange),
}

/// What follows an exchange with the shell, as a request sees it.
#[derive(Debug)]
pub enum SessionReply {
    /// No prompt came: write the input of this exchange and read again.
    Retry(Exchange),
    /// The command is over.
    Finished(Result<CommandResult, (u16, String)>),
}

/// The view of what a request returns.
pub open spec fn outcome_view(result: Result<CommandResult, (u16, String)>) -> Result<
    CommandResultView,
    (u16, Seq<char>),
> {
    match result {
        Ok(done) => Ok(done@),
        Err(reply) => Err(reply_view(reply)),
    }
}

/// A result with its error as a reply.
pub open spec fn replied(result: Result<CommandResultView, ErrorView>) -> Result<
    CommandResultView,
    (u16, Seq<char>),
> {
    match result {
        Ok(done) => Ok(done),
        Err(error) => Err(reply_of(error)),
    }
}

/// The sandbox that a request to create one makes, under the id `id`.
pub open spec fn created(payload: CreatePayload, id: Seq<char>) -> SandboxView {
    SandboxView {
        id,
        image: payload.image@,
        setup_commands: joined(payload.setup_commands.deep_view(), " && "@),
        start_time: None,
        status: StatusView::Created,
        trajectory: Seq::empty(),
        last_standalone_exit_code: None,
    }
}

/// Creates a sandbox under the id `id` for the image and the setup commands
/// of the request, and returns the id. The container host is not asked for
/// anything. Returns nothing, and changes nothing, where the registry holds
/// a sandbox with that id already.
pub fn create_sandbox_with_id<P, S>(
    registry: &mut Registry<P, S>,
    payload: CreatePayload,
    id: String,
) -> (result: Option<String>)
    ensures
        old(registry).wf() ==> final(registry).wf(),
        if missing(old(registry)@, id@) {
            &&& result matches Some(new_id)
            &&& new_id@ == id@
            &&& final(registry)@ == old(registry)@.push(created(payload, id@))
        } else {
            &&& result is None
            &&& *final(registry) == *old(registry)
        },
{
    let setup = join_setup_commands(&payload.setup_commands);
    let sandbox = Sandbox::with_id(id.clone(), payload.image, setup);
    match registry.insert(sandbox) {
        Ok(()) => Some(id),
        Err(_) => None,
    }
}

/// Creates a sandbox with a fresh random id for the request, and returns its
/// id. A fresh id has 36 characters, so a registry that holds no such id gets
/// its sandbox whatever id comes. Returns nothing, and changes nothing, in
/// the case that the fresh id is one that the registry holds already.
pub fn create_sandbox<P, S>(registry: &mut Registry<P, S>, payload: CreatePayload) -> (result:
    Option<String>)
    ensures
        old(registry).wf() ==> final(registry).wf(),
        !holds_id_of_length(old(registry)@, 36) ==> result is Some,
        match result {
            Some(id) => {
                &&& id@.len() == 36
                &&& missing(old(registry)@, id@)
                &&& final(registry)@ == old(registry)@.push(created(payload, id@))
            },
            None => *final(registry) == *old(registry),
        },
{
    let id = fresh_id();
    proof {
        lemma_position(registry@, id@, 0);
    }
    create_sandbox_with_id(registry, payload, id)
}

/// Whether one of the sandboxes has an id of `length` characters.
pub open spec fn holds_id_of_length(sandboxes: Seq<SandboxView>, length: nat) -> bool {
    exists|i: int| 0 <= i < sandboxes.len() && (#[trigger] sandboxes[i]).id.len() == length
}

/// What a listing says of each sandbox, in the order in which they came.
pub fn list_sandboxes<P, S>(registry: &Registry<P, S>) -> (list: Vec<SandboxInfo>)
    ensures
        list@.len() == registry@.len(),
        forall|i: int| 0 <= i < list@.len() ==> (#[trigger] list@[i])@ == info_of(registry@[i]),
{
    let mut list: Vec<SandboxInfo> = Vec::new();
    let mut i: usize = 0;
    while i < registry.sandboxes.len()
        invariant
            i <= registry.sandboxes.len(),
            list@.len() == i,
            forall|k: int| 0 <= k < i ==> (#[trigger] list@[k])@ == info_of(registry@[k]),
        decreases registry.sandboxes.len() - i,
    {
        let sandbox = &registry.sandboxes[i];
        list.push(
            SandboxInfo {
                id: sandbox.id().clone(),
                image: sandbox.image().clone(),
                setup_commands: sandbox.setup_commands().clone(),
                status: sandbox.get_status().label(),
                session_command_count: sandbox.command_count(),
                last_standalone_exit_code: sandbox.get_last_standalone_exit_code(),
            },
        );
        i += 1;
    }
    list
}

/// Whether the sandboxes hold none with the id `id`: a request that names
/// such an id is answered with 404.
pub open spec fn missing(sandboxes: Seq<SandboxView>, id: Seq<char>) -> bool {
    position(sandboxes, id) is None
}

/// No two of the sandboxes have one id.
pub open spec fn distinct_ids(sandboxes: Seq<SandboxView>) -> bool {
    forall|i: int, j: int|
        0 <= i < j < sandboxes.len() ==> (#[trigger] sandboxes[i]).id != (#[trigger] sandboxes[j]).id
}

/// What a request to stop the sandbox `id` returns: the id of the container
/// to remove; 404 where no sandbox has the id, 400 where the sandbox has no
/// running container.
pub open spec fn stop_result(sandboxes: Seq<SandboxView>, id: Seq<char>) -> Result<
    Seq<char>,
    (u16, Seq<char>),
> {
    match position(sandboxes, id) {
        None => Err(not_found_id(id)),
        Some(at) => match sandboxes[at].status.container() {
            Some(container) => Ok(container),
            None => Err(reply_of(ErrorView::NotStarted)),
        },
    }
}

/// The sandboxes after a request to stop the sandbox `id`: the sandbox has
/// left them where the request said `remove`, whether it could be stopped or
/// not; else it is stopped where its container ran.
pub open spec fn after_stop(sandboxes: Seq<SandboxView>, id: Seq<char>, remove: bool) -> Seq<
    SandboxView,
> {
    match position(sandboxes, id) {
        None => sandboxes,
        Some(at) => if remove {
            sandboxes.remove(at)
        } else if sandboxes[at].status.is_running() {
            sandboxes.update(at, sandboxes[at].stopped())
        } else {
            sandboxes
        },
    }
}

/// The view of what a request to stop a sandbox returns.
pub open spec fn stop_view(result: Result<String, (u16, String)>) -> Result<
    Seq<char>,
    (u16, Seq<char>),
> {
    match result {
        Ok(container) => Ok(container@),
        Err(reply) => Err(reply_view(reply)),
    }
}

/// Stops the sandbox `id`, and takes it out of the registry first where the
/// request says so. Returns the id of the container, which the caller then
/// removes by force.
///
/// 404 where the registry does not hold the sandbox. 400 where the sandbox
/// has no running container; it has left the registry all the same where
/// the request said so.
pub fn stop_sandbox<P, S>(registry: &mut Registry<P, S>, id: &String, payload: &StopPayload) -> (result:
    Result<String, (u16, String)>)
    ensures
        old(registry).wf() ==> final(registry).wf(),
        stop_view(result) == stop_result(old(registry)@, id@),
        final(registry)@ == after_stop(old(registry)@, id@, payload.remove == Some(true)),
        position(old(registry)@, id@) is None ==> *final(registry) == *old(registry),
{
    let remove = match payload.remove {
        Some(r) => r,
        None => false,
    };
    proof {
        lemma_position(registry@, id@, 0);
    }
    if remove {
        match registry.remove(id) {
            Some(sandbox) => {
                let mut sandbox = sandbox;
                match sandbox.stop() {
                    Ok(container) => Ok(container),
                    Err(error) => Err(reply(&error)),
                }
            },
            None => Err(not_found_with(id)),
        }
    } else {
        match registry.find(id) {
            Some(i) => {
                let stopped = registry.sandboxes[i].stop();
                proof {
                    let at = i as int;
                    if old(registry)@[at].status.is_running() {
                        assert(registry@ == old(registry)@.update(at, old(registry)@[at].stopped()));
                    } else {
                        assert(registry.sandboxes@ == old(registry).sandboxes@);
                    }
                    lemma_ids_kept(old(registry)@, registry@);
                }
                match stopped {
                    Ok(container) => Ok(container),
                    Err(error) => Err(reply(&error)),
                }
            },
            None => Err(not_found_with(id)),
        }
    }
}

/// The reply where the registry does not hold the sandbox `id`.
fn not_found_with(id: &String) -> (reply: (u16, String))
    ensures
        reply_view(reply) == not_found_id(id@),
{
    (NOT_FOUND, "Sandbox ".to_string().concat(id.as_str()).concat(" not found"))
}

/// The reply where the registry does not hold the sandbox.
fn not_found_plain() -> (reply: (u16, String))
    ensures
        reply_view(reply) == not_found(),
{
    (NOT_FOUND, "Sandbox not found".to_string())
}

/// Sandboxes that kept their ids have distinct ids if they had before.
proof fn lemma_ids_kept(before: Seq<SandboxView>, after: Seq<SandboxView>)
    requires
        before.len() == after.len(),
        forall|i: int| 0 <= i < before.len() ==> (#[trigger] after[i]).id == before[i].id,
    ensures
        distinct_ids(before) ==> distinct_ids(after),
{
    if distinct_ids(before) {
        assert forall|i: int, j: int| 0 <= i < j < after.len() implies (#[trigger] after[i]).id != (
        #[trigger] after[j]).id by {
            assert(before[i].id != before[j].id);
        }
    }
}

/// Begins the start of the sandbox `id` with the permit that admits its
/// container. 404 where the registry does not hold the sandbox, 400 where
/// the sandbox is not new; the permit is then released.
pub fn start_sandbox<P, S>(registry: &Registry<P, S>, id: &String, permit: P) -> (result: Result<
    Startup<P>,
    (u16, String),
>)
    ensures
        match position(registry@, id@) {
            None => result matches Err(reply) && reply_view(reply) == not_found(),
            Some(at) => match registry@[at].status {
                StatusView::Created => {
                    &&& result matches Ok(startup)
                    &&& startup.permit() == permit
                    &&& startup@ == (StartupView {
                        id: id@,
                        image: registry@[at].image,
                        setup_commands: registry@[at].setup_commands,
                        phase: PhaseView::ProbeImage,
                        container: None,
                        attempts: 0,
                        setup_exit_code: None,
                    })
                },
                _ => result matches Err(reply) && reply_view(reply) == reply_of(
                    ErrorView::AlreadyStarted,
                ),
            },
        },
{
    proof {
        lemma_position(registry@, id@, 0);
    }
    match registry.find(id) {
        Some(i) => match registry.sandboxes[i].begin_start(permit) {
            Ok(startup) => Ok(startup),
            Err(error) => Err(reply(&error)),
        },
        None => Err(not_found_plain()),
    }
}

/// Ends a start that went through: the sandbox `id` is started at the time
/// `now` and keeps the permit of the start and the streams of its shell.
/// 404 where the registry does not hold the sandbox, 400 where the sandbox
/// is not new; permit and streams are then dropped.
pub fn finish_start<P, S>(
    registry: &mut Registry<P, S>,
    id: &String,
    launch: Launch<P>,
    streams: S,
    now: u64,
) -> (result: Result<(), (u16, String)>)
    ensures
        old(registry).wf() ==> final(registry).wf(),
        match position(old(registry)@, id@) {
            None => {
                &&& result matches Err(reply)
                &&& reply_view(reply) == not_found()
                &&& *final(registry) == *old(registry)
            },
            Some(at) => match old(registry)@[at].status {
                StatusView::Created => {
                    &&& result is Ok
                    &&& final(registry)@ == old(registry)@.update(
                        at,
                        old(registry)@[at].started(
                            launch@.container,
                            launch@.setup_exit_code,
                            now,
                        ),
                    )
                    &&& final(registry).sandboxes()[at].permit() == Some(launch.permit())
                    &&& final(registry).sandboxes()[at].streams() == Some(streams)
                },
                _ => {
                    &&& result matches Err(reply)
                    &&& reply_view(reply) == reply_of(ErrorView::AlreadyStarted)
                    &&& final(registry)@ == old(registry)@
                },
            },
        },
{
    proof {
        lemma_position(registry@, id@, 0);
    }
    match registry.find(id) {
        Some(i) => {
            let started = registry.sandboxes[i].start(launch, streams, now);
            proof {
                let at = i as int;
                if old(registry)@[at].status is Created {
                    assert(registry@ == old(registry)@.update(
                        at,
                        old(registry)@[at].started(
                            launch@.container,
                            launch@.setup_exit_code,
                            now,
                        ),
                    ));
                } else {
                    assert(registry@ == old(registry)@);
                }
                lemma_ids_kept(old(registry)@, registry@);
            }
            match started {
                Ok(()) => Ok(()),
                Err(error) => Err(reply(&error)),
            }
        },
        None => Err(not_found_plain()),
    }
}

/// Ends a start that failed, after the caller tried to remove the container
/// that the start left behind, and returns the reply of the failed request.
/// The permit of the start is released. A new sandbox whose container was
/// created and then removed is stopped for good.
pub fn abort_start<P, S>(
    registry: &mut Registry<P, S>,
    id: &String,
    failure: Failure<P>,
    removed: bool,
) -> (reply: (u16, String))
    ensures
        old(registry).wf() ==> final(registry).wf(),
        reply_view(reply) == reply_of(failure@.error),
        match position(old(registry)@, id@) {
            None => *final(registry) == *old(registry),
            Some(at) => match old(registry)@[at].status {
                StatusView::Created => final(registry)@ == old(registry)@.update(
                    at,
                    old(registry)@[at].start_aborted(
                        failure@.container is Some,
                        failure@.setup_exit_code,
                        removed,
                    ),
                ),
                _ => final(registry)@ == old(registry)@,
            },
        },
{
    proof {
        lemma_position(registry@, id@, 0);
    }
    match registry.find(id) {
        Some(i) => {
            let error = registry.sandboxes[i].abort_start(failure, removed);
            proof {
                let at = i as int;
                if old(registry)@[at].status is Created {
                    assert(registry@ == old(registry)@.update(
                        at,
                        old(registry)@[at].start_aborted(
                            failure@.container is Some,
                            failure@.setup_exit_code,
                            removed,
                        ),
                    ));
                } else {
                    assert(registry@ == old(registry)@);
                }
                lemma_ids_kept(old(registry)@, registry@);
            }
            self::reply(&error)
        },
        None => self::reply(&failure.error_owned()),
    }
}

/// Takes in a request to run a command in the sandbox `id` at the time
/// `now`, and says what to ask for: a one-shot process where the request
/// says `standalone`, an exchange with the shell of the session otherwise.
/// A command for the session is put at the end of the trajectory.
///
/// 404 where the registry does not hold the sandbox. 400 where the sandbox
/// has no running container, or where the command is for a session that has
/// exited.
pub fn exec_cmd<P, S>(registry: &mut Registry<P, S>, id: &String, payload: ExecPayload, now: u64) -> (result:
    Result<ExecPlan, (u16, String)>)
    ensures
        old(registry).wf() ==> final(registry).wf(),
        match position(old(registry)@, id@) {
            None => {
                &&& result matches Err(reply)
                &&& reply_view(reply) == not_found()
                &&& *final(registry) == *old(registry)
            },
            Some(at) => {
                let sandbox = old(registry)@[at];
                if payload.standalone == Some(true) {
                    &&& final(registry)@ == old(registry)@
                    &&& match sandbox.status.container() {
                        Some(container) => result matches Ok(ExecPlan::Standalone(request))
                            && request@ == standalone_request_of(container, payload.command@),
                        None => result matches Err(reply) && reply_view(reply) == reply_of(
                            ErrorView::NotStarted,
                        ),
                    }
                } else {
                    match sandbox.status {
                        StatusView::Started(_) => {
                            &&& result matches Ok(ExecPlan::Session(exchange))
                            &&& exchange@ == (ExchangeView {
                                index: sandbox.trajectory.len() as usize,
                                attempt: Attempt::Command,
                                input: payload.command@ + "\n"@,
                                short_circuit_after: newlines(payload.command@) as usize,
                            })
                            &&& final(registry)@ == old(registry)@.update(
                                at,
                                sandbox.with_command(payload.command@, now),
                            )
                        },
                        StatusView::Exited(_) => {
                            &&& result matches Err(reply)
                            &&& reply_view(reply) == reply_of(ErrorView::AlreadyExited)
                            &&& final(registry)@ == old(registry)@
                        },
                        _ => {
                            &&& result matches Err(reply)
                            &&& reply_view(reply) == reply_of(ErrorView::NotStarted)
                            &&& final(registry)@ == old(registry)@
                        },
                    }
                }
            },
        },
{
    proof {
        lemma_position(registry@, id@, 0);
    }
    let standalone = match payload.standalone {
        Some(s) => s,
        None => false,
    };
    match registry.find(id) {
        Some(i) => {
            if standalone {
                match registry.sandboxes[i].standalone_request(payload.command.as_str()) {
                    Ok(request) => Ok(ExecPlan::Standalone(request)),
                    Err(error) => Err(reply(&error)),
                }
            } else {
                let begun = registry.sandboxes[i].begin_session_cmd(payload.command, now);
                proof {
                    let at = i as int;
                    if old(registry)@[at].status is Started {
                        assert(registry@ == old(registry)@.update(
                            at,
                            old(registry)@[at].with_command(payload.command@, now),
                        ));
                    } else {
                        assert(registry@ == old(registry)@);
                    }
                    lemma_ids_kept(old(registry)@, registry@);
                }
                match begun {
                    Ok(exchange) => Ok(ExecPlan::Session(exchange)),
                    Err(error) => Err(reply(&error)),
                }
            }
        },
        None => Err(not_found_plain()),
    }
}

/// Takes in what the container host made of a one-shot command in the
/// sandbox `id`, and returns what the command produced. The exit code of a
/// command that ran to its end is kept as the last one of the sandbox; the
/// session and the status of the sandbox stay as they are.
pub fn finish_standalone<P, S>(registry: &mut Registry<P, S>, id: &String, outcome: ExecOutcome) -> (result:
    Result<CommandResult, (u16, String)>)
    ensures
        old(registry).wf() ==> final(registry).wf(),
        match position(old(registry)@, id@) {
            None => {
                &&& result matches Err(reply)
                &&& reply_view(reply) == not_found()
                &&& *final(registry) == *old(registry)
            },
            Some(at) => {
                let sandbox = old(registry)@[at];
                if sandbox.status.is_running() {
                    &&& outcome_view(result) == replied(standalone_result_of(outcome))
                    &&& final(registry)@ == match result {
                        Ok(done) => old(registry)@.update(
                            at,
                            sandbox.with_standalone_code(done.exit_code),
                        ),
                        Err(_) => old(registry)@,
                    }
                } else {
                    &&& result matches Err(reply)
                    &&& reply_view(reply) == reply_of(ErrorView::NotStarted)
                    &&& final(registry)@ == old(registry)@
                }
            },
        },
{
    proof {
        lemma_position(registry@, id@, 0);
    }
    match registry.find(id) {
        Some(i) => {
            let result = registry.sandboxes[i].exec_standalone_cmd(outcome);
            proof {
                let at = i as int;
                if result is Ok {
                    assert(registry@ == old(registry)@.update(
                        at,
                        old(registry)@[at].with_standalone_code(result->Ok_0.exit_code),
                    ));
                } else {
                    assert(registry@ == old(registry)@);
                }
                lemma_ids_kept(old(registry)@, registry@);
            }
            match result {
                Ok(done) => Ok(done),
                Err(error) => Err(reply(&error)),
            }
        },
        None => Err(not_found_plain()),
    }
}

/// Takes in what an exchange with the shell of the sandbox `id` came to,
/// and says what follows: another exchange where no prompt came and a nudge
/// is left to try, the result of the command where text was read, and the
/// reply of the failed request otherwise.
pub fn finish_session<P, S>(
    registry: &mut Registry<P, S>,
    id: &String,
    exchange: Exchange,
    outcome: ShellOutcome,
) -> (step: SessionReply)
    ensures
        old(registry).wf() ==> final(registry).wf(),
        match position(old(registry)@, id@) {
            None => {
                &&& step matches SessionReply::Finished(Err(reply))
                &&& reply_view(reply) == not_found()
                &&& *final(registry) == *old(registry)
            },
            Some(at) => {
                let sandbox = old(registry)@[at];
                match outcome {
                    ShellOutcome::Read(Ok(text)) => {
                        let result = session_result_of(text@, sandbox.id);
                        &&& step matches SessionReply::Finished(Ok(done))
                        &&& done@ == result
                        &&& final(registry)@ == old(registry)@.update(
                            at,
                            sandbox.with_session_result(exchange.index as int, result),
                        )
                    },
                    ShellOutcome::Read(Err(ReadError::OverallTimeout)) => {
                        &&& final(registry)@ == old(registry)@
                        &&& match next_attempt(exchange.attempt) {
                            Some((attempt, input)) => {
                                &&& step matches SessionReply::Retry(next)
                                &&& next@ == (ExchangeView {
                                    index: exchange.index,
                                    attempt,
                                    input,
                                    short_circuit_after: 1,
                                })
                            },
                            None => {
                                &&& step matches SessionReply::Finished(Err(reply))
                                &&& reply_view(reply) == reply_of(
                                    read_failure(ReadError::OverallTimeout),
                                )
                            },
                        }
                    },
                    ShellOutcome::Read(Err(ReadError::StreamClosed)) => {
                        &&& final(registry)@ == old(registry)@
                        &&& step matches SessionReply::Finished(Err(reply))
                        &&& reply_view(reply) == reply_of(read_failure(ReadError::StreamClosed))
                    },
                    ShellOutcome::WriteFailed(message) => {
                        &&& final(registry)@ == old(registry)@
                        &&& step matches SessionReply::Finished(Err(reply))
                        &&& reply_view(reply) == reply_of(ErrorView::ContainerWriteFailed(message@))
                    },
                }
            },
        },
{
    proof {
        lemma_position(registry@, id@, 0);
    }
    match registry.find(id) {
        Some(i) => {
            let ghost read = outcome;
            let ghost index = exchange.index as int;
            let step = registry.sandboxes[i].exec_session_cmd(exchange, outcome);
            proof {
                let at = i as int;
                match read {
                    ShellOutcome::Read(Ok(text)) => {
                        assert(registry@ == old(registry)@.update(
                            at,
                            old(registry)@[at].with_session_result(
                                index,
                                session_result_of(text@, old(registry)@[at].id),
                            ),
                        ));
                    },
                    _ => {
                        assert(registry@ == old(registry)@);
                    },
                }
                lemma_ids_kept(old(registry)@, registry@);
            }
            match step {
                SessionStep::Retry(next) => SessionReply::Retry(next),
                SessionStep::Finished(Ok(done)) => SessionReply::Finished(Ok(done)),
                SessionStep::Finished(Err(error)) => SessionReply::Finished(Err(reply(&error))),
            }
        },
        None => SessionReply::Finished(Err(not_found_plain())),
    }
}

/// One entry of a trajectory as a request for the trajectory returns it.
#[derive(Debug)]
pub struct TrajectoryEntry {
    /// The place of the command in the session.
    pub index: usize,
    pub command: String,
    /// How long after the start of the sandbox the command was submitted, in
    /// nanoseconds.
    pub timestamp: u64,
    pub result: Option<CommandResult>,
}

/// What a request for the trajectory of a sandbox returns.
#[derive(Debug)]
pub struct TrajectoryReport {
    pub sandbox_id: String,
    pub command_count: usize,
    pub trajectory: Vec<TrajectoryEntry>,
}

/// A `TrajectoryEntry` with its texts as sequences of characters.
pub struct TrajectoryEntryView {
    pub index: usize,
    pub command: Seq<char>,
    pub timestamp: u64,
    pub result: Option<CommandResultView>,
}

impl View for TrajectoryEntry {
    type V = TrajectoryEntryView;

    open spec fn view(&self) -> TrajectoryEntryView {
        TrajectoryEntryView {
            index: self.index,
            command: self.command@,
            timestamp: self.timestamp,
            result: match self.result {
                Some(result) => Some(result@),
                None => None,
            },
        }
    }
}

/// The time from `start` to `time`, none where `time` is the earlier.
pub open spec fn since(start: u64, time: u64) -> u64 {
    if time >= start {
        (time - start) as u64
    } else {
        0
    }
}

/// The entry at `index` as a request for the trajectory returns it, for a
/// sandbox that started at `start`.
pub open spec fn reported(entry: CommandExecutionView, index: int, start: u64) -> TrajectoryEntryView {
    TrajectoryEntryView {
        index: index as usize,
        command: entry.command,
        timestamp: since(start, entry.timestamp),
        result: entry.result,
    }
}

/// The trajectory of the sandbox `id`: each command with its place, the time
/// from the start of the sandbox to its submission, and its result where it
/// has one. For a sandbox that has no start time the times are taken from
/// `now`. 404 where the registry does not hold the sandbox.
pub fn get_trajectory<P, S>(registry: &Registry<P, S>, id: &String, now: u64) -> (result: Result<
    TrajectoryReport,
    (u16, String),
>)
    ensures
        match position(registry@, id@) {
            None => result matches Err(reply) && reply_view(reply) == not_found_id(id@),
            Some(at) => {
                let sandbox = registry@[at];
                let start = match sandbox.start_time {
                    Some(time) => time,
                    None => now,
                };
                &&& result matches Ok(report)
                &&& report.sandbox_id@ == id@
                &&& report.command_count == sandbox.trajectory.len()
                &&& report.trajectory@.len() == sandbox.trajectory.len()
                &&& forall|k: int|
                    0 <= k < sandbox.trajectory.len() ==> (#[trigger] report.trajectory@[k])@
                        == reported(sandbox.trajectory[k], k, start)
            },
        },
{
    proof {
        lemma_position(registry@, id@, 0);
    }
    let sandbox = match registry.find(id) {
        Some(i) => &registry.sandboxes[i],
        None => {
            return Err(not_found_with(id));
        },
    };
    let start = match sandbox.start_time() {
        Some(time) => time,
        None => now,
    };
    let commands = sandbox.get_trajectory();
    let mut trajectory: Vec<TrajectoryEntry> = Vec::new();
    let mut k: usize = 0;
    while k < commands.len()
        invariant
            k <= commands.len(),
            trajectory@.len() == k,
            forall|j: int|
                0 <= j < k ==> (#[trigger] trajectory@[j])@ == reported(
                    entries(commands@)[j],
                    j,
                    start,
                ),
        decreases commands.len() - k,
    {
        let entry = &commands[k];
        let timestamp = if entry.timestamp >= start {
            entry.timestamp - start
        } else {
            0
        };
        trajectory.push(
            TrajectoryEntry {
                index: k,
                command: entry.command.clone(),
                timestamp,
                result: match &entry.result {
                    Some(result) => Some(result.clone()),
                    None => None,
                },
            },
        );
        k += 1;
    }
    Ok(TrajectoryReport { sandbox_id: id.clone(), command_count: sandbox.command_count(), trajectory })
}

/// The trajectory of the sandbox `id` as a person reads it. 404 where the
/// registry does not hold the sandbox.
pub fn get_trajectory_formatted<P, S>(registry: &Registry<P, S>, id: &String) -> (result: Result<
    String,
    (u16, String),
>)
    ensures
        match position(registry@, id@) {
            None => result matches Err(reply) && reply_view(reply) == not_found_id(id@),
            Some(at) => result matches Ok(text) && text@ == formatted(registry@[at].trajectory),
        },
{
    proof {
        lemma_position(registry@, id@, 0);
    }
    match registry.find(id) {
        Some(i) => Ok(registry.sandboxes[i].format_trajectory()),
        None => Err(not_found_with(id)),
    }
}

/// A sandbox that was stopped with `remove` has left the registry, whether
/// it could be stopped or not: every later request that names its id finds
/// it missing, and is answered with 404.
pub proof fn lemma_removed_is_missing(sandboxes: Seq<SandboxView>, id: Seq<char>)
    requires
        distinct_ids(sandboxes),
    ensures
        missing(after_stop(sandboxes, id, true), id),
        stop_result(after_stop(sandboxes, id, true), id) == Err::<Seq<char>, (u16, Seq<char>)>(
            not_found_id(id),
        ),
{
    lemma_position(sandboxes, id, 0);
    let after = after_stop(sandboxes, id, true);
    lemma_position(after, id, 0);
    if position(sandboxes, id) is Some && position(after, id) is Some {
        let at = position(sandboxes, id)->0;
        let again = position(after, id)->0;
        if again < at {
            assert(sandboxes[again].id == id);
        } else {
            assert(sandboxes[again + 1].id == id);
        }
    }
}

/// A sandbox that was just created is listed, at the end, under its new id
/// and with the status `created`.
pub proof fn lemma_created_is_listed(
    sandboxes: Seq<SandboxView>,
    id: Seq<char>,
    image: Seq<char>,
    setup_commands: Seq<char>,
)
    requires
        missing(sandboxes, id),
    ensures
        ({
            let created = SandboxView {
                id,
                image,
                setup_commands,
                start_time: None,
                status: StatusView::Created,
                trajectory: Seq::empty(),
                last_standalone_exit_code: None,
            };
            let after = sandboxes.push(created);
            &&& position(after, id) == Some(sandboxes.len() as int)
            &&& info_of(after[sandboxes.len() as int]).id == id
            &&& info_of(after[sandboxes.len() as int]).status == "created"@
            &&& distinct_ids(sandboxes) ==> distinct_ids(after)
        }),
{
    let created = SandboxView {
        id,
        image,
        setup_commands,
        start_time: None,
        status: StatusView::Created,
        trajectory: Seq::empty(),
        last_standalone_exit_code: None,
    };
    let after = sandboxes.push(created);
    lemma_position(sandboxes, id, 0);
    lemma_position(after, id, 0);
    if position(after, id) is Some {
        let at = position(after, id)->0;
        if at < sandboxes.len() {
            assert(after[at] == sandboxes[at]);
        }
    } else {
        assert(after[sandboxes.len() as int].id == id);
    }
    if distinct_ids(sandboxes) {
        assert forall|i: int, j: int| 0 <= i < j < after.len() implies (#[trigger] after[i]).id != (
        #[trigger] after[j]).id by {
            assert(after[i] == sandboxes[i]);
            if j < sandboxes.len() {
                assert(after[j] == sandboxes[j]);
            }
        }
    }
}

/// Of two requests in a row to stop one sandbox, where the first succeeds
/// the second is rejected: with 400 and `NotStarted` where the sandbox
/// stayed in the registry, with 404 where the first request removed it.
pub proof fn lemma_second_stop_is_rejected(
    sandboxes: Seq<SandboxView>,
    id: Seq<char>,
    remove: bool,
    remove_again: bool,
)
    requires
        distinct_ids(sandboxes),
        stop_result(sandboxes, id) is Ok,
    ensures
        stop_result(after_stop(sandboxes, id, remove), id) == Err::<Seq<char>, (u16, Seq<char>)>(
            if remove {
                not_found_id(id)
            } else {
                reply_of(ErrorView::NotStarted)
            },
        ),
        !remove ==> after_stop(after_stop(sandboxes, id, remove), id, remove_again) == if remove_again {
            after_stop(sandboxes, id, true)
        } else {
            after_stop(sandboxes, id, false)
        },
{
    lemma_position(sandboxes, id, 0);
    if remove {
        lemma_removed_is_missing(sandboxes, id);
    } else {
        let at = position(sandboxes, id)->0;
        let after = after_stop(sandboxes, id, false);
        lemma_position(after, id, 0);
        assert(after[at].id == id);
        if position(after, id) != Some(at) {
            let again = position(after, id)->0;
            assert(after[again] == sandboxes[again]);
        }
        if remove_again {
            assert(after.remove(at) == sandboxes.remove(at));
        }
    }
}

/// Whether the sandbox has been started for longer than `timeout` at the
/// time `now`.
pub open spec fn is_expired(sandbox: SandboxView, now: u64, timeout: u64) -> bool {
    sandbox.start_time matches Some(start) && since(start, now) > timeout
}

/// The ids of the sandboxes that have been started for longer than
/// `timeout`, in the order of the registry.
pub open spec fn expired_ids(sandboxes: Seq<SandboxView>, now: u64, timeout: u64) -> Seq<Seq<char>>
    decreases sandboxes.len(),
{
    if sandboxes.len() == 0 {
        Seq::empty()
    } else {
        let earlier = expired_ids(sandboxes.drop_last(), now, timeout);
        if is_expired(sandboxes.last(), now, timeout) {
            earlier.push(sandboxes.last().id)
        } else {
            earlier
        }
    }
}

/// The ids of the sandboxes to reap at the time `now`: those that have been
/// started for longer than `timeout` nanoseconds.
pub fn expired<P, S>(registry: &Registry<P, S>, now: u64, timeout: u64) -> (ids: Vec<String>)
    ensures
        ids.deep_view() == expired_ids(registry@, now, timeout),
{
    let mut ids: Vec<String> = Vec::new();
    let mut i: usize = 0;
    assert(registry@.take(0) == Seq::<SandboxView>::empty());
    while i < registry.sandboxes.len()
        invariant
            i <= registry.sandboxes.len(),
            ids.deep_view() == expired_ids(registry@.take(i as int), now, timeout),
        decreases registry.sandboxes.len() - i,
    {
        assert(registry@.take(i + 1).drop_last() == registry@.take(i as int));
        let sandbox = &registry.sandboxes[i];
        match sandbox.start_time() {
            Some(start) => {
                if now >= start && now - start > timeout {
                    let ghost before = ids.deep_view();
                    ids.push(sandbox.id().clone());
                    assert(ids.deep_view() == before.push(sandbox@.id));
                }
            },
            None => {},
        }
        i += 1;
    }
    assert(registry@.take(registry@.len() as int) == registry@);
    ids
}

/// How many of the sandboxes have a running container.
pub open spec fn running_count(sandboxes: Seq<SandboxView>) -> nat
    decreases sandboxes.len(),
{
    if sandboxes.len() == 0 {
        0
    } else {
        running_count(sandboxes.drop_last()) + if sandboxes.last().status.is_running() {
            1nat
        } else {
            0nat
        }
    }
}

/// How many permits the sandboxes hold together.
pub open spec fn permits_held<P, S>(sandboxes: Seq<Sandbox<P, S>>) -> nat
    decreases sandboxes.len(),
{
    if sandboxes.len() == 0 {
        0
    } else {
        permits_held(sandboxes.drop_last()) + sandboxes.last().permits_held()
    }
}

/// The sandboxes of a registry hold as many permits as they have running
/// containers: no container runs without a permit, so that there are never
/// more running containers than the source of the permits gave permits out.
pub proof fn lemma_permits_cover_containers<P, S>(registry: Registry<P, S>)
    requires
        registry.wf(),
    ensures
        permits_held(registry.sandboxes()) == running_count(registry@),
{
    lemma_permits_of(registry.sandboxes());
}

/// Sandboxes that are well formed hold as many permits as they have running
/// containers.
proof fn lemma_permits_of<P, S>(sandboxes: Seq<Sandbox<P, S>>)
    requires
        forall|i: int| 0 <= i < sandboxes.len() ==> (#[trigger] sandboxes[i]).wf(),
    ensures
        permits_held(sandboxes) == running_count(sandbox_views(sandboxes)),
    decreases sandboxes.len(),
{
    if sandboxes.len() > 0 {
        lemma_permits_of(sandboxes.drop_last());
        assert(sandbox_views(sandboxes).drop_last() == sandbox_views(sandboxes.drop_last()));
        assert(sandboxes.last().wf());
    }
}

} // verus!
