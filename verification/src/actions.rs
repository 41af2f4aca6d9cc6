//! What a lifecycle job asks for and what it is told.
//!
//! A job hands out a batch of actions. They are performed in order, and the outcome of the
//! last of them is what the job waits for; the outcomes of the others do not matter. All
//! actions concern the one container that the job is about.

use vstd::prelude::*;
use crate::models::{
    ContainerTracker, ContainerTrackerValue, CreateContainerRequest, CreateContainerValue, Pairs,
    PairTexts, PortAllocation, PortAllocationTexts, outcome,
};
use crate::time::Timestamp;

verus! {

/// A short-lived container in which an install script runs.
#[derive(Clone, Debug, PartialEq, Eq)]
pub struct TempContainer {
    pub name: String,
    pub image: String,
    pub cmd: Vec<String>,
    pub working_dir: String,
    pub tty: bool,
    pub env: Vec<String>,
    pub binds: Vec<String>,
}

/// The values of a short-lived container.
pub struct TempContainerValue {
    pub name: Seq<char>,
    pub image: Seq<char>,
    pub cmd: Seq<Seq<char>>,
    pub working_dir: Seq<char>,
    pub tty: bool,
    pub env: Seq<Seq<char>>,
    pub binds: Seq<Seq<char>>,
}

impl DeepView for TempContainer {
    type V = TempContainerValue;

    open spec fn deep_view(&self) -> TempContainerValue {
        TempContainerValue {
            name: self.name@,
            image: self.image@,
            cmd: self.cmd.deep_view(),
            working_dir: self.working_dir@,
            tty: self.tty,
            env: self.env.deep_view(),
            binds: self.binds.deep_view(),
        }
    }
}

/// One thing that a job asks for.
#[derive(Debug, PartialEq, Eq)]
pub enum Action {
    /// Lock the container, giving the reason.
    Lock { reason: String },
    /// Unlock the container.
    Unlock,
    /// Record the state that the container is in.
    SetState { state: String },
    /// Record the id that the container runs under.
    SetContainerId { container_id: String },
    /// Load the record of the container.
    LoadTracker,
    /// Save the record of the container.
    SaveTracker { tracker: ContainerTracker },
    /// Stop a running container.
    StopContainer { container_id: String },
    /// Remove a stopped container.
    RemoveContainer { container_id: String },
    /// Start a container.
    StartContainer { container_id: String },
    /// Wait.
    Pause { millis: u64 },
    /// Give host ports back to the network.
    ReleasePorts { ports: Vec<u16> },
    /// Give host ports back to the network and at once allocate ports for the container: each
    /// requested container port with the host port that is asked for.
    ReallocatePorts { released: Vec<u16>, requested: Pairs },
    /// Record which ports are allocated to the container.
    RecordPorts { allocations: Vec<PortAllocation> },
    /// Create a container with its networking.
    CreateContainer { request: CreateContainerRequest },
    /// Create a directory and those above it.
    CreateDirectory { path: String },
    /// Write a file.
    WriteFile { path: String, content: String },
    /// Let everybody read and run a file, and its owner write it.
    MakeExecutable { path: String },
    /// Resolve a path to an absolute one.
    ResolvePath { path: String },
    /// Read the clock.
    ReadClock,
    /// Pull an image unless it is there.
    PullImage { image: String },
    /// Create a short-lived container.
    CreateTemp { config: TempContainer },
    /// Start a short-lived container.
    StartTemp { container_id: String },
    /// See how a short-lived container is doing.
    InspectTemp { container_id: String },
    /// Remove a short-lived container by force.
    RemoveTemp { container_id: String },
    /// The job is over, with its result: the id of the new container or an error.
    Finish { result: Result<String, String> },
}

/// One thing that a job asks for, by its values.
pub enum ActionValue {
    Lock { reason: Seq<char> },
    Unlock,
    SetState { state: Seq<char> },
    SetContainerId { container_id: Seq<char> },
    LoadTracker,
    SaveTracker { tracker: ContainerTrackerValue },
    StopContainer { container_id: Seq<char> },
    RemoveContainer { container_id: Seq<char> },
    StartContainer { container_id: Seq<char> },
    Pause { millis: u64 },
    ReleasePorts { ports: Seq<u16> },
    ReallocatePorts { released: Seq<u16>, requested: PairTexts },
    RecordPorts { allocations: Seq<PortAllocationTexts> },
    CreateContainer { request: CreateContainerValue },
    CreateDirectory { path: Seq<char> },
    WriteFile { path: Seq<char>, content: Seq<char> },
    MakeExecutable { path: Seq<char> },
    ResolvePath { path: Seq<char> },
    ReadClock,
    PullImage { image: Seq<char> },
    CreateTemp { config: TempContainerValue },
    StartTemp { container_id: Seq<char> },
    InspectTemp { container_id: Seq<char> },
    RemoveTemp { container_id: Seq<char> },
    Finish { result: Result<Seq<char>, Seq<char>> },
}

impl DeepView for Action {
    type V = ActionValue;

    open spec fn deep_view(&self) -> ActionValue {
        match self {
            Action::Lock { reason } => ActionValue::Lock { reason: reason@ },
            Action::Unlock => ActionValue::Unlock,
            Action::SetState { state } => ActionValue::SetState { state: state@ },
            Action::SetContainerId { container_id } => ActionValue::SetContainerId {
                container_id: container_id@,
            },
            Action::LoadTracker => ActionValue::LoadTracker,
            Action::SaveTracker { tracker } => ActionValue::SaveTracker {
                tracker: tracker.deep_view(),
            },
            Action::StopContainer { container_id } => ActionValue::StopContainer {
                container_id: container_id@,
            },
            Action::RemoveContainer { container_id } => ActionValue::RemoveContainer {
                container_id: container_id@,
            },
            Action::StartContainer { container_id } => ActionValue::StartContainer {
                container_id: container_id@,
            },
            Action::Pause { millis } => ActionValue::Pause { millis: *millis },
            Action::ReleasePorts { ports } => ActionValue::ReleasePorts { ports: ports@ },
            Action::ReallocatePorts { released, requested } => ActionValue::ReallocatePorts {
                released: released@,
                requested: requested.deep_view(),
            },
            Action::RecordPorts { allocations } => ActionValue::RecordPorts {
                allocations: allocations.deep_view(),
            },
            Action::CreateContainer { request } => ActionValue::CreateContainer {
                request: request.deep_view(),
            },
            Action::CreateDirectory { path } => ActionValue::CreateDirectory { path: path@ },
            Action::WriteFile { path, content } => ActionValue::WriteFile {
                path: path@,
                content: content@,
            },
            Action::MakeExecutable { path } => ActionValue::MakeExecutable { path: path@ },
            Action::ResolvePath { path } => ActionValue::ResolvePath { path: path@ },
            Action::ReadClock => ActionValue::ReadClock,
            Action::PullImage { image } => ActionValue::PullImage { image: image@ },
            Action::CreateTemp { config } => ActionValue::CreateTemp { config: config.deep_view() },
            Action::StartTemp { container_id } => ActionValue::StartTemp {
                container_id: container_id@,
            },
            Action::InspectTemp { container_id } => ActionValue::InspectTemp {
                container_id: container_id@,
            },
            Action::RemoveTemp { container_id } => ActionValue::RemoveTemp {
                container_id: container_id@,
            },
            Action::Finish { result } => ActionValue::Finish { result: outcome(*result) },
        }
    }
}

/// How a container that was inspected is doing.
#[derive(Clone, Copy, Debug, PartialEq, Eq)]
pub struct ContainerStatus {
    pub running: Option<bool>,
    pub exit_code: Option<i64>,
}

impl DeepView for ContainerStatus {
    type V = ContainerStatus;

    open spec fn deep_view(&self) -> ContainerStatus {
        *self
    }
}

/// What a job is told of the last action of a batch.
#[derive(Debug, PartialEq, Eq)]
pub enum Reply {
    /// How an action without a value of its own went.
    Done(Result<(), String>),
    /// The record that was loaded, where there is one.
    Tracker(Result<Option<ContainerTracker>, String>),
    /// The host port that each container port was allocated.
    Allocated(Result<Pairs, String>),
    /// The id and the port allocations of a container that was created.
    Created(Result<(String, Vec<PortAllocation>), String>),
    /// An absolute path, or the id of a short-lived container.
    Text(Result<String, String>),
    /// The time on the clock.
    Clock(Timestamp),
    /// How a container is doing, where that is known.
    Inspected(Result<Option<ContainerStatus>, String>),
}

/// What a job is told, by its values.
pub enum ReplyValue {
    Done(Result<(), Seq<char>>),
    Tracker(Result<Option<ContainerTrackerValue>, Seq<char>>),
    Allocated(Result<PairTexts, Seq<char>>),
    Created(Result<(Seq<char>, Seq<PortAllocationTexts>), Seq<char>>),
    Text(Result<Seq<char>, Seq<char>>),
    Clock(Timestamp),
    Inspected(Result<Option<ContainerStatus>, Seq<char>>),
}

impl DeepView for Reply {
    type V = ReplyValue;

    open spec fn deep_view(&self) -> ReplyValue {
        match self {
            Reply::Done(r) => ReplyValue::Done(outcome(*r)),
            Reply::Tracker(r) => ReplyValue::Tracker(outcome(*r)),
            Reply::Allocated(r) => ReplyValue::Allocated(outcome(*r)),
            Reply::Created(r) => ReplyValue::Created(outcome(*r)),
            Reply::Text(r) => ReplyValue::Text(outcome(*r)),
            Reply::Clock(t) => ReplyValue::Clock(*t),
            Reply::Inspected(r) => ReplyValue::Inspected(outcome(*r)),
        }
    }
}

/// Whether a batch ends its job.
pub open spec fn ends_job(batch: Seq<ActionValue>) -> bool {
    0 < batch.len() && batch.last() is Finish
}

/// Whether a batch ends its job and unlocks the container just before.
pub open spec fn ends_job_unlocked(batch: Seq<ActionValue>) -> bool {
    2 <= batch.len() && batch.last() is Finish && batch[batch.len() - 2] is Unlock
}

/// A batch of one action.
pub fn batch1(a: Action) -> (r: Vec<Action>)
    ensures
        r.deep_view() == seq![a.deep_view()],
{
    let mut r: Vec<Action> = Vec::new();
    r.push(a);
    assert(r.deep_view() =~= seq![a.deep_view()]);
    r
}

/// A batch of two actions.
pub fn batch2(a: Action, b: Action) -> (r: Vec<Action>)
    ensures
        r.deep_view() == seq![a.deep_view(), b.deep_view()],
{
    let mut r: Vec<Action> = Vec::new();
    r.push(a);
    r.push(b);
    assert(r.deep_view() =~= seq![a.deep_view(), b.deep_view()]);
    r
}

/// A batch of three actions.
pub fn batch3(a: Action, b: Action, c: Action) -> (r: Vec<Action>)
    ensures
        r.deep_view() == seq![a.deep_view(), b.deep_view(), c.deep_view()],
{
    let mut r: Vec<Action> = Vec::new();
    r.push(a);
    r.push(b);
    r.push(c);
    assert(r.deep_view() =~= seq![a.deep_view(), b.deep_view(), c.deep_view()]);
    r
}

/// A batch of five actions.
pub fn batch5(a: Action, b: Action, c: Action, d: Action, e: Action) -> (r: Vec<Action>)
    ensures
        r.deep_view() == seq![
            a.deep_view(),
            b.deep_view(),
            c.deep_view(),
            d.deep_view(),
            e.deep_view(),
        ],
{
    let mut r: Vec<Action> = Vec::new();
    r.push(a);
    r.push(b);
    r.push(c);
    r.push(d);
    r.push(e);
    assert(r.deep_view() =~= seq![
        a.deep_view(),
        b.deep_view(),
        c.deep_view(),
        d.deep_view(),
        e.deep_view(),
    ]);
    r
}

} // verus!
