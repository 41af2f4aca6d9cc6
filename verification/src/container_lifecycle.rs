//! The lifecycle of containers: disposable shells around volumes that persist.
//!
//! The uuid of a container never changes; the id that it runs under changes whenever it is
//! recreated, which every change of its configuration leads to.

use vstd::prelude::*;
use crate::actions::{Action, ActionValue, Reply, ReplyValue, batch1, ends_job};
use crate::installation::{
    InstallPhaseValue, InstallTask, InstallTaskValue, Installation, NewContainer,
};
use crate::models::{
    ContainerTrackerValue, CreateContainerValue, Pairs, PairTexts, PortAllocation,
    PortAllocationTexts, ResourceLimits,
};
use crate::place::{ContainerPlace, ContainerPlaceTexts};
use crate::port_list::{distinct_names, find_held_ports, has_name, held_ports, port_pairs};
use crate::recreation::{
    ContainerUpdateRequest, ContainerUpdateValue, Recreation, RecreationPhaseValue,
    RecreationValue, law_recreation_ends, no_changes, recreated, recreation_next,
    recreation_remaining,
};
use crate::text::concat2;

verus! {

/// What a change of ports waits for.
#[derive(Debug, PartialEq, Eq)]
pub enum PortUpdatePhase {
    /// The record of the container.
    Loading { requested: Pairs },
    /// The host ports.
    Allocating,
    /// The record of the new ports.
    Recording { allocated: Pairs },
    /// The end of the recreation.
    Recreating { job: Recreation },
    /// Nothing: the job is over.
    Finished,
}

/// What a change of ports waits for, by its values.
pub enum PortUpdatePhaseValue {
    Loading { requested: PairTexts },
    Allocating,
    Recording { allocated: PairTexts },
    Recreating { job: RecreationValue },
    Finished,
}

impl DeepView for PortUpdatePhase {
    type V = PortUpdatePhaseValue;

    open spec fn deep_view(&self) -> PortUpdatePhaseValue {
        match self {
            PortUpdatePhase::Loading { requested } => PortUpdatePhaseValue::Loading {
                requested: requested.deep_view(),
            },
            PortUpdatePhase::Allocating => PortUpdatePhaseValue::Allocating,
            PortUpdatePhase::Recording { allocated } => PortUpdatePhaseValue::Recording {
                allocated: allocated.deep_view(),
            },
            PortUpdatePhase::Recreating { job } => PortUpdatePhaseValue::Recreating {
                job: job.deep_view(),
            },
            PortUpdatePhase::Finished => PortUpdatePhaseValue::Finished,
        }
    }
}

/// The job of giving a container other ports.
#[derive(Debug, PartialEq, Eq)]
pub struct PortUpdate {
    pub place: ContainerPlace,
    pub phase: PortUpdatePhase,
}

/// The allocations of host ports on all addresses, for TCP.
pub open spec fn tcp_allocations(pairs: PairTexts) -> Seq<PortAllocationTexts> {
    Seq::new(
        pairs.len(),
        |i: int|
            PortAllocationTexts {
                container_port: pairs[i].0,
                host_port: pairs[i].1,
                host_ip: "0.0.0.0"@,
                protocol: "tcp"@,
            },
    )
}

/// A change of the ports alone.
pub open spec fn ports_changed(ports: PairTexts) -> ContainerUpdateValue {
    ContainerUpdateValue { ports: Some(ports), ..no_changes() }
}

/// How a change of ports goes on: its next phase and what it asks for. A reply that it does
/// not wait for changes nothing.
pub open spec fn port_update_next(
    place: ContainerPlaceTexts,
    phase: PortUpdatePhaseValue,
    reply: ReplyValue,
) -> (PortUpdatePhaseValue, Seq<ActionValue>) {
    match (phase, reply) {
        (
            PortUpdatePhaseValue::Loading { requested },
            ReplyValue::Tracker(Ok(Some(tracker))),
        ) => (
            PortUpdatePhaseValue::Allocating,
            seq![
                ActionValue::ReallocatePorts {
                    released: held_ports(tracker.allocated_ports),
                    requested,
                },
            ],
        ),
        (PortUpdatePhaseValue::Loading { .. }, ReplyValue::Tracker(Ok(None))) => (
            PortUpdatePhaseValue::Finished,
            seq![ActionValue::Finish { result: Err("Container not found"@) }],
        ),
        (PortUpdatePhaseValue::Loading { .. }, ReplyValue::Tracker(Err(e))) => (
            PortUpdatePhaseValue::Finished,
            seq![ActionValue::Finish { result: Err(e) }],
        ),
        (PortUpdatePhaseValue::Allocating, ReplyValue::Allocated(Ok(allocated))) => (
            PortUpdatePhaseValue::Recording { allocated },
            seq![ActionValue::RecordPorts { allocations: tcp_allocations(allocated) }],
        ),
        (PortUpdatePhaseValue::Allocating, ReplyValue::Allocated(Err(e))) => (
            PortUpdatePhaseValue::Finished,
            seq![ActionValue::Finish { result: Err("Port allocation failed: "@ + e) }],
        ),
        (PortUpdatePhaseValue::Recording { allocated }, ReplyValue::Done(Ok(_))) => (
            PortUpdatePhaseValue::Recreating {
                job: RecreationValue {
                    place,
                    phase: RecreationPhaseValue::Locking { update: Some(ports_changed(allocated)) },
                },
            },
            seq![ActionValue::Lock { reason: "Recreating container"@ }],
        ),
        (PortUpdatePhaseValue::Recording { .. }, ReplyValue::Done(Err(e))) => (
            PortUpdatePhaseValue::Finished,
            seq![ActionValue::Finish { result: Err(e) }],
        ),
        (PortUpdatePhaseValue::Recreating { job }, _) => (
            PortUpdatePhaseValue::Recreating {
                job: RecreationValue { place: job.place, phase: recreation_next(job, reply).0 },
            },
            recreation_next(job, reply).1,
        ),
        _ => (phase, Seq::empty()),
    }
}

/// Whether a change of ports is over.
pub open spec fn port_update_over(phase: PortUpdatePhaseValue) -> bool {
    phase is Finished || (phase is Recreating && phase->job.phase is Finished)
}

/// How many more replies a change of ports waits for at most.
pub open spec fn port_update_remaining(phase: PortUpdatePhaseValue) -> nat {
    match phase {
        PortUpdatePhaseValue::Loading { .. } => 9,
        PortUpdatePhaseValue::Allocating => 8,
        PortUpdatePhaseValue::Recording { .. } => 7,
        PortUpdatePhaseValue::Recreating { job } => recreation_remaining(job.phase),
        PortUpdatePhaseValue::Finished => 0,
    }
}

/// A change of ports ends: each reply that it waits for brings it nearer to its end, any other
/// leaves it as it is, and it says that it is over exactly when it is.
pub proof fn law_port_update_ends(
    place: ContainerPlaceTexts,
    phase: PortUpdatePhaseValue,
    reply: ReplyValue,
)
    ensures
        port_update_next(place, phase, reply).1.len() > 0 ==> port_update_remaining(
            port_update_next(place, phase, reply).0,
        ) < port_update_remaining(phase),
        port_update_next(place, phase, reply).1.len() == 0 ==> port_update_next(
            place,
            phase,
            reply,
        ).0 == phase,
        ends_job(port_update_next(place, phase, reply).1) <==> !port_update_over(phase)
            && port_update_over(port_update_next(place, phase, reply).0),
{
    if phase is Recreating {
        law_recreation_ends(phase->job, reply);
    }
}

/// Ports are only recorded as they were allocated, and the container is only recreated once
/// they are on record: a change of ports that fails before has asked for neither a lock nor
/// anything of the container itself.
pub proof fn law_port_update_order(
    place: ContainerPlaceTexts,
    phase: PortUpdatePhaseValue,
    reply: ReplyValue,
)
    requires
        !(phase is Recreating),
    ensures
        ({
            let (next, batch) = port_update_next(place, phase, reply);
            &&& next is Recreating <==> phase is Recording && reply is Done && reply->Done_0 is Ok
            &&& forall|i: int|
                0 <= i < batch.len() ==> (#[trigger] batch[i] is Lock ==> next is Recreating)
            &&& forall|i: int|
                0 <= i < batch.len() ==> !(#[trigger] batch[i] is StopContainer
                    || batch[i] is RemoveContainer || batch[i] is CreateContainer)
            &&& forall|i: int|
                0 <= i < batch.len() ==> (#[trigger] batch[i] matches ActionValue::RecordPorts {
                    allocations,
                } ==> reply matches ReplyValue::Allocated(Ok(allocated)) && allocations
                    == tcp_allocations(allocated))
        }),
{
}

/// The ports that were allocated are those that the new container asks for: once they are on
/// record, the recreation that follows requests exactly them.
pub proof fn law_updated_ports_are_requested(
    allocated: PairTexts,
    tracker: ContainerTrackerValue,
    uuid: Seq<char>,
    update: Option<ContainerUpdateValue>,
)
    requires
        distinct_names(allocated),
        tracker.allocated_ports == tcp_allocations(allocated),
    ensures
        port_pairs(tracker.allocated_ports) == allocated,
        recreated(uuid, update, tracker).ports == if allocated.len() == 0 {
            None
        } else {
            Some(allocated)
        },
    decreases allocated.len(),
{
    if allocated.len() > 0 {
        let front = allocated.drop_last();
        let before = ContainerTrackerValue { allocated_ports: tcp_allocations(front), ..tracker };
        law_updated_ports_are_requested(front, before, uuid, update);
        assert(tcp_allocations(allocated).drop_last() =~= tcp_allocations(front));
        let last = allocated.last();
        assert(!has_name(front, last.0)) by {
            if has_name(front, last.0) {
                let i = choose|i: int| 0 <= i < front.len() && (#[trigger] front[i]).0 == last.0;
                assert(allocated[i].0 == allocated[allocated.len() - 1].0);
            }
        }
        assert(front.push(last) =~= allocated);
    } else {
        assert(port_pairs(tracker.allocated_ports) =~= allocated);
    }
}

/// How a change of ports goes, where nothing fails: all host ports that the container holds are
/// given back and the requested ones allocated at once, and what was allocated is recorded, each
/// container port with its host port, for TCP on all addresses. Then the container is recreated
/// under the same uuid, with no change to its configuration but the ports.
pub proof fn law_port_update_course(
    place: ContainerPlaceTexts,
    requested: PairTexts,
    tracker: ContainerTrackerValue,
    allocated: PairTexts,
)
    ensures
        ({
            let (p1, b1) = port_update_next(
                place,
                PortUpdatePhaseValue::Loading { requested },
                ReplyValue::Tracker(Ok(Some(tracker))),
            );
            let (p2, b2) = port_update_next(place, p1, ReplyValue::Allocated(Ok(allocated)));
            let (p3, b3) = port_update_next(place, p2, ReplyValue::Done(Ok(())));
            &&& b1 == seq![
                ActionValue::ReallocatePorts {
                    released: held_ports(tracker.allocated_ports),
                    requested,
                },
            ]
            &&& b2.len() == 1 && b2[0] is RecordPorts
            &&& b2[0]->allocations.len() == allocated.len()
            &&& forall|i: int|
                0 <= i < allocated.len() ==> #[trigger] b2[0]->allocations[i] == (
                PortAllocationTexts {
                    container_port: allocated[i].0,
                    host_port: allocated[i].1,
                    host_ip: "0.0.0.0"@,
                    protocol: "tcp"@,
                })
            &&& b3 == seq![ActionValue::Lock { reason: "Recreating container"@ }]
            &&& p3 is Recreating && p3->job.place == place
            &&& p3->job.phase == (RecreationPhaseValue::Locking {
                update: Some(
                    ContainerUpdateValue {
                        env: None,
                        limits: None,
                        ports: Some(allocated),
                        image: None,
                        startup_command: None,
                    },
                ),
            })
        }),
{
}

/// From then on a change of ports is the recreation: it asks for what that asks for, and stands
/// where that stands.
pub proof fn law_port_update_recreates(
    place: ContainerPlaceTexts,
    job: RecreationValue,
    reply: ReplyValue,
)
    ensures
        ({
            let (next, batch) = port_update_next(
                place,
                PortUpdatePhaseValue::Recreating { job },
                reply,
            );
            let (phase, actions) = recreation_next(job, reply);
            &&& batch == actions
            &&& next == (PortUpdatePhaseValue::Recreating {
                job: RecreationValue { place: job.place, phase },
            })
        }),
{
}

/// How a change of ports fails before the container is recreated: it ends with what went wrong,
/// and nothing else is done.
pub proof fn law_port_update_failures(
    place: ContainerPlaceTexts,
    requested: PairTexts,
    allocated: PairTexts,
    error: Seq<char>,
)
    ensures
        port_update_next(
            place,
            PortUpdatePhaseValue::Loading { requested },
            ReplyValue::Tracker(Ok(None)),
        ) == (
            PortUpdatePhaseValue::Finished,
            seq![ActionValue::Finish { result: Err("Container not found"@) }],
        ),
        port_update_next(
            place,
            PortUpdatePhaseValue::Loading { requested },
            ReplyValue::Tracker(Err(error)),
        ) == (
            PortUpdatePhaseValue::Finished,
            seq![ActionValue::Finish { result: Err(error) }],
        ),
        port_update_next(
            place,
            PortUpdatePhaseValue::Allocating,
            ReplyValue::Allocated(Err(error)),
        ) == (
            PortUpdatePhaseValue::Finished,
            seq![ActionValue::Finish { result: Err("Port allocation failed: "@ + error) }],
        ),
        port_update_next(
            place,
            PortUpdatePhaseValue::Recording { allocated },
            ReplyValue::Done(Err(error)),
        ) == (
            PortUpdatePhaseValue::Finished,
            seq![ActionValue::Finish { result: Err(error) }],
        ),
{
}

/// A change of ports takes the answers that it waits for and no others.
pub proof fn law_port_update_takes_answers(
    place: ContainerPlaceTexts,
    phase: PortUpdatePhaseValue,
    reply: ReplyValue,
)
    requires
        !(phase is Recreating),
    ensures
        port_update_next(place, phase, reply).1.len() > 0 <==> match phase {
            PortUpdatePhaseValue::Loading { .. } => reply is Tracker,
            PortUpdatePhaseValue::Allocating => reply is Allocated,
            PortUpdatePhaseValue::Recording { .. } => reply is Done,
            _ => false,
        },
{
}

/// A recreation that is asked for with one change brings it about: from the moment that it begins
/// under the place that the manager has for the uuid, and where nothing fails, the container that
/// it asks for has the changed environment, limits or image, and all else from the record.
pub proof fn law_one_change_is_brought_about(
    manager: ContainerLifecycleManager,
    uuid: Seq<char>,
    env: PairTexts,
    limits: PairTexts,
    image: Seq<char>,
    tracker: ContainerTrackerValue,
)
    ensures
        ({
            let place = manager.place_of(uuid);
            let asked = |update: ContainerUpdateValue|
                recreation_next(
                    RecreationValue {
                        place,
                        phase: recreation_next(
                            RecreationValue {
                                place,
                                phase: recreation_next(
                                    RecreationValue {
                                        place,
                                        phase: RecreationPhaseValue::Locking {
                                            update: Some(update),
                                        },
                                    },
                                    ReplyValue::Done(Ok(())),
                                ).0,
                            },
                            ReplyValue::Done(Ok(())),
                        ).0,
                    },
                    ReplyValue::Tracker(Ok(Some(tracker))),
                ).1.last()->request;
            let same = recreated(uuid, None, tracker);
            &&& place.uuid == uuid && place.volumes_path == manager.volumes_path@
            &&& asked(ContainerUpdateValue { env: Some(env), ..no_changes() }) == (
            CreateContainerValue { env: Some(env), ..same })
            &&& asked(ContainerUpdateValue { limits: Some(limits), ..no_changes() }) == (
            CreateContainerValue { limits: Some(limits), ..same })
            &&& asked(ContainerUpdateValue { image: Some(image), ..no_changes() }) == (
            CreateContainerValue { image, ..same })
        }),
{
}

/// Makes the allocations of host ports on all addresses, for TCP.
pub fn make_tcp_allocations(pairs: &Pairs) -> (r: Vec<PortAllocation>)
    ensures
        r.deep_view() == tcp_allocations(pairs.deep_view()),
{
    let mut r: Vec<PortAllocation> = Vec::new();
    let mut i: usize = 0;
    while i < pairs.len()
        invariant
            i <= pairs.len(),
            r.len() == i,
            forall|k: int|
                0 <= k < i ==> (#[trigger] r@[k]).deep_view() == tcp_allocations(
                    pairs.deep_view(),
                )[k],
        decreases pairs.len() - i,
    {
        r.push(
            PortAllocation {
                container_port: pairs[i].0.clone(),
                host_port: pairs[i].1.clone(),
                host_ip: "0.0.0.0".to_owned(),
                protocol: "tcp".to_owned(),
            },
        );
        i = i + 1;
    }
    assert(r.deep_view() =~= tcp_allocations(pairs.deep_view()));
    r
}

impl PortUpdate {
    /// Begins a change of ports. The record comes first.
    pub fn begin(place: ContainerPlace, requested: Pairs) -> (r: (PortUpdate, Vec<Action>))
        ensures
            r.0.place == place,
            r.0.phase == (PortUpdatePhase::Loading { requested }),
            r.1.deep_view() == seq![ActionValue::LoadTracker],
    {
        (
            PortUpdate { place, phase: PortUpdatePhase::Loading { requested } },
            batch1(Action::LoadTracker),
        )
    }

    /// Whether the job is over.
    pub fn is_finished(&self) -> (r: bool)
        ensures
            r == port_update_over(self.phase.deep_view()),
    {
        match &self.phase {
            PortUpdatePhase::Finished => true,
            PortUpdatePhase::Recreating { job } => job.is_finished(),
            _ => false,
        }
    }

    /// Goes on after a reply: the job in its next phase and what it asks for.
    pub fn step(self, reply: Reply) -> (r: (PortUpdate, Vec<Action>))
        ensures
            r.0.place == self.place,
            (r.0.phase.deep_view(), r.1.deep_view()) == port_update_next(
                self.place.deep_view(),
                self.phase.deep_view(),
                reply.deep_view(),
            ),
    {
        let PortUpdate { place, phase } = self;
        match (phase, reply) {
            (PortUpdatePhase::Loading { requested }, Reply::Tracker(Ok(Some(tracker)))) => (
                PortUpdate { place, phase: PortUpdatePhase::Allocating },
                batch1(
                    Action::ReallocatePorts {
                        released: find_held_ports(&tracker.allocated_ports),
                        requested,
                    },
                ),
            ),
            (PortUpdatePhase::Loading { .. }, Reply::Tracker(Ok(None))) => (
                PortUpdate { place, phase: PortUpdatePhase::Finished },
                batch1(Action::Finish { result: Err("Container not found".to_owned()) }),
            ),
            (PortUpdatePhase::Loading { .. }, Reply::Tracker(Err(e))) => (
                PortUpdate { place, phase: PortUpdatePhase::Finished },
                batch1(Action::Finish { result: Err(e) }),
            ),
            (PortUpdatePhase::Allocating, Reply::Allocated(Ok(allocated))) => {
                let allocations = make_tcp_allocations(&allocated);
                (
                    PortUpdate { place, phase: PortUpdatePhase::Recording { allocated } },
                    batch1(Action::RecordPorts { allocations }),
                )
            },
            (PortUpdatePhase::Allocating, Reply::Allocated(Err(e))) => (
                PortUpdate { place, phase: PortUpdatePhase::Finished },
                batch1(
                    Action::Finish { result: Err(concat2("Port allocation failed: ", e.as_str())) },
                ),
            ),
            (PortUpdatePhase::Recording { allocated }, Reply::Done(Ok(_))) => {
                let update = ContainerUpdateRequest {
                    env: None,
                    limits: None,
                    ports: Some(allocated),
                    image: None,
                    startup_command: None,
                };
                let (job, batch) = Recreation::begin(place.copy(), Some(update));
                (PortUpdate { place, phase: PortUpdatePhase::Recreating { job } }, batch)
            },
            (PortUpdatePhase::Recording { .. }, Reply::Done(Err(e))) => (
                PortUpdate { place, phase: PortUpdatePhase::Finished },
                batch1(Action::Finish { result: Err(e) }),
            ),
            (PortUpdatePhase::Recreating { job }, reply) => {
                let (job, batch) = job.step(reply);
                (PortUpdate { place, phase: PortUpdatePhase::Recreating { job } }, batch)
            },
            (phase, _) => {
                let batch: Vec<Action> = Vec::new();
                assert(batch.deep_view() =~= Seq::<ActionValue>::empty());
                (PortUpdate { place, phase }, batch)
            },
        }
    }
}

/// Starts the jobs that a container goes through in its life.
#[derive(Clone, Debug, PartialEq, Eq)]
pub struct ContainerLifecycleManager {
    pub volumes_path: String,
}

/// Whether a recreation has just begun, with the given changes.
pub open spec fn recreation_begun(
    r: (Recreation, Vec<Action>),
    place: ContainerPlaceTexts,
    update: Option<ContainerUpdateValue>,
) -> bool {
    &&& r.0.deep_view() == (RecreationValue {
        place,
        phase: RecreationPhaseValue::Locking { update },
    })
    &&& r.1.deep_view() == seq![ActionValue::Lock { reason: "Recreating container"@ }]
}

impl ContainerLifecycleManager {
    /// A manager of containers whose volumes lie under `volumes_path`.
    pub fn new(volumes_path: String) -> (r: ContainerLifecycleManager)
        ensures
            r.volumes_path == volumes_path,
    {
        ContainerLifecycleManager { volumes_path }
    }

    /// The place of a container.
    pub open spec fn place_of(self, uuid: Seq<char>) -> ContainerPlaceTexts {
        ContainerPlaceTexts { uuid, volumes_path: self.volumes_path@ }
    }

    /// Finds the place of a container.
    fn find_place(&self, uuid: &str) -> (r: ContainerPlace)
        ensures
            r.deep_view() == self.place_of(uuid@),
    {
        ContainerPlace { uuid: uuid.to_owned(), volumes_path: self.volumes_path.clone() }
    }

    /// Begins the recreation of a container with changes to its configuration, where there
    /// are any: the old container goes, and a new one with the same uuid takes its place.
    pub fn recreate_container(&self, uuid: &str, update: Option<ContainerUpdateRequest>) -> (r: (
        Recreation,
        Vec<Action>,
    ))
        ensures
            recreation_begun(r, self.place_of(uuid@), update.deep_view()),
    {
        Recreation::begin(self.find_place(uuid), update)
    }

    /// Begins a recreation with another environment.
    pub fn update_env(&self, uuid: &str, env: Pairs) -> (r: (Recreation, Vec<Action>))
        ensures
            recreation_begun(
                r,
                self.place_of(uuid@),
                Some(ContainerUpdateValue { env: Some(env.deep_view()), ..no_changes() }),
            ),
    {
        self.recreate_container(
            uuid,
            Some(
                ContainerUpdateRequest {
                    env: Some(env),
                    limits: None,
                    ports: None,
                    image: None,
                    startup_command: None,
                },
            ),
        )
    }

    /// Begins a recreation with other resource limits.
    pub fn update_limits(&self, uuid: &str, limits: ResourceLimits) -> (r: (
        Recreation,
        Vec<Action>,
    ))
        ensures
            recreation_begun(
                r,
                self.place_of(uuid@),
                Some(ContainerUpdateValue { limits: Some(limits.deep_view()), ..no_changes() }),
            ),
    {
        self.recreate_container(
            uuid,
            Some(
                ContainerUpdateRequest {
                    env: None,
                    limits: Some(limits),
                    ports: None,
                    image: None,
                    startup_command: None,
                },
            ),
        )
    }

    /// Begins a change of ports: new host ports are allocated and recorded, and the container
    /// is recreated.
    pub fn update_ports(&self, uuid: &str, ports: Pairs) -> (r: (PortUpdate, Vec<Action>))
        ensures
            r.0.place.deep_view() == self.place_of(uuid@),
            r.0.phase.deep_view() == (PortUpdatePhaseValue::Loading {
                requested: ports.deep_view(),
            }),
            r.1.deep_view() == seq![ActionValue::LoadTracker],
    {
        PortUpdate::begin(self.find_place(uuid), ports)
    }

    /// Begins a recreation with another image.
    pub fn change_image(&self, uuid: &str, image: String) -> (r: (Recreation, Vec<Action>))
        ensures
            recreation_begun(
                r,
                self.place_of(uuid@),
                Some(ContainerUpdateValue { image: Some(image@), ..no_changes() }),
            ),
    {
        self.recreate_container(
            uuid,
            Some(
                ContainerUpdateRequest {
                    env: None,
                    limits: None,
                    ports: None,
                    image: Some(image),
                    startup_command: None,
                },
            ),
        )
    }

    /// Begins the first installation of a container.
    pub fn create_with_install(&self, uuid: &str, container: NewContainer) -> (r: (
        Installation,
        Vec<Action>,
    ))
        ensures
            r.0.place.deep_view() == self.place_of(uuid@),
            r.0.phase.deep_view() == (InstallPhaseValue::Locking {
                task: InstallTaskValue::Create { container: container.deep_view() },
            }),
            r.1.deep_view() == seq![ActionValue::Lock { reason: "Installing"@ }],
    {
        Installation::begin(self.find_place(uuid), InstallTask::Create { container })
    }

    /// Begins the installation of a container on record with another run of an install script.
    pub fn reinstall(&self, uuid: &str, install_script: &str) -> (r: (Installation, Vec<Action>))
        ensures
            r.0.place.deep_view() == self.place_of(uuid@),
            r.0.phase.deep_view() == (InstallPhaseValue::Locking {
                task: InstallTaskValue::Reinstall { script: install_script@ },
            }),
            r.1.deep_view() == seq![ActionValue::Lock { reason: "Reinstalling"@ }],
    {
        Installation::begin(
            self.find_place(uuid),
            InstallTask::Reinstall { script: install_script.to_owned() },
        )
    }
}

} // verus!
