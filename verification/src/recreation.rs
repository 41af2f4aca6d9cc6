//! Recreating a container: the old one goes, a new one takes its place under the same uuid.

use vstd::prelude::*;
use crate::actions::{
    Action, ActionValue, Reply, ReplyValue, batch1, batch2, batch3, batch5, ends_job,
    ends_job_unlocked,
};
use crate::models::{
    ContainerTracker, ContainerTrackerValue, CreateContainerRequest, CreateContainerValue, Pairs,
    PairTexts, PortAllocationTexts, ResourceLimits, copy_command, copy_env, copy_text, copy_texts,
};
use crate::place::{
    ContainerPlace, ContainerPlaceTexts, entrypoint_command, entrypoint_script,
    make_entrypoint_command,
};
use crate::port_list::{
    distinct_names, find_held_ports, find_port_pairs, held_ports, is_last_for_its_port,
    law_port_pairs, port_pairs,
};
use crate::text::{concat2, join, joined};

verus! {

/// Changes to the configuration of a container. What is missing stays as it is.
#[derive(Clone, Debug, PartialEq, Eq)]
pub struct ContainerUpdateRequest {
    pub env: Option<Pairs>,
    pub limits: Option<ResourceLimits>,
    pub ports: Option<Pairs>,
    pub image: Option<String>,
    pub startup_command: Option<Vec<String>>,
}

/// The values of changes to the configuration of a container.
pub struct ContainerUpdateValue {
    pub env: Option<PairTexts>,
    pub limits: Option<PairTexts>,
    pub ports: Option<PairTexts>,
    pub image: Option<Seq<char>>,
    pub startup_command: Option<Seq<Seq<char>>>,
}

impl DeepView for ContainerUpdateRequest {
    type V = ContainerUpdateValue;

    open spec fn deep_view(&self) -> ContainerUpdateValue {
        ContainerUpdateValue {
            env: self.env.deep_view(),
            limits: self.limits.deep_view(),
            ports: self.ports.deep_view(),
            image: self.image.deep_view(),
            startup_command: self.startup_command.deep_view(),
        }
    }
}

/// No changes at all.
pub open spec fn no_changes() -> ContainerUpdateValue {
    ContainerUpdateValue { env: None, limits: None, ports: None, image: None, startup_command: None }
}

/// What a recreation waits for.
#[derive(Debug, PartialEq, Eq)]
pub enum RecreationPhase {
    /// The lock.
    Locking { update: Option<ContainerUpdateRequest> },
    /// The change of state.
    Marking { update: Option<ContainerUpdateRequest> },
    /// The record of the container.
    Loading { update: Option<ContainerUpdateRequest> },
    /// The entry point on disk, where the changes bring a new command.
    Writing { update: Option<ContainerUpdateRequest>, tracker: ContainerTracker },
    /// The new container.
    Creating { tracker: ContainerTracker },
    /// The start of the new container.
    Starting { container_id: String },
    /// Nothing: the job is over.
    Finished,
}

/// What a recreation waits for, by its values.
pub enum RecreationPhaseValue {
    Locking { update: Option<ContainerUpdateValue> },
    Marking { update: Option<ContainerUpdateValue> },
    Loading { update: Option<ContainerUpdateValue> },
    Writing { update: Option<ContainerUpdateValue>, tracker: ContainerTrackerValue },
    Creating { tracker: ContainerTrackerValue },
    Starting { container_id: Seq<char> },
    Finished,
}

impl DeepView for RecreationPhase {
    type V = RecreationPhaseValue;

    open spec fn deep_view(&self) -> RecreationPhaseValue {
        match self {
            RecreationPhase::Locking { update } => RecreationPhaseValue::Locking {
                update: update.deep_view(),
            },
            RecreationPhase::Marking { update } => RecreationPhaseValue::Marking {
                update: update.deep_view(),
            },
            RecreationPhase::Loading { update } => RecreationPhaseValue::Loading {
                update: update.deep_view(),
            },
            RecreationPhase::Writing { update, tracker } => RecreationPhaseValue::Writing {
                update: update.deep_view(),
                tracker: tracker.deep_view(),
            },
            RecreationPhase::Creating { tracker } => RecreationPhaseValue::Creating {
                tracker: tracker.deep_view(),
            },
            RecreationPhase::Starting { container_id } => RecreationPhaseValue::Starting {
                container_id: container_id@,
            },
            RecreationPhase::Finished => RecreationPhaseValue::Finished,
        }
    }
}

/// The job of recreating one container.
#[derive(Debug, PartialEq, Eq)]
pub struct Recreation {
    pub place: ContainerPlace,
    pub phase: RecreationPhase,
}

/// The job of recreating one container, by its values.
pub struct RecreationValue {
    pub place: ContainerPlaceTexts,
    pub phase: RecreationPhaseValue,
}

impl DeepView for Recreation {
    type V = RecreationValue;

    open spec fn deep_view(&self) -> RecreationValue {
        RecreationValue { place: self.place.deep_view(), phase: self.phase.deep_view() }
    }
}

/// The port mappings to ask for, where there are any.
pub open spec fn requested_ports(tracker: ContainerTrackerValue) -> Option<PairTexts> {
    let pairs = port_pairs(tracker.allocated_ports);
    if pairs.len() == 0 {
        None
    } else {
        Some(pairs)
    }
}

/// The container that takes the place of the one on record: image, environment and limits are
/// those of the changes where they are given, everything else is as it was. Ports stay where
/// they were allocated, and nothing is installed again.
pub open spec fn recreated(
    uuid: Seq<char>,
    update: Option<ContainerUpdateValue>,
    tracker: ContainerTrackerValue,
) -> CreateContainerValue {
    let changes = match update {
        Some(u) => u,
        None => no_changes(),
    };
    CreateContainerValue {
        image: match changes.image {
            Some(image) => image,
            None => tracker.image,
        },
        name: Some(tracker.name),
        description: tracker.description,
        startup_command: Some(entrypoint_command()),
        env: if changes.env is Some {
            changes.env
        } else {
            tracker.env
        },
        ports: requested_ports(tracker),
        volumes: Some(tracker.attached_volumes),
        command: None,
        working_dir: None,
        restart_policy: None,
        custom_uuid: Some(uuid),
        limits: if changes.limits is Some {
            changes.limits
        } else {
            Some(tracker.limits)
        },
        install_content: None,
        update_content: tracker.update_content,
    }
}

/// The command that changes bring for the entry point, where they bring one.
pub open spec fn new_command(update: Option<ContainerUpdateValue>) -> Option<Seq<Seq<char>>> {
    match update {
        Some(u) => u.startup_command,
        None => None,
    }
}

/// The old container makes room: it is stopped and removed, and its ports are given back.
pub open spec fn room_made(tracker: ContainerTrackerValue) -> Seq<ActionValue> {
    seq![
        ActionValue::StopContainer { container_id: tracker.container_id },
        ActionValue::Pause { millis: 300 },
        ActionValue::RemoveContainer { container_id: tracker.container_id },
        ActionValue::ReleasePorts { ports: held_ports(tracker.allocated_ports) },
    ]
}

/// A recreation fails after the old container is gone.
pub open spec fn failed_with(what: Seq<char>, error: Seq<char>) -> (
    RecreationPhaseValue,
    Seq<ActionValue>,
) {
    (
        RecreationPhaseValue::Finished,
        seq![
            ActionValue::SetState { state: "failed"@ },
            ActionValue::Unlock,
            ActionValue::Finish { result: Err(what + error) },
        ],
    )
}

/// How a recreation goes on: its next phase and what it asks for. A reply that it does not
/// wait for changes nothing.
pub open spec fn recreation_next(job: RecreationValue, reply: ReplyValue) -> (
    RecreationPhaseValue,
    Seq<ActionValue>,
) {
    match (job.phase, reply) {
        (RecreationPhaseValue::Locking { update }, ReplyValue::Done(Ok(_))) => (
            RecreationPhaseValue::Marking { update },
            seq![ActionValue::SetState { state: "recreating"@ }],
        ),
        (RecreationPhaseValue::Locking { .. }, ReplyValue::Done(Err(e))) => (
            RecreationPhaseValue::Finished,
            seq![ActionValue::Finish { result: Err("Failed to lock container: "@ + e) }],
        ),
        (RecreationPhaseValue::Marking { update }, ReplyValue::Done(Ok(_))) => (
            RecreationPhaseValue::Loading { update },
            seq![ActionValue::LoadTracker],
        ),
        (RecreationPhaseValue::Marking { .. }, ReplyValue::Done(Err(e))) => (
            RecreationPhaseValue::Finished,
            seq![
                ActionValue::Unlock,
                ActionValue::Finish { result: Err("Failed to update state: "@ + e) },
            ],
        ),
        (RecreationPhaseValue::Loading { update }, ReplyValue::Tracker(Ok(Some(tracker)))) =>
            match new_command(update) {
                Some(command) => (
                    RecreationPhaseValue::Writing {
                        update,
                        tracker: ContainerTrackerValue {
                            startup_command: Some(command),
                            ..tracker
                        },
                    },
                    room_made(tracker).push(
                        ActionValue::WriteFile {
                            path: job.place.entrypoint_path(),
                            content: entrypoint_script(Some(command)),
                        },
                    ),
                ),
                None => (
                    RecreationPhaseValue::Creating { tracker },
                    room_made(tracker).push(
                        ActionValue::CreateContainer {
                            request: recreated(job.place.uuid, update, tracker),
                        },
                    ),
                ),
            },
        (RecreationPhaseValue::Loading { .. }, ReplyValue::Tracker(Ok(None))) => (
            RecreationPhaseValue::Finished,
            seq![
                ActionValue::Unlock,
                ActionValue::Finish { result: Err("Container tracker data not found"@) },
            ],
        ),
        (RecreationPhaseValue::Loading { .. }, ReplyValue::Tracker(Err(e))) => (
            RecreationPhaseValue::Finished,
            seq![
                ActionValue::Unlock,
                ActionValue::Finish { result: Err("Failed to load container data: "@ + e) },
            ],
        ),
        (RecreationPhaseValue::Writing { update, tracker }, ReplyValue::Done(Ok(_))) => (
            RecreationPhaseValue::Creating { tracker },
            seq![
                ActionValue::MakeExecutable { path: job.place.entrypoint_path() },
                ActionValue::CreateContainer {
                    request: recreated(job.place.uuid, update, tracker),
                },
            ],
        ),
        (RecreationPhaseValue::Writing { .. }, ReplyValue::Done(Err(e))) => failed_with(
            "Failed to write entrypoint: "@,
            e,
        ),
        (RecreationPhaseValue::Creating { tracker }, ReplyValue::Created(Ok((id, ports)))) => (
            RecreationPhaseValue::Starting { container_id: id },
            seq![
                ActionValue::SaveTracker {
                    tracker: ContainerTrackerValue {
                        container_id: id,
                        allocated_ports: ports,
                        ..tracker
                    },
                },
                ActionValue::SetContainerId { container_id: id },
                ActionValue::StartContainer { container_id: id },
            ],
        ),
        (RecreationPhaseValue::Creating { .. }, ReplyValue::Created(Err(e))) => failed_with(
            "Failed to create container: "@,
            e,
        ),
        (RecreationPhaseValue::Starting { container_id }, ReplyValue::Done(started)) => (
            RecreationPhaseValue::Finished,
            seq![
                ActionValue::SetState {
                    state: if started is Ok {
                        "running"@
                    } else {
                        "failed"@
                    },
                },
                ActionValue::Unlock,
                ActionValue::Finish { result: Ok(container_id) },
            ],
        ),
        (phase, _) => (phase, Seq::empty()),
    }
}

/// How many replies a recreation still waits for at most.
pub open spec fn recreation_remaining(phase: RecreationPhaseValue) -> nat {
    match phase {
        RecreationPhaseValue::Locking { .. } => 6,
        RecreationPhaseValue::Marking { .. } => 5,
        RecreationPhaseValue::Loading { .. } => 4,
        RecreationPhaseValue::Writing { .. } => 3,
        RecreationPhaseValue::Creating { .. } => 2,
        RecreationPhaseValue::Starting { .. } => 1,
        RecreationPhaseValue::Finished => 0,
    }
}

/// The uuid is the identity of a container: whatever a recreation creates, it creates under
/// the uuid that it was begun for, and what it records keeps the uuid that was on record.
pub proof fn law_recreation_keeps_uuid(job: RecreationValue, reply: ReplyValue)
    ensures
        forall|i: int|
            0 <= i < recreation_next(job, reply).1.len() ==> (#[trigger] recreation_next(
                job,
                reply,
            ).1[i] matches ActionValue::CreateContainer { request } ==> request.custom_uuid == Some(
                job.place.uuid,
            )),
        forall|i: int|
            0 <= i < recreation_next(job, reply).1.len() ==> (#[trigger] recreation_next(
                job,
                reply,
            ).1[i] matches ActionValue::SaveTracker { tracker } ==> job.phase is Creating
                && tracker.custom_uuid == job.phase->Creating_tracker.custom_uuid),
{
}

/// What a container has stored outlives its recreation: nothing is written but the entry point,
/// and that only where the changes bring a new command, which it then runs.
pub proof fn law_recreation_writes_entrypoint_only(job: RecreationValue, reply: ReplyValue)
    ensures
        forall|i: int|
            0 <= i < recreation_next(job, reply).1.len() ==> (#[trigger] recreation_next(
                job,
                reply,
            ).1[i] matches ActionValue::WriteFile { path, content } ==> path
                == job.place.entrypoint_path() && job.phase is Loading && new_command(
                job.phase->Loading_update,
            ) is Some && content == entrypoint_script(new_command(job.phase->Loading_update))),
        forall|i: int|
            0 <= i < recreation_next(job, reply).1.len() ==> (#[trigger] recreation_next(
                job,
                reply,
            ).1[i] matches ActionValue::MakeExecutable { path } ==> path
                == job.place.entrypoint_path()),
        forall|i: int|
            0 <= i < recreation_next(job, reply).1.len() ==> !(#[trigger] recreation_next(
                job,
                reply,
            ).1[i] is CreateDirectory),
{
}

/// A container is recreated with its new command: the entry point that runs it is written before
/// the new container is asked for, and the record keeps it. All else on record but the id and
/// the ports stays as it is.
pub proof fn law_new_command_is_run(
    place: ContainerPlaceTexts,
    update: ContainerUpdateValue,
    tracker: ContainerTrackerValue,
    id: Seq<char>,
    ports: Seq<PortAllocationTexts>,
)
    requires
        update.startup_command is Some,
    ensures
        ({
            let loading = RecreationValue {
                place,
                phase: RecreationPhaseValue::Loading { update: Some(update) },
            };
            let (writing, first) = recreation_next(
                loading,
                ReplyValue::Tracker(Ok(Some(tracker))),
            );
            let (creating, second) = recreation_next(
                RecreationValue { place, phase: writing },
                ReplyValue::Done(Ok(())),
            );
            let (_, third) = recreation_next(
                RecreationValue { place, phase: creating },
                ReplyValue::Created(Ok((id, ports))),
            );
            &&& first.last() == (ActionValue::WriteFile {
                path: place.entrypoint_path(),
                content: joined(update.startup_command->0, " "@),
            })
            &&& second == seq![
                ActionValue::MakeExecutable { path: place.entrypoint_path() },
                ActionValue::CreateContainer {
                    request: recreated(place.uuid, Some(update), tracker),
                },
            ]
            &&& third[0] == (ActionValue::SaveTracker {
                tracker: ContainerTrackerValue {
                    container_id: id,
                    allocated_ports: ports,
                    startup_command: update.startup_command,
                    ..tracker
                },
            })
        }),
{
}

/// The lock lasts as long as the job: wherever a recreation ends, well or not, it unlocks the
/// container just before, unless it was refused the lock.
pub proof fn law_recreation_ends_unlocked(job: RecreationValue, reply: ReplyValue)
    ensures
        ends_job(recreation_next(job, reply).1) ==> (ends_job_unlocked(
            recreation_next(job, reply).1,
        ) <==> !(job.phase is Locking)),
{
}

/// Whether an action does something to a container, its record, its ports or its files.
pub open spec fn touches(action: ActionValue) -> bool {
    !(action is Lock || action is Unlock || action is SetState || action is LoadTracker
        || action is Finish)
}

/// Nothing is done to a container before its lock was granted and its state recorded: until
/// then a recreation asks for these two, or ends.
pub proof fn law_recreation_locks_first(job: RecreationValue, reply: ReplyValue)
    requires
        job.phase is Locking || job.phase is Marking,
    ensures
        forall|i: int|
            0 <= i < recreation_next(job, reply).1.len() ==> !touches(
                #[trigger] recreation_next(job, reply).1[i],
            ),
        recreation_next(job, reply).0 != job.phase ==> reply is Done,
        recreation_next(job, reply).0 is Finished <==> reply is Done && reply->Done_0 is Err,
        job.phase is Locking ==> recreation_next(job, reply).0 is Locking || recreation_next(
            job,
            reply,
        ).0 is Marking || recreation_next(job, reply).0 is Finished,
{
}

/// The old container makes room: once its record is there and before anything else, it is
/// stopped and removed and its ports are given back. Only from there, or from the writing of the
/// entry point that follows, is a new container asked for; it runs the entry point and installs
/// nothing.
pub proof fn law_old_container_goes_first(job: RecreationValue, reply: ReplyValue)
    ensures
        ({
            let batch = recreation_next(job, reply).1;
            &&& job.phase is Loading ==> (reply matches ReplyValue::Tracker(Ok(Some(tracker)))
                ==> batch.len() == 5 && batch.take(4) == room_made(tracker))
            &&& forall|i: int|
                0 <= i < batch.len() ==> (#[trigger] batch[i] matches ActionValue::CreateContainer {
                    request,
                } ==> i == batch.len() - 1 && (job.phase is Loading || job.phase is Writing)
                    && request.install_content is None && request.startup_command == Some(
                    entrypoint_command(),
                ))
            &&& recreation_next(job, reply).0 is Writing ==> recreation_next(job, reply).0
                == job.phase || job.phase is Loading
        }),
{
    let batch = recreation_next(job, reply).1;
    if job.phase is Loading {
        if let ReplyValue::Tracker(Ok(Some(tracker))) = reply {
            assert(batch.take(4) =~= room_made(tracker));
        }
    }
}

/// The container stays locked until the job ends: it is only ever unlocked by the last action
/// but one, right before the job is over.
pub proof fn law_recreation_unlocks_at_the_end_only(job: RecreationValue, reply: ReplyValue)
    ensures
        forall|i: int|
            0 <= i < recreation_next(job, reply).1.len() && #[trigger] recreation_next(
                job,
                reply,
            ).1[i] is Unlock ==> !(job.phase is Locking) && i == recreation_next(
                job,
                reply,
            ).1.len() - 2 && ends_job(recreation_next(job, reply).1),
{
}

/// A recreation ends: each reply that it waits for brings it at least one reply nearer to its
/// end, any other leaves it as it is, and it says that it is over exactly when it is.
pub proof fn law_recreation_ends(job: RecreationValue, reply: ReplyValue)
    ensures
        recreation_next(job, reply).1.len() > 0 ==> recreation_remaining(
            recreation_next(job, reply).0,
        ) < recreation_remaining(job.phase),
        recreation_next(job, reply).1.len() == 0 ==> recreation_next(job, reply).0 == job.phase,
        ends_job(recreation_next(job, reply).1) <==> !(job.phase is Finished) && recreation_next(
            job,
            reply,
        ).0 is Finished,
        job.phase is Finished ==> recreation_next(job, reply).1.len() == 0,
{
}

/// A recreation after it was told a number of replies, with everything that it asked for on the
/// way.
pub open spec fn recreation_run(job: RecreationValue, replies: Seq<ReplyValue>) -> (
    RecreationValue,
    Seq<ActionValue>,
)
    decreases replies.len(),
{
    if replies.len() == 0 {
        (job, Seq::empty())
    } else {
        let (before, log) = recreation_run(job, replies.drop_last());
        let (phase, batch) = recreation_next(before, replies.last());
        (RecreationValue { place: before.place, phase }, log + batch)
    }
}

/// How many of the actions ask for a new container.
pub open spec fn creations(log: Seq<ActionValue>) -> nat
    decreases log.len(),
{
    if log.len() == 0 {
        0
    } else {
        creations(log.drop_last()) + if log.last() is CreateContainer {
            1nat
        } else {
            0nat
        }
    }
}

/// The counts of two logs add up.
pub proof fn lemma_creations_add(a: Seq<ActionValue>, b: Seq<ActionValue>)
    ensures
        creations(a + b) == creations(a) + creations(b),
    decreases b.len(),
{
    if b.len() == 0 {
        assert(a + b =~= a);
    } else {
        lemma_creations_add(a, b.drop_last());
        assert((a + b).drop_last() =~= a + b.drop_last());
    }
}

/// The count of a batch in which only the last action may ask for a new container.
pub proof fn lemma_creations_of_batch(batch: Seq<ActionValue>)
    requires
        forall|i: int|
            0 <= i < batch.len() - 1 ==> !(#[trigger] batch[i] is CreateContainer),
    ensures
        creations(batch) == if batch.len() > 0 && batch.last() is CreateContainer {
            1nat
        } else {
            0nat
        },
    decreases batch.len(),
{
    if batch.len() > 0 {
        let front = batch.drop_last();
        assert forall|i: int| 0 <= i < front.len() - 1 implies !(
        #[trigger] front[i] is CreateContainer) by {
            assert(front[i] == batch[i]);
        }
        lemma_creations_of_batch(front);
        if front.len() > 0 {
            assert(front.last() == batch[batch.len() - 2]);
        }
    }
}

/// Whatever a recreation is told, in whatever order: it keeps its container; nothing is done to
/// that while the lock or the record of the state is waited for; at most one new container is
/// asked for, and none before the record of the old one is there; the container is unlocked right
/// before the end and at no other time, and it always is unless all that the job did was to say
/// that it was refused the lock; and nothing follows the end, which the job has come to exactly
/// when it has said so.
pub proof fn law_recreation_run(
    place: ContainerPlaceTexts,
    update: Option<ContainerUpdateValue>,
    replies: Seq<ReplyValue>,
)
    ensures
        ({
            let start = RecreationValue { place, phase: RecreationPhaseValue::Locking { update } };
            let (job, log) = recreation_run(start, replies);
            &&& job.place == place
            &&& (job.phase is Locking || job.phase is Marking) ==> forall|i: int|
                0 <= i < log.len() ==> !touches(#[trigger] log[i])
            &&& creations(log) <= 1
            &&& (job.phase is Locking || job.phase is Marking || job.phase is Loading
                || job.phase is Writing) ==> creations(log) == 0
            &&& forall|i: int|
                0 <= i < log.len() && #[trigger] log[i] is Unlock ==> i == log.len() - 2
                    && job.phase is Finished
            &&& forall|i: int|
                0 <= i < log.len() && #[trigger] log[i] is Finish ==> i == log.len() - 1
            &&& job.phase is Finished <==> 0 < log.len() && log.last() is Finish
            &&& job.phase is Finished ==> log.len() == 1 || log[log.len() - 2] is Unlock
            &&& job.phase is Locking <==> log.len() == 0
        }),
    decreases replies.len(),
{
    if replies.len() > 0 {
        let start = RecreationValue { place, phase: RecreationPhaseValue::Locking { update } };
        law_recreation_run(place, update, replies.drop_last());
        let (before, old_log) = recreation_run(start, replies.drop_last());
        let reply = replies.last();
        let (phase, batch) = recreation_next(before, reply);
        let log = old_log + batch;
        law_recreation_ends(before, reply);
        law_recreation_unlocks_at_the_end_only(before, reply);
        lemma_creations_add(old_log, batch);
        assert forall|i: int| 0 <= i < batch.len() - 1 implies !(
        #[trigger] batch[i] is CreateContainer) by {}
        lemma_creations_of_batch(batch);
        assert forall|i: int| 0 <= i < log.len() implies #[trigger] log[i] == if i
            < old_log.len() {
            old_log[i]
        } else {
            batch[i - old_log.len()]
        } by {}
        if batch.len() == 0 {
            assert(log =~= old_log);
        } else {
            assert(log.last() == batch.last());
            law_recreation_ends_unlocked(before, reply);
            if phase is Finished && log.len() > 1 {
                assert(log[log.len() - 2] == batch[batch.len() - 2]);
            }
        }
    }
}

/// The port mappings that a container asks for name each of its ports once.
pub proof fn law_requested_ports_are_distinct(tracker: ContainerTrackerValue)
    ensures
        requested_ports(tracker) matches Some(ports) ==> distinct_names(ports),
{
    law_port_pairs(tracker.allocated_ports);
}

/// A configuration that is changed in one respect keeps all others. The container that is asked
/// for runs its entry point in any case, so a new command changes nothing here.
pub proof fn law_recreated_without_changes(
    uuid: Seq<char>,
    update: ContainerUpdateValue,
    tracker: ContainerTrackerValue,
)
    ensures
        update.image is None && update.env is None && update.limits is None ==> recreated(
            uuid,
            Some(update),
            tracker,
        ) == recreated(uuid, None, tracker),
        recreated(uuid, Some(update), tracker) == (CreateContainerValue {
            image: recreated(uuid, Some(update), tracker).image,
            env: recreated(uuid, Some(update), tracker).env,
            limits: recreated(uuid, Some(update), tracker).limits,
            ..recreated(uuid, None, tracker)
        }),
        update.image is None ==> recreated(uuid, Some(update), tracker).image == tracker.image,
        update.env is None ==> recreated(uuid, Some(update), tracker).env == tracker.env,
        update.limits is None ==> recreated(uuid, Some(update), tracker).limits == Some(
            tracker.limits,
        ),
{
}

/// Changes take effect: the container that is asked for has the limits, the environment and the
/// image that the changes bring, each of them whatever else is changed or not.
pub proof fn law_changes_take_effect(
    uuid: Seq<char>,
    update: ContainerUpdateValue,
    tracker: ContainerTrackerValue,
)
    ensures
        update.limits matches Some(limits) ==> recreated(uuid, Some(update), tracker).limits
            == Some(limits),
        update.env matches Some(env) ==> recreated(uuid, Some(update), tracker).env == Some(env),
        update.image matches Some(image) ==> recreated(uuid, Some(update), tracker).image == image,
{
}

/// What no change is about stays: whatever is changed, the container that is asked for has the
/// uuid that the job is about, and the name, the description, the volumes and the update script
/// that are on record. It runs its entry point, installs nothing, and is given no other command,
/// directory or restart policy. Without changes image, environment and limits are those on
/// record too.
pub proof fn law_recreated_keeps_the_rest(
    uuid: Seq<char>,
    update: Option<ContainerUpdateValue>,
    tracker: ContainerTrackerValue,
)
    ensures
        ({
            let request = recreated(uuid, update, tracker);
            &&& request.custom_uuid == Some(uuid)
            &&& request.name == Some(tracker.name)
            &&& request.description == tracker.description
            &&& request.volumes == Some(tracker.attached_volumes)
            &&& request.update_content == tracker.update_content
            &&& request.startup_command == Some(seq!["/bin/sh"@, "/data/entrypoint.sh"@])
            &&& request.install_content is None
            &&& request.command is None
            &&& request.working_dir is None
            &&& request.restart_policy is None
            &&& update is None ==> request.image == tracker.image && request.env == tracker.env
                && request.limits == Some(tracker.limits)
        }),
{
}

/// A container keeps its ports: the container that is asked for has every container port that is
/// allocated on record, with the host port of its last allocation, and no other; ports that the
/// changes name do not matter. Nothing is asked for where nothing is allocated.
pub proof fn law_recreated_keeps_ports(
    uuid: Seq<char>,
    update: Option<ContainerUpdateValue>,
    tracker: ContainerTrackerValue,
)
    ensures
        ({
            let allocated = tracker.allocated_ports;
            let ports = recreated(uuid, update, tracker).ports;
            &&& ports is None <==> allocated.len() == 0
            &&& ports matches Some(pairs) ==> {
                &&& forall|i: int, j: int|
                    0 <= i < j < pairs.len() ==> (#[trigger] pairs[i]).0 != (#[trigger] pairs[j]).0
                &&& forall|i: int|
                    0 <= i < allocated.len() && (forall|j: int|
                        i < j < allocated.len() ==> (#[trigger] allocated[j]).container_port
                            != allocated[i].container_port) ==> pairs.contains(
                        ((#[trigger] allocated[i]).container_port, allocated[i].host_port),
                    )
                &&& forall|k: int|
                    #![trigger pairs[k]]
                    0 <= k < pairs.len() ==> exists|i: int|
                        0 <= i < allocated.len() && pairs[k] == (
                            (#[trigger] allocated[i]).container_port,
                            allocated[i].host_port,
                        )
            }
        }),
{
    let allocated = tracker.allocated_ports;
    let pairs = port_pairs(allocated);
    law_port_pairs(allocated);
    if allocated.len() > 0 {
        let n = allocated.len() - 1;
        assert(is_last_for_its_port(allocated, n));
        assert(pairs.contains((allocated[n].container_port, allocated[n].host_port)));
    }
    assert forall|i: int|
        0 <= i < allocated.len() && (forall|j: int|
            i < j < allocated.len() ==> (#[trigger] allocated[j]).container_port
                != allocated[i].container_port) implies pairs.contains(
        ((#[trigger] allocated[i]).container_port, allocated[i].host_port),
    ) by {
        assert(is_last_for_its_port(allocated, i));
    }
    assert forall|k: int|
        #![trigger pairs[k]]
        0 <= k < pairs.len() implies exists|i: int|
        0 <= i < allocated.len() && pairs[k] == (
            (#[trigger] allocated[i]).container_port,
            allocated[i].host_port,
        ) by {
        let i = choose|i: int|
            0 <= i < allocated.len() && #[trigger] is_last_for_its_port(allocated, i) && pairs[k]
                == (allocated[i].container_port, allocated[i].host_port);
        assert(allocated[i].container_port == pairs[k].0);
    }
}

/// How a recreation begins, with whatever changes: once it has the lock the state says so, and then
/// the record of the container is loaded. Nothing of the changes is lost on the way.
pub proof fn law_recreation_begins(
    place: ContainerPlaceTexts,
    update: Option<ContainerUpdateValue>,
)
    ensures
        recreation_next(
            RecreationValue { place, phase: RecreationPhaseValue::Locking { update } },
            ReplyValue::Done(Ok(())),
        ) == (
            RecreationPhaseValue::Marking { update },
            seq![ActionValue::SetState { state: "recreating"@ }],
        ),
        recreation_next(
            RecreationValue { place, phase: RecreationPhaseValue::Marking { update } },
            ReplyValue::Done(Ok(())),
        ) == (RecreationPhaseValue::Loading { update }, seq![ActionValue::LoadTracker]),
{
}

/// What a recreation comes to, where nothing fails up to the start: the container is marked, its
/// record is loaded, the old container is stopped and, after a moment, removed, its host ports
/// are given back, the new one is created from the record and the changes, recorded with its id
/// and its ports and started, and the job ends with the new id. Whether it started is what the
/// state says in the end.
pub proof fn law_recreation_course(
    place: ContainerPlaceTexts,
    update: Option<ContainerUpdateValue>,
    tracker: ContainerTrackerValue,
    id: Seq<char>,
    ports: Seq<PortAllocationTexts>,
    started: Result<(), Seq<char>>,
)
    requires
        update matches Some(u) ==> u.startup_command is None,
    ensures
        ({
            let done = ReplyValue::Done(Ok(()));
            let begun = RecreationPhaseValue::Locking { update };
            let (p1, b1) = recreation_next(RecreationValue { place, phase: begun }, done);
            let (p2, b2) = recreation_next(RecreationValue { place, phase: p1 }, done);
            let (p3, b3) = recreation_next(
                RecreationValue { place, phase: p2 },
                ReplyValue::Tracker(Ok(Some(tracker))),
            );
            let (p4, b4) = recreation_next(
                RecreationValue { place, phase: p3 },
                ReplyValue::Created(Ok((id, ports))),
            );
            let (p5, b5) = recreation_next(
                RecreationValue { place, phase: p4 },
                ReplyValue::Done(started),
            );
            &&& b1 == seq![ActionValue::SetState { state: "recreating"@ }]
            &&& b2 == seq![ActionValue::LoadTracker]
            &&& b3 == seq![
                ActionValue::StopContainer { container_id: tracker.container_id },
                ActionValue::Pause { millis: 300 },
                ActionValue::RemoveContainer { container_id: tracker.container_id },
                ActionValue::ReleasePorts { ports: held_ports(tracker.allocated_ports) },
                ActionValue::CreateContainer { request: recreated(place.uuid, update, tracker) },
            ]
            &&& b4 == seq![
                ActionValue::SaveTracker {
                    tracker: ContainerTrackerValue {
                        container_id: id,
                        allocated_ports: ports,
                        ..tracker
                    },
                },
                ActionValue::SetContainerId { container_id: id },
                ActionValue::StartContainer { container_id: id },
            ]
            &&& b5 == seq![
                ActionValue::SetState {
                    state: if started is Ok {
                        "running"@
                    } else {
                        "failed"@
                    },
                },
                ActionValue::Unlock,
                ActionValue::Finish { result: Ok(id) },
            ]
            &&& p5 is Finished
        }),
{
    let create = ActionValue::CreateContainer { request: recreated(place.uuid, update, tracker) };
    assert(room_made(tracker).push(create) =~= seq![
        ActionValue::StopContainer { container_id: tracker.container_id },
        ActionValue::Pause { millis: 300 },
        ActionValue::RemoveContainer { container_id: tracker.container_id },
        ActionValue::ReleasePorts { ports: held_ports(tracker.allocated_ports) },
        create,
    ]);
}

/// How a recreation fails: the job ends at once with what went wrong, wherever that happens. Once
/// the old container is gone the state says that the container failed.
pub proof fn law_recreation_failures(
    place: ContainerPlaceTexts,
    update: Option<ContainerUpdateValue>,
    tracker: ContainerTrackerValue,
    error: Seq<char>,
)
    ensures
        recreation_next(
            RecreationValue { place, phase: RecreationPhaseValue::Locking { update } },
            ReplyValue::Done(Err(error)),
        ) == (
            RecreationPhaseValue::Finished,
            seq![ActionValue::Finish { result: Err("Failed to lock container: "@ + error) }],
        ),
        recreation_next(
            RecreationValue { place, phase: RecreationPhaseValue::Marking { update } },
            ReplyValue::Done(Err(error)),
        ) == (
            RecreationPhaseValue::Finished,
            seq![
                ActionValue::Unlock,
                ActionValue::Finish { result: Err("Failed to update state: "@ + error) },
            ],
        ),
        recreation_next(
            RecreationValue { place, phase: RecreationPhaseValue::Loading { update } },
            ReplyValue::Tracker(Ok(None)),
        ) == (
            RecreationPhaseValue::Finished,
            seq![
                ActionValue::Unlock,
                ActionValue::Finish { result: Err("Container tracker data not found"@) },
            ],
        ),
        recreation_next(
            RecreationValue { place, phase: RecreationPhaseValue::Loading { update } },
            ReplyValue::Tracker(Err(error)),
        ) == (
            RecreationPhaseValue::Finished,
            seq![
                ActionValue::Unlock,
                ActionValue::Finish { result: Err("Failed to load container data: "@ + error) },
            ],
        ),
        recreation_next(
            RecreationValue { place, phase: RecreationPhaseValue::Writing { update, tracker } },
            ReplyValue::Done(Err(error)),
        ) == (
            RecreationPhaseValue::Finished,
            seq![
                ActionValue::SetState { state: "failed"@ },
                ActionValue::Unlock,
                ActionValue::Finish { result: Err("Failed to write entrypoint: "@ + error) },
            ],
        ),
        recreation_next(
            RecreationValue { place, phase: RecreationPhaseValue::Creating { tracker } },
            ReplyValue::Created(Err(error)),
        ) == (
            RecreationPhaseValue::Finished,
            seq![
                ActionValue::SetState { state: "failed"@ },
                ActionValue::Unlock,
                ActionValue::Finish { result: Err("Failed to create container: "@ + error) },
            ],
        ),
{
}

/// A recreation takes the answers that it waits for and no others: the lock, the state, the entry
/// point and the start are only done or not, the record and the new container come with what
/// they hold.
pub proof fn law_recreation_takes_answers(job: RecreationValue, reply: ReplyValue)
    ensures
        recreation_next(job, reply).0 != job.phase <==> match job.phase {
            RecreationPhaseValue::Loading { .. } => reply is Tracker,
            RecreationPhaseValue::Creating { .. } => reply is Created,
            RecreationPhaseValue::Finished => false,
            _ => reply is Done,
        },
{
}

/// The port mappings to ask for, where there are any.
pub fn make_requested_ports(tracker: &ContainerTracker) -> (r: Option<Pairs>)
    ensures
        r.deep_view() == requested_ports(tracker.deep_view()),
{
    let pairs = find_port_pairs(&tracker.allocated_ports);
    if pairs.len() == 0 {
        None
    } else {
        Some(pairs)
    }
}

/// Merges the changes with the record and describes the container to be created.
pub fn make_recreated(
    uuid: &String,
    update: &Option<ContainerUpdateRequest>,
    tracker: &ContainerTracker,
) -> (r: CreateContainerRequest)
    ensures
        r.deep_view() == recreated(uuid@, update.deep_view(), tracker.deep_view()),
{
    let (env, limits, image) = match update {
        Some(u) => (
            copy_env(&u.env),
            match &u.limits {
                Some(limits) => Some(limits.copy()),
                None => None,
            },
            copy_text(&u.image),
        ),
        None => (None, None, None),
    };
    CreateContainerRequest {
        image: match image {
            Some(image) => image,
            None => tracker.image.clone(),
        },
        name: Some(tracker.name.clone()),
        description: copy_text(&tracker.description),
        startup_command: Some(make_entrypoint_command()),
        env: match env {
            Some(env) => Some(env),
            None => copy_env(&tracker.env),
        },
        ports: make_requested_ports(tracker),
        volumes: Some(copy_texts(&tracker.attached_volumes)),
        command: None,
        working_dir: None,
        restart_policy: None,
        custom_uuid: Some(uuid.clone()),
        limits: match limits {
            Some(limits) => Some(limits),
            None => Some(tracker.limits.copy()),
        },
        install_content: None,
        update_content: copy_text(&tracker.update_content),
    }
}

/// Fails after the old container is gone.
fn fail(place: ContainerPlace, what: &str, error: String) -> (r: (Recreation, Vec<Action>))
    ensures
        r.0.place == place,
        (r.0.phase.deep_view(), r.1.deep_view()) == failed_with(what@, error@),
{
    (
        Recreation { place, phase: RecreationPhase::Finished },
        batch3(
            Action::SetState { state: "failed".to_owned() },
            Action::Unlock,
            Action::Finish { result: Err(concat2(what, error.as_str())) },
        ),
    )
}

/// Makes room for the new container, and asks for it, or for its entry point first where that
/// is to run another command.
fn make_room(
    place: ContainerPlace,
    update: Option<ContainerUpdateRequest>,
    tracker: ContainerTracker,
) -> (r: (Recreation, Vec<Action>))
    ensures
        r.0.place == place,
        (r.0.phase.deep_view(), r.1.deep_view()) == recreation_next(
            RecreationValue {
                place: place.deep_view(),
                phase: RecreationPhaseValue::Loading { update: update.deep_view() },
            },
            ReplyValue::Tracker(Ok(Some(tracker.deep_view()))),
        ),
{
    let stop = Action::StopContainer { container_id: tracker.container_id.clone() };
    let pause = Action::Pause { millis: 300 };
    let remove = Action::RemoveContainer { container_id: tracker.container_id.clone() };
    let release = Action::ReleasePorts { ports: find_held_ports(&tracker.allocated_ports) };
    let ghost room = room_made(tracker.deep_view());
    let command = match &update {
        Some(u) => copy_command(&u.startup_command),
        None => None,
    };
    assert(command.deep_view() == new_command(update.deep_view()));
    match command {
        Some(parts) => {
            let write = Action::WriteFile {
                path: place.entrypoint_path(),
                content: join(&parts, " "),
            };
            let ghost last = write.deep_view();
            let batch = batch5(stop, pause, remove, release, write);
            assert(batch.deep_view() =~= room.push(last));
            let mut renewed = tracker;
            renewed.startup_command = Some(parts);
            (
                Recreation { place, phase: RecreationPhase::Writing { update, tracker: renewed } },
                batch,
            )
        },
        None => {
            let create = Action::CreateContainer {
                request: make_recreated(&place.uuid, &update, &tracker),
            };
            let ghost last = create.deep_view();
            let batch = batch5(stop, pause, remove, release, create);
            assert(batch.deep_view() =~= room.push(last));
            (Recreation { place, phase: RecreationPhase::Creating { tracker } }, batch)
        },
    }
}

impl Recreation {
    /// Begins the recreation of a container. The lock comes first.
    pub fn begin(place: ContainerPlace, update: Option<ContainerUpdateRequest>) -> (r: (
        Recreation,
        Vec<Action>,
    ))
        ensures
            r.0.deep_view() == (RecreationValue {
                place: place.deep_view(),
                phase: RecreationPhaseValue::Locking { update: update.deep_view() },
            }),
            r.1.deep_view() == seq![ActionValue::Lock { reason: "Recreating container"@ }],
    {
        let batch = batch1(Action::Lock { reason: "Recreating container".to_owned() });
        (Recreation { place, phase: RecreationPhase::Locking { update } }, batch)
    }

    /// Whether the job is over.
    pub fn is_finished(&self) -> (r: bool)
        ensures
            r == (self.deep_view().phase is Finished),
    {
        matches!(self.phase, RecreationPhase::Finished)
    }

    /// Goes on after a reply: the job in its next phase and what it asks for.
    pub fn step(self, reply: Reply) -> (r: (Recreation, Vec<Action>))
        ensures
            r.0.place == self.place,
            r.0.deep_view().phase == recreation_next(self.deep_view(), reply.deep_view()).0,
            r.1.deep_view() == recreation_next(self.deep_view(), reply.deep_view()).1,
    {
        let Recreation { place, phase } = self;
        match (phase, reply) {
            (RecreationPhase::Locking { update }, Reply::Done(Ok(_))) => (
                Recreation { place, phase: RecreationPhase::Marking { update } },
                batch1(Action::SetState { state: "recreating".to_owned() }),
            ),
            (RecreationPhase::Locking { .. }, Reply::Done(Err(e))) => (
                Recreation { place, phase: RecreationPhase::Finished },
                batch1(
                    Action::Finish {
                        result: Err(concat2("Failed to lock container: ", e.as_str())),
                    },
                ),
            ),
            (RecreationPhase::Marking { update }, Reply::Done(Ok(_))) => (
                Recreation { place, phase: RecreationPhase::Loading { update } },
                batch1(Action::LoadTracker),
            ),
            (RecreationPhase::Marking { .. }, Reply::Done(Err(e))) => (
                Recreation { place, phase: RecreationPhase::Finished },
                batch2(
                    Action::Unlock,
                    Action::Finish { result: Err(concat2("Failed to update state: ", e.as_str())) },
                ),
            ),
            (RecreationPhase::Loading { update }, Reply::Tracker(Ok(Some(tracker)))) => make_room(
                place,
                update,
                tracker,
            ),
            (RecreationPhase::Loading { .. }, Reply::Tracker(Ok(None))) => (
                Recreation { place, phase: RecreationPhase::Finished },
                batch2(
                    Action::Unlock,
                    Action::Finish { result: Err("Container tracker data not found".to_owned()) },
                ),
            ),
            (RecreationPhase::Loading { .. }, Reply::Tracker(Err(e))) => (
                Recreation { place, phase: RecreationPhase::Finished },
                batch2(
                    Action::Unlock,
                    Action::Finish {
                        result: Err(concat2("Failed to load container data: ", e.as_str())),
                    },
                ),
            ),
            (RecreationPhase::Writing { update, tracker }, Reply::Done(Ok(_))) => {
                let request = make_recreated(&place.uuid, &update, &tracker);
                let batch = batch2(
                    Action::MakeExecutable { path: place.entrypoint_path() },
                    Action::CreateContainer { request },
                );
                (Recreation { place, phase: RecreationPhase::Creating { tracker } }, batch)
            },
            (RecreationPhase::Writing { .. }, Reply::Done(Err(e))) => fail(
                place,
                "Failed to write entrypoint: ",
                e,
            ),
            (RecreationPhase::Creating { tracker }, Reply::Created(Ok((id, ports)))) => {
                let mut updated = tracker;
                updated.container_id = id.clone();
                updated.allocated_ports = ports;
                let batch = batch3(
                    Action::SaveTracker { tracker: updated },
                    Action::SetContainerId { container_id: id.clone() },
                    Action::StartContainer { container_id: id.clone() },
                );
                (
                    Recreation { place, phase: RecreationPhase::Starting { container_id: id } },
                    batch,
                )
            },
            (RecreationPhase::Creating { .. }, Reply::Created(Err(e))) => fail(
                place,
                "Failed to create container: ",
                e,
            ),
            (RecreationPhase::Starting { container_id }, Reply::Done(started)) => {
                let state = match started {
                    Ok(_) => "running".to_owned(),
                    Err(_) => "failed".to_owned(),
                };
                (
                    Recreation { place, phase: RecreationPhase::Finished },
                    batch3(
                        Action::SetState { state },
                        Action::Unlock,
                        Action::Finish { result: Ok(container_id) },
                    ),
                )
            },
            (phase, _) => {
                let batch: Vec<Action> = Vec::new();
                assert(batch.deep_view() =~= Seq::<ActionValue>::empty());
                (Recreation { place, phase }, batch)
            },
        }
    }
}

} // verus!
