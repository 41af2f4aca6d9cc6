//! Installing a container, for the first time or again.
//!
//! The install script runs in a short-lived container that has the volume mounted; the final
//! container is created after it, whether the script went well or not.

use vstd::prelude::*;
use crate::actions::{
    Action, ActionValue, ContainerStatus, Reply, ReplyValue, TempContainer, TempContainerValue,
    batch1, batch2, batch3, batch5, ends_job, ends_job_unlocked,
};
use crate::models::{
    ContainerTracker, ContainerTrackerValue, CreateContainerRequest, CreateContainerValue, Pairs,
    PairTexts, PortAllocation, PortAllocationTexts, ResourceLimits, copy_env, copy_text,
};
use crate::number::{signed_decimal, signed_decimal_text};
use crate::port_list::{find_held_ports, held_ports};
use crate::place::{
    ContainerPlace, ContainerPlaceTexts, entrypoint_command, entrypoint_script,
    make_entrypoint_command, make_entrypoint_script,
};
use crate::recreation::{
    creations, lemma_creations_add, lemma_creations_of_batch, make_requested_ports,
    recreated, requested_ports, touches,
};
use crate::text::{concat2, concat3};
use crate::time::Timestamp;

verus! {

/// How long an install script may run, in seconds.
pub const MAX_WAIT: u64 = 600;

/// How long lies between two looks at a running install script, in seconds.
pub const POLL_SECONDS: u64 = 2;

/// A container that is to be installed for the first time.
#[derive(Clone, Debug, PartialEq, Eq)]
pub struct NewContainer {
    pub image: String,
    pub name: String,
    pub description: Option<String>,
    pub startup_command: Option<Vec<String>>,
    pub env: Option<Pairs>,
    pub ports: Option<Pairs>,
    pub limits: Option<ResourceLimits>,
    pub install_content: Option<String>,
    pub update_content: Option<String>,
}

/// The values of a container that is to be installed for the first time.
pub struct NewContainerValue {
    pub image: Seq<char>,
    pub name: Seq<char>,
    pub description: Option<Seq<char>>,
    pub startup_command: Option<Seq<Seq<char>>>,
    pub env: Option<PairTexts>,
    pub ports: Option<PairTexts>,
    pub limits: Option<PairTexts>,
    pub install_content: Option<Seq<char>>,
    pub update_content: Option<Seq<char>>,
}

impl DeepView for NewContainer {
    type V = NewContainerValue;

    open spec fn deep_view(&self) -> NewContainerValue {
        NewContainerValue {
            image: self.image@,
            name: self.name@,
            description: self.description.deep_view(),
            startup_command: self.startup_command.deep_view(),
            env: self.env.deep_view(),
            ports: self.ports.deep_view(),
            limits: self.limits.deep_view(),
            install_content: self.install_content.deep_view(),
            update_content: self.update_content.deep_view(),
        }
    }
}

/// What an installation was asked to do.
#[derive(Debug, PartialEq, Eq)]
pub enum InstallTask {
    /// Install a container for the first time.
    Create { container: NewContainer },
    /// Install a container that is on record again, with the given script.
    Reinstall { script: String },
}

/// What an installation was asked to do, by its values.
pub enum InstallTaskValue {
    Create { container: NewContainerValue },
    Reinstall { script: Seq<char> },
}

impl DeepView for InstallTask {
    type V = InstallTaskValue;

    open spec fn deep_view(&self) -> InstallTaskValue {
        match self {
            InstallTask::Create { container } => InstallTaskValue::Create {
                container: container.deep_view(),
            },
            InstallTask::Reinstall { script } => InstallTaskValue::Reinstall { script: script@ },
        }
    }
}

/// The container that an installation works on, once everything is known of it.
#[derive(Debug, PartialEq, Eq)]
pub enum Subject {
    /// A container that is installed for the first time.
    New { container: NewContainer },
    /// A container on record that is installed again.
    Known { script: String, tracker: ContainerTracker },
}

/// The container that an installation works on, by its values.
pub enum SubjectValue {
    New { container: NewContainerValue },
    Known { script: Seq<char>, tracker: ContainerTrackerValue },
}

impl DeepView for Subject {
    type V = SubjectValue;

    open spec fn deep_view(&self) -> SubjectValue {
        match self {
            Subject::New { container } => SubjectValue::New { container: container.deep_view() },
            Subject::Known { script, tracker } => SubjectValue::Known {
                script: script@,
                tracker: tracker.deep_view(),
            },
        }
    }
}

impl SubjectValue {
    /// The image that it runs.
    pub open spec fn image(self) -> Seq<char> {
        match self {
            SubjectValue::New { container } => container.image,
            SubjectValue::Known { tracker, .. } => tracker.image,
        }
    }

    /// The install script, where there is one.
    pub open spec fn script(self) -> Option<Seq<char>> {
        match self {
            SubjectValue::New { container } => container.install_content,
            SubjectValue::Known { script, .. } => Some(script),
        }
    }

    /// What it runs when it is started, where that was said.
    pub open spec fn startup_command(self) -> Option<Seq<Seq<char>>> {
        match self {
            SubjectValue::New { container } => container.startup_command,
            SubjectValue::Known { tracker, .. } => tracker.startup_command,
        }
    }

    /// The middle of the name of the short-lived container.
    pub open spec fn tag(self) -> Seq<char> {
        match self {
            SubjectValue::New { .. } => "-install-"@,
            SubjectValue::Known { .. } => "-reinstall-"@,
        }
    }
}

/// What the work of an installation waits for.
#[derive(Debug, PartialEq, Eq)]
pub enum InstallStep {
    /// The directory of the volume.
    MakingVolume,
    /// The directory of the data.
    MakingData,
    /// The install script on disk.
    WritingScript,
    /// The time, for a name.
    Naming,
    /// The absolute path of the volume.
    ResolvingVolume { name: String },
    /// The absolute path of the data.
    ResolvingData { name: String, volume: String },
    /// The image.
    Pulling { config: TempContainer },
    /// The short-lived container.
    CreatingTemp,
    /// Its start.
    StartingTemp { temp_id: String },
    /// Its end, for which it has waited so many seconds.
    Waiting { temp_id: String, waited: u64 },
    /// The entry point on disk. It knows how the script went, where there was one.
    WritingEntrypoint { installed: Option<bool> },
    /// The final container.
    Creating { installed: Option<bool> },
    /// The time at which the container was created.
    Stamping { installed: Option<bool>, container_id: String, ports: Vec<PortAllocation> },
}

/// What the work of an installation waits for, by its values.
pub enum InstallStepValue {
    MakingVolume,
    MakingData,
    WritingScript,
    Naming,
    ResolvingVolume { name: Seq<char> },
    ResolvingData { name: Seq<char>, volume: Seq<char> },
    Pulling { config: TempContainerValue },
    CreatingTemp,
    StartingTemp { temp_id: Seq<char> },
    Waiting { temp_id: Seq<char>, waited: u64 },
    WritingEntrypoint { installed: Option<bool> },
    Creating { installed: Option<bool> },
    Stamping {
        installed: Option<bool>,
        container_id: Seq<char>,
        ports: Seq<PortAllocationTexts>,
    },
}

impl DeepView for InstallStep {
    type V = InstallStepValue;

    open spec fn deep_view(&self) -> InstallStepValue {
        match self {
            InstallStep::MakingVolume => InstallStepValue::MakingVolume,
            InstallStep::MakingData => InstallStepValue::MakingData,
            InstallStep::WritingScript => InstallStepValue::WritingScript,
            InstallStep::Naming => InstallStepValue::Naming,
            InstallStep::ResolvingVolume { name } => InstallStepValue::ResolvingVolume {
                name: name@,
            },
            InstallStep::ResolvingData { name, volume } => InstallStepValue::ResolvingData {
                name: name@,
                volume: volume@,
            },
            InstallStep::Pulling { config } => InstallStepValue::Pulling {
                config: config.deep_view(),
            },
            InstallStep::CreatingTemp => InstallStepValue::CreatingTemp,
            InstallStep::StartingTemp { temp_id } => InstallStepValue::StartingTemp {
                temp_id: temp_id@,
            },
            InstallStep::Waiting { temp_id, waited } => InstallStepValue::Waiting {
                temp_id: temp_id@,
                waited: *waited,
            },
            InstallStep::WritingEntrypoint { installed } => InstallStepValue::WritingEntrypoint {
                installed: *installed,
            },
            InstallStep::Creating { installed } => InstallStepValue::Creating {
                installed: *installed,
            },
            InstallStep::Stamping { installed, container_id, ports } => InstallStepValue::Stamping {
                installed: *installed,
                container_id: container_id@,
                ports: ports.deep_view(),
            },
        }
    }
}

/// How far an installation has come.
#[derive(Debug, PartialEq, Eq)]
pub enum InstallPhase {
    /// It waits for the lock.
    Locking { task: InstallTask },
    /// It waits for the change of state.
    Marking { task: InstallTask },
    /// It waits for the record of the container.
    Loading { script: String },
    /// It is at work.
    Working { subject: Subject, step: InstallStep },
    /// It is over.
    Finished,
}

/// How far an installation has come, by its values.
pub enum InstallPhaseValue {
    Locking { task: InstallTaskValue },
    Marking { task: InstallTaskValue },
    Loading { script: Seq<char> },
    Working { subject: SubjectValue, step: InstallStepValue },
    Finished,
}

impl DeepView for InstallPhase {
    type V = InstallPhaseValue;

    open spec fn deep_view(&self) -> InstallPhaseValue {
        match self {
            InstallPhase::Locking { task } => InstallPhaseValue::Locking { task: task.deep_view() },
            InstallPhase::Marking { task } => InstallPhaseValue::Marking { task: task.deep_view() },
            InstallPhase::Loading { script } => InstallPhaseValue::Loading { script: script@ },
            InstallPhase::Working { subject, step } => InstallPhaseValue::Working {
                subject: subject.deep_view(),
                step: step.deep_view(),
            },
            InstallPhase::Finished => InstallPhaseValue::Finished,
        }
    }
}

/// The job of installing one container.
#[derive(Debug, PartialEq, Eq)]
pub struct Installation {
    pub place: ContainerPlace,
    pub phase: InstallPhase,
}

/// The name of the short-lived container, which holds the second at which it was chosen.
pub open spec fn temp_name(uuid: Seq<char>, tag: Seq<char>, now: Timestamp) -> Seq<char> {
    uuid + tag + signed_decimal(now.secs)
}

/// The short-lived container that runs the install script, with the volume where the final
/// container has it and the scripts beside it, which it can only read.
pub open spec fn temp_container(
    name: Seq<char>,
    image: Seq<char>,
    volume: Seq<char>,
    data: Seq<char>,
) -> TempContainerValue {
    TempContainerValue {
        name,
        image,
        cmd: seq!["/bin/sh"@, "/data/install.sh"@],
        working_dir: "/home/container"@,
        tty: true,
        env: seq!["MODE=INSTALL"@],
        binds: seq![volume + ":/home/container"@, data + ":/data:ro"@],
    }
}

/// Whether an inspected container has come to its end.
pub open spec fn has_ended(status: Option<ContainerStatus>) -> bool {
    status is Some && status->0.running != Some(true)
}

/// Whether a container that has ended ended well.
pub open spec fn ended_well(status: ContainerStatus) -> bool {
    status.exit_code == Some(0i64)
}

/// The final container.
pub open spec fn final_container(uuid: Seq<char>, subject: SubjectValue) -> CreateContainerValue {
    match subject {
        SubjectValue::New { container } => CreateContainerValue {
            image: container.image,
            name: Some(container.name),
            description: container.description,
            startup_command: Some(entrypoint_command()),
            env: container.env,
            ports: container.ports,
            volumes: None,
            command: None,
            working_dir: None,
            restart_policy: None,
            custom_uuid: Some(uuid),
            limits: container.limits,
            install_content: None,
            update_content: container.update_content,
        },
        SubjectValue::Known { script, tracker } => CreateContainerValue {
            image: tracker.image,
            name: Some(tracker.name),
            description: tracker.description,
            startup_command: Some(entrypoint_command()),
            env: tracker.env,
            ports: requested_ports(tracker),
            volumes: None,
            command: None,
            working_dir: None,
            restart_policy: None,
            custom_uuid: Some(uuid),
            limits: Some(tracker.limits),
            install_content: None,
            update_content: tracker.update_content,
        },
    }
}

/// The state of the final container: an install script that failed is remembered.
pub open spec fn final_state(installed: Option<bool>) -> Seq<char> {
    if installed == Some(false) {
        "install_failed"@
    } else {
        "stopped"@
    }
}

/// The first record of a container.
pub open spec fn first_record(
    uuid: Seq<char>,
    container: NewContainerValue,
    installed: Option<bool>,
    container_id: Seq<char>,
    ports: Seq<PortAllocationTexts>,
    now: Timestamp,
) -> ContainerTrackerValue {
    ContainerTrackerValue {
        custom_uuid: uuid,
        container_id,
        name: container.name,
        image: container.image,
        description: None,
        startup_command: container.startup_command,
        created_at: now,
        limits: match container.limits {
            Some(limits) => limits,
            None => Seq::empty(),
        },
        allocated_ports: ports,
        attached_volumes: Seq::empty(),
        ports: Seq::empty(),
        env: None,
        status: final_state(installed),
        install_content: container.install_content,
        update_content: container.update_content,
    }
}

/// The job gives up, and unlocks the container.
pub open spec fn given_up(what: Seq<char>, error: Seq<char>) -> (
    InstallPhaseValue,
    Seq<ActionValue>,
) {
    (
        InstallPhaseValue::Finished,
        seq![ActionValue::Unlock, ActionValue::Finish { result: Err(what + error) }],
    )
}

/// The work begins: the directory of the volume, after what has to go first.
pub open spec fn work_begun(place: ContainerPlaceTexts, subject: SubjectValue) -> (
    InstallPhaseValue,
    Seq<ActionValue>,
) {
    (
        InstallPhaseValue::Working { subject, step: InstallStepValue::MakingVolume },
        match subject {
            SubjectValue::New { .. } => seq![
                ActionValue::CreateDirectory { path: place.volume_dir() },
            ],
            SubjectValue::Known { tracker, .. } => seq![
                ActionValue::StopContainer { container_id: tracker.container_id },
                ActionValue::Pause { millis: 500 },
                ActionValue::RemoveContainer { container_id: tracker.container_id },
                ActionValue::ReleasePorts { ports: held_ports(tracker.allocated_ports) },
                ActionValue::CreateDirectory { path: place.volume_dir() },
            ],
        },
    )
}

/// The entry point is written, after the given actions.
pub open spec fn entrypoint_written(
    place: ContainerPlaceTexts,
    subject: SubjectValue,
    installed: Option<bool>,
    first: Seq<ActionValue>,
) -> (InstallPhaseValue, Seq<ActionValue>) {
    (
        InstallPhaseValue::Working {
            subject,
            step: InstallStepValue::WritingEntrypoint { installed },
        },
        first.push(
            ActionValue::WriteFile {
                path: place.entrypoint_path(),
                content: entrypoint_script(subject.startup_command()),
            },
        ),
    )
}

/// The install script is given two more seconds, where it has them: after that it has taken
/// too long, and its container goes.
pub open spec fn waited_on(
    place: ContainerPlaceTexts,
    subject: SubjectValue,
    temp_id: Seq<char>,
    waited: u64,
) -> (InstallPhaseValue, Seq<ActionValue>) {
    if waited + POLL_SECONDS > MAX_WAIT {
        entrypoint_written(
            place,
            subject,
            Some(false),
            seq![
                ActionValue::Pause { millis: 2000 },
                ActionValue::RemoveTemp { container_id: temp_id },
            ],
        )
    } else {
        (
            InstallPhaseValue::Working {
                subject,
                step: InstallStepValue::Waiting {
                    temp_id,
                    waited: (waited + POLL_SECONDS) as u64,
                },
            },
            seq![
                ActionValue::Pause { millis: 2000 },
                ActionValue::InspectTemp { container_id: temp_id },
            ],
        )
    }
}

/// How the work of an installation goes on.
pub open spec fn work_next(
    place: ContainerPlaceTexts,
    subject: SubjectValue,
    step: InstallStepValue,
    reply: ReplyValue,
) -> (InstallPhaseValue, Seq<ActionValue>) {
    match (step, reply) {
        (InstallStepValue::MakingVolume, ReplyValue::Done(Ok(_))) => (
            InstallPhaseValue::Working { subject, step: InstallStepValue::MakingData },
            seq![ActionValue::CreateDirectory { path: place.data_dir() }],
        ),
        (InstallStepValue::MakingVolume, ReplyValue::Done(Err(e))) => given_up(
            "Failed to create volume dir: "@,
            e,
        ),
        (InstallStepValue::MakingData, ReplyValue::Done(Ok(_))) => match subject.script() {
            Some(script) => (
                InstallPhaseValue::Working { subject, step: InstallStepValue::WritingScript },
                seq![ActionValue::WriteFile { path: place.script_path(), content: script }],
            ),
            None => entrypoint_written(place, subject, None, Seq::empty()),
        },
        (InstallStepValue::MakingData, ReplyValue::Done(Err(e))) => given_up(
            "Failed to create data dir: "@,
            e,
        ),
        (InstallStepValue::WritingScript, ReplyValue::Done(Ok(_))) => (
            InstallPhaseValue::Working { subject, step: InstallStepValue::Naming },
            seq![
                ActionValue::MakeExecutable { path: place.script_path() },
                ActionValue::ReadClock,
            ],
        ),
        (InstallStepValue::WritingScript, ReplyValue::Done(Err(e))) => given_up(
            "Failed to write install script: "@,
            e,
        ),
        (InstallStepValue::Naming, ReplyValue::Clock(now)) => (
            InstallPhaseValue::Working {
                subject,
                step: InstallStepValue::ResolvingVolume {
                    name: temp_name(place.uuid, subject.tag(), now),
                },
            },
            seq![ActionValue::ResolvePath { path: place.volume_dir() }],
        ),
        (InstallStepValue::ResolvingVolume { name }, ReplyValue::Text(Ok(volume))) => (
            InstallPhaseValue::Working {
                subject,
                step: InstallStepValue::ResolvingData { name, volume },
            },
            seq![ActionValue::ResolvePath { path: place.data_dir() }],
        ),
        (InstallStepValue::ResolvingVolume { .. }, ReplyValue::Text(Err(e))) => given_up(
            "Failed to get abs path: "@,
            e,
        ),
        (InstallStepValue::ResolvingData { name, volume }, ReplyValue::Text(Ok(data))) => (
            InstallPhaseValue::Working {
                subject,
                step: InstallStepValue::Pulling {
                    config: temp_container(name, subject.image(), volume, data),
                },
            },
            seq![ActionValue::PullImage { image: subject.image() }],
        ),
        (InstallStepValue::ResolvingData { .. }, ReplyValue::Text(Err(e))) => given_up(
            "Failed to get abs data path: "@,
            e,
        ),
        (InstallStepValue::Pulling { config }, ReplyValue::Done(Ok(_))) => (
            InstallPhaseValue::Working { subject, step: InstallStepValue::CreatingTemp },
            seq![ActionValue::CreateTemp { config }],
        ),
        (InstallStepValue::Pulling { .. }, ReplyValue::Done(Err(e))) => given_up(
            "Failed to pull image: "@,
            e,
        ),
        (InstallStepValue::CreatingTemp, ReplyValue::Text(Ok(temp_id))) => (
            InstallPhaseValue::Working {
                subject,
                step: InstallStepValue::StartingTemp { temp_id },
            },
            seq![ActionValue::StartTemp { container_id: temp_id }],
        ),
        (InstallStepValue::CreatingTemp, ReplyValue::Text(Err(e))) => given_up(
            "Failed to create temp container: "@,
            e,
        ),
        (InstallStepValue::StartingTemp { temp_id }, ReplyValue::Done(Ok(_))) => waited_on(
            place,
            subject,
            temp_id,
            0,
        ),
        (InstallStepValue::StartingTemp { .. }, ReplyValue::Done(Err(e))) => given_up(
            "Failed to start temp container: "@,
            e,
        ),
        (InstallStepValue::Waiting { temp_id, waited }, ReplyValue::Inspected(Ok(status))) =>
            if has_ended(status) {
                entrypoint_written(
                    place,
                    subject,
                    Some(ended_well(status->0)),
                    seq![ActionValue::RemoveTemp { container_id: temp_id }],
                )
            } else {
                waited_on(place, subject, temp_id, waited)
            },
        (InstallStepValue::Waiting { temp_id, .. }, ReplyValue::Inspected(Err(_))) =>
            entrypoint_written(
                place,
                subject,
                Some(false),
                seq![ActionValue::RemoveTemp { container_id: temp_id }],
            ),
        (InstallStepValue::WritingEntrypoint { installed }, ReplyValue::Done(Ok(_))) => (
            InstallPhaseValue::Working { subject, step: InstallStepValue::Creating { installed } },
            seq![
                ActionValue::MakeExecutable { path: place.entrypoint_path() },
                ActionValue::CreateContainer { request: final_container(place.uuid, subject) },
            ],
        ),
        (InstallStepValue::WritingEntrypoint { .. }, ReplyValue::Done(Err(e))) => given_up(
            "Failed to write entrypoint: "@,
            e,
        ),
        (InstallStepValue::Creating { installed }, ReplyValue::Created(Ok((id, ports)))) =>
            match subject {
                SubjectValue::New { .. } => (
                    InstallPhaseValue::Working {
                        subject,
                        step: InstallStepValue::Stamping { installed, container_id: id, ports },
                    },
                    seq![
                        ActionValue::SetState { state: final_state(installed) },
                        ActionValue::SetContainerId { container_id: id },
                        ActionValue::ReadClock,
                    ],
                ),
                SubjectValue::Known { tracker, .. } => (
                    InstallPhaseValue::Finished,
                    seq![
                        ActionValue::SetState { state: final_state(installed) },
                        ActionValue::SetContainerId { container_id: id },
                        ActionValue::SaveTracker {
                            tracker: ContainerTrackerValue {
                                container_id: id,
                                allocated_ports: ports,
                                status: final_state(installed),
                                ..tracker
                            },
                        },
                        ActionValue::Unlock,
                        ActionValue::Finish { result: Ok(id) },
                    ],
                ),
            },
        (InstallStepValue::Creating { .. }, ReplyValue::Created(Err(e))) => (
            InstallPhaseValue::Finished,
            seq![
                ActionValue::SetState { state: "failed"@ },
                ActionValue::Unlock,
                ActionValue::Finish { result: Err("Failed to create container: "@ + e) },
            ],
        ),
        (
            InstallStepValue::Stamping { installed, container_id, ports },
            ReplyValue::Clock(now),
        ) => match subject {
            SubjectValue::New { container } => (
                InstallPhaseValue::Finished,
                seq![
                    ActionValue::SaveTracker {
                        tracker: first_record(
                            place.uuid,
                            container,
                            installed,
                            container_id,
                            ports,
                            now,
                        ),
                    },
                    ActionValue::Unlock,
                    ActionValue::Finish { result: Ok(container_id) },
                ],
            ),
            SubjectValue::Known { .. } => (
                InstallPhaseValue::Working { subject, step },
                Seq::empty(),
            ),
        },
        _ => (InstallPhaseValue::Working { subject, step }, Seq::empty()),
    }
}

/// How an installation goes on: its next phase and what it asks for. A reply that it does not
/// wait for changes nothing.
pub open spec fn installation_next(
    place: ContainerPlaceTexts,
    phase: InstallPhaseValue,
    reply: ReplyValue,
) -> (InstallPhaseValue, Seq<ActionValue>) {
    match (phase, reply) {
        (InstallPhaseValue::Locking { task }, ReplyValue::Done(Ok(_))) => (
            InstallPhaseValue::Marking { task },
            seq![ActionValue::SetState { state: "installing"@ }],
        ),
        (InstallPhaseValue::Locking { .. }, ReplyValue::Done(Err(e))) => (
            InstallPhaseValue::Finished,
            seq![ActionValue::Finish { result: Err("Failed to lock: "@ + e) }],
        ),
        (InstallPhaseValue::Marking { task }, ReplyValue::Done(Ok(_))) => match task {
            InstallTaskValue::Create { container } => work_begun(
                place,
                SubjectValue::New { container },
            ),
            InstallTaskValue::Reinstall { script } => (
                InstallPhaseValue::Loading { script },
                seq![ActionValue::LoadTracker],
            ),
        },
        (InstallPhaseValue::Marking { .. }, ReplyValue::Done(Err(e))) => given_up(
            "Failed to update state: "@,
            e,
        ),
        (InstallPhaseValue::Loading { script }, ReplyValue::Tracker(Ok(Some(tracker)))) =>
            work_begun(place, SubjectValue::Known { script, tracker }),
        (InstallPhaseValue::Loading { .. }, ReplyValue::Tracker(Ok(None))) => (
            InstallPhaseValue::Finished,
            seq![
                ActionValue::Unlock,
                ActionValue::Finish { result: Err("Container tracker data not found"@) },
            ],
        ),
        (InstallPhaseValue::Loading { .. }, ReplyValue::Tracker(Err(e))) => (
            InstallPhaseValue::Finished,
            seq![
                ActionValue::Unlock,
                ActionValue::Finish { result: Err("Failed to load container data: "@ + e) },
            ],
        ),
        (InstallPhaseValue::Working { subject, step }, _) => work_next(place, subject, step, reply),
        _ => (phase, Seq::empty()),
    }
}

/// How many more replies an installation can take at most.
pub open spec fn installation_remaining(phase: InstallPhaseValue) -> nat {
    match phase {
        InstallPhaseValue::Locking { .. } => 616,
        InstallPhaseValue::Marking { .. } => 615,
        InstallPhaseValue::Loading { .. } => 614,
        InstallPhaseValue::Working { step, .. } => match step {
            InstallStepValue::MakingVolume => 613,
            InstallStepValue::MakingData => 612,
            InstallStepValue::WritingScript => 611,
            InstallStepValue::Naming => 610,
            InstallStepValue::ResolvingVolume { .. } => 609,
            InstallStepValue::ResolvingData { .. } => 608,
            InstallStepValue::Pulling { .. } => 607,
            InstallStepValue::CreatingTemp => 606,
            InstallStepValue::StartingTemp { .. } => 605,
            InstallStepValue::Waiting { waited, .. } => if waited <= MAX_WAIT {
                (4 + MAX_WAIT - waited) as nat
            } else {
                4
            },
            InstallStepValue::WritingEntrypoint { .. } => 3,
            InstallStepValue::Creating { .. } => 2,
            InstallStepValue::Stamping { .. } => 1,
        },
        InstallPhaseValue::Finished => 0,
    }
}

/// An installation ends: each reply that it waits for brings it nearer to its end, any other
/// leaves it as it is, and it says that it is over exactly when it is.
pub proof fn law_installation_ends(
    place: ContainerPlaceTexts,
    phase: InstallPhaseValue,
    reply: ReplyValue,
)
    ensures
        installation_next(place, phase, reply).1.len() > 0 ==> installation_remaining(
            installation_next(place, phase, reply).0,
        ) < installation_remaining(phase),
        installation_next(place, phase, reply).1.len() == 0 ==> installation_next(
            place,
            phase,
            reply,
        ).0 == phase,
        ends_job(installation_next(place, phase, reply).1) <==> !(phase is Finished)
            && installation_next(place, phase, reply).0 is Finished,
{
}

/// Nothing is done to a container before its lock was granted and its state recorded: until
/// then an installation asks for these two, or ends.
pub proof fn law_installation_locks_first(
    place: ContainerPlaceTexts,
    phase: InstallPhaseValue,
    reply: ReplyValue,
)
    requires
        phase is Locking || phase is Marking,
    ensures
        ({
            let (next, batch) = installation_next(place, phase, reply);
            &&& reply is Done && reply->Done_0 is Err <==> next is Finished
            &&& next != phase ==> reply is Done
            &&& phase is Locking ==> !(next is Loading || next is Working) && forall|i: int|
                0 <= i < batch.len() ==> !touches(#[trigger] batch[i])
        }),
{
}

/// The final container runs the entry point and installs nothing: the install script has had
/// its run.
pub proof fn law_final_container_runs_entrypoint(
    place: ContainerPlaceTexts,
    phase: InstallPhaseValue,
    reply: ReplyValue,
    i: int,
)
    requires
        0 <= i < installation_next(place, phase, reply).1.len(),
        installation_next(place, phase, reply).1[i] is CreateContainer,
    ensures
        installation_next(place, phase, reply).1[i]->request.install_content is None,
        installation_next(place, phase, reply).1[i]->request.startup_command == Some(
            entrypoint_command(),
        ),
{
}

/// An install script is never given more than its ten minutes.
pub proof fn law_install_script_is_timed(
    place: ContainerPlaceTexts,
    phase: InstallPhaseValue,
    reply: ReplyValue,
)
    ensures
        installation_next(place, phase, reply).0 matches InstallPhaseValue::Working {
            step: InstallStepValue::Waiting { waited, .. },
            ..
        } ==> installation_next(place, phase, reply).0 == phase || waited <= MAX_WAIT,
{
}

/// The uuid that a container is recorded under: that of the installation where it is new, and
/// the one on record where it is known.
pub open spec fn recorded_uuid(place: ContainerPlaceTexts, subject: SubjectValue) -> Seq<char> {
    match subject {
        SubjectValue::New { .. } => place.uuid,
        SubjectValue::Known { tracker, .. } => tracker.custom_uuid,
    }
}

/// The uuid is the identity of a container: the final container is created under the uuid
/// that the installation was begun for, a first record is kept under it, and a later record
/// keeps the uuid that was on record.
pub proof fn law_installation_keeps_uuid(
    place: ContainerPlaceTexts,
    phase: InstallPhaseValue,
    reply: ReplyValue,
)
    ensures
        forall|i: int|
            0 <= i < installation_next(place, phase, reply).1.len() ==> (
            #[trigger] installation_next(
                place,
                phase,
                reply,
            ).1[i] matches ActionValue::CreateContainer { request } ==> request.custom_uuid == Some(
                place.uuid,
            )),
        forall|i: int|
            0 <= i < installation_next(place, phase, reply).1.len() ==> (
            #[trigger] installation_next(
                place,
                phase,
                reply,
            ).1[i] matches ActionValue::SaveTracker { tracker } ==> phase is Working
                && tracker.custom_uuid == recorded_uuid(place, phase->subject)),
{
}

/// An installation creates the two directories named after the uuid and writes the two scripts
/// in the second of them. Nothing else on disk is written.
pub proof fn law_installation_writes_scripts_only(
    place: ContainerPlaceTexts,
    phase: InstallPhaseValue,
    reply: ReplyValue,
)
    ensures
        forall|i: int|
            0 <= i < installation_next(place, phase, reply).1.len() ==> (
            #[trigger] installation_next(
                place,
                phase,
                reply,
            ).1[i] matches ActionValue::CreateDirectory { path } ==> path == place.volume_dir()
                || path == place.data_dir()),
        forall|i: int|
            0 <= i < installation_next(place, phase, reply).1.len() ==> (
            #[trigger] installation_next(
                place,
                phase,
                reply,
            ).1[i] matches ActionValue::WriteFile { path, .. } ==> path == place.script_path()
                || path == place.entrypoint_path()),
        forall|i: int|
            0 <= i < installation_next(place, phase, reply).1.len() ==> (
            #[trigger] installation_next(
                place,
                phase,
                reply,
            ).1[i] matches ActionValue::MakeExecutable { path } ==> path == place.script_path()
                || path == place.entrypoint_path()),
{
}

/// The lock lasts as long as the job: wherever an installation ends, well or not, it unlocks the
/// container just before, unless it was refused the lock. It is unlocked at no other time.
pub proof fn law_installation_unlocks(
    place: ContainerPlaceTexts,
    phase: InstallPhaseValue,
    reply: ReplyValue,
)
    ensures
        ends_job(installation_next(place, phase, reply).1) ==> (ends_job_unlocked(
            installation_next(place, phase, reply).1,
        ) <==> !(phase is Locking)),
        forall|i: int|
            0 <= i < installation_next(place, phase, reply).1.len() && #[trigger] installation_next(
                place,
                phase,
                reply,
            ).1[i] is Unlock ==> i == installation_next(place, phase, reply).1.len() - 2
                && ends_job(installation_next(place, phase, reply).1),
{
}

/// An installation after it was told a number of replies, with everything that it asked for on
/// the way.
pub open spec fn installation_run(
    place: ContainerPlaceTexts,
    phase: InstallPhaseValue,
    replies: Seq<ReplyValue>,
) -> (InstallPhaseValue, Seq<ActionValue>)
    decreases replies.len(),
{
    if replies.len() == 0 {
        (phase, Seq::empty())
    } else {
        let (before, log) = installation_run(place, phase, replies.drop_last());
        let (next, batch) = installation_next(place, before, replies.last());
        (next, log + batch)
    }
}

/// Whether an installation has not asked for the final container yet.
pub open spec fn before_final_container(phase: InstallPhaseValue) -> bool {
    match phase {
        InstallPhaseValue::Locking { .. } => true,
        InstallPhaseValue::Marking { .. } => true,
        InstallPhaseValue::Loading { .. } => true,
        InstallPhaseValue::Working { step, .. } => !(step is Creating || step is Stamping),
        InstallPhaseValue::Finished => false,
    }
}

/// Whatever an installation is told, in whatever order: nothing is done to the container while
/// the lock or the record of the state is waited for; at most one final container is asked for;
/// the container is unlocked right before the end and at no other time, and it always is unless
/// all that the job did was to say that it was refused the lock; and nothing follows the end,
/// which the job has come to exactly when it has said so.
pub proof fn law_installation_run(
    place: ContainerPlaceTexts,
    task: InstallTaskValue,
    replies: Seq<ReplyValue>,
)
    ensures
        ({
            let (phase, log) = installation_run(
                place,
                InstallPhaseValue::Locking { task },
                replies,
            );
            &&& (phase is Locking || phase is Marking) ==> forall|i: int|
                0 <= i < log.len() ==> !touches(#[trigger] log[i])
            &&& creations(log) <= 1
            &&& before_final_container(phase) ==> creations(log) == 0
            &&& forall|i: int|
                0 <= i < log.len() && #[trigger] log[i] is Unlock ==> i == log.len() - 2
                    && phase is Finished
            &&& forall|i: int|
                0 <= i < log.len() && #[trigger] log[i] is Finish ==> i == log.len() - 1
            &&& phase is Finished <==> 0 < log.len() && log.last() is Finish
            &&& phase is Finished ==> log.len() == 1 || log[log.len() - 2] is Unlock
            &&& phase is Locking <==> log.len() == 0
        }),
    decreases replies.len(),
{
    if replies.len() > 0 {
        let start = InstallPhaseValue::Locking { task };
        law_installation_run(place, task, replies.drop_last());
        let (before, old_log) = installation_run(place, start, replies.drop_last());
        let reply = replies.last();
        let (phase, batch) = installation_next(place, before, reply);
        let log = old_log + batch;
        law_installation_ends(place, before, reply);
        law_installation_unlocks(place, before, reply);
        lemma_creations_add(old_log, batch);
        assert forall|i: int| 0 <= i < batch.len() - 1 implies !(
        #[trigger] batch[i] is CreateContainer) by {}
        lemma_creations_of_batch(batch);
        assert forall|i: int| 0 <= i < log.len() implies #[trigger] log[i] == if i
            < old_log.len() {
            old_log[i]
        } else {
            batch[i - old_log.len()]
        } by {}
        if batch.len() == 0 {
            assert(log =~= old_log);
        } else {
            assert(log.last() == batch.last());
            if phase is Finished && log.len() > 1 {
                assert(log[log.len() - 2] == batch[batch.len() - 2]);
            }
        }
    }
}

/// The short-lived container does not outlive the wait: when the wait is over, for whatever
/// reason, its removal is asked for, before anything that concerns the final container. The
/// install went well exactly if the container was seen to have ended with code 0.
pub proof fn law_wait_ends_with_removal(
    place: ContainerPlaceTexts,
    subject: SubjectValue,
    temp_id: Seq<char>,
    waited: u64,
    reply: ReplyValue,
)
    ensures
        ({
            let (phase, batch) = work_next(
                place,
                subject,
                InstallStepValue::Waiting { temp_id, waited },
                reply,
            );
            phase is Working && (phase->step is Waiting || (phase->step is WritingEntrypoint
                && batch.len() >= 2 && batch[batch.len() - 2] == (ActionValue::RemoveTemp {
                container_id: temp_id,
            }) && phase->step->WritingEntrypoint_installed == Some(
                reply matches ReplyValue::Inspected(Ok(Some(status))) && status.running != Some(
                    true,
                ) && status.exit_code == Some(0i64),
            )))
        }),
{
}

/// A script that failed, that could not be watched or that took too long does not keep the
/// final container from being created; it is recorded with the container instead. For a
/// container that is installed for the first time this is the record that is kept, and the
/// job ends with the container's id.
pub proof fn law_new_container_records_install(
    place: ContainerPlaceTexts,
    container: NewContainerValue,
    installed: Option<bool>,
    id: Seq<char>,
    ports: Seq<PortAllocationTexts>,
    now: Timestamp,
)
    ensures
        ({
            let subject = SubjectValue::New { container };
            let (written, _) = work_next(
                place,
                subject,
                InstallStepValue::WritingEntrypoint { installed },
                ReplyValue::Done(Ok(())),
            );
            let (created, first) = installation_next(
                place,
                written,
                ReplyValue::Created(Ok((id, ports))),
            );
            let (ended, last) = installation_next(place, created, ReplyValue::Clock(now));
            &&& first[0] == (ActionValue::SetState { state: final_state(installed) })
            &&& ended is Finished
            &&& last[0] is SaveTracker
            &&& last[0]->tracker.status == final_state(installed)
            &&& last[0]->tracker.container_id == id
            &&& last[0]->tracker.allocated_ports == ports
            &&& last.last() == (ActionValue::Finish { result: Ok(id) })
        }),
{
}

/// The same of a container that is installed again: its record keeps everything but the id,
/// the ports and the status.
pub proof fn law_known_container_records_install(
    place: ContainerPlaceTexts,
    script: Seq<char>,
    tracker: ContainerTrackerValue,
    installed: Option<bool>,
    id: Seq<char>,
    ports: Seq<PortAllocationTexts>,
)
    ensures
        ({
            let subject = SubjectValue::Known { script, tracker };
            let (written, _) = work_next(
                place,
                subject,
                InstallStepValue::WritingEntrypoint { installed },
                ReplyValue::Done(Ok(())),
            );
            let (ended, last) = installation_next(
                place,
                written,
                ReplyValue::Created(Ok((id, ports))),
            );
            &&& ended is Finished
            &&& last[0] == (ActionValue::SetState { state: final_state(installed) })
            &&& last[2] == (ActionValue::SaveTracker {
                tracker: ContainerTrackerValue {
                    container_id: id,
                    allocated_ports: ports,
                    status: final_state(installed),
                    ..tracker
                },
            })
            &&& last.last() == (ActionValue::Finish { result: Ok(id) })
        }),
{
}

/// An install script that is still running has its ten minutes, for a first install as for
/// another one: as long as two more seconds fit into six hundred, it is given these two seconds
/// and looked at again.
pub proof fn law_running_script_is_given_time(
    place: ContainerPlaceTexts,
    subject: SubjectValue,
    temp_id: Seq<char>,
    waited: u64,
    status: Option<ContainerStatus>,
)
    requires
        waited + 2 <= 600,
        status matches Some(s) ==> s.running == Some(true),
    ensures
        installation_next(
            place,
            InstallPhaseValue::Working {
                subject,
                step: InstallStepValue::Waiting { temp_id, waited },
            },
            ReplyValue::Inspected(Ok(status)),
        ) == (
            InstallPhaseValue::Working {
                subject,
                step: InstallStepValue::Waiting { temp_id, waited: (waited + 2) as u64 },
            },
            seq![
                ActionValue::Pause { millis: 2000 },
                ActionValue::InspectTemp { container_id: temp_id },
            ],
        ),
{
}

/// The wait begins when the short-lived container was started, with its first two seconds.
pub proof fn law_wait_begins_with_start(
    place: ContainerPlaceTexts,
    subject: SubjectValue,
    temp_id: Seq<char>,
)
    ensures
        installation_next(
            place,
            InstallPhaseValue::Working {
                subject,
                step: InstallStepValue::StartingTemp { temp_id },
            },
            ReplyValue::Done(Ok(())),
        ) == (
            InstallPhaseValue::Working {
                subject,
                step: InstallStepValue::Waiting { temp_id, waited: 2 },
            },
            seq![
                ActionValue::Pause { millis: 2000 },
                ActionValue::InspectTemp { container_id: temp_id },
            ],
        ),
{
}

/// The command that the entry point of a container is to run, where it was said.
pub open spec fn told_command(subject: SubjectValue) -> Option<Seq<Seq<char>>> {
    match subject {
        SubjectValue::New { container } => container.startup_command,
        SubjectValue::Known { tracker, .. } => tracker.startup_command,
    }
}

/// The wait ends where the script was seen to have ended, could not be watched, or has had its
/// ten minutes, and the installation goes on in each case: the short-lived container is removed
/// and the entry point written. The script went well if it was seen to have ended with code 0.
pub proof fn law_wait_ends_with_entrypoint(
    place: ContainerPlaceTexts,
    subject: SubjectValue,
    temp_id: Seq<char>,
    waited: u64,
    status: Option<ContainerStatus>,
    error: Seq<char>,
)
    ensures
        ({
            let waiting = InstallPhaseValue::Working {
                subject,
                step: InstallStepValue::Waiting { temp_id, waited },
            };
            let remove = ActionValue::RemoveTemp { container_id: temp_id };
            let write = ActionValue::WriteFile {
                path: place.entrypoint_path(),
                content: entrypoint_script(told_command(subject)),
            };
            let went = |well: bool|
                InstallPhaseValue::Working {
                    subject,
                    step: InstallStepValue::WritingEntrypoint { installed: Some(well) },
                };
            &&& status matches Some(s) ==> s.running != Some(true) ==> installation_next(
                place,
                waiting,
                ReplyValue::Inspected(Ok(status)),
            ) == (went(s.exit_code == Some(0i64)), seq![remove, write])
            &&& installation_next(place, waiting, ReplyValue::Inspected(Err(error))) == (
                went(false),
                seq![remove, write],
            )
            &&& waited + 2 > 600 && (status matches Some(s) ==> s.running == Some(true))
                ==> installation_next(place, waiting, ReplyValue::Inspected(Ok(status))) == (
                went(false),
                seq![ActionValue::Pause { millis: 2000 }, remove, write],
            )
        }),
{
    let remove = ActionValue::RemoveTemp { container_id: temp_id };
    let pause = ActionValue::Pause { millis: 2000 };
    let write = ActionValue::WriteFile {
        path: place.entrypoint_path(),
        content: entrypoint_script(told_command(subject)),
    };
    assert(seq![remove].push(write) =~= seq![remove, write]);
    assert(seq![pause, remove].push(write) =~= seq![pause, remove, write]);
}

/// How an install script comes to run, where nothing fails: the two directories are made, the
/// script is written and made executable, the image is pulled, and a short-lived container of
/// that image is created and started. It is named after the uuid, the kind of install and the
/// second; it runs the script with the volume at `/home/container`, where it works, and the
/// scripts at `/data`, which it can only read, on a terminal, and is told that this is an install.
pub proof fn law_install_script_is_run(
    place: ContainerPlaceTexts,
    subject: SubjectValue,
    script: Seq<char>,
    now: Timestamp,
    volume: Seq<char>,
    data: Seq<char>,
    temp_id: Seq<char>,
)
    requires
        match subject {
            SubjectValue::New { container } => container.install_content == Some(script),
            SubjectValue::Known { script: given, .. } => given == script,
        },
    ensures
        ({
            let done = ReplyValue::Done(Ok(()));
            let image = match subject {
                SubjectValue::New { container } => container.image,
                SubjectValue::Known { tracker, .. } => tracker.image,
            };
            let kind = if subject is New {
                "-install-"@
            } else {
                "-reinstall-"@
            };
            let begun = InstallPhaseValue::Working {
                subject,
                step: InstallStepValue::MakingVolume,
            };
            let (p1, b1) = installation_next(place, begun, done);
            let (p2, b2) = installation_next(place, p1, done);
            let (p3, b3) = installation_next(place, p2, done);
            let (p4, b4) = installation_next(place, p3, ReplyValue::Clock(now));
            let (p5, b5) = installation_next(place, p4, ReplyValue::Text(Ok(volume)));
            let (p6, b6) = installation_next(place, p5, ReplyValue::Text(Ok(data)));
            let (p7, b7) = installation_next(place, p6, done);
            let (p8, b8) = installation_next(place, p7, ReplyValue::Text(Ok(temp_id)));
            &&& b1 == seq![ActionValue::CreateDirectory { path: place.data_dir() }]
            &&& b2 == seq![ActionValue::WriteFile { path: place.script_path(), content: script }]
            &&& b3 == seq![
                ActionValue::MakeExecutable { path: place.script_path() },
                ActionValue::ReadClock,
            ]
            &&& b4 == seq![ActionValue::ResolvePath { path: place.volume_dir() }]
            &&& b5 == seq![ActionValue::ResolvePath { path: place.data_dir() }]
            &&& b6 == seq![ActionValue::PullImage { image }]
            &&& b7 == seq![
                ActionValue::CreateTemp {
                    config: TempContainerValue {
                        name: place.uuid + kind + signed_decimal(now.secs),
                        image,
                        cmd: seq!["/bin/sh"@, "/data/install.sh"@],
                        working_dir: "/home/container"@,
                        tty: true,
                        env: seq!["MODE=INSTALL"@],
                        binds: seq![volume + ":/home/container"@, data + ":/data:ro"@],
                    },
                },
            ]
            &&& b8 == seq![ActionValue::StartTemp { container_id: temp_id }]
            &&& p8 == (InstallPhaseValue::Working {
                subject,
                step: InstallStepValue::StartingTemp { temp_id },
            })
        }),
{
}

/// A new container without an install script is not kept waiting: its entry point is written as
/// soon as the directories are there, and no short-lived container is made.
pub proof fn law_nothing_to_install(place: ContainerPlaceTexts, container: NewContainerValue)
    requires
        container.install_content is None,
    ensures
        installation_next(
            place,
            InstallPhaseValue::Working {
                subject: SubjectValue::New { container },
                step: InstallStepValue::MakingData,
            },
            ReplyValue::Done(Ok(())),
        ) == (
            InstallPhaseValue::Working {
                subject: SubjectValue::New { container },
                step: InstallStepValue::WritingEntrypoint { installed: None },
            },
            seq![
                ActionValue::WriteFile {
                    path: place.entrypoint_path(),
                    content: entrypoint_script(container.startup_command),
                },
            ],
        ),
{
    let write = ActionValue::WriteFile {
        path: place.entrypoint_path(),
        content: entrypoint_script(container.startup_command),
    };
    assert(Seq::empty().push(write) =~= seq![write]);
}

/// How an installation begins once it has the lock: the state says so, and then a new container
/// gets the directory of its volume at once. One on record is looked up first, and makes room:
/// the old container is stopped and, after a moment, removed, and its host ports are given back.
pub proof fn law_installation_begins(
    place: ContainerPlaceTexts,
    task: InstallTaskValue,
    tracker: ContainerTrackerValue,
)
    ensures
        ({
            let done = ReplyValue::Done(Ok(()));
            let (p1, b1) = installation_next(place, InstallPhaseValue::Locking { task }, done);
            let (p2, b2) = installation_next(place, p1, done);
            let (p3, b3) = installation_next(place, p2, ReplyValue::Tracker(Ok(Some(tracker))));
            let make = ActionValue::CreateDirectory { path: place.volume_dir() };
            &&& b1 == seq![ActionValue::SetState { state: "installing"@ }]
            &&& match task {
                InstallTaskValue::Create { container } => b2 == seq![make] && p2 == (
                InstallPhaseValue::Working {
                    subject: SubjectValue::New { container },
                    step: InstallStepValue::MakingVolume,
                }),
                InstallTaskValue::Reinstall { script } => {
                    &&& b2 == seq![ActionValue::LoadTracker]
                    &&& b3 == seq![
                        ActionValue::StopContainer { container_id: tracker.container_id },
                        ActionValue::Pause { millis: 500 },
                        ActionValue::RemoveContainer { container_id: tracker.container_id },
                        ActionValue::ReleasePorts { ports: held_ports(tracker.allocated_ports) },
                        make,
                    ]
                    &&& p3 == (InstallPhaseValue::Working {
                        subject: SubjectValue::Known { script, tracker },
                        step: InstallStepValue::MakingVolume,
                    })
                },
            }
        }),
{
}

/// A new container is created as it was asked for, under the uuid of the job: it has its image,
/// name, description, environment, ports, limits and update script from the request, and runs
/// its entry point. Its volume is mounted in any case.
pub proof fn law_new_container_is_as_requested(uuid: Seq<char>, container: NewContainerValue)
    ensures
        ({
            let request = final_container(uuid, SubjectValue::New { container });
            &&& request.custom_uuid == Some(uuid)
            &&& request.image == container.image
            &&& request.name == Some(container.name)
            &&& request.description == container.description
            &&& request.env == container.env
            &&& request.ports == container.ports
            &&& request.limits == container.limits
            &&& request.update_content == container.update_content
            &&& request.startup_command == Some(seq!["/bin/sh"@, "/data/entrypoint.sh"@])
            &&& request.install_content is None
            &&& request.volumes is None
            &&& request.command is None
            &&& request.working_dir is None
            &&& request.restart_policy is None
        }),
{
}

/// A container that is installed again is created as one that is recreated without changes, but
/// for the volumes, which are not asked for; the script makes no difference.
pub proof fn law_reinstalled_container_is_the_recreated_one(
    uuid: Seq<char>,
    script: Seq<char>,
    tracker: ContainerTrackerValue,
)
    ensures
        final_container(uuid, SubjectValue::Known { script, tracker }) == (CreateContainerValue {
            volumes: None,
            ..recreated(uuid, None, tracker)
        }),
{
}

/// The first record of a container says what it was asked to be: it is kept under the uuid of
/// the job with the id, the ports and the time of its creation, and has its name, image, startup
/// command, limits and scripts from the request. Its status is `install_failed` where the install
/// script ran and failed, and `stopped` otherwise.
pub proof fn law_first_record_is_as_requested(
    uuid: Seq<char>,
    container: NewContainerValue,
    installed: Option<bool>,
    id: Seq<char>,
    ports: Seq<PortAllocationTexts>,
    now: Timestamp,
)
    ensures
        ({
            let record = first_record(uuid, container, installed, id, ports, now);
            &&& record.custom_uuid == uuid
            &&& record.container_id == id
            &&& record.name == container.name
            &&& record.image == container.image
            &&& record.startup_command == container.startup_command
            &&& record.created_at == now
            &&& record.allocated_ports == ports
            &&& record.limits == if container.limits is Some {
                container.limits->0
            } else {
                PairTexts::empty()
            }
            &&& record.install_content == container.install_content
            &&& record.update_content == container.update_content
            &&& record.description is None
            &&& record.env is None
            &&& record.attached_volumes.len() == 0
            &&& record.ports.len() == 0
            &&& record.status == if installed == Some(false) {
                "install_failed"@
            } else {
                "stopped"@
            }
        }),
{
}

/// How an installation ends, where nothing fails once the entry point is written: that is made
/// executable and the final container created; its state and its id are recorded, and it is not
/// started. A new container gets its first record, one on record keeps its record but for the id,
/// the ports and the status. The job ends with the id.
pub proof fn law_installation_end(
    place: ContainerPlaceTexts,
    subject: SubjectValue,
    installed: Option<bool>,
    id: Seq<char>,
    ports: Seq<PortAllocationTexts>,
    now: Timestamp,
)
    ensures
        ({
            let state = if installed == Some(false) {
                "install_failed"@
            } else {
                "stopped"@
            };
            let written = InstallPhaseValue::Working {
                subject,
                step: InstallStepValue::WritingEntrypoint { installed },
            };
            let (p1, b1) = installation_next(place, written, ReplyValue::Done(Ok(())));
            let (p2, b2) = installation_next(place, p1, ReplyValue::Created(Ok((id, ports))));
            let (p3, b3) = installation_next(place, p2, ReplyValue::Clock(now));
            &&& b1 == seq![
                ActionValue::MakeExecutable { path: place.entrypoint_path() },
                ActionValue::CreateContainer { request: final_container(place.uuid, subject) },
            ]
            &&& b2.len() >= 2
            &&& b2[0] == (ActionValue::SetState { state })
            &&& b2[1] == (ActionValue::SetContainerId { container_id: id })
            &&& match subject {
                SubjectValue::New { container } => {
                    &&& b2.skip(2) == seq![ActionValue::ReadClock]
                    &&& b3 == seq![
                        ActionValue::SaveTracker {
                            tracker: first_record(
                                place.uuid,
                                container,
                                installed,
                                id,
                                ports,
                                now,
                            ),
                        },
                        ActionValue::Unlock,
                        ActionValue::Finish { result: Ok(id) },
                    ]
                    &&& p3 is Finished
                },
                SubjectValue::Known { tracker, .. } => {
                    &&& b2.skip(2) == seq![
                        ActionValue::SaveTracker {
                            tracker: ContainerTrackerValue {
                                container_id: id,
                                allocated_ports: ports,
                                status: state,
                                ..tracker
                            },
                        },
                        ActionValue::Unlock,
                        ActionValue::Finish { result: Ok(id) },
                    ]
                    &&& p2 is Finished
                },
            }
        }),
{
    let written = InstallPhaseValue::Working {
        subject,
        step: InstallStepValue::WritingEntrypoint { installed },
    };
    let (p1, b1) = installation_next(place, written, ReplyValue::Done(Ok(())));
    let (p2, b2) = installation_next(place, p1, ReplyValue::Created(Ok((id, ports))));
    match subject {
        SubjectValue::New { .. } => {
            assert(b2.skip(2) =~= seq![ActionValue::ReadClock]);
        },
        SubjectValue::Known { .. } => {
            assert(b2.skip(2) =~= seq![b2[2], b2[3], b2[4]]);
        },
    }
}

/// What an installation says when a step of its work fails, where that ends it.
pub open spec fn failure_of(step: InstallStepValue) -> Seq<char> {
    match step {
        InstallStepValue::MakingVolume => "Failed to create volume dir: "@,
        InstallStepValue::MakingData => "Failed to create data dir: "@,
        InstallStepValue::WritingScript => "Failed to write install script: "@,
        InstallStepValue::ResolvingVolume { .. } => "Failed to get abs path: "@,
        InstallStepValue::ResolvingData { .. } => "Failed to get abs data path: "@,
        InstallStepValue::Pulling { .. } => "Failed to pull image: "@,
        InstallStepValue::CreatingTemp => "Failed to create temp container: "@,
        InstallStepValue::StartingTemp { .. } => "Failed to start temp container: "@,
        InstallStepValue::WritingEntrypoint { .. } => "Failed to write entrypoint: "@,
        _ => "Failed to create container: "@,
    }
}

/// How an installation fails: it ends at once with what went wrong, and unlocks the container. The
/// state says that the container failed only where the final container could not be created.
pub proof fn law_installation_failures(
    place: ContainerPlaceTexts,
    subject: SubjectValue,
    step: InstallStepValue,
    error: Seq<char>,
)
    ensures
        ({
            let working = InstallPhaseValue::Working { subject, step };
            let told = seq![
                ActionValue::Unlock,
                ActionValue::Finish { result: Err(failure_of(step) + error) },
            ];
            match step {
                InstallStepValue::Creating { .. } => installation_next(
                    place,
                    working,
                    ReplyValue::Created(Err(error)),
                ) == (
                    InstallPhaseValue::Finished,
                    seq![ActionValue::SetState { state: "failed"@ }] + told,
                ),
                InstallStepValue::ResolvingVolume { .. }
                | InstallStepValue::ResolvingData { .. }
                | InstallStepValue::CreatingTemp => installation_next(
                    place,
                    working,
                    ReplyValue::Text(Err(error)),
                ) == (InstallPhaseValue::Finished, told),
                InstallStepValue::Naming
                | InstallStepValue::Waiting { .. }
                | InstallStepValue::Stamping { .. } => true,
                _ => installation_next(place, working, ReplyValue::Done(Err(error))) == (
                    InstallPhaseValue::Finished,
                    told,
                ),
            }
        }),
{
    let told = seq![
        ActionValue::Unlock,
        ActionValue::Finish { result: Err("Failed to create container: "@ + error) },
    ];
    assert(seq![ActionValue::SetState { state: "failed"@ }] + told =~= seq![
        ActionValue::SetState { state: "failed"@ },
        told[0],
        told[1],
    ]);
}

/// How an installation fails before its work begins.
pub proof fn law_installation_early_failures(
    place: ContainerPlaceTexts,
    task: InstallTaskValue,
    script: Seq<char>,
    error: Seq<char>,
)
    ensures
        installation_next(
            place,
            InstallPhaseValue::Locking { task },
            ReplyValue::Done(Err(error)),
        ) == (
            InstallPhaseValue::Finished,
            seq![ActionValue::Finish { result: Err("Failed to lock: "@ + error) }],
        ),
        installation_next(
            place,
            InstallPhaseValue::Marking { task },
            ReplyValue::Done(Err(error)),
        ) == (
            InstallPhaseValue::Finished,
            seq![
                ActionValue::Unlock,
                ActionValue::Finish { result: Err("Failed to update state: "@ + error) },
            ],
        ),
        installation_next(
            place,
            InstallPhaseValue::Loading { script },
            ReplyValue::Tracker(Ok(None)),
        ) == (
            InstallPhaseValue::Finished,
            seq![
                ActionValue::Unlock,
                ActionValue::Finish { result: Err("Container tracker data not found"@) },
            ],
        ),
        installation_next(
            place,
            InstallPhaseValue::Loading { script },
            ReplyValue::Tracker(Err(error)),
        ) == (
            InstallPhaseValue::Finished,
            seq![
                ActionValue::Unlock,
                ActionValue::Finish { result: Err("Failed to load container data: "@ + error) },
            ],
        ),
{
}

/// An installation takes the answers that it waits for and no others. A first record is only
/// ever made of a new container.
pub proof fn law_installation_takes_answers(
    place: ContainerPlaceTexts,
    phase: InstallPhaseValue,
    reply: ReplyValue,
)
    ensures
        installation_next(place, phase, reply).1.len() > 0 <==> match phase {
            InstallPhaseValue::Locking { .. } => reply is Done,
            InstallPhaseValue::Marking { .. } => reply is Done,
            InstallPhaseValue::Loading { .. } => reply is Tracker,
            InstallPhaseValue::Finished => false,
            InstallPhaseValue::Working { subject, step } => match step {
                InstallStepValue::Naming => reply is Clock,
                InstallStepValue::ResolvingVolume { .. } => reply is Text,
                InstallStepValue::ResolvingData { .. } => reply is Text,
                InstallStepValue::CreatingTemp => reply is Text,
                InstallStepValue::Waiting { .. } => reply is Inspected,
                InstallStepValue::Creating { .. } => reply is Created,
                InstallStepValue::Stamping { .. } => reply is Clock && subject is New,
                _ => reply is Done,
            },
        },
{
}

/// Two texts as a list.
fn two_texts(a: String, b: String) -> (r: Vec<String>)
    ensures
        r.deep_view() == seq![a@, b@],
{
    let mut r: Vec<String> = Vec::new();
    r.push(a);
    r.push(b);
    assert(r.deep_view() =~= seq![a@, b@]);
    r
}

/// Describes the short-lived container that runs the install script.
pub fn make_temp_container(name: String, image: &String, volume: &String, data: &String) -> (r:
    TempContainer)
    ensures
        r.deep_view() == temp_container(name@, image@, volume@, data@),
{
    let mut env: Vec<String> = Vec::new();
    env.push("MODE=INSTALL".to_owned());
    assert(env.deep_view() =~= seq!["MODE=INSTALL"@]);
    TempContainer {
        name,
        image: image.clone(),
        cmd: two_texts("/bin/sh".to_owned(), "/data/install.sh".to_owned()),
        working_dir: "/home/container".to_owned(),
        tty: true,
        env,
        binds: two_texts(
            concat2(volume.as_str(), ":/home/container"),
            concat2(data.as_str(), ":/data:ro"),
        ),
    }
}

/// The state of the final container.
pub fn make_final_state(installed: Option<bool>) -> (r: String)
    ensures
        r@ == final_state(installed),
{
    match installed {
        Some(false) => "install_failed".to_owned(),
        _ => "stopped".to_owned(),
    }
}

/// Whether an inspected container has come to its end, and if so whether it ended well.
pub fn judge_status(status: Option<ContainerStatus>) -> (r: Option<bool>)
    ensures
        r is Some <==> has_ended(status),
        r is Some ==> r->0 == ended_well(status->0),
{
    match status {
        Some(s) => match s.running {
            Some(true) => None,
            _ => match s.exit_code {
                Some(code) => Some(code == 0),
                None => Some(false),
            },
        },
        None => None,
    }
}

impl Subject {
    /// The image that it runs.
    pub fn image(&self) -> (r: &String)
        ensures
            r@ == self.deep_view().image(),
    {
        match self {
            Subject::New { container } => &container.image,
            Subject::Known { tracker, .. } => &tracker.image,
        }
    }

    /// The install script, where there is one.
    pub fn script(&self) -> (r: Option<String>)
        ensures
            r.deep_view() == self.deep_view().script(),
    {
        match self {
            Subject::New { container } => copy_text(&container.install_content),
            Subject::Known { script, .. } => Some(script.clone()),
        }
    }

    /// What it runs when it is started, where that was said.
    pub fn startup_command(&self) -> (r: &Option<Vec<String>>)
        ensures
            r.deep_view() == self.deep_view().startup_command(),
    {
        match self {
            Subject::New { container } => &container.startup_command,
            Subject::Known { tracker, .. } => &tracker.startup_command,
        }
    }

    /// The middle of the name of the short-lived container.
    pub fn tag(&self) -> (r: String)
        ensures
            r@ == self.deep_view().tag(),
    {
        match self {
            Subject::New { .. } => "-install-".to_owned(),
            Subject::Known { .. } => "-reinstall-".to_owned(),
        }
    }

    /// Describes the final container.
    pub fn final_container(&self, uuid: &String) -> (r: CreateContainerRequest)
        ensures
            r.deep_view() == final_container(uuid@, self.deep_view()),
    {
        match self {
            Subject::New { container } => CreateContainerRequest {
                image: container.image.clone(),
                name: Some(container.name.clone()),
                description: copy_text(&container.description),
                startup_command: Some(make_entrypoint_command()),
                env: copy_env(&container.env),
                ports: copy_env(&container.ports),
                volumes: None,
                command: None,
                working_dir: None,
                restart_policy: None,
                custom_uuid: Some(uuid.clone()),
                limits: match &container.limits {
                    Some(limits) => Some(limits.copy()),
                    None => None,
                },
                install_content: None,
                update_content: copy_text(&container.update_content),
            },
            Subject::Known { tracker, .. } => CreateContainerRequest {
                image: tracker.image.clone(),
                name: Some(tracker.name.clone()),
                description: copy_text(&tracker.description),
                startup_command: Some(make_entrypoint_command()),
                env: copy_env(&tracker.env),
                ports: make_requested_ports(tracker),
                volumes: None,
                command: None,
                working_dir: None,
                restart_policy: None,
                custom_uuid: Some(uuid.clone()),
                limits: Some(tracker.limits.copy()),
                install_content: None,
                update_content: copy_text(&tracker.update_content),
            },
        }
    }
}

/// Makes the first record of a container.
pub fn make_first_record(
    uuid: &String,
    container: NewContainer,
    installed: Option<bool>,
    container_id: &String,
    ports: Vec<PortAllocation>,
    now: Timestamp,
) -> (r: ContainerTracker)
    ensures
        r.deep_view() == first_record(
            uuid@,
            container.deep_view(),
            installed,
            container_id@,
            ports.deep_view(),
            now,
        ),
{
    let no_volumes: Vec<String> = Vec::new();
    let no_ports: Pairs = Vec::new();
    assert(no_volumes.deep_view() =~= Seq::<Seq<char>>::empty());
    assert(no_ports.deep_view() =~= PairTexts::empty());
    ContainerTracker {
        custom_uuid: uuid.clone(),
        container_id: container_id.clone(),
        name: container.name,
        image: container.image,
        description: None,
        startup_command: container.startup_command,
        created_at: now,
        limits: match container.limits {
            Some(limits) => limits,
            None => ResourceLimits::default(),
        },
        allocated_ports: ports,
        attached_volumes: no_volumes,
        ports: no_ports,
        env: None,
        status: make_final_state(installed),
        install_content: container.install_content,
        update_content: container.update_content,
    }
}

/// Gives the job up, and unlocks the container.
fn give_up(what: &str, error: String) -> (r: (InstallPhase, Vec<Action>))
    ensures
        (r.0.deep_view(), r.1.deep_view()) == given_up(what@, error@),
{
    (
        InstallPhase::Finished,
        batch2(Action::Unlock, Action::Finish { result: Err(concat2(what, error.as_str())) }),
    )
}

/// Begins the work.
fn begin_work(place: &ContainerPlace, subject: Subject) -> (r: (InstallPhase, Vec<Action>))
    ensures
        (r.0.deep_view(), r.1.deep_view()) == work_begun(place.deep_view(), subject.deep_view()),
{
    let make = Action::CreateDirectory { path: place.volume_dir() };
    let batch = match &subject {
        Subject::New { .. } => batch1(make),
        Subject::Known { tracker, .. } => batch5(
            Action::StopContainer { container_id: tracker.container_id.clone() },
            Action::Pause { millis: 500 },
            Action::RemoveContainer { container_id: tracker.container_id.clone() },
            Action::ReleasePorts { ports: find_held_ports(&tracker.allocated_ports) },
            make,
        ),
    };
    (InstallPhase::Working { subject, step: InstallStep::MakingVolume }, batch)
}

/// Writes the entry point after the given actions.
fn write_entrypoint(
    place: &ContainerPlace,
    subject: Subject,
    installed: Option<bool>,
    first: Vec<Action>,
) -> (r: (InstallPhase, Vec<Action>))
    ensures
        (r.0.deep_view(), r.1.deep_view()) == entrypoint_written(
            place.deep_view(),
            subject.deep_view(),
            installed,
            first.deep_view(),
        ),
{
    let write = Action::WriteFile {
        path: place.entrypoint_path(),
        content: make_entrypoint_script(subject.startup_command()),
    };
    let mut batch = first;
    batch.push(write);
    assert(batch.deep_view() =~= first.deep_view().push(write.deep_view()));
    (InstallPhase::Working { subject, step: InstallStep::WritingEntrypoint { installed } }, batch)
}

/// Gives the install script two more seconds, where it has them.
fn wait_on(place: &ContainerPlace, subject: Subject, temp_id: String, waited: u64) -> (r: (
    InstallPhase,
    Vec<Action>,
))
    ensures
        (r.0.deep_view(), r.1.deep_view()) == waited_on(
            place.deep_view(),
            subject.deep_view(),
            temp_id@,
            waited,
        ),
{
    let pause = Action::Pause { millis: 2000 };
    if waited > MAX_WAIT - POLL_SECONDS {
        let first = batch2(pause, Action::RemoveTemp { container_id: temp_id });
        write_entrypoint(place, subject, Some(false), first)
    } else {
        let batch = batch2(pause, Action::InspectTemp { container_id: temp_id.clone() });
        (
            InstallPhase::Working {
                subject,
                step: InstallStep::Waiting { temp_id, waited: waited + POLL_SECONDS },
            },
            batch,
        )
    }
}

/// Asks for nothing.
fn no_actions() -> (r: Vec<Action>)
    ensures
        r.deep_view() == Seq::<ActionValue>::empty(),
{
    let r: Vec<Action> = Vec::new();
    assert(r.deep_view() =~= Seq::<ActionValue>::empty());
    r
}

/// Ends the work on a container for which the final container was created.
fn finish_known(
    script: String,
    tracker: ContainerTracker,
    installed: Option<bool>,
    id: String,
    ports: Vec<PortAllocation>,
) -> (r: (InstallPhase, Vec<Action>))
    ensures
        forall|place: ContainerPlaceTexts|
            (r.0.deep_view(), r.1.deep_view()) == #[trigger] work_next(
                place,
                SubjectValue::Known { script: script@, tracker: tracker.deep_view() },
                InstallStepValue::Creating { installed },
                ReplyValue::Created(Ok((id@, ports.deep_view()))),
            ),
{
    let mut updated = tracker;
    updated.container_id = id.clone();
    updated.allocated_ports = ports;
    updated.status = make_final_state(installed);
    (
        InstallPhase::Finished,
        batch5(
            Action::SetState { state: make_final_state(installed) },
            Action::SetContainerId { container_id: id.clone() },
            Action::SaveTracker { tracker: updated },
            Action::Unlock,
            Action::Finish { result: Ok(id) },
        ),
    )
}

/// Goes on with the work.
fn work(place: &ContainerPlace, subject: Subject, step: InstallStep, reply: Reply) -> (r: (
    InstallPhase,
    Vec<Action>,
))
    ensures
        (r.0.deep_view(), r.1.deep_view()) == work_next(
            place.deep_view(),
            subject.deep_view(),
            step.deep_view(),
            reply.deep_view(),
        ),
{
    match (step, reply) {
        (InstallStep::MakingVolume, Reply::Done(Ok(_))) => (
            InstallPhase::Working { subject, step: InstallStep::MakingData },
            batch1(Action::CreateDirectory { path: place.data_dir() }),
        ),
        (InstallStep::MakingVolume, Reply::Done(Err(e))) => give_up(
            "Failed to create volume dir: ",
            e,
        ),
        (InstallStep::MakingData, Reply::Done(Ok(_))) => match subject.script() {
            Some(script) => (
                InstallPhase::Working { subject, step: InstallStep::WritingScript },
                batch1(Action::WriteFile { path: place.script_path(), content: script }),
            ),
            None => write_entrypoint(place, subject, None, no_actions()),
        },
        (InstallStep::MakingData, Reply::Done(Err(e))) => give_up(
            "Failed to create data dir: ",
            e,
        ),
        (InstallStep::WritingScript, Reply::Done(Ok(_))) => (
            InstallPhase::Working { subject, step: InstallStep::Naming },
            batch2(Action::MakeExecutable { path: place.script_path() }, Action::ReadClock),
        ),
        (InstallStep::WritingScript, Reply::Done(Err(e))) => give_up(
            "Failed to write install script: ",
            e,
        ),
        (InstallStep::Naming, Reply::Clock(now)) => {
            let tag = subject.tag();
            let second = signed_decimal_text(now.secs);
            let name = concat3(place.uuid.as_str(), tag.as_str(), second.as_str());
            (
                InstallPhase::Working { subject, step: InstallStep::ResolvingVolume { name } },
                batch1(Action::ResolvePath { path: place.volume_dir() }),
            )
        },
        (InstallStep::ResolvingVolume { name }, Reply::Text(Ok(volume))) => (
            InstallPhase::Working { subject, step: InstallStep::ResolvingData { name, volume } },
            batch1(Action::ResolvePath { path: place.data_dir() }),
        ),
        (InstallStep::ResolvingVolume { .. }, Reply::Text(Err(e))) => give_up(
            "Failed to get abs path: ",
            e,
        ),
        (InstallStep::ResolvingData { name, volume }, Reply::Text(Ok(data))) => {
            let config = make_temp_container(name, subject.image(), &volume, &data);
            let image = subject.image().clone();
            (
                InstallPhase::Working { subject, step: InstallStep::Pulling { config } },
                batch1(Action::PullImage { image }),
            )
        },
        (InstallStep::ResolvingData { .. }, Reply::Text(Err(e))) => give_up(
            "Failed to get abs data path: ",
            e,
        ),
        (InstallStep::Pulling { config }, Reply::Done(Ok(_))) => (
            InstallPhase::Working { subject, step: InstallStep::CreatingTemp },
            batch1(Action::CreateTemp { config }),
        ),
        (InstallStep::Pulling { .. }, Reply::Done(Err(e))) => give_up("Failed to pull image: ", e),
        (InstallStep::CreatingTemp, Reply::Text(Ok(temp_id))) => {
            let batch = batch1(Action::StartTemp { container_id: temp_id.clone() });
            (InstallPhase::Working { subject, step: InstallStep::StartingTemp { temp_id } }, batch)
        },
        (InstallStep::CreatingTemp, Reply::Text(Err(e))) => give_up(
            "Failed to create temp container: ",
            e,
        ),
        (InstallStep::StartingTemp { temp_id }, Reply::Done(Ok(_))) => wait_on(
            place,
            subject,
            temp_id,
            0,
        ),
        (InstallStep::StartingTemp { .. }, Reply::Done(Err(e))) => give_up(
            "Failed to start temp container: ",
            e,
        ),
        (InstallStep::Waiting { temp_id, waited }, Reply::Inspected(Ok(status))) => {
            match judge_status(status) {
                Some(well) => {
                    let first = batch1(Action::RemoveTemp { container_id: temp_id });
                    write_entrypoint(place, subject, Some(well), first)
                },
                None => wait_on(place, subject, temp_id, waited),
            }
        },
        (InstallStep::Waiting { temp_id, .. }, Reply::Inspected(Err(_))) => {
            let first = batch1(Action::RemoveTemp { container_id: temp_id });
            write_entrypoint(place, subject, Some(false), first)
        },
        (InstallStep::WritingEntrypoint { installed }, Reply::Done(Ok(_))) => {
            let request = subject.final_container(&place.uuid);
            (
                InstallPhase::Working { subject, step: InstallStep::Creating { installed } },
                batch2(
                    Action::MakeExecutable { path: place.entrypoint_path() },
                    Action::CreateContainer { request },
                ),
            )
        },
        (InstallStep::WritingEntrypoint { .. }, Reply::Done(Err(e))) => give_up(
            "Failed to write entrypoint: ",
            e,
        ),
        (InstallStep::Creating { installed }, Reply::Created(Ok((id, ports)))) => match subject {
            Subject::New { container } => {
                let batch = batch3(
                    Action::SetState { state: make_final_state(installed) },
                    Action::SetContainerId { container_id: id.clone() },
                    Action::ReadClock,
                );
                (
                    InstallPhase::Working {
                        subject: Subject::New { container },
                        step: InstallStep::Stamping { installed, container_id: id, ports },
                    },
                    batch,
                )
            },
            Subject::Known { script, tracker } => finish_known(
                script,
                tracker,
                installed,
                id,
                ports,
            ),
        },
        (InstallStep::Creating { .. }, Reply::Created(Err(e))) => (
            InstallPhase::Finished,
            batch3(
                Action::SetState { state: "failed".to_owned() },
                Action::Unlock,
                Action::Finish {
                    result: Err(concat2("Failed to create container: ", e.as_str())),
                },
            ),
        ),
        (InstallStep::Stamping { installed, container_id, ports }, Reply::Clock(now)) => {
            match subject {
                Subject::New { container } => {
                    let record = make_first_record(
                        &place.uuid,
                        container,
                        installed,
                        &container_id,
                        ports,
                        now,
                    );
                    (
                        InstallPhase::Finished,
                        batch3(
                            Action::SaveTracker { tracker: record },
                            Action::Unlock,
                            Action::Finish { result: Ok(container_id) },
                        ),
                    )
                },
                Subject::Known { script, tracker } => (
                    InstallPhase::Working {
                        subject: Subject::Known { script, tracker },
                        step: InstallStep::Stamping { installed, container_id, ports },
                    },
                    no_actions(),
                ),
            }
        },
        (step, _) => (InstallPhase::Working { subject, step }, no_actions()),
    }
}

impl Installation {
    /// Begins an installation. The lock comes first.
    pub fn begin(place: ContainerPlace, task: InstallTask) -> (r: (Installation, Vec<Action>))
        ensures
            r.0.place == place,
            r.0.phase.deep_view() == (InstallPhaseValue::Locking { task: task.deep_view() }),
            r.1.deep_view() == seq![
                ActionValue::Lock {
                    reason: if task is Create {
                        "Installing"@
                    } else {
                        "Reinstalling"@
                    },
                },
            ],
    {
        let reason = match &task {
            InstallTask::Create { .. } => "Installing".to_owned(),
            InstallTask::Reinstall { .. } => "Reinstalling".to_owned(),
        };
        let batch = batch1(Action::Lock { reason });
        (Installation { place, phase: InstallPhase::Locking { task } }, batch)
    }

    /// Whether the job is over.
    pub fn is_finished(&self) -> (r: bool)
        ensures
            r == (self.phase.deep_view() is Finished),
    {
        matches!(self.phase, InstallPhase::Finished)
    }

    /// Goes on after a reply: the job in its next phase and what it asks for.
    pub fn step(self, reply: Reply) -> (r: (Installation, Vec<Action>))
        ensures
            r.0.place == self.place,
            (r.0.phase.deep_view(), r.1.deep_view()) == installation_next(
                self.place.deep_view(),
                self.phase.deep_view(),
                reply.deep_view(),
            ),
    {
        let Installation { place, phase } = self;
        let (next, batch) = match (phase, reply) {
            (InstallPhase::Locking { task }, Reply::Done(Ok(_))) => (
                InstallPhase::Marking { task },
                batch1(Action::SetState { state: "installing".to_owned() }),
            ),
            (InstallPhase::Locking { .. }, Reply::Done(Err(e))) => (
                InstallPhase::Finished,
                batch1(Action::Finish { result: Err(concat2("Failed to lock: ", e.as_str())) }),
            ),
            (InstallPhase::Marking { task }, Reply::Done(Ok(_))) => match task {
                InstallTask::Create { container } => begin_work(
                    &place,
                    Subject::New { container },
                ),
                InstallTask::Reinstall { script } => (
                    InstallPhase::Loading { script },
                    batch1(Action::LoadTracker),
                ),
            },
            (InstallPhase::Marking { .. }, Reply::Done(Err(e))) => give_up(
                "Failed to update state: ",
                e,
            ),
            (InstallPhase::Loading { script }, Reply::Tracker(Ok(Some(tracker)))) => begin_work(
                &place,
                Subject::Known { script, tracker },
            ),
            (InstallPhase::Loading { .. }, Reply::Tracker(Ok(None))) => (
                InstallPhase::Finished,
                batch2(
                    Action::Unlock,
                    Action::Finish { result: Err("Container tracker data not found".to_owned()) },
                ),
            ),
            (InstallPhase::Loading { .. }, Reply::Tracker(Err(e))) => (
                InstallPhase::Finished,
                batch2(
                    Action::Unlock,
                    Action::Finish {
                        result: Err(concat2("Failed to load container data: ", e.as_str())),
                    },
                ),
            ),
            (InstallPhase::Working { subject, step }, reply) => work(&place, subject, step, reply),
            (phase, _) => (phase, no_actions()),
        };
        (Installation { place, phase: next }, batch)
    }
}

} // verus!
