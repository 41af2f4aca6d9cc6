//! Adding, removing and changing the port bindings of a container.
//!
//! A change is a job that hands out batches of actions, which are performed in order; the
//! outcome of the last one is what the job waits for. From the first action on the network up
//! to saving it, nobody else may come between. Changes are tracked, and applied when the
//! container is recreated.

use vstd::prelude::*;
use crate::models::{
    ApiResponse, ApiResponseValue, ContainerTracker, ContainerTrackerValue, PortAllocation,
    PortAllocationTexts, outcome,
};
use crate::number::{decimal, decimal_text, law_port_text_round_trips, parse_port, port_number};
use crate::text::{concat2, concat3, same_text};

verus! {

/// A port binding to be added.
#[derive(Clone, Debug, PartialEq, Eq)]
pub struct AddPortRequest {
    pub container_port: String,
    /// A port number; `auto`, nothing or an empty text for any port that is free.
    pub host_port: Option<String>,
    /// All addresses where it is missing.
    pub host_ip: Option<String>,
    /// TCP where it is missing.
    pub protocol: Option<String>,
}

/// A port binding to be removed.
#[derive(Clone, Debug, PartialEq, Eq)]
pub struct RemovePortRequest {
    pub container_port: String,
}

/// A port binding that is to get another host port.
#[derive(Clone, Debug, PartialEq, Eq)]
pub struct UpdatePortRequest {
    pub container_port: String,
    /// A port number; `auto` or an empty text for any port that is free.
    pub new_host_port: String,
    /// The address stays as it is where this is missing.
    pub host_ip: Option<String>,
}

/// A change to the port bindings of a container.
#[derive(Debug, PartialEq, Eq)]
pub enum PortChange {
    Add { request: AddPortRequest },
    Remove { request: RemovePortRequest },
    Update { request: UpdatePortRequest },
}

/// A change to the port bindings of a container, by its values.
pub enum PortChangeValue {
    Add {
        container_port: Seq<char>,
        host_port: Option<Seq<char>>,
        host_ip: Option<Seq<char>>,
        protocol: Option<Seq<char>>,
    },
    Remove { container_port: Seq<char> },
    Update { container_port: Seq<char>, new_host_port: Seq<char>, host_ip: Option<Seq<char>> },
}

impl DeepView for PortChange {
    type V = PortChangeValue;

    open spec fn deep_view(&self) -> PortChangeValue {
        match self {
            PortChange::Add { request } => PortChangeValue::Add {
                container_port: request.container_port@,
                host_port: request.host_port.deep_view(),
                host_ip: request.host_ip.deep_view(),
                protocol: request.protocol.deep_view(),
            },
            PortChange::Remove { request } => PortChangeValue::Remove {
                container_port: request.container_port@,
            },
            PortChange::Update { request } => PortChangeValue::Update {
                container_port: request.container_port@,
                new_host_port: request.new_host_port@,
                host_ip: request.host_ip.deep_view(),
            },
        }
    }
}

/// What a change is answered with: the binding that was made, or a message.
#[derive(Debug, PartialEq, Eq)]
pub enum PortAnswer {
    Bound(PortAllocation),
    Told(String),
}

/// What a change is answered with, by its values.
pub enum PortAnswerValue {
    Bound(PortAllocationTexts),
    Told(Seq<char>),
}

impl DeepView for PortAnswer {
    type V = PortAnswerValue;

    open spec fn deep_view(&self) -> PortAnswerValue {
        match self {
            PortAnswer::Bound(a) => PortAnswerValue::Bound(a.deep_view()),
            PortAnswer::Told(m) => PortAnswerValue::Told(m@),
        }
    }
}

/// One thing that a change of port bindings asks for.
#[derive(Debug, PartialEq, Eq)]
pub enum PortAction {
    /// Load the record of the container.
    LoadTracker,
    /// Find a host port that is free.
    FindPort,
    /// Allocate a host port to the container of the given uuid.
    AllocatePort { port: u16, owner: String },
    /// Give a host port back.
    ReleasePort { port: u16 },
    /// Save the state of the network.
    SaveNetwork,
    /// Record which ports are allocated to the container.
    RecordPorts { allocations: Vec<PortAllocation> },
    /// Give a container port a host port in the state of the container, if that has one.
    SetStatePort { container_port: String, host_port: String },
    /// Take a container port out of the state of the container, if that has one.
    RemoveStatePort { container_port: String },
    /// Answer the request.
    Answer { response: ApiResponse<PortAnswer> },
}

/// One thing that a change of port bindings asks for, by its values.
pub enum PortActionValue {
    LoadTracker,
    FindPort,
    AllocatePort { port: u16, owner: Seq<char> },
    ReleasePort { port: u16 },
    SaveNetwork,
    RecordPorts { allocations: Seq<PortAllocationTexts> },
    SetStatePort { container_port: Seq<char>, host_port: Seq<char> },
    RemoveStatePort { container_port: Seq<char> },
    Answer { response: ApiResponseValue<PortAnswerValue> },
}

impl DeepView for PortAction {
    type V = PortActionValue;

    open spec fn deep_view(&self) -> PortActionValue {
        match self {
            PortAction::LoadTracker => PortActionValue::LoadTracker,
            PortAction::FindPort => PortActionValue::FindPort,
            PortAction::AllocatePort { port, owner } => PortActionValue::AllocatePort {
                port: *port,
                owner: owner@,
            },
            PortAction::ReleasePort { port } => PortActionValue::ReleasePort { port: *port },
            PortAction::SaveNetwork => PortActionValue::SaveNetwork,
            PortAction::RecordPorts { allocations } => PortActionValue::RecordPorts {
                allocations: allocations.deep_view(),
            },
            PortAction::SetStatePort { container_port, host_port } => PortActionValue::SetStatePort {
                container_port: container_port@,
                host_port: host_port@,
            },
            PortAction::RemoveStatePort { container_port } => PortActionValue::RemoveStatePort {
                container_port: container_port@,
            },
            PortAction::Answer { response } => PortActionValue::Answer {
                response: response.deep_view(),
            },
        }
    }
}

/// What a change of port bindings is told of the last action of a batch.
#[derive(Debug, PartialEq, Eq)]
pub enum PortReply {
    /// The record that was loaded, where there is one.
    Tracker(Result<Option<ContainerTracker>, String>),
    /// The host port that was found, where one is free.
    Found(Option<u16>),
    /// How an action without a value of its own went.
    Done(Result<(), String>),
}

/// What a change of port bindings is told, by its values.
pub enum PortReplyValue {
    Tracker(Result<Option<ContainerTrackerValue>, Seq<char>>),
    Found(Option<u16>),
    Done(Result<(), Seq<char>>),
}

impl DeepView for PortReply {
    type V = PortReplyValue;

    open spec fn deep_view(&self) -> PortReplyValue {
        match self {
            PortReply::Tracker(r) => PortReplyValue::Tracker(outcome(*r)),
            PortReply::Found(p) => PortReplyValue::Found(*p),
            PortReply::Done(r) => PortReplyValue::Done(outcome(*r)),
        }
    }
}

/// A binding that waits for its host port.
#[derive(Debug, PartialEq, Eq)]
pub struct PendingBinding {
    pub container_port: String,
    pub host_ip: String,
    pub protocol: String,
    /// The uuid that the port is allocated to.
    pub owner: String,
    /// The bindings on record.
    pub recorded: Vec<PortAllocation>,
    /// Whether it takes the place of a binding on record.
    pub replaces: bool,
}

/// The values of a binding that waits for its host port.
pub struct PendingBindingValue {
    pub container_port: Seq<char>,
    pub host_ip: Seq<char>,
    pub protocol: Seq<char>,
    pub owner: Seq<char>,
    pub recorded: Seq<PortAllocationTexts>,
    pub replaces: bool,
}

impl DeepView for PendingBinding {
    type V = PendingBindingValue;

    open spec fn deep_view(&self) -> PendingBindingValue {
        PendingBindingValue {
            container_port: self.container_port@,
            host_ip: self.host_ip@,
            protocol: self.protocol@,
            owner: self.owner@,
            recorded: self.recorded.deep_view(),
            replaces: self.replaces,
        }
    }
}

/// What a change of port bindings waits for.
#[derive(Debug, PartialEq, Eq)]
pub enum PortChangePhase {
    /// The record of the container.
    Loading { change: PortChange },
    /// A host port.
    Finding { pending: PendingBinding },
    /// The allocation of a host port.
    Allocating { pending: PendingBinding, port: u16 },
    /// The record of a binding that was made.
    RecordingBound { allocation: PortAllocation },
    /// The record of a binding that is no more.
    RecordingRemoved { container_port: String },
    /// Nothing: the request is answered.
    Answered,
}

/// What a change of port bindings waits for, by its values.
pub enum PortChangePhaseValue {
    Loading { change: PortChangeValue },
    Finding { pending: PendingBindingValue },
    Allocating { pending: PendingBindingValue, port: u16 },
    RecordingBound { allocation: PortAllocationTexts },
    RecordingRemoved { container_port: Seq<char> },
    Answered,
}

impl DeepView for PortChangePhase {
    type V = PortChangePhaseValue;

    open spec fn deep_view(&self) -> PortChangePhaseValue {
        match self {
            PortChangePhase::Loading { change } => PortChangePhaseValue::Loading {
                change: change.deep_view(),
            },
            PortChangePhase::Finding { pending } => PortChangePhaseValue::Finding {
                pending: pending.deep_view(),
            },
            PortChangePhase::Allocating { pending, port } => PortChangePhaseValue::Allocating {
                pending: pending.deep_view(),
                port: *port,
            },
            PortChangePhase::RecordingBound { allocation } => PortChangePhaseValue::RecordingBound {
                allocation: allocation.deep_view(),
            },
            PortChangePhase::RecordingRemoved { container_port } =>
                PortChangePhaseValue::RecordingRemoved { container_port: container_port@ },
            PortChangePhase::Answered => PortChangePhaseValue::Answered,
        }
    }
}

/// The first binding of a container port, where it is bound.
pub open spec fn binding_of(ports: Seq<PortAllocationTexts>, container_port: Seq<char>) -> Option<
    PortAllocationTexts,
>
    decreases ports.len(),
{
    if ports.len() == 0 {
        None
    } else if ports[0].container_port == container_port {
        Some(ports[0])
    } else {
        binding_of(ports.drop_first(), container_port)
    }
}

/// The bindings but those of a container port.
pub open spec fn without_binding(
    ports: Seq<PortAllocationTexts>,
    container_port: Seq<char>,
) -> Seq<PortAllocationTexts>
    decreases ports.len(),
{
    if ports.len() == 0 {
        Seq::empty()
    } else {
        let front = without_binding(ports.drop_last(), container_port);
        if ports.last().container_port == container_port {
            front
        } else {
            front.push(ports.last())
        }
    }
}

/// The bindings after one has taken the place of those of its container port.
pub open spec fn with_binding_replaced(
    ports: Seq<PortAllocationTexts>,
    allocation: PortAllocationTexts,
) -> Seq<PortAllocationTexts> {
    Seq::new(
        ports.len(),
        |i: int|
            if ports[i].container_port == allocation.container_port {
                allocation
            } else {
                ports[i]
            },
    )
}

/// Whether any port that is free will do.
pub open spec fn is_any_port(text: Seq<char>) -> bool {
    text == "auto"@ || text.len() == 0
}

/// The binding that a pending one becomes with its host port.
pub open spec fn bound_to(pending: PendingBindingValue, port: u16) -> PortAllocationTexts {
    PortAllocationTexts {
        container_port: pending.container_port,
        host_port: decimal(port as nat),
        host_ip: pending.host_ip,
        protocol: pending.protocol,
    }
}

/// The bindings on record once a pending one has its host port.
pub open spec fn bindings_after(pending: PendingBindingValue, port: u16) -> Seq<
    PortAllocationTexts,
> {
    if pending.replaces {
        with_binding_replaced(pending.recorded, bound_to(pending, port))
    } else {
        pending.recorded.push(bound_to(pending, port))
    }
}

/// The request is answered with an error, after the given actions.
pub open spec fn turned_down(first: Seq<PortActionValue>, error: Seq<char>) -> (
    PortChangePhaseValue,
    Seq<PortActionValue>,
) {
    (
        PortChangePhaseValue::Answered,
        first.push(PortActionValue::Answer { response: ApiResponseValue::Error(error) }),
    )
}

/// A host port is sought for a binding, after the given actions: any that is free, or the one
/// that is asked for, where that is a port number.
pub open spec fn port_sought(
    first: Seq<PortActionValue>,
    pending: PendingBindingValue,
    wanted: Seq<char>,
) -> (PortChangePhaseValue, Seq<PortActionValue>) {
    if is_any_port(wanted) {
        (PortChangePhaseValue::Finding { pending }, first.push(PortActionValue::FindPort))
    } else {
        match port_number(wanted) {
            Some(port) => (
                PortChangePhaseValue::Allocating { pending, port },
                first.push(PortActionValue::AllocatePort { port, owner: pending.owner }),
            ),
            None => turned_down(first, "Invalid port: "@ + wanted),
        }
    }
}

/// The host port of a binding is given back, where it is a port number.
pub open spec fn port_released(host_port: Seq<char>) -> Seq<PortActionValue> {
    match port_number(host_port) {
        Some(port) => seq![PortActionValue::ReleasePort { port }],
        None => Seq::empty(),
    }
}

/// How a change goes on once the record of the container is there.
pub open spec fn change_started(change: PortChangeValue, tracker: ContainerTrackerValue) -> (
    PortChangePhaseValue,
    Seq<PortActionValue>,
) {
    let ports = tracker.allocated_ports;
    match change {
        PortChangeValue::Add { container_port, host_port, host_ip, protocol } =>
            if binding_of(ports, container_port) is Some {
                turned_down(
                    Seq::empty(),
                    "Container port "@ + container_port + " is already bound"@,
                )
            } else {
                port_sought(
                    Seq::empty(),
                    PendingBindingValue {
                        container_port,
                        host_ip: match host_ip {
                            Some(ip) => ip,
                            None => "0.0.0.0"@,
                        },
                        protocol: match protocol {
                            Some(p) => p,
                            None => "tcp"@,
                        },
                        owner: tracker.custom_uuid,
                        recorded: ports,
                        replaces: false,
                    },
                    match host_port {
                        Some(p) => p,
                        None => "auto"@,
                    },
                )
            },
        PortChangeValue::Remove { container_port } => match binding_of(ports, container_port) {
            None => turned_down(
                Seq::empty(),
                "Container port "@ + container_port + " is not bound"@,
            ),
            Some(binding) => (
                PortChangePhaseValue::RecordingRemoved { container_port },
                port_released(binding.host_port) + seq![
                    PortActionValue::SaveNetwork,
                    PortActionValue::RecordPorts {
                        allocations: without_binding(ports, container_port),
                    },
                ],
            ),
        },
        PortChangeValue::Update { container_port, new_host_port, host_ip } => match binding_of(
            ports,
            container_port,
        ) {
            None => turned_down(
                Seq::empty(),
                "Container port "@ + container_port + " is not bound"@,
            ),
            Some(binding) => port_sought(
                port_released(binding.host_port),
                PendingBindingValue {
                    container_port,
                    host_ip: match host_ip {
                        Some(ip) => ip,
                        None => binding.host_ip,
                    },
                    protocol: binding.protocol,
                    owner: tracker.custom_uuid,
                    recorded: ports,
                    replaces: true,
                },
                new_host_port,
            ),
        },
    }
}

/// How a change of port bindings goes on: its next phase and what it asks for. A reply that it
/// does not wait for changes nothing.
pub open spec fn port_change_next(phase: PortChangePhaseValue, reply: PortReplyValue) -> (
    PortChangePhaseValue,
    Seq<PortActionValue>,
) {
    match (phase, reply) {
        (PortChangePhaseValue::Loading { change }, PortReplyValue::Tracker(Ok(Some(tracker)))) =>
            change_started(change, tracker),
        (PortChangePhaseValue::Loading { .. }, PortReplyValue::Tracker(Ok(None))) => turned_down(
            Seq::empty(),
            "Container not found"@,
        ),
        (PortChangePhaseValue::Loading { .. }, PortReplyValue::Tracker(Err(e))) => turned_down(
            Seq::empty(),
            e,
        ),
        (PortChangePhaseValue::Finding { pending }, PortReplyValue::Found(Some(port))) => (
            PortChangePhaseValue::Allocating { pending, port },
            seq![PortActionValue::AllocatePort { port, owner: pending.owner }],
        ),
        (PortChangePhaseValue::Finding { .. }, PortReplyValue::Found(None)) => turned_down(
            Seq::empty(),
            "No available ports"@,
        ),
        (PortChangePhaseValue::Allocating { pending, port }, PortReplyValue::Done(Ok(_))) => (
            PortChangePhaseValue::RecordingBound { allocation: bound_to(pending, port) },
            seq![
                PortActionValue::SaveNetwork,
                PortActionValue::RecordPorts { allocations: bindings_after(pending, port) },
            ],
        ),
        (PortChangePhaseValue::Allocating { .. }, PortReplyValue::Done(Err(e))) => turned_down(
            Seq::empty(),
            e,
        ),
        (PortChangePhaseValue::RecordingBound { allocation }, PortReplyValue::Done(Ok(_))) => (
            PortChangePhaseValue::Answered,
            seq![
                PortActionValue::SetStatePort {
                    container_port: allocation.container_port,
                    host_port: allocation.host_port,
                },
                PortActionValue::Answer {
                    response: ApiResponseValue::Success(PortAnswerValue::Bound(allocation)),
                },
            ],
        ),
        (PortChangePhaseValue::RecordingRemoved { container_port }, PortReplyValue::Done(Ok(_))) =>
            (
            PortChangePhaseValue::Answered,
            seq![
                PortActionValue::RemoveStatePort { container_port },
                PortActionValue::Answer {
                    response: ApiResponseValue::Success(
                        PortAnswerValue::Told(
                            "Port "@ + container_port + " removed (restart to apply)"@,
                        ),
                    ),
                },
            ],
        ),
        (PortChangePhaseValue::RecordingBound { .. }, PortReplyValue::Done(Err(e))) => turned_down(
            Seq::empty(),
            e,
        ),
        (PortChangePhaseValue::RecordingRemoved { .. }, PortReplyValue::Done(Err(e))) =>
            turned_down(Seq::empty(), e),
        _ => (phase, Seq::empty()),
    }
}

/// Whether no container port is bound twice.
pub open spec fn distinct_bindings(ports: Seq<PortAllocationTexts>) -> bool {
    forall|i: int, j: int|
        0 <= i < j < ports.len() ==> (#[trigger] ports[i]).container_port != (
        #[trigger] ports[j]).container_port
}

/// Whether a change has come this far in order: a binding that takes no other's place is for a
/// container port that is not bound yet, and no container port is bound twice.
pub open spec fn change_in_order(phase: PortChangePhaseValue) -> bool {
    match phase {
        PortChangePhaseValue::Finding { pending } => pending_in_order(pending),
        PortChangePhaseValue::Allocating { pending, .. } => pending_in_order(pending),
        _ => true,
    }
}

/// Whether a pending binding goes with the bindings on record.
pub open spec fn pending_in_order(pending: PendingBindingValue) -> bool {
    &&& distinct_bindings(pending.recorded)
    &&& pending.replaces <==> binding_of(pending.recorded, pending.container_port) is Some
}

/// A container port is bound exactly if one of the bindings is for it.
pub proof fn lemma_binding_of(ports: Seq<PortAllocationTexts>, container_port: Seq<char>)
    ensures
        binding_of(ports, container_port) is Some <==> exists|i: int|
            0 <= i < ports.len() && (#[trigger] ports[i]).container_port == container_port,
        binding_of(ports, container_port) is Some ==> exists|i: int|
            0 <= i < ports.len() && #[trigger] ports[i] == binding_of(ports, container_port)->0
                && ports[i].container_port == container_port,
    decreases ports.len(),
{
    if ports.len() > 0 {
        let tail = ports.drop_first();
        lemma_binding_of(tail, container_port);
        if ports[0].container_port == container_port {
            assert(ports[0] == binding_of(ports, container_port)->0);
        } else {
            assert forall|i: int|
                0 <= i < ports.len() && (#[trigger] ports[i]).container_port
                    == container_port implies binding_of(ports, container_port) is Some by {
                assert(tail[i - 1] == ports[i]);
            }
            if binding_of(tail, container_port) is Some {
                let k = choose|k: int|
                    0 <= k < tail.len() && #[trigger] tail[k] == binding_of(tail, container_port)->0
                        && tail[k].container_port == container_port;
                assert(ports[k + 1] == tail[k]);
            }
        }
    }
}

/// Each binding that is left after a removal was there before, and is not for the container
/// port that was removed.
pub proof fn lemma_without_binding(ports: Seq<PortAllocationTexts>, container_port: Seq<char>)
    ensures
        forall|k: int|
            0 <= k < without_binding(ports, container_port).len() ==> ports.contains(
                #[trigger] without_binding(ports, container_port)[k],
            ) && without_binding(ports, container_port)[k].container_port != container_port,
        distinct_bindings(ports) ==> distinct_bindings(without_binding(ports, container_port)),
        binding_of(ports, container_port) is None ==> without_binding(ports, container_port)
            == ports,
    decreases ports.len(),
{
    lemma_binding_of(ports, container_port);
    if ports.len() > 0 {
        let front = ports.drop_last();
        lemma_without_binding(front, container_port);
        lemma_binding_of(front, container_port);
        let kept = without_binding(front, container_port);
        let after = without_binding(ports, container_port);
        assert forall|k: int| 0 <= k < after.len() implies ports.contains(#[trigger] after[k])
            && after[k].container_port != container_port by {
            if k < kept.len() {
                assert(after[k] == kept[k]);
                let m = choose|m: int| 0 <= m < front.len() && front[m] == kept[k];
                assert(ports[m] == front[m]);
            } else {
                assert(after[k] == ports[ports.len() - 1]);
            }
        }
        if distinct_bindings(ports) {
            assert(distinct_bindings(front)) by {
                assert forall|i: int, j: int| 0 <= i < j < front.len() implies (
                #[trigger] front[i]).container_port != (#[trigger] front[j]).container_port by {
                    assert(ports[i].container_port != ports[j].container_port);
                }
            }
            assert forall|i: int, j: int| 0 <= i < j < after.len() implies (
            #[trigger] after[i]).container_port != (#[trigger] after[j]).container_port by {
                if j < kept.len() {
                    assert(kept[i].container_port != kept[j].container_port);
                } else {
                    assert(after[i] == kept[i]);
                    let m = choose|m: int| 0 <= m < front.len() && front[m] == kept[i];
                    assert(ports[m].container_port != ports[ports.len() - 1].container_port);
                }
            }
        }
        if binding_of(ports, container_port) is None {
            assert(ports[ports.len() - 1].container_port != container_port);
            assert(binding_of(front, container_port) is None) by {
                if binding_of(front, container_port) is Some {
                    let i = choose|i: int|
                        0 <= i < front.len() && (#[trigger] front[i]).container_port
                            == container_port;
                    assert(ports[i].container_port == container_port);
                }
            }
            assert(after =~= ports);
        }
    } else {
        assert(without_binding(ports, container_port) =~= ports);
    }
}

/// No container port is ever bound twice: whatever is recorded of a container whose bindings
/// are for different ports has bindings for different ports.
pub proof fn law_bindings_stay_distinct(phase: PortChangePhaseValue, reply: PortReplyValue)
    requires
        change_in_order(phase),
        reply matches PortReplyValue::Tracker(Ok(Some(tracker))) ==> distinct_bindings(
            tracker.allocated_ports,
        ),
    ensures
        change_in_order(port_change_next(phase, reply).0),
        forall|i: int|
            0 <= i < port_change_next(phase, reply).1.len() ==> (#[trigger] port_change_next(
                phase,
                reply,
            ).1[i] matches PortActionValue::RecordPorts { allocations } ==> distinct_bindings(
                allocations,
            )),
{
    match (phase, reply) {
        (PortChangePhaseValue::Loading { change }, PortReplyValue::Tracker(Ok(Some(tracker)))) => {
            match change {
                PortChangeValue::Remove { container_port } => {
                    lemma_without_binding(tracker.allocated_ports, container_port);
                },
                _ => {},
            }
        },
        (PortChangePhaseValue::Allocating { pending, port }, PortReplyValue::Done(Ok(_))) => {
            let before = pending.recorded;
            let after = bindings_after(pending, port);
            lemma_binding_of(before, pending.container_port);
            assert forall|i: int, j: int| 0 <= i < j < after.len() implies (
            #[trigger] after[i]).container_port != (#[trigger] after[j]).container_port by {
                if pending.replaces || j < before.len() {
                    assert(before[i].container_port != before[j].container_port);
                } else {
                    assert(before[i].container_port != pending.container_port);
                }
            }
        },
        _ => {},
    }
}

/// Removing a binding undoes adding it: the bindings on record are again those from before,
/// and the host port that is given back is the one that was allocated.
pub proof fn law_remove_undoes_add(
    tracker: ContainerTrackerValue,
    pending: PendingBindingValue,
    port: u16,
)
    requires
        !pending.replaces,
        binding_of(pending.recorded, pending.container_port) is None,
        tracker.allocated_ports == bindings_after(pending, port),
    ensures
        change_started(
            PortChangeValue::Remove { container_port: pending.container_port },
            tracker,
        ).1 == seq![
            PortActionValue::ReleasePort { port },
            PortActionValue::SaveNetwork,
            PortActionValue::RecordPorts { allocations: pending.recorded },
        ],
{
    let before = pending.recorded;
    let added = bound_to(pending, port);
    let after = before.push(added);
    let cp = pending.container_port;
    lemma_pushed_binding(before, added);
    assert(after.drop_last() =~= before);
    lemma_without_binding(before, cp);
    law_port_text_round_trips(port);
    assert(change_started(PortChangeValue::Remove { container_port: cp }, tracker).1 =~= seq![
        PortActionValue::ReleasePort { port },
        PortActionValue::SaveNetwork,
        PortActionValue::RecordPorts { allocations: before },
    ]);
}

/// A binding that was added at the end for a container port that was not bound is the one that
/// is found for it.
proof fn lemma_pushed_binding(ports: Seq<PortAllocationTexts>, added: PortAllocationTexts)
    requires
        binding_of(ports, added.container_port) is None,
    ensures
        binding_of(ports.push(added), added.container_port) == Some(added),
    decreases ports.len(),
{
    let all = ports.push(added);
    if ports.len() > 0 {
        lemma_pushed_binding(ports.drop_first(), added);
        assert(all.drop_first() =~= ports.drop_first().push(added));
    }
}

/// A container port that is not bound yet can be bound while there are free ports: where
/// nothing fails, the port that was found is allocated to the container, the binding is
/// recorded behind the others, and the request is answered with it.
pub proof fn law_free_port_is_bound(
    tracker: ContainerTrackerValue,
    container_port: Seq<char>,
    host_ip: Option<Seq<char>>,
    protocol: Option<Seq<char>>,
    port: u16,
)
    requires
        binding_of(tracker.allocated_ports, container_port) is None,
    ensures
        ({
            let change = PortChangeValue::Add {
                container_port,
                host_port: None,
                host_ip,
                protocol,
            };
            let bound = PortAllocationTexts {
                container_port,
                host_port: decimal(port as nat),
                host_ip: if host_ip is Some {
                    host_ip->0
                } else {
                    "0.0.0.0"@
                },
                protocol: if protocol is Some {
                    protocol->0
                } else {
                    "tcp"@
                },
            };
            let (finding, a) = port_change_next(
                PortChangePhaseValue::Loading { change },
                PortReplyValue::Tracker(Ok(Some(tracker))),
            );
            let (allocating, b) = port_change_next(finding, PortReplyValue::Found(Some(port)));
            let (recording, c) = port_change_next(allocating, PortReplyValue::Done(Ok(())));
            let (answered, d) = port_change_next(recording, PortReplyValue::Done(Ok(())));
            &&& a == seq![PortActionValue::FindPort]
            &&& b == seq![PortActionValue::AllocatePort { port, owner: tracker.custom_uuid }]
            &&& c == seq![
                PortActionValue::SaveNetwork,
                PortActionValue::RecordPorts { allocations: tracker.allocated_ports.push(bound) },
            ]
            &&& d == seq![
                PortActionValue::SetStatePort {
                    container_port,
                    host_port: bound.host_port,
                },
                PortActionValue::Answer {
                    response: ApiResponseValue::Success(PortAnswerValue::Bound(bound)),
                },
            ]
            &&& answered is Answered
        }),
{
    let none = Seq::<PortActionValue>::empty();
    assert(none.push(PortActionValue::FindPort) =~= seq![PortActionValue::FindPort]);
}

/// A change of the host port touches nothing else: each binding stays in its place, and all
/// but those of the container port are as they were.
pub proof fn law_update_keeps_other_bindings(pending: PendingBindingValue, port: u16)
    requires
        pending.replaces,
    ensures
        bindings_after(pending, port).len() == pending.recorded.len(),
        forall|i: int|
            0 <= i < pending.recorded.len() ==> #[trigger] bindings_after(pending, port)[i]
                == if pending.recorded[i].container_port == pending.container_port {
                bound_to(pending, port)
            } else {
                pending.recorded[i]
            },
{
}

/// How many more replies a change of port bindings waits for at most.
pub open spec fn port_change_remaining(phase: PortChangePhaseValue) -> nat {
    match phase {
        PortChangePhaseValue::Loading { .. } => 4,
        PortChangePhaseValue::Finding { .. } => 3,
        PortChangePhaseValue::Allocating { .. } => 2,
        PortChangePhaseValue::RecordingBound { .. } => 1,
        PortChangePhaseValue::RecordingRemoved { .. } => 1,
        PortChangePhaseValue::Answered => 0,
    }
}

/// Every request is answered, once and at the end: each reply that the job waits for brings it
/// nearer to the answer, any other leaves it as it is.
pub proof fn law_port_change_is_answered(phase: PortChangePhaseValue, reply: PortReplyValue)
    ensures
        ({
            let (next, batch) = port_change_next(phase, reply);
            &&& batch.len() > 0 ==> port_change_remaining(next) < port_change_remaining(phase)
            &&& batch.len() == 0 ==> next == phase
            &&& forall|i: int|
                0 <= i < batch.len() ==> (#[trigger] batch[i] is Answer <==> i == batch.len() - 1
                    && next is Answered)
        }),
{
}

/// What is recorded is what is answered: a request is answered with a binding only after the
/// bindings with it were recorded, and after nothing was recorded only with an error.
pub proof fn law_success_is_recorded(phase: PortChangePhaseValue, reply: PortReplyValue)
    ensures
        ({
            let (next, batch) = port_change_next(phase, reply);
            &&& forall|i: int|
                0 <= i < batch.len() ==> (#[trigger] batch[i] matches PortActionValue::Answer {
                    response: ApiResponseValue::Success(_),
                } ==> (phase is RecordingBound || phase is RecordingRemoved)
                    && reply is Done && reply->Done_0 is Ok)
            &&& next is RecordingBound || next is RecordingRemoved ==> next == phase || (
            batch.len() >= 2 && batch[batch.len() - 2] is SaveNetwork && batch.last() is RecordPorts)
        }),
{
}

/// The binding of a container port is the first one for it: a binding is found exactly if it is
/// for the container port and none before it is.
pub proof fn law_binding_is_the_first(ports: Seq<PortAllocationTexts>, container_port: Seq<char>)
    ensures
        forall|i: int|
            0 <= i < ports.len() && (#[trigger] ports[i]).container_port == container_port && (
            forall|j: int| 0 <= j < i ==> (#[trigger] ports[j]).container_port != container_port)
                ==> binding_of(ports, container_port) == Some(ports[i]),
        (forall|i: int|
            0 <= i < ports.len() ==> (#[trigger] ports[i]).container_port != container_port)
            <==> binding_of(ports, container_port) is None,
        binding_of(ports, container_port) matches Some(b) ==> b.container_port == container_port
            && ports.contains(b),
    decreases ports.len(),
{
    lemma_binding_of(ports, container_port);
    if ports.len() > 0 && ports[0].container_port != container_port {
        let tail = ports.drop_first();
        law_binding_is_the_first(tail, container_port);
        assert forall|i: int|
            0 <= i < ports.len() && (#[trigger] ports[i]).container_port == container_port && (
            forall|j: int|
                0 <= j < i ==> (#[trigger] ports[j]).container_port
                    != container_port) implies binding_of(ports, container_port) == Some(
            ports[i],
        ) by {
            assert(tail[i - 1] == ports[i]);
            assert forall|j: int| 0 <= j < i - 1 implies (#[trigger] tail[j]).container_port
                != container_port by {
                assert(tail[j] == ports[j + 1]);
            }
        }
    } else if ports.len() > 0 {
        assert(ports[0].container_port == container_port);
    }
}

/// Removing the binding of a container port keeps all others, each as it is and in order.
pub proof fn law_other_bindings_stay(ports: Seq<PortAllocationTexts>, container_port: Seq<char>)
    ensures
        without_binding(ports, container_port) == ports.filter(
            |p: PortAllocationTexts| p.container_port != container_port,
        ),
    decreases ports.len(),
{
    reveal(Seq::filter);
    if ports.len() > 0 {
        law_other_bindings_stay(ports.drop_last(), container_port);
    } else {
        assert(without_binding(ports, container_port) =~= Seq::empty());
    }
}

/// A change of a binding goes on from the binding of that container port: where the port is bound,
/// its host port is given back, and what is bound next has the container port that was named, the
/// protocol of its own binding, the address that is given, or its own where none is, and goes to
/// the container on record; the bindings on record are those that there are. A new host port is
/// sought where any will do, allocated where one is named, and refused where that is none.
pub proof fn law_update_goes_on_from_binding(
    tracker: ContainerTrackerValue,
    container_port: Seq<char>,
    new_host_port: Seq<char>,
    host_ip: Option<Seq<char>>,
    binding: PortAllocationTexts,
)
    requires
        binding_of(tracker.allocated_ports, container_port) == Some(binding),
    ensures
        ({
            let change = PortChangeValue::Update { container_port, new_host_port, host_ip };
            let (next, batch) = port_change_next(
                PortChangePhaseValue::Loading { change },
                PortReplyValue::Tracker(Ok(Some(tracker))),
            );
            let pending = PendingBindingValue {
                container_port,
                host_ip: if host_ip is Some {
                    host_ip->0
                } else {
                    binding.host_ip
                },
                protocol: binding.protocol,
                owner: tracker.custom_uuid,
                recorded: tracker.allocated_ports,
                replaces: true,
            };
            let given_back = if port_number(binding.host_port) is Some {
                seq![PortActionValue::ReleasePort { port: port_number(binding.host_port)->0 }]
            } else {
                Seq::empty()
            };
            &&& (new_host_port == "auto"@ || new_host_port.len() == 0) ==> next == (
            PortChangePhaseValue::Finding { pending }) && batch == given_back.push(
                PortActionValue::FindPort,
            )
            &&& new_host_port != "auto"@ && new_host_port.len() > 0 ==> match port_number(
                new_host_port,
            ) {
                Some(port) => next == (PortChangePhaseValue::Allocating { pending, port })
                    && batch == given_back.push(
                    PortActionValue::AllocatePort { port, owner: tracker.custom_uuid },
                ),
                None => next is Answered && batch == given_back.push(
                    PortActionValue::Answer {
                        response: ApiResponseValue::Error("Invalid port: "@ + new_host_port),
                    },
                ),
            }
        }),
{
}

/// An updated binding is answered as it is recorded, and the others stay: with the new host port
/// in hand, it takes the place of the old one among the bindings on record, and is told to the
/// state of the container and to whoever asked, with the protocol and the address that it has.
pub proof fn law_updated_binding_is_answered(
    tracker: ContainerTrackerValue,
    container_port: Seq<char>,
    host_ip: Option<Seq<char>>,
    binding: PortAllocationTexts,
    port: u16,
)
    requires
        binding_of(tracker.allocated_ports, container_port) == Some(binding),
    ensures
        ({
            let change = PortChangeValue::Update {
                container_port,
                new_host_port: "auto"@,
                host_ip,
            };
            let bound = PortAllocationTexts {
                container_port,
                host_port: decimal(port as nat),
                host_ip: if host_ip is Some {
                    host_ip->0
                } else {
                    binding.host_ip
                },
                protocol: binding.protocol,
            };
            let old_ports = tracker.allocated_ports;
            let (finding, _) = port_change_next(
                PortChangePhaseValue::Loading { change },
                PortReplyValue::Tracker(Ok(Some(tracker))),
            );
            let (allocating, b) = port_change_next(finding, PortReplyValue::Found(Some(port)));
            let (recording, c) = port_change_next(allocating, PortReplyValue::Done(Ok(())));
            let (answered, d) = port_change_next(recording, PortReplyValue::Done(Ok(())));
            &&& b == seq![PortActionValue::AllocatePort { port, owner: tracker.custom_uuid }]
            &&& c.len() == 2 && c[0] is SaveNetwork && c[1] is RecordPorts
            &&& c[1]->allocations.len() == old_ports.len()
            &&& forall|i: int|
                0 <= i < old_ports.len() ==> #[trigger] c[1]->allocations[i] == (
                if old_ports[i].container_port == container_port {
                    bound
                } else {
                    old_ports[i]
                })
            &&& d == seq![
                PortActionValue::SetStatePort { container_port, host_port: bound.host_port },
                PortActionValue::Answer {
                    response: ApiResponseValue::Success(PortAnswerValue::Bound(bound)),
                },
            ]
            &&& answered is Answered
        }),
{
}

/// A container port that is not bound yet is bound as asked: to any free host port where none is
/// named or `auto`, to the one that is named otherwise, and not at all where that is no port. The
/// address is the given one or all addresses, the protocol the given one or TCP.
pub proof fn law_binding_is_added_as_asked(
    tracker: ContainerTrackerValue,
    container_port: Seq<char>,
    host_port: Option<Seq<char>>,
    host_ip: Option<Seq<char>>,
    protocol: Option<Seq<char>>,
)
    requires
        binding_of(tracker.allocated_ports, container_port) is None,
    ensures
        ({
            let change = PortChangeValue::Add { container_port, host_port, host_ip, protocol };
            let (next, batch) = port_change_next(
                PortChangePhaseValue::Loading { change },
                PortReplyValue::Tracker(Ok(Some(tracker))),
            );
            let pending = PendingBindingValue {
                container_port,
                host_ip: if host_ip is Some {
                    host_ip->0
                } else {
                    "0.0.0.0"@
                },
                protocol: if protocol is Some {
                    protocol->0
                } else {
                    "tcp"@
                },
                owner: tracker.custom_uuid,
                recorded: tracker.allocated_ports,
                replaces: false,
            };
            if host_port is None || host_port->0 == "auto"@ || host_port->0.len() == 0 {
                next == (PortChangePhaseValue::Finding { pending }) && batch == seq![
                    PortActionValue::FindPort,
                ]
            } else {
                match port_number(host_port->0) {
                    Some(port) => next == (PortChangePhaseValue::Allocating { pending, port })
                        && batch == seq![
                        PortActionValue::AllocatePort { port, owner: tracker.custom_uuid },
                    ],
                    None => next is Answered && batch == seq![
                        PortActionValue::Answer {
                            response: ApiResponseValue::Error("Invalid port: "@ + host_port->0),
                        },
                    ],
                }
            }
        }),
{
    let change = PortChangeValue::Add { container_port, host_port, host_ip, protocol };
    let batch = change_started(change, tracker).1;
    assert(batch =~= seq![batch[0]]);
}

/// A port that was allocated is bound: the binding is recorded behind the others where it is new,
/// and in the place of the old one where there was one, with the port in decimal; it is told to
/// the state of the container and answered once it is on record.
pub proof fn law_allocated_port_is_bound(pending: PendingBindingValue, port: u16)
    ensures
        ({
            let bound = PortAllocationTexts {
                container_port: pending.container_port,
                host_port: decimal(port as nat),
                host_ip: pending.host_ip,
                protocol: pending.protocol,
            };
            let (found, a) = port_change_next(
                PortChangePhaseValue::Finding { pending },
                PortReplyValue::Found(Some(port)),
            );
            let (recording, b) = port_change_next(
                PortChangePhaseValue::Allocating { pending, port },
                PortReplyValue::Done(Ok(())),
            );
            let (answered, c) = port_change_next(recording, PortReplyValue::Done(Ok(())));
            &&& found == (PortChangePhaseValue::Allocating { pending, port })
            &&& a == seq![PortActionValue::AllocatePort { port, owner: pending.owner }]
            &&& b.len() == 2 && b[0] is SaveNetwork && b[1] is RecordPorts
            &&& !pending.replaces ==> b[1]->allocations == pending.recorded.push(bound)
            &&& pending.replaces ==> b[1]->allocations.len() == pending.recorded.len() && forall|
                i: int,
            |
                0 <= i < pending.recorded.len() ==> #[trigger] b[1]->allocations[i] == (
                if pending.recorded[i].container_port == pending.container_port {
                    bound
                } else {
                    pending.recorded[i]
                })
            &&& answered is Answered
            &&& c == seq![
                PortActionValue::SetStatePort {
                    container_port: pending.container_port,
                    host_port: decimal(port as nat),
                },
                PortActionValue::Answer {
                    response: ApiResponseValue::Success(PortAnswerValue::Bound(bound)),
                },
            ]
        }),
{
}

/// A binding that is removed is gone, and the others stay: the host port of the container port's
/// own binding is given back where it is a number, and what is recorded is all that is bound for
/// other container ports. Then the state of the container and whoever asked are told.
pub proof fn law_binding_is_removed(
    tracker: ContainerTrackerValue,
    container_port: Seq<char>,
    binding: PortAllocationTexts,
)
    requires
        binding_of(tracker.allocated_ports, container_port) == Some(binding),
    ensures
        ({
            let (recording, a) = port_change_next(
                PortChangePhaseValue::Loading {
                    change: PortChangeValue::Remove { container_port },
                },
                PortReplyValue::Tracker(Ok(Some(tracker))),
            );
            let (answered, b) = port_change_next(recording, PortReplyValue::Done(Ok(())));
            let record = seq![
                PortActionValue::SaveNetwork,
                PortActionValue::RecordPorts {
                    allocations: tracker.allocated_ports.filter(
                        |p: PortAllocationTexts| p.container_port != container_port,
                    ),
                },
            ];
            &&& a == match port_number(binding.host_port) {
                Some(port) => seq![PortActionValue::ReleasePort { port }] + record,
                None => record,
            }
            &&& b == seq![
                PortActionValue::RemoveStatePort { container_port },
                PortActionValue::Answer {
                    response: ApiResponseValue::Success(
                        PortAnswerValue::Told(
                            "Port "@ + container_port + " removed (restart to apply)"@,
                        ),
                    ),
                },
            ]
            &&& answered is Answered
        }),
{
    law_other_bindings_stay(tracker.allocated_ports, container_port);
    let record = seq![
        PortActionValue::SaveNetwork,
        PortActionValue::RecordPorts {
            allocations: tracker.allocated_ports.filter(
                |p: PortAllocationTexts| p.container_port != container_port,
            ),
        },
    ];
    assert(Seq::<PortActionValue>::empty() + record =~= record);
}

/// The answer to a change that cannot be made, and nothing besides.
pub open spec fn only_answer(error: Seq<char>) -> (PortChangePhaseValue, Seq<PortActionValue>) {
    (
        PortChangePhaseValue::Answered,
        seq![PortActionValue::Answer { response: ApiResponseValue::Error(error) }],
    )
}

/// A change that cannot be made is answered with why, and changes nothing: a container port that
/// is bound cannot be added, one that is not bound can neither be removed nor changed, and a
/// container that is not on record has no ports to change.
pub proof fn law_impossible_changes_are_refused(
    change: PortChangeValue,
    tracker: ContainerTrackerValue,
    error: Seq<char>,
)
    ensures
        ({
            let loading = PortChangePhaseValue::Loading { change };
            let container_port = match change {
                PortChangeValue::Add { container_port, .. } => container_port,
                PortChangeValue::Remove { container_port } => container_port,
                PortChangeValue::Update { container_port, .. } => container_port,
            };
            let bound = binding_of(tracker.allocated_ports, container_port) is Some;
            let told = port_change_next(loading, PortReplyValue::Tracker(Ok(Some(tracker))));
            &&& change is Add && bound ==> told == only_answer(
                "Container port "@ + container_port + " is already bound"@,
            )
            &&& !(change is Add) && !bound ==> told == only_answer(
                "Container port "@ + container_port + " is not bound"@,
            )
            &&& port_change_next(loading, PortReplyValue::Tracker(Ok(None))) == only_answer(
                "Container not found"@,
            )
            &&& port_change_next(loading, PortReplyValue::Tracker(Err(error))) == only_answer(error)
        }),
{
    let none = Seq::<PortActionValue>::empty();
    assert forall|e: Seq<char>| #[trigger] turned_down(none, e) == only_answer(e) by {
        assert(turned_down(none, e).1 =~= only_answer(e).1);
    }
}

/// A change that fails on its way is answered with why: where no port is free, where the port
/// cannot be allocated, and where the bindings cannot be recorded.
pub proof fn law_failed_changes_are_answered(
    pending: PendingBindingValue,
    port: u16,
    allocation: PortAllocationTexts,
    container_port: Seq<char>,
    error: Seq<char>,
)
    ensures
        port_change_next(
            PortChangePhaseValue::Finding { pending },
            PortReplyValue::Found(None),
        ) == only_answer("No available ports"@),
        port_change_next(
            PortChangePhaseValue::Allocating { pending, port },
            PortReplyValue::Done(Err(error)),
        ) == only_answer(error),
        port_change_next(
            PortChangePhaseValue::RecordingBound { allocation },
            PortReplyValue::Done(Err(error)),
        ) == only_answer(error),
        port_change_next(
            PortChangePhaseValue::RecordingRemoved { container_port },
            PortReplyValue::Done(Err(error)),
        ) == only_answer(error),
{
    let none = Seq::<PortActionValue>::empty();
    assert forall|e: Seq<char>| #[trigger] turned_down(none, e) == only_answer(e) by {
        assert(turned_down(none, e).1 =~= only_answer(e).1);
    }
}

/// A change of port bindings takes the answers that it waits for and no others.
pub proof fn law_port_change_takes_answers(phase: PortChangePhaseValue, reply: PortReplyValue)
    ensures
        port_change_next(phase, reply).1.len() > 0 <==> match phase {
            PortChangePhaseValue::Loading { .. } => reply is Tracker,
            PortChangePhaseValue::Finding { .. } => reply is Found,
            PortChangePhaseValue::Answered => false,
            _ => reply is Done,
        },
{
}

/// A batch of one action.
fn port_batch(a: PortAction) -> (r: Vec<PortAction>)
    ensures
        r.deep_view() == seq![a.deep_view()],
{
    let mut r: Vec<PortAction> = Vec::new();
    r.push(a);
    assert(r.deep_view() =~= seq![a.deep_view()]);
    r
}

/// An empty batch.
fn no_port_actions() -> (r: Vec<PortAction>)
    ensures
        r.deep_view() == Seq::<PortActionValue>::empty(),
{
    let r: Vec<PortAction> = Vec::new();
    assert(r.deep_view() =~= Seq::<PortActionValue>::empty());
    r
}

/// A batch with one more action.
fn followed_by(first: Vec<PortAction>, a: PortAction) -> (r: Vec<PortAction>)
    ensures
        r.deep_view() == first.deep_view().push(a.deep_view()),
{
    let mut r = first;
    r.push(a);
    assert(r.deep_view() =~= first.deep_view().push(a.deep_view()));
    r
}

/// Finds the first binding of a container port.
pub fn find_binding(ports: &Vec<PortAllocation>, container_port: &str) -> (r: Option<usize>)
    ensures
        r is Some ==> r->0 < ports@.len() && binding_of(ports.deep_view(), container_port@) == Some(
            ports@[r->0 as int].deep_view(),
        ),
        r is None ==> binding_of(ports.deep_view(), container_port@) is None,
{
    let ghost all = ports.deep_view();
    let mut i: usize = 0;
    assert(all.skip(0) =~= all);
    while i < ports.len()
        invariant
            i <= ports.len(),
            all == ports.deep_view(),
            binding_of(all, container_port@) == binding_of(all.skip(i as int), container_port@),
        decreases ports.len() - i,
    {
        let ghost rest = all.skip(i as int);
        assert(rest[0] == ports@[i as int].deep_view());
        if same_text(ports[i].container_port.as_str(), container_port) {
            return Some(i);
        }
        assert(rest.drop_first() =~= all.skip(i + 1));
        i = i + 1;
    }
    None
}

/// Takes the bindings of a container port out.
pub fn remove_binding(ports: &Vec<PortAllocation>, container_port: &str) -> (r: Vec<PortAllocation>)
    ensures
        r.deep_view() == without_binding(ports.deep_view(), container_port@),
{
    let ghost all = ports.deep_view();
    let mut r: Vec<PortAllocation> = Vec::new();
    let mut i: usize = 0;
    assert(r.deep_view() =~= without_binding(all.take(0), container_port@));
    while i < ports.len()
        invariant
            i <= ports.len(),
            all == ports.deep_view(),
            r.deep_view() == without_binding(all.take(i as int), container_port@),
        decreases ports.len() - i,
    {
        let ghost before = r.deep_view();
        assert(all.take(i + 1).drop_last() =~= all.take(i as int));
        assert(all.take(i + 1).last() == ports@[i as int].deep_view());
        if !same_text(ports[i].container_port.as_str(), container_port) {
            r.push(ports[i].copy());
            assert(r.deep_view() =~= before.push(ports@[i as int].deep_view()));
        }
        i = i + 1;
    }
    assert(all.take(i as int) =~= all);
    r
}

/// Puts a binding in the place of those of its container port.
pub fn replace_binding(ports: &Vec<PortAllocation>, allocation: &PortAllocation) -> (r: Vec<
    PortAllocation,
>)
    ensures
        r.deep_view() == with_binding_replaced(ports.deep_view(), allocation.deep_view()),
{
    let ghost goal = with_binding_replaced(ports.deep_view(), allocation.deep_view());
    let mut r: Vec<PortAllocation> = Vec::new();
    let mut i: usize = 0;
    while i < ports.len()
        invariant
            i <= ports.len(),
            r.len() == i,
            goal == with_binding_replaced(ports.deep_view(), allocation.deep_view()),
            forall|k: int| 0 <= k < i ==> #[trigger] r@[k].deep_view() == goal[k],
        decreases ports.len() - i,
    {
        if same_text(ports[i].container_port.as_str(), allocation.container_port.as_str()) {
            r.push(allocation.copy());
        } else {
            r.push(ports[i].copy());
        }
        i = i + 1;
    }
    assert(r.deep_view() =~= goal);
    r
}

/// Answers the request with an error, after the given actions.
fn turn_down(first: Vec<PortAction>, error: String) -> (r: (PortChangePhase, Vec<PortAction>))
    ensures
        (r.0.deep_view(), r.1.deep_view()) == turned_down(first.deep_view(), error@),
{
    let answer: PortAction = PortAction::Answer { response: ApiResponse::error(error) };
    (PortChangePhase::Answered, followed_by(first, answer))
}

/// Seeks a host port for a binding, after the given actions.
fn seek_port(first: Vec<PortAction>, pending: PendingBinding, wanted: &str) -> (r: (
    PortChangePhase,
    Vec<PortAction>,
))
    ensures
        (r.0.deep_view(), r.1.deep_view()) == port_sought(
            first.deep_view(),
            pending.deep_view(),
            wanted@,
        ),
{
    if same_text(wanted, "auto") || wanted.is_empty() {
        return (PortChangePhase::Finding { pending }, followed_by(first, PortAction::FindPort));
    }
    match parse_port(wanted) {
        Some(port) => {
            let allocate = PortAction::AllocatePort { port, owner: pending.owner.clone() };
            (PortChangePhase::Allocating { pending, port }, followed_by(first, allocate))
        },
        None => turn_down(first, concat2("Invalid port: ", wanted)),
    }
}

/// Gives the host port of a binding back, where it is a port number.
fn release_port(host_port: &str) -> (r: Vec<PortAction>)
    ensures
        r.deep_view() == port_released(host_port@),
{
    match parse_port(host_port) {
        Some(port) => port_batch(PortAction::ReleasePort { port }),
        None => no_port_actions(),
    }
}

/// Goes on with a change once the record of the container is there.
fn start_change(change: PortChange, tracker: ContainerTracker) -> (r: (
    PortChangePhase,
    Vec<PortAction>,
))
    ensures
        (r.0.deep_view(), r.1.deep_view()) == change_started(
            change.deep_view(),
            tracker.deep_view(),
        ),
{
    match change {
        PortChange::Add { request } => {
            let AddPortRequest { container_port, host_port, host_ip, protocol } = request;
            match find_binding(&tracker.allocated_ports, container_port.as_str()) {
                Some(_) => turn_down(
                    no_port_actions(),
                    concat3("Container port ", container_port.as_str(), " is already bound"),
                ),
                None => {
                    let pending = PendingBinding {
                        container_port,
                        host_ip: match host_ip {
                            Some(ip) => ip,
                            None => "0.0.0.0".to_owned(),
                        },
                        protocol: match protocol {
                            Some(p) => p,
                            None => "tcp".to_owned(),
                        },
                        owner: tracker.custom_uuid,
                        recorded: tracker.allocated_ports,
                        replaces: false,
                    };
                    match host_port {
                        Some(wanted) => seek_port(no_port_actions(), pending, wanted.as_str()),
                        None => seek_port(no_port_actions(), pending, "auto"),
                    }
                },
            }
        },
        PortChange::Remove { request } => {
            let container_port = request.container_port;
            match find_binding(&tracker.allocated_ports, container_port.as_str()) {
                None => turn_down(
                    no_port_actions(),
                    concat3("Container port ", container_port.as_str(), " is not bound"),
                ),
                Some(at) => {
                    let binding = &tracker.allocated_ports[at];
                    let released = release_port(binding.host_port.as_str());
                    let saved = followed_by(released, PortAction::SaveNetwork);
                    let allocations = remove_binding(
                        &tracker.allocated_ports,
                        container_port.as_str(),
                    );
                    let ghost record = PortAction::RecordPorts { allocations };
                    let batch = followed_by(saved, PortAction::RecordPorts { allocations });
                    assert(batch.deep_view() =~= released.deep_view() + seq![
                        PortActionValue::SaveNetwork,
                        record.deep_view(),
                    ]);
                    (PortChangePhase::RecordingRemoved { container_port }, batch)
                },
            }
        },
        PortChange::Update { request } => {
            let UpdatePortRequest { container_port, new_host_port, host_ip } = request;
            match find_binding(&tracker.allocated_ports, container_port.as_str()) {
                None => turn_down(
                    no_port_actions(),
                    concat3("Container port ", container_port.as_str(), " is not bound"),
                ),
                Some(at) => {
                    let binding = tracker.allocated_ports[at].copy();
                    let released = release_port(binding.host_port.as_str());
                    let pending = PendingBinding {
                        container_port,
                        host_ip: match host_ip {
                            Some(ip) => ip,
                            None => binding.host_ip,
                        },
                        protocol: binding.protocol,
                        owner: tracker.custom_uuid,
                        recorded: tracker.allocated_ports,
                        replaces: true,
                    };
                    seek_port(released, pending, new_host_port.as_str())
                },
            }
        },
    }
}

/// The job of changing the port bindings of one container.
#[derive(Debug, PartialEq, Eq)]
pub struct PortChangeJob {
    pub phase: PortChangePhase,
}

impl PortChangeJob {
    /// Begins a change of port bindings. The record comes first.
    pub fn begin(change: PortChange) -> (r: (PortChangeJob, Vec<PortAction>))
        ensures
            r.0.phase == (PortChangePhase::Loading { change }),
            r.1.deep_view() == seq![PortActionValue::LoadTracker],
    {
        (
            PortChangeJob { phase: PortChangePhase::Loading { change } },
            port_batch(PortAction::LoadTracker),
        )
    }

    /// Whether the request is answered.
    pub fn is_answered(&self) -> (r: bool)
        ensures
            r == (self.phase.deep_view() is Answered),
    {
        matches!(self.phase, PortChangePhase::Answered)
    }

    /// Goes on after a reply: the job in its next phase and what it asks for.
    pub fn step(self, reply: PortReply) -> (r: (PortChangeJob, Vec<PortAction>))
        ensures
            (r.0.phase.deep_view(), r.1.deep_view()) == port_change_next(
                self.phase.deep_view(),
                reply.deep_view(),
            ),
    {
        let (phase, batch) = match (self.phase, reply) {
            (PortChangePhase::Loading { change }, PortReply::Tracker(Ok(Some(tracker)))) =>
                start_change(change, tracker),
            (PortChangePhase::Loading { .. }, PortReply::Tracker(Ok(None))) => turn_down(
                no_port_actions(),
                "Container not found".to_owned(),
            ),
            (PortChangePhase::Loading { .. }, PortReply::Tracker(Err(e))) => turn_down(
                no_port_actions(),
                e,
            ),
            (PortChangePhase::Finding { pending }, PortReply::Found(Some(port))) => {
                let batch = port_batch(
                    PortAction::AllocatePort { port, owner: pending.owner.clone() },
                );
                (PortChangePhase::Allocating { pending, port }, batch)
            },
            (PortChangePhase::Finding { .. }, PortReply::Found(None)) => turn_down(
                no_port_actions(),
                "No available ports".to_owned(),
            ),
            (PortChangePhase::Allocating { pending, port }, PortReply::Done(Ok(_))) => bind(
                pending,
                port,
            ),
            (PortChangePhase::Allocating { .. }, PortReply::Done(Err(e))) => turn_down(
                no_port_actions(),
                e,
            ),
            (PortChangePhase::RecordingBound { allocation }, PortReply::Done(Ok(_))) => {
                let first = port_batch(
                    PortAction::SetStatePort {
                        container_port: allocation.container_port.clone(),
                        host_port: allocation.host_port.clone(),
                    },
                );
                let answer: PortAction = PortAction::Answer {
                    response: ApiResponse::success(PortAnswer::Bound(allocation)),
                };
                let batch = followed_by(first, answer);
                (PortChangePhase::Answered, batch)
            },
            (PortChangePhase::RecordingRemoved { container_port }, PortReply::Done(Ok(_))) => {
                let message = concat3(
                    "Port ",
                    container_port.as_str(),
                    " removed (restart to apply)",
                );
                let first = port_batch(PortAction::RemoveStatePort { container_port });
                let answer: PortAction = PortAction::Answer {
                    response: ApiResponse::success(PortAnswer::Told(message)),
                };
                let batch = followed_by(first, answer);
                (PortChangePhase::Answered, batch)
            },
            (PortChangePhase::RecordingBound { .. }, PortReply::Done(Err(e))) => turn_down(
                no_port_actions(),
                e,
            ),
            (PortChangePhase::RecordingRemoved { .. }, PortReply::Done(Err(e))) => turn_down(
                no_port_actions(),
                e,
            ),
            (phase, _) => (phase, no_port_actions()),
        };
        (PortChangeJob { phase }, batch)
    }
}

/// Makes a pending binding with the host port that was allocated for it.
fn bind(pending: PendingBinding, port: u16) -> (r: (PortChangePhase, Vec<PortAction>))
    ensures
        (r.0.deep_view(), r.1.deep_view()) == port_change_next(
            PortChangePhaseValue::Allocating { pending: pending.deep_view(), port },
            PortReplyValue::Done(Ok(())),
        ),
{
    let ghost before = pending.deep_view();
    let allocation = PortAllocation {
        container_port: pending.container_port,
        host_port: decimal_text(port as u64),
        host_ip: pending.host_ip,
        protocol: pending.protocol,
    };
    assert(allocation.deep_view() == bound_to(before, port));
    let allocations = if pending.replaces {
        replace_binding(&pending.recorded, &allocation)
    } else {
        let mut recorded = pending.recorded;
        recorded.push(allocation.copy());
        assert(recorded.deep_view() =~= before.recorded.push(allocation.deep_view()));
        recorded
    };
    let first = port_batch(PortAction::SaveNetwork);
    let batch = followed_by(first, PortAction::RecordPorts { allocations });
    (PortChangePhase::RecordingBound { allocation }, batch)
}

} // verus!
