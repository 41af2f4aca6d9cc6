//! Requests about the ports of containers.

use vstd::prelude::*;
use crate::actions::Action;
use crate::container_lifecycle::{ContainerLifecycleManager, recreation_begun};
use crate::models::{
    ApiResponse, ApiResponseValue, ContainerTracker, ContainerTrackerValue, PortAllocation,
    PortAllocationTexts, copy_ports, outcome,
};
use crate::port_binding::{
    AddPortRequest, PortAction, PortActionValue, PortChange, PortChangeJob, PortChangePhase,
    RemovePortRequest, UpdatePortRequest,
};
use crate::recreation::Recreation;
use crate::text::concat2;

verus! {

/// How many ports the count of available ones starts from.
pub const PORT_POOL: usize = 50;

/// How many available ports are listed at most.
pub const LISTED_PORTS: usize = 100;

/// The ports of a container.
#[derive(Debug, PartialEq, Eq)]
pub struct NetworkInfo {
    pub container_id: String,
    pub uuid: String,
    pub allocated_ports: Vec<PortAllocation>,
    pub available_port_count: usize,
}

/// The values of the ports of a container.
pub struct NetworkInfoValue {
    pub container_id: Seq<char>,
    pub uuid: Seq<char>,
    pub allocated_ports: Seq<PortAllocationTexts>,
    pub available_port_count: int,
}

impl DeepView for NetworkInfo {
    type V = NetworkInfoValue;

    open spec fn deep_view(&self) -> NetworkInfoValue {
        NetworkInfoValue {
            container_id: self.container_id@,
            uuid: self.uuid@,
            allocated_ports: self.allocated_ports.deep_view(),
            available_port_count: self.available_port_count as int,
        }
    }
}

/// The container that a uuid or a container id stands for: it is taken for a uuid first, and
/// for a container id where no container has that uuid.
pub open spec fn found_container(
    by_uuid: Result<Option<ContainerTrackerValue>, Seq<char>>,
    by_id: Result<Option<ContainerTrackerValue>, Seq<char>>,
) -> Result<ContainerTrackerValue, Seq<char>> {
    match (by_uuid, by_id) {
        (Ok(Some(t)), _) => Ok(t),
        (Ok(None), Ok(Some(t))) => Ok(t),
        (Ok(None), _) => Err("Container not found"@),
        (Err(e), _) => Err(e),
    }
}

/// Answers with the ports of a container. `by_uuid` and `by_id` are what is on record under
/// the uuid and, where there is nothing, under the container id; `allocated` is how many host
/// ports are allocated altogether.
pub fn get_container_network(
    by_uuid: Result<Option<ContainerTracker>, String>,
    by_id: Result<Option<ContainerTracker>, String>,
    allocated: usize,
) -> (r: ApiResponse<NetworkInfo>)
    requires
        found_container(outcome(by_uuid), outcome(by_id)) is Ok ==> allocated <= PORT_POOL,
    ensures
        r.deep_view() == match found_container(outcome(by_uuid), outcome(by_id)) {
            Ok(tracker) => ApiResponseValue::Success(
                NetworkInfoValue {
                    container_id: tracker.container_id,
                    uuid: tracker.custom_uuid,
                    allocated_ports: tracker.allocated_ports,
                    available_port_count: PORT_POOL - allocated,
                },
            ),
            Err(e) => ApiResponseValue::Error(e),
        },
{
    let tracker = match by_uuid {
        Ok(Some(t)) => t,
        Ok(None) => match by_id {
            Ok(Some(t)) => t,
            _ => {
                return ApiResponse::error("Container not found".to_owned());
            },
        },
        Err(e) => {
            return ApiResponse::error(e);
        },
    };
    ApiResponse::success(
        NetworkInfo {
            container_id: tracker.container_id,
            uuid: tracker.custom_uuid,
            allocated_ports: tracker.allocated_ports,
            available_port_count: PORT_POOL - allocated,
        },
    )
}

/// The ports that are available.
#[derive(Debug, PartialEq, Eq)]
pub struct AvailablePortsResponse {
    pub available_ports: Vec<u16>,
    pub port_range: (u16, u16),
    pub allocated_count: usize,
}

/// The ports from `low` up to, not including, `high` that are not allocated, in ascending
/// order.
pub open spec fn free_ports(low: int, high: int, allocated: Seq<u16>) -> Seq<u16>
    decreases high - low,
{
    if high <= low {
        Seq::empty()
    } else {
        let front = free_ports(low, high - 1, allocated);
        if allocated.contains((high - 1) as u16) {
            front
        } else {
            front.push((high - 1) as u16)
        }
    }
}

/// The first so many of `list`, or all of it.
pub open spec fn at_most<T>(list: Seq<T>, count: int) -> Seq<T> {
    if list.len() <= count {
        list
    } else {
        list.take(count)
    }
}

/// A longer range of ports has at least the free ports of a shorter one, in the same places.
proof fn lemma_free_ports_grow(low: int, middle: int, high: int, allocated: Seq<u16>)
    requires
        low <= middle <= high,
    ensures
        free_ports(low, middle, allocated).is_prefix_of(free_ports(low, high, allocated)),
    decreases high - middle,
{
    let short = free_ports(low, middle, allocated);
    let long = free_ports(low, high, allocated);
    if middle < high {
        lemma_free_ports_grow(low, middle, high - 1, allocated);
        let nearly = free_ports(low, high - 1, allocated);
        assert(long.subrange(0, short.len() as int) =~= nearly.subrange(0, short.len() as int));
    } else {
        assert(long.subrange(0, short.len() as int) =~= short);
    }
}

/// The ports that are listed as available lie in the range and are not allocated, they ascend,
/// and up to the last of them none that is free is left out; none is left out at all where
/// there is room for it.
pub proof fn law_free_ports(low: u16, high: u16, allocated: Seq<u16>)
    ensures
        ({
            let free = free_ports(low as int, high as int, allocated);
            &&& forall|i: int|
                0 <= i < free.len() ==> low <= #[trigger] free[i] < high && !allocated.contains(
                    free[i],
                )
            &&& forall|i: int, j: int|
                0 <= i < j < free.len() ==> (#[trigger] free[i]) < (#[trigger] free[j])
            &&& forall|p: u16|
                low <= p < high && !allocated.contains(p) ==> #[trigger] free.contains(p)
        }),
    decreases high - low,
{
    if low < high {
        let before = (high - 1) as u16;
        law_free_ports(low, before, allocated);
        let front = free_ports(low as int, before as int, allocated);
        let free = free_ports(low as int, high as int, allocated);
        assert forall|p: u16|
            low <= p < high && !allocated.contains(p) implies #[trigger] free.contains(p) by {
            if p == before {
                assert(free[free.len() - 1] == p);
            } else {
                assert(front.contains(p));
                let i = choose|i: int| 0 <= i < front.len() && front[i] == p;
                assert(free[i] == p);
            }
        }
    }
}

/// A container is looked up by its uuid, and by its container id only where no container has
/// that uuid; it is not found where neither leads to one. An error in the first look is told as
/// it is, one in the second counts as not found.
pub proof fn law_uuid_comes_before_id(
    by_uuid: Result<Option<ContainerTrackerValue>, Seq<char>>,
    by_id: Result<Option<ContainerTrackerValue>, Seq<char>>,
)
    ensures
        by_uuid matches Ok(Some(t)) ==> found_container(by_uuid, by_id) == Ok::<
            ContainerTrackerValue,
            Seq<char>,
        >(t),
        by_uuid matches Err(e) ==> found_container(by_uuid, by_id) == Err::<
            ContainerTrackerValue,
            Seq<char>,
        >(e),
        by_uuid matches Ok(None) ==> {
            &&& by_id matches Ok(Some(t)) ==> found_container(by_uuid, by_id) == Ok::<
                ContainerTrackerValue,
                Seq<char>,
            >(t)
            &&& !(by_id matches Ok(Some(_))) ==> found_container(by_uuid, by_id) == Err::<
                ContainerTrackerValue,
                Seq<char>,
            >("Container not found"@)
        },
{
}

/// The ports that are listed as available: at most a hundred, the lowest that are free in the
/// range, in ascending order. Where fewer are listed no free one is missing.
pub proof fn law_lowest_free_ports_are_listed(low: u16, high: u16, allocated: Seq<u16>)
    ensures
        ({
            let listed = at_most(
                free_ports(low as int, high as int, allocated),
                LISTED_PORTS as int,
            );
            &&& listed.len() <= 100
            &&& forall|i: int|
                0 <= i < listed.len() ==> low <= #[trigger] listed[i] < high
                    && !allocated.contains(listed[i])
            &&& forall|i: int, j: int|
                0 <= i < j < listed.len() ==> (#[trigger] listed[i]) < (#[trigger] listed[j])
            &&& forall|p: u16|
                low <= p < high && !allocated.contains(p) && (listed.len() < 100 || p
                    <= listed.last()) ==> #[trigger] listed.contains(p)
        }),
{
    let free = free_ports(low as int, high as int, allocated);
    let listed = at_most(free, LISTED_PORTS as int);
    law_free_ports(low, high, allocated);
    assert forall|i: int| 0 <= i < listed.len() implies low <= #[trigger] listed[i] < high
        && !allocated.contains(listed[i]) by {
        assert(listed[i] == free[i]);
    }
    assert forall|i: int, j: int| 0 <= i < j < listed.len() implies (#[trigger] listed[i]) < (
    #[trigger] listed[j]) by {
        assert(free[i] < free[j]);
    }
    assert forall|p: u16|
        low <= p < high && !allocated.contains(p) && (listed.len() < 100 || p
            <= listed.last()) implies #[trigger] listed.contains(p) by {
        assert(free.contains(p));
        let i = choose|i: int| 0 <= i < free.len() && free[i] == p;
        if i >= listed.len() {
            assert(free[listed.len() - 1] < free[i]);
        }
        assert(listed[i] == p);
    }
}

/// The ports that are counted as available and those that are allocated make fifty.
pub proof fn law_ports_make_fifty(allocated: usize)
    ensures
        (PORT_POOL - allocated) + allocated == 50,
{
}

/// Every container that has ports allocated is listed with its uuid and all of them, in order,
/// and no other.
pub proof fn law_containers_are_listed_with_ports(containers: Seq<ContainerTrackerValue>)
    ensures
        with_ports(containers) == containers.filter(
            |c: ContainerTrackerValue| c.allocated_ports.len() > 0,
        ).map_values(|c: ContainerTrackerValue| (c.custom_uuid, c.allocated_ports)),
    decreases containers.len(),
{
    reveal(Seq::filter);
    if containers.len() > 0 {
        law_containers_are_listed_with_ports(containers.drop_last());
    }
    assert(with_ports(containers) =~= containers.filter(
        |c: ContainerTrackerValue| c.allocated_ports.len() > 0,
    ).map_values(|c: ContainerTrackerValue| (c.custom_uuid, c.allocated_ports)));
}

/// Ports are applied to a container that is on record and not locked, and to no other. That it
/// is locked is told first.
pub proof fn law_ports_are_applied_unless_locked(
    found: Result<Option<ContainerTrackerValue>, Seq<char>>,
)
    ensures
        not_applied(true, found) == Some("Container is currently locked"@),
        found matches Ok(Some(_)) ==> not_applied(false, found) is None,
        found matches Ok(None) ==> not_applied(false, found) == Some("Container not found"@),
        found matches Err(e) ==> not_applied(false, found) == Some(
            "Failed to get container: "@ + e,
        ),
{
}

/// Whether a port is among the given ones.
fn holds_port(ports: &Vec<u16>, port: u16) -> (r: bool)
    ensures
        r == ports@.contains(port),
{
    let mut i: usize = 0;
    while i < ports.len()
        invariant
            i <= ports.len(),
            forall|k: int| 0 <= k < i ==> ports@[k] != port,
        decreases ports.len() - i,
    {
        if ports[i] == port {
            return true;
        }
        i = i + 1;
    }
    false
}

/// Answers with the ports of the range that are not allocated, up to a hundred of them.
pub fn get_available_ports(port_range: (u16, u16), allocated: &Vec<u16>) -> (r: ApiResponse<
    AvailablePortsResponse,
>)
    ensures
        r is Success,
        r->Success_0.available_ports@ == at_most(
            free_ports(port_range.0 as int, port_range.1 as int, allocated@),
            LISTED_PORTS as int,
        ),
        r->Success_0.port_range == port_range,
        r->Success_0.allocated_count == allocated@.len(),
{
    let (low, high) = port_range;
    let mut free: Vec<u16> = Vec::new();
    let mut port: u16 = low;
    while port < high && free.len() < LISTED_PORTS
        invariant
            low <= port,
            port <= high || port == low,
            free@ == free_ports(low as int, port as int, allocated@),
            free.len() <= LISTED_PORTS,
        decreases high - port,
    {
        if !holds_port(allocated, port) {
            free.push(port);
        }
        port = port + 1;
    }
    proof {
        if port < high {
            lemma_free_ports_grow(low as int, port as int, high as int, allocated@);
            let all = free_ports(low as int, high as int, allocated@);
            assert(all.take(LISTED_PORTS as int) =~= free@);
        }
    }
    ApiResponse::Success(
        AvailablePortsResponse {
            available_ports: free,
            port_range,
            allocated_count: allocated.len(),
        },
    )
}

/// Begins to add a port binding to a container. The change is applied when the container is
/// recreated.
pub fn add_port_binding(request: AddPortRequest) -> (r: (PortChangeJob, Vec<PortAction>))
    ensures
        r.0.phase == (PortChangePhase::Loading { change: PortChange::Add { request } }),
        r.1.deep_view() == seq![PortActionValue::LoadTracker],
{
    PortChangeJob::begin(PortChange::Add { request })
}

/// Begins to remove a port binding from a container. The change is applied when the container
/// is recreated.
pub fn remove_port_binding(request: RemovePortRequest) -> (r: (PortChangeJob, Vec<PortAction>))
    ensures
        r.0.phase == (PortChangePhase::Loading { change: PortChange::Remove { request } }),
        r.1.deep_view() == seq![PortActionValue::LoadTracker],
{
    PortChangeJob::begin(PortChange::Remove { request })
}

/// Begins to give a port binding of a container another host port. The change is applied when
/// the container is recreated.
pub fn update_port_binding(request: UpdatePortRequest) -> (r: (PortChangeJob, Vec<PortAction>))
    ensures
        r.0.phase == (PortChangePhase::Loading { change: PortChange::Update { request } }),
        r.1.deep_view() == seq![PortActionValue::LoadTracker],
{
    PortChangeJob::begin(PortChange::Update { request })
}

/// The containers that have ports allocated, each with its ports.
pub open spec fn with_ports(containers: Seq<ContainerTrackerValue>) -> Seq<
    (Seq<char>, Seq<PortAllocationTexts>),
>
    decreases containers.len(),
{
    if containers.len() == 0 {
        Seq::empty()
    } else {
        let front = with_ports(containers.drop_last());
        let last = containers.last();
        if last.allocated_ports.len() == 0 {
            front
        } else {
            front.push((last.custom_uuid, last.allocated_ports))
        }
    }
}

/// Answers with the ports that are allocated, container by container.
pub fn get_all_port_allocations(containers: Result<Vec<ContainerTracker>, String>) -> (r:
    ApiResponse<Vec<(String, Vec<PortAllocation>)>>)
    ensures
        r.deep_view() == match outcome(containers) {
            Ok(list) => ApiResponseValue::Success(with_ports(list)),
            Err(e) => ApiResponseValue::Error(e),
        },
{
    let list = match containers {
        Ok(list) => list,
        Err(e) => {
            return ApiResponse::error(e);
        },
    };
    let ghost all = list.deep_view();
    let mut rest: Vec<(String, Vec<PortAllocation>)> = Vec::new();
    let mut i: usize = 0;
    assert(rest.deep_view() =~= with_ports(all.take(0)));
    while i < list.len()
        invariant
            i <= list.len(),
            all == list.deep_view(),
            rest.deep_view() == with_ports(all.take(i as int)),
        decreases list.len() - i,
    {
        let ghost before = rest.deep_view();
        assert(all.take(i + 1).drop_last() =~= all.take(i as int));
        assert(all.take(i + 1).last() == list@[i as int].deep_view());
        let container = &list[i];
        if container.allocated_ports.len() > 0 {
            let entry = (
                container.custom_uuid.clone(),
                copy_ports(&container.allocated_ports),
            );
            rest.push(entry);
            assert(rest.deep_view() =~= before.push(entry.deep_view()));
        }
        i = i + 1;
    }
    assert(all.take(i as int) =~= all);
    ApiResponse::success(rest)
}

/// That work on a request has begun.
#[derive(Debug, PartialEq, Eq)]
pub struct Accepted {
    pub status: String,
    pub message: String,
}

/// The texts of the answer that work has begun.
pub struct AcceptedTexts {
    pub status: Seq<char>,
    pub message: Seq<char>,
}

impl DeepView for Accepted {
    type V = AcceptedTexts;

    open spec fn deep_view(&self) -> AcceptedTexts {
        AcceptedTexts { status: self.status@, message: self.message@ }
    }
}

/// Why the ports of a container cannot be applied, where they cannot.
pub open spec fn not_applied(
    locked: bool,
    found: Result<Option<ContainerTrackerValue>, Seq<char>>,
) -> Option<Seq<char>> {
    if locked {
        Some("Container is currently locked"@)
    } else {
        match found {
            Ok(Some(_)) => None,
            Ok(None) => Some("Container not found"@),
            Err(e) => Some("Failed to get container: "@ + e),
        }
    }
}

/// Answers a request to apply the ports of a container, and begins to recreate the container
/// unless it is refused. `locked` is whether the container is locked; `found` is what is on
/// record, which does not matter where it is.
pub fn apply_port_changes(
    lifecycle: &ContainerLifecycleManager,
    uuid: &str,
    locked: bool,
    found: Result<Option<ContainerTracker>, String>,
) -> (r: (ApiResponse<Accepted>, Option<(Recreation, Vec<Action>)>))
    ensures
        r.0.deep_view() == match not_applied(locked, outcome(found)) {
            Some(e) => ApiResponseValue::Error(e),
            None => ApiResponseValue::Success(
                AcceptedTexts {
                    status: "accepted"@,
                    message: "Port changes being applied for container "@ + uuid@,
                },
            ),
        },
        r.1 is Some <==> not_applied(locked, outcome(found)) is None,
        r.1 is Some ==> recreation_begun(r.1->0, lifecycle.place_of(uuid@), None),
{
    if locked {
        return (ApiResponse::error("Container is currently locked".to_owned()), None);
    }
    match found {
        Ok(Some(_)) => {
            let job = lifecycle.recreate_container(uuid, None);
            let accepted = Accepted {
                status: "accepted".to_owned(),
                message: concat2("Port changes being applied for container ", uuid),
            };
            (ApiResponse::success(accepted), Some(job))
        },
        Ok(None) => (ApiResponse::error("Container not found".to_owned()), None),
        Err(e) => (ApiResponse::error(concat2("Failed to get container: ", e.as_str())), None),
    }
}

} // verus!
