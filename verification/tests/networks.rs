use lightd::actions::Action;
use lightd::container_lifecycle::ContainerLifecycleManager;
use lightd::models::{ApiResponse, ContainerTracker, PortAllocation, ResourceLimits};
use lightd::network::{
    add_port_binding, apply_port_changes, get_all_port_allocations, get_available_ports,
    get_container_network, remove_port_binding, update_port_binding, Accepted,
    AvailablePortsResponse, NetworkInfo,
};
use lightd::port_binding::{
    AddPortRequest, PortAction, PortAnswer, PortChangeJob, PortReply, RemovePortRequest,
    UpdatePortRequest,
};
use lightd::time::Timestamp;

fn s(text: &str) -> String {
    text.to_string()
}

fn port(container_port: &str, host_port: &str) -> PortAllocation {
    PortAllocation {
        container_port: s(container_port),
        host_port: s(host_port),
        host_ip: s("10.0.0.1"),
        protocol: s("udp"),
    }
}

fn tracker(ports: Vec<PortAllocation>) -> ContainerTracker {
    ContainerTracker {
        custom_uuid: s("u-1"),
        container_id: s("c-1"),
        name: s("survival"),
        image: s("java:17"),
        description: None,
        startup_command: None,
        created_at: Timestamp { secs: 0, nanos: 0 },
        limits: ResourceLimits { settings: vec![] },
        allocated_ports: ports,
        attached_volumes: vec![],
        ports: vec![],
        env: None,
        status: s("running"),
        install_content: None,
        update_content: None,
    }
}

fn add(container_port: &str, host_port: Option<&str>) -> AddPortRequest {
    AddPortRequest {
        container_port: s(container_port),
        host_port: host_port.map(s),
        host_ip: None,
        protocol: None,
    }
}

fn loaded(
    job: (PortChangeJob, Vec<PortAction>),
    ports: Vec<PortAllocation>,
) -> (PortChangeJob, Vec<PortAction>) {
    assert_eq!(job.1, vec![PortAction::LoadTracker]);
    job.0.step(PortReply::Tracker(Ok(Some(tracker(ports)))))
}

fn refused(error: &str) -> PortAction {
    PortAction::Answer { response: ApiResponse::Error(s(error)) }
}

fn bound(allocation: PortAllocation) -> PortAction {
    PortAction::Answer { response: ApiResponse::Success(PortAnswer::Bound(allocation)) }
}

fn new_port(container_port: &str, host_port: &str) -> PortAllocation {
    PortAllocation {
        container_port: s(container_port),
        host_port: s(host_port),
        host_ip: s("0.0.0.0"),
        protocol: s("tcp"),
    }
}

#[test]
fn any_free_port_is_bound() {
    for wanted in [None, Some("auto"), Some("")] {
        let (job, batch) = loaded(add_port_binding(add("80", wanted)), vec![port("22", "30022")]);
        assert_eq!(batch, vec![PortAction::FindPort]);
        let (job, batch) = job.step(PortReply::Found(Some(30100)));
        assert_eq!(batch, vec![PortAction::AllocatePort { port: 30100, owner: s("u-1") }]);
        let (job, batch) = job.step(PortReply::Done(Ok(())));
        assert_eq!(
            batch,
            vec![
                PortAction::SaveNetwork,
                PortAction::RecordPorts {
                    allocations: vec![port("22", "30022"), new_port("80", "30100")],
                },
            ]
        );
        assert!(!job.is_answered());
        let (job, batch) = job.step(PortReply::Done(Ok(())));
        assert_eq!(
            batch,
            vec![
                PortAction::SetStatePort { container_port: s("80"), host_port: s("30100") },
                bound(new_port("80", "30100")),
            ]
        );
        assert!(job.is_answered());
    }
}

#[test]
fn a_given_port_is_bound() {
    let mut request = add("80", Some("8080"));
    request.host_ip = Some(s("127.0.0.1"));
    request.protocol = Some(s("udp"));
    let (job, batch) = loaded(add_port_binding(request), vec![]);
    assert_eq!(batch, vec![PortAction::AllocatePort { port: 8080, owner: s("u-1") }]);
    let (_, batch) = job.step(PortReply::Done(Ok(())));
    assert_eq!(
        batch[1],
        PortAction::RecordPorts {
            allocations: vec![PortAllocation {
                container_port: s("80"),
                host_port: s("8080"),
                host_ip: s("127.0.0.1"),
                protocol: s("udp"),
            }],
        }
    );
}

#[test]
fn adding_a_port_can_fail() {
    let (_, batch) = loaded(add_port_binding(add("80", None)), vec![port("80", "30022")]);
    assert_eq!(batch, vec![refused("Container port 80 is already bound")]);
    let (_, batch) = loaded(add_port_binding(add("80", Some("eighty"))), vec![]);
    assert_eq!(batch, vec![refused("Invalid port: eighty")]);
    let (_, batch) = loaded(add_port_binding(add("80", Some("70000"))), vec![]);
    assert_eq!(batch, vec![refused("Invalid port: 70000")]);
    let (job, _) = loaded(add_port_binding(add("80", None)), vec![]);
    let (_, batch) = job.step(PortReply::Found(None));
    assert_eq!(batch, vec![refused("No available ports")]);
    let (job, _) = loaded(add_port_binding(add("80", Some("8080"))), vec![]);
    let (_, batch) = job.step(PortReply::Done(Err(s("Port 8080 is taken"))));
    assert_eq!(batch, vec![refused("Port 8080 is taken")]);
    let (job, _) = loaded(add_port_binding(add("80", Some("8080"))), vec![]);
    let (job, _) = job.step(PortReply::Done(Ok(())));
    let (_, batch) = job.step(PortReply::Done(Err(s("disk full"))));
    assert_eq!(batch, vec![refused("disk full")]);
    let (job, _) = add_port_binding(add("80", None));
    let (_, batch) = job.step(PortReply::Tracker(Ok(None)));
    assert_eq!(batch, vec![refused("Container not found")]);
    let (job, _) = add_port_binding(add("80", None));
    let (_, batch) = job.step(PortReply::Tracker(Err(s("bad json"))));
    assert_eq!(batch, vec![refused("bad json")]);
}

fn remove(container_port: &str) -> RemovePortRequest {
    RemovePortRequest { container_port: s(container_port) }
}

#[test]
fn ports_are_removed() {
    let ports = vec![port("22", "30022"), port("80", "30080"), port("443", "30443")];
    let (job, batch) = loaded(remove_port_binding(remove("80")), ports);
    assert_eq!(
        batch,
        vec![
            PortAction::ReleasePort { port: 30080 },
            PortAction::SaveNetwork,
            PortAction::RecordPorts {
                allocations: vec![port("22", "30022"), port("443", "30443")],
            },
        ]
    );
    let (job, batch) = job.step(PortReply::Done(Ok(())));
    assert_eq!(
        batch,
        vec![
            PortAction::RemoveStatePort { container_port: s("80") },
            PortAction::Answer {
                response: ApiResponse::Success(PortAnswer::Told(s(
                    "Port 80 removed (restart to apply)"
                ))),
            },
        ]
    );
    assert!(job.is_answered());
}

#[test]
fn host_ports_that_are_no_numbers_are_not_released() {
    let (_, batch) = loaded(remove_port_binding(remove("80")), vec![port("80", "none")]);
    assert_eq!(
        batch,
        vec![PortAction::SaveNetwork, PortAction::RecordPorts { allocations: vec![] }]
    );
}

#[test]
fn removing_a_port_can_fail() {
    let (_, batch) = loaded(remove_port_binding(remove("80")), vec![port("22", "30022")]);
    assert_eq!(batch, vec![refused("Container port 80 is not bound")]);
    let (job, _) = loaded(remove_port_binding(remove("80")), vec![port("80", "30022")]);
    let (_, batch) = job.step(PortReply::Done(Err(s("disk full"))));
    assert_eq!(batch, vec![refused("disk full")]);
}

#[test]
fn removing_undoes_adding() {
    let before = vec![port("22", "30022")];
    let (job, _) = loaded(add_port_binding(add("80", Some("8080"))), before.clone());
    let (_, mut batch) = job.step(PortReply::Done(Ok(())));
    let after = match batch.pop() {
        Some(PortAction::RecordPorts { allocations }) => allocations,
        other => panic!("{:?}", other),
    };
    assert_eq!(after.len(), 2);
    let (_, batch) = loaded(remove_port_binding(remove("80")), after);
    assert_eq!(
        batch,
        vec![
            PortAction::ReleasePort { port: 8080 },
            PortAction::SaveNetwork,
            PortAction::RecordPorts { allocations: before },
        ]
    );
}

fn update(container_port: &str, new_host_port: &str, host_ip: Option<&str>) -> UpdatePortRequest {
    UpdatePortRequest {
        container_port: s(container_port),
        new_host_port: s(new_host_port),
        host_ip: host_ip.map(s),
    }
}

#[test]
fn ports_are_updated_in_place() {
    let ports = vec![port("22", "30022"), port("80", "30080"), port("443", "30443")];
    let (job, batch) = loaded(update_port_binding(update("80", "31000", None)), ports.clone());
    assert_eq!(
        batch,
        vec![
            PortAction::ReleasePort { port: 30080 },
            PortAction::AllocatePort { port: 31000, owner: s("u-1") },
        ]
    );
    let (job, batch) = job.step(PortReply::Done(Ok(())));
    assert_eq!(
        batch,
        vec![
            PortAction::SaveNetwork,
            PortAction::RecordPorts {
                allocations: vec![port("22", "30022"), port("80", "31000"), port("443", "30443")],
            },
        ]
    );
    let (_, batch) = job.step(PortReply::Done(Ok(())));
    assert_eq!(
        batch,
        vec![
            PortAction::SetStatePort { container_port: s("80"), host_port: s("31000") },
            bound(port("80", "31000")),
        ]
    );

    let (job, batch) = loaded(update_port_binding(update("80", "auto", Some("::1"))), ports);
    assert_eq!(batch, vec![PortAction::ReleasePort { port: 30080 }, PortAction::FindPort]);
    let (job, _) = job.step(PortReply::Found(Some(7)));
    let (job, _) = job.step(PortReply::Done(Ok(())));
    let (_, batch) = job.step(PortReply::Done(Ok(())));
    let mut expected = port("80", "7");
    expected.host_ip = s("::1");
    assert_eq!(batch[1], bound(expected));
}

#[test]
fn updating_a_port_can_fail() {
    let (_, batch) = loaded(update_port_binding(update("80", "auto", None)), vec![]);
    assert_eq!(batch, vec![refused("Container port 80 is not bound")]);
    let (_, batch) = loaded(update_port_binding(update("80", "x", None)), vec![port("80", "5")]);
    assert_eq!(
        batch,
        vec![PortAction::ReleasePort { port: 5 }, refused("Invalid port: x")]
    );
}

#[test]
fn unexpected_replies_are_ignored() {
    let (job, _) = add_port_binding(add("80", None));
    let (job, batch) = job.step(PortReply::Found(Some(1)));
    assert!(batch.is_empty());
    assert_eq!(job, add_port_binding(add("80", None)).0);
}

#[test]
fn ports_of_a_container() {
    let t = || tracker(vec![port("80", "30080")]);
    let info = |available: usize| {
        ApiResponse::Success(NetworkInfo {
            container_id: s("c-1"),
            uuid: s("u-1"),
            allocated_ports: vec![port("80", "30080")],
            available_port_count: available,
        })
    };
    assert_eq!(get_container_network(Ok(Some(t())), Ok(None), 3), info(47));
    assert_eq!(get_container_network(Ok(None), Ok(Some(t())), 50), info(0));
    let none = ApiResponse::Error(s("Container not found"));
    assert_eq!(get_container_network(Ok(None), Ok(None), 99), none);
    assert_eq!(get_container_network(Ok(None), Err(s("io")), 0), none);
    assert_eq!(
        get_container_network(Err(s("io")), Ok(Some(t())), 0),
        ApiResponse::Error(s("io"))
    );
}

#[test]
fn free_ports_are_listed() {
    assert_eq!(
        get_available_ports((30000, 30005), &vec![30001, 30004, 9]),
        ApiResponse::Success(AvailablePortsResponse {
            available_ports: vec![30000, 30002, 30003],
            port_range: (30000, 30005),
            allocated_count: 3,
        })
    );
    match get_available_ports((0, 65535), &vec![1]) {
        ApiResponse::Success(r) => {
            assert_eq!(r.available_ports.len(), 100);
            assert_eq!(r.available_ports[1], 2);
            assert_eq!(r.available_ports[99], 100);
        }
        other => panic!("{:?}", other),
    }
    match get_available_ports((5, 5), &vec![]) {
        ApiResponse::Success(r) => assert!(r.available_ports.is_empty()),
        other => panic!("{:?}", other),
    }
    match get_available_ports((9, 5), &vec![]) {
        ApiResponse::Success(r) => assert!(r.available_ports.is_empty()),
        other => panic!("{:?}", other),
    }
}

#[test]
fn containers_with_ports_are_listed() {
    let mut other = tracker(vec![port("22", "30022")]);
    other.custom_uuid = s("u-2");
    let list = vec![tracker(vec![port("80", "30080")]), tracker(vec![]), other];
    assert_eq!(
        get_all_port_allocations(Ok(list)),
        ApiResponse::Success(vec![
            (s("u-1"), vec![port("80", "30080")]),
            (s("u-2"), vec![port("22", "30022")]),
        ])
    );
    assert_eq!(
        get_all_port_allocations(Err(s("io"))),
        ApiResponse::Error(s("io"))
    );
}

#[test]
fn port_changes_are_applied_by_recreation() {
    let lifecycle = ContainerLifecycleManager::new(s("/srv/volumes"));
    let (response, job) =
        apply_port_changes(&lifecycle, "u-1", false, Ok(Some(tracker(vec![]))));
    assert_eq!(
        response,
        ApiResponse::Success(Accepted {
            status: s("accepted"),
            message: s("Port changes being applied for container u-1"),
        })
    );
    let (_, batch) = job.unwrap();
    assert_eq!(batch, vec![Action::Lock { reason: s("Recreating container") }]);

    let refusals = vec![
        (true, Ok(Some(tracker(vec![]))), "Container is currently locked"),
        (false, Ok(None), "Container not found"),
        (false, Err(s("io")), "Failed to get container: io"),
    ];
    for (locked, found, error) in refusals {
        let (response, job) = apply_port_changes(&lifecycle, "u-1", locked, found);
        assert_eq!(response, ApiResponse::Error(s(error)));
        assert!(job.is_none());
    }
}
