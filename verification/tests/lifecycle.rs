use lightd::actions::{Action, ContainerStatus, Reply, TempContainer};
use lightd::container_lifecycle::{ContainerLifecycleManager, PortUpdate};
use lightd::installation::{Installation, NewContainer};
use lightd::models::{ContainerTracker, CreateContainerRequest, PortAllocation, ResourceLimits};
use lightd::recreation::{ContainerUpdateRequest, Recreation};
use lightd::time::Timestamp;

fn s(text: &str) -> String {
    text.to_string()
}

fn pair(name: &str, value: &str) -> (String, String) {
    (s(name), s(value))
}

fn port(container_port: &str, host_port: &str) -> PortAllocation {
    PortAllocation {
        container_port: s(container_port),
        host_port: s(host_port),
        host_ip: s("0.0.0.0"),
        protocol: s("tcp"),
    }
}

fn limits(memory: &str) -> ResourceLimits {
    ResourceLimits { settings: vec![pair("memory", memory)] }
}

fn tracker() -> ContainerTracker {
    ContainerTracker {
        custom_uuid: s("u-1"),
        container_id: s("old-id"),
        name: s("survival"),
        image: s("java:17"),
        description: Some(s("a server")),
        startup_command: Some(vec![s("java"), s("-jar"), s("server.jar")]),
        created_at: Timestamp { secs: 1600000000, nanos: 0 },
        limits: limits("1g"),
        allocated_ports: vec![
            port("25565", "30001"),
            port("8080", "thirty"),
            port("25575", "30002"),
        ],
        attached_volumes: vec![s("backup")],
        ports: vec![],
        env: Some(vec![pair("EULA", "true")]),
        status: s("running"),
        install_content: Some(s("echo old")),
        update_content: Some(s("echo update")),
    }
}

fn manager() -> ContainerLifecycleManager {
    ContainerLifecycleManager::new(s("/srv/volumes"))
}

fn done() -> Reply {
    Reply::Done(Ok(()))
}

fn failed(error: &str) -> Reply {
    Reply::Done(Err(s(error)))
}

fn request() -> CreateContainerRequest {
    CreateContainerRequest {
        image: s("java:17"),
        name: Some(s("survival")),
        description: Some(s("a server")),
        startup_command: Some(vec![s("/bin/sh"), s("/data/entrypoint.sh")]),
        env: Some(vec![pair("EULA", "true")]),
        ports: Some(vec![pair("25565", "30001"), pair("8080", "thirty"), pair("25575", "30002")]),
        volumes: Some(vec![s("backup")]),
        command: None,
        working_dir: None,
        restart_policy: None,
        custom_uuid: Some(s("u-1")),
        limits: Some(limits("1g")),
        install_content: None,
        update_content: Some(s("echo update")),
    }
}

fn no_update() -> ContainerUpdateRequest {
    ContainerUpdateRequest { env: None, limits: None, ports: None, image: None, startup_command: None }
}

fn finish_err(error: &str) -> Action {
    Action::Finish { result: Err(s(error)) }
}

fn state(name: &str) -> Action {
    Action::SetState { state: s(name) }
}

/// A recreation that was told that it has the lock and that its state is recorded.
fn recreation_loading(update: Option<ContainerUpdateRequest>) -> Recreation {
    let (job, batch) = manager().recreate_container("u-1", update);
    assert_eq!(batch, vec![Action::Lock { reason: s("Recreating container") }]);
    let (job, batch) = job.step(done());
    assert_eq!(batch, vec![state("recreating")]);
    let (job, batch) = job.step(done());
    assert_eq!(batch, vec![Action::LoadTracker]);
    job
}

/// What a recreation with the given changes wants to create.
fn recreated_with(update: Option<ContainerUpdateRequest>) -> CreateContainerRequest {
    let (_, mut batch) = recreation_loading(update).step(Reply::Tracker(Ok(Some(tracker()))));
    match batch.pop() {
        Some(Action::CreateContainer { request }) => request,
        other => panic!("{:?}", other),
    }
}

#[test]
fn containers_are_recreated() {
    let job = recreation_loading(None);
    let (job, batch) = job.step(Reply::Tracker(Ok(Some(tracker()))));
    assert_eq!(
        batch,
        vec![
            Action::StopContainer { container_id: s("old-id") },
            Action::Pause { millis: 300 },
            Action::RemoveContainer { container_id: s("old-id") },
            Action::ReleasePorts { ports: vec![30001, 30002] },
            Action::CreateContainer { request: request() },
        ]
    );
    let (job, batch) = job.step(Reply::Created(Ok((s("new-id"), vec![port("25565", "30001")]))));
    let mut updated = tracker();
    updated.container_id = s("new-id");
    updated.allocated_ports = vec![port("25565", "30001")];
    assert_eq!(
        batch,
        vec![
            Action::SaveTracker { tracker: updated },
            Action::SetContainerId { container_id: s("new-id") },
            Action::StartContainer { container_id: s("new-id") },
        ]
    );
    assert!(!job.is_finished());
    let (job, batch) = job.step(done());
    assert_eq!(
        batch,
        vec![state("running"), Action::Unlock, Action::Finish { result: Ok(s("new-id")) }]
    );
    assert!(job.is_finished());
    let (job, batch) = job.step(done());
    assert!(batch.is_empty());
    assert!(job.is_finished());
}

#[test]
fn containers_that_do_not_start_are_recreated_all_the_same() {
    let (job, _) = recreation_loading(None).step(Reply::Tracker(Ok(Some(tracker()))));
    let (job, _) = job.step(Reply::Created(Ok((s("new-id"), vec![]))));
    let (_, batch) = job.step(failed("no such image"));
    assert_eq!(
        batch,
        vec![state("failed"), Action::Unlock, Action::Finish { result: Ok(s("new-id")) }]
    );
}

#[test]
fn recreation_errors() {
    let (job, _) = manager().recreate_container("u-1", None);
    let (_, batch) = job.step(failed("busy"));
    assert_eq!(batch, vec![finish_err("Failed to lock container: busy")]);
    let (job, _) = manager().recreate_container("u-1", None);
    let (job, _) = job.step(done());
    let (_, batch) = job.step(failed("disk"));
    assert_eq!(batch, vec![Action::Unlock, finish_err("Failed to update state: disk")]);
    let (_, batch) = recreation_loading(None).step(Reply::Tracker(Ok(None)));
    assert_eq!(
        batch,
        vec![Action::Unlock, finish_err("Container tracker data not found")]
    );
    let (_, batch) = recreation_loading(None).step(Reply::Tracker(Err(s("bad json"))));
    assert_eq!(
        batch,
        vec![Action::Unlock, finish_err("Failed to load container data: bad json")]
    );
    let (job, _) = recreation_loading(None).step(Reply::Tracker(Ok(Some(tracker()))));
    let (_, batch) = job.step(Reply::Created(Err(s("port taken"))));
    assert_eq!(
        batch,
        vec![state("failed"), Action::Unlock, finish_err("Failed to create container: port taken")]
    );
}

#[test]
fn unexpected_replies_change_nothing() {
    let job = recreation_loading(None);
    let (job, batch) = job.step(Reply::Clock(Timestamp { secs: 0, nanos: 0 }));
    assert!(batch.is_empty());
    assert_eq!(job, recreation_loading(None));
}

#[test]
fn changes_replace_what_is_on_record() {
    assert_eq!(recreated_with(None), request());
    assert_eq!(recreated_with(Some(no_update())), request());

    let mut update = no_update();
    update.env = Some(vec![pair("EULA", "false")]);
    update.limits = Some(limits("4g"));
    update.image = Some(s("java:21"));
    let mut expected = request();
    expected.env = Some(vec![pair("EULA", "false")]);
    expected.limits = Some(limits("4g"));
    expected.image = s("java:21");
    assert_eq!(recreated_with(Some(update)), expected);
}

#[test]
fn new_commands_are_written_before_they_are_run() {
    let mut update = no_update();
    update.image = Some(s("java:21"));
    update.startup_command = Some(vec![s("java"), s("-jar"), s("new.jar")]);
    let (job, batch) =
        recreation_loading(Some(update)).step(Reply::Tracker(Ok(Some(tracker()))));
    assert_eq!(
        batch,
        vec![
            Action::StopContainer { container_id: s("old-id") },
            Action::Pause { millis: 300 },
            Action::RemoveContainer { container_id: s("old-id") },
            Action::ReleasePorts { ports: vec![30001, 30002] },
            Action::WriteFile {
                path: s("/srv/volumes/u-1_data/entrypoint.sh"),
                content: s("java -jar new.jar"),
            },
        ]
    );
    let (job, batch) = job.step(done());
    let mut expected = request();
    expected.image = s("java:21");
    assert_eq!(
        batch,
        vec![
            Action::MakeExecutable { path: s("/srv/volumes/u-1_data/entrypoint.sh") },
            Action::CreateContainer { request: expected },
        ]
    );
    let (_, batch) = job.step(Reply::Created(Ok((s("new-id"), vec![port("25565", "30001")]))));
    let mut updated = tracker();
    updated.container_id = s("new-id");
    updated.allocated_ports = vec![port("25565", "30001")];
    updated.startup_command = Some(vec![s("java"), s("-jar"), s("new.jar")]);
    assert_eq!(batch[0], Action::SaveTracker { tracker: updated });
}

#[test]
fn commands_that_cannot_be_written_end_recreations() {
    let mut update = no_update();
    update.startup_command = Some(vec![s("sh")]);
    let (job, _) = recreation_loading(Some(update)).step(Reply::Tracker(Ok(Some(tracker()))));
    let (job, batch) = job.step(failed("disk"));
    assert_eq!(
        batch,
        vec![state("failed"), Action::Unlock, finish_err("Failed to write entrypoint: disk")]
    );
    assert!(job.is_finished());
}

#[test]
fn single_changes_begin_recreations() {
    let m = manager();
    let mut env = no_update();
    env.env = Some(vec![pair("A", "1")]);
    assert_eq!(
        m.update_env("u-1", vec![pair("A", "1")]),
        m.recreate_container("u-1", Some(env))
    );
    let mut limited = no_update();
    limited.limits = Some(limits("2g"));
    assert_eq!(
        m.update_limits("u-1", limits("2g")),
        m.recreate_container("u-1", Some(limited))
    );
    let mut image = no_update();
    image.image = Some(s("alpine"));
    assert_eq!(
        m.change_image("u-1", s("alpine")),
        m.recreate_container("u-1", Some(image))
    );
}

#[test]
fn containers_without_ports_ask_for_none() {
    let mut t = tracker();
    t.allocated_ports = vec![];
    let (_, batch) = recreation_loading(None).step(Reply::Tracker(Ok(Some(t))));
    assert_eq!(batch[3], Action::ReleasePorts { ports: vec![] });
    match &batch[4] {
        Action::CreateContainer { request } => assert_eq!(request.ports, None),
        other => panic!("{:?}", other),
    }
}

#[test]
fn ports_that_were_bound_twice_are_asked_for_once() {
    let mut t = tracker();
    t.allocated_ports = vec![port("1", "10"), port("2", "20"), port("1", "30")];
    let (_, batch) = recreation_loading(None).step(Reply::Tracker(Ok(Some(t))));
    assert_eq!(batch[3], Action::ReleasePorts { ports: vec![10, 20, 30] });
    match &batch[4] {
        Action::CreateContainer { request } => {
            assert_eq!(request.ports, Some(vec![pair("1", "30"), pair("2", "20")]))
        }
        other => panic!("{:?}", other),
    }
}

fn port_update_allocating() -> PortUpdate {
    let (job, batch) = manager().update_ports("u-1", vec![pair("80", "auto")]);
    assert_eq!(batch, vec![Action::LoadTracker]);
    let (job, batch) = job.step(Reply::Tracker(Ok(Some(tracker()))));
    assert_eq!(
        batch,
        vec![Action::ReallocatePorts {
            released: vec![30001, 30002],
            requested: vec![pair("80", "auto")],
        }]
    );
    job
}

#[test]
fn ports_are_changed() {
    let job = port_update_allocating();
    let (job, batch) = job.step(Reply::Allocated(Ok(vec![pair("80", "30100")])));
    assert_eq!(batch, vec![Action::RecordPorts { allocations: vec![port("80", "30100")] }]);
    let (job, batch) = job.step(done());
    assert_eq!(batch, vec![Action::Lock { reason: s("Recreating container") }]);
    assert!(!job.is_finished());
    let (job, batch) = job.step(done());
    assert_eq!(batch, vec![state("recreating")]);
    let (job, _) = job.step(done());
    let mut t = tracker();
    t.allocated_ports = vec![port("80", "30100")];
    let (job, batch) = job.step(Reply::Tracker(Ok(Some(t))));
    match &batch[4] {
        Action::CreateContainer { request } => {
            assert_eq!(request.ports, Some(vec![pair("80", "30100")]))
        }
        other => panic!("{:?}", other),
    }
    let (job, _) = job.step(Reply::Created(Ok((s("new-id"), vec![]))));
    let (job, batch) = job.step(done());
    assert_eq!(batch.last(), Some(&Action::Finish { result: Ok(s("new-id")) }));
    assert!(job.is_finished());
}

#[test]
fn port_change_errors() {
    let (job, _) = manager().update_ports("u-1", vec![]);
    let (job, batch) = job.step(Reply::Tracker(Ok(None)));
    assert_eq!(batch, vec![finish_err("Container not found")]);
    assert!(job.is_finished());
    let (job, _) = manager().update_ports("u-1", vec![]);
    let (_, batch) = job.step(Reply::Tracker(Err(s("io"))));
    assert_eq!(batch, vec![finish_err("io")]);
    let (_, batch) = port_update_allocating().step(Reply::Allocated(Err(s("full"))));
    assert_eq!(batch, vec![finish_err("Port allocation failed: full")]);
    let (job, _) = port_update_allocating().step(Reply::Allocated(Ok(vec![])));
    let (_, batch) = job.step(failed("io"));
    assert_eq!(batch, vec![finish_err("io")]);
}

fn new_container(install: Option<&str>) -> NewContainer {
    NewContainer {
        image: s("java:17"),
        name: s("survival"),
        description: Some(s("a server")),
        startup_command: Some(vec![s("java"), s("-jar"), s("server.jar")]),
        env: Some(vec![pair("EULA", "true")]),
        ports: Some(vec![pair("25565", "auto")]),
        limits: Some(limits("1g")),
        install_content: install.map(s),
        update_content: Some(s("echo update")),
    }
}

fn temp(tag: &str) -> TempContainer {
    TempContainer {
        name: format!("u-1-{}-1700000000", tag),
        image: s("java:17"),
        cmd: vec![s("/bin/sh"), s("/data/install.sh")],
        working_dir: s("/home/container"),
        tty: true,
        env: vec![s("MODE=INSTALL")],
        binds: vec![s("/abs/u-1:/home/container"), s("/abs/u-1_data:/data:ro")],
    }
}

fn now() -> Reply {
    Reply::Clock(Timestamp { secs: 1700000000, nanos: 5 })
}

/// Leads a job whose volume directory was just asked for up to the first look at the running
/// script.
fn up_to_waiting(job: Installation, script: &str, tag: &str) -> Installation {
    let (job, batch) = job.step(done());
    assert_eq!(batch, vec![Action::CreateDirectory { path: s("/srv/volumes/u-1_data") }]);
    let (job, batch) = job.step(done());
    assert_eq!(
        batch,
        vec![Action::WriteFile {
            path: s("/srv/volumes/u-1_data/install.sh"),
            content: s(script),
        }]
    );
    let (job, batch) = job.step(done());
    assert_eq!(
        batch,
        vec![
            Action::MakeExecutable { path: s("/srv/volumes/u-1_data/install.sh") },
            Action::ReadClock,
        ]
    );
    let (job, batch) = job.step(now());
    assert_eq!(batch, vec![Action::ResolvePath { path: s("/srv/volumes/u-1") }]);
    let (job, batch) = job.step(Reply::Text(Ok(s("/abs/u-1"))));
    assert_eq!(batch, vec![Action::ResolvePath { path: s("/srv/volumes/u-1_data") }]);
    let (job, batch) = job.step(Reply::Text(Ok(s("/abs/u-1_data"))));
    assert_eq!(batch, vec![Action::PullImage { image: s("java:17") }]);
    let (job, batch) = job.step(done());
    assert_eq!(batch, vec![Action::CreateTemp { config: temp(tag) }]);
    let (job, batch) = job.step(Reply::Text(Ok(s("temp-id"))));
    assert_eq!(batch, vec![Action::StartTemp { container_id: s("temp-id") }]);
    let (job, batch) = job.step(done());
    assert_eq!(
        batch,
        vec![
            Action::Pause { millis: 2000 },
            Action::InspectTemp { container_id: s("temp-id") },
        ]
    );
    job
}

fn creating(install: Option<&str>) -> Installation {
    let (job, batch) = manager().create_with_install("u-1", new_container(install));
    assert_eq!(batch, vec![Action::Lock { reason: s("Installing") }]);
    let (job, batch) = job.step(done());
    assert_eq!(batch, vec![state("installing")]);
    let (job, batch) = job.step(done());
    assert_eq!(batch, vec![Action::CreateDirectory { path: s("/srv/volumes/u-1") }]);
    job
}

fn reinstalling() -> Installation {
    let (job, batch) = manager().reinstall("u-1", "echo new");
    assert_eq!(batch, vec![Action::Lock { reason: s("Reinstalling") }]);
    let (job, batch) = job.step(done());
    assert_eq!(batch, vec![state("installing")]);
    let (job, batch) = job.step(done());
    assert_eq!(batch, vec![Action::LoadTracker]);
    let (job, batch) = job.step(Reply::Tracker(Ok(Some(tracker()))));
    assert_eq!(
        batch,
        vec![
            Action::StopContainer { container_id: s("old-id") },
            Action::Pause { millis: 500 },
            Action::RemoveContainer { container_id: s("old-id") },
            Action::ReleasePorts { ports: vec![30001, 30002] },
            Action::CreateDirectory { path: s("/srv/volumes/u-1") },
        ]
    );
    job
}

fn looked(running: Option<bool>, exit_code: Option<i64>) -> Reply {
    Reply::Inspected(Ok(Some(ContainerStatus { running, exit_code })))
}

fn entrypoint() -> Action {
    Action::WriteFile {
        path: s("/srv/volumes/u-1_data/entrypoint.sh"),
        content: s("java -jar server.jar"),
    }
}

fn removal() -> Action {
    Action::RemoveTemp { container_id: s("temp-id") }
}

/// Leads a job whose entry point was just asked for to the final container.
fn up_to_created(job: Installation, expected: CreateContainerRequest) -> (Installation, Vec<Action>) {
    let (job, batch) = job.step(done());
    assert_eq!(
        batch,
        vec![
            Action::MakeExecutable { path: s("/srv/volumes/u-1_data/entrypoint.sh") },
            Action::CreateContainer { request: expected },
        ]
    );
    job.step(Reply::Created(Ok((s("new-id"), vec![port("25565", "30005")]))))
}

fn first_request() -> CreateContainerRequest {
    let mut r = request();
    r.ports = Some(vec![pair("25565", "auto")]);
    r.volumes = None;
    r
}

fn again_request() -> CreateContainerRequest {
    let mut r = request();
    r.volumes = None;
    r
}

fn first_record(status: &str, install: Option<&str>) -> ContainerTracker {
    ContainerTracker {
        custom_uuid: s("u-1"),
        container_id: s("new-id"),
        name: s("survival"),
        image: s("java:17"),
        description: None,
        startup_command: Some(vec![s("java"), s("-jar"), s("server.jar")]),
        created_at: Timestamp { secs: 1700000000, nanos: 5 },
        limits: limits("1g"),
        allocated_ports: vec![port("25565", "30005")],
        attached_volumes: vec![],
        ports: vec![],
        env: None,
        status: s(status),
        install_content: install.map(s),
        update_content: Some(s("echo update")),
    }
}

/// What comes of a first installation whose script ends as told.
fn check_first_install(ending: Reply, status: &str) {
    let job = up_to_waiting(creating(Some("echo hi")), "echo hi", "install");
    let (job, batch) = job.step(ending);
    assert_eq!(batch, vec![removal(), entrypoint()]);
    let (job, batch) = up_to_created(job, first_request());
    assert_eq!(
        batch,
        vec![
            state(status),
            Action::SetContainerId { container_id: s("new-id") },
            Action::ReadClock,
        ]
    );
    let (job, batch) = job.step(now());
    assert_eq!(
        batch,
        vec![
            Action::SaveTracker { tracker: first_record(status, Some("echo hi")) },
            Action::Unlock,
            Action::Finish { result: Ok(s("new-id")) },
        ]
    );
    assert!(job.is_finished());
}

#[test]
fn containers_are_installed() {
    check_first_install(looked(Some(false), Some(0)), "stopped");
    check_first_install(looked(None, Some(0)), "stopped");
}

#[test]
fn failed_install_scripts_are_remembered() {
    check_first_install(looked(Some(false), Some(1)), "install_failed");
    check_first_install(looked(Some(false), None), "install_failed");
    check_first_install(Reply::Inspected(Err(s("gone"))), "install_failed");
}

#[test]
fn containers_without_a_script_are_created_at_once() {
    let (job, batch) = creating(None).step(done());
    assert_eq!(batch, vec![Action::CreateDirectory { path: s("/srv/volumes/u-1_data") }]);
    let (job, batch) = job.step(done());
    assert_eq!(batch, vec![entrypoint()]);
    let (job, batch) = up_to_created(job, first_request());
    assert_eq!(batch[0], state("stopped"));
    let (_, batch) = job.step(now());
    assert_eq!(batch[0], Action::SaveTracker { tracker: first_record("stopped", None) });
}

#[test]
fn containers_without_limits_or_command_get_defaults() {
    let mut plain = new_container(None);
    plain.limits = None;
    plain.startup_command = None;
    let (job, _) = manager().create_with_install("u-1", plain);
    let (job, _) = job.step(done());
    let (job, _) = job.step(done());
    let (job, _) = job.step(done());
    let (job, batch) = job.step(done());
    assert_eq!(
        batch,
        vec![Action::WriteFile {
            path: s("/srv/volumes/u-1_data/entrypoint.sh"),
            content: s("sleep infinity"),
        }]
    );
    let mut expected = first_request();
    expected.limits = None;
    let (job, _) = up_to_created(job, expected);
    let (_, batch) = job.step(now());
    let mut record = first_record("stopped", None);
    record.limits = ResourceLimits { settings: vec![] };
    record.startup_command = None;
    assert_eq!(batch[0], Action::SaveTracker { tracker: record });
}

#[test]
fn containers_are_installed_again() {
    let job = up_to_waiting(reinstalling(), "echo new", "reinstall");
    let (job, batch) = job.step(looked(Some(true), None));
    assert_eq!(
        batch,
        vec![
            Action::Pause { millis: 2000 },
            Action::InspectTemp { container_id: s("temp-id") },
        ]
    );
    let (job, batch) = job.step(Reply::Inspected(Ok(None)));
    assert_eq!(batch.len(), 2);
    let (job, batch) = job.step(looked(Some(false), Some(0)));
    assert_eq!(batch, vec![removal(), entrypoint()]);
    let (job, batch) = up_to_created(job, again_request());
    let mut updated = tracker();
    updated.container_id = s("new-id");
    updated.allocated_ports = vec![port("25565", "30005")];
    updated.status = s("stopped");
    assert_eq!(
        batch,
        vec![
            state("stopped"),
            Action::SetContainerId { container_id: s("new-id") },
            Action::SaveTracker { tracker: updated },
            Action::Unlock,
            Action::Finish { result: Ok(s("new-id")) },
        ]
    );
    assert!(job.is_finished());
}

#[test]
fn install_scripts_have_ten_minutes() {
    let mut job = up_to_waiting(reinstalling(), "echo new", "reinstall");
    let mut looks = 1;
    loop {
        let (next, batch) = job.step(looked(Some(true), None));
        job = next;
        if batch.len() == 3 {
            assert_eq!(batch, vec![Action::Pause { millis: 2000 }, removal(), entrypoint()]);
            break;
        }
        looks += 1;
    }
    assert_eq!(looks, 300);
    let (_, batch) = up_to_created(job, again_request());
    assert_eq!(batch[0], state("install_failed"));
    assert_eq!(batch[4], Action::Finish { result: Ok(s("new-id")) });
}

#[test]
fn installation_errors() {
    let (job, _) = manager().create_with_install("u-1", new_container(None));
    let (_, batch) = job.step(failed("busy"));
    assert_eq!(batch, vec![finish_err("Failed to lock: busy")]);
    let (job, _) = manager().reinstall("u-1", "x");
    let (job, _) = job.step(done());
    let (_, batch) = job.step(failed("disk"));
    assert_eq!(batch, vec![Action::Unlock, finish_err("Failed to update state: disk")]);

    let (_, batch) = creating(None).step(failed("e"));
    assert_eq!(batch, vec![Action::Unlock, finish_err("Failed to create volume dir: e")]);
    let (job, _) = creating(None).step(done());
    let (_, batch) = job.step(failed("e"));
    assert_eq!(batch, vec![Action::Unlock, finish_err("Failed to create data dir: e")]);
    let (job, _) = creating(None).step(done());
    let (job, _) = job.step(done());
    let (_, batch) = job.step(failed("e"));
    assert_eq!(batch, vec![Action::Unlock, finish_err("Failed to write entrypoint: e")]);

    let script = || {
        let (job, _) = creating(Some("echo hi")).step(done());
        let (job, _) = job.step(done());
        job
    };
    let (_, batch) = script().step(failed("e"));
    assert_eq!(batch, vec![Action::Unlock, finish_err("Failed to write install script: e")]);
    let resolving = || {
        let (job, _) = script().step(done());
        let (job, _) = job.step(now());
        job
    };
    let (_, batch) = resolving().step(Reply::Text(Err(s("e"))));
    assert_eq!(batch, vec![Action::Unlock, finish_err("Failed to get abs path: e")]);
    let (job, _) = resolving().step(Reply::Text(Ok(s("/v"))));
    let (_, batch) = job.step(Reply::Text(Err(s("e"))));
    assert_eq!(batch, vec![Action::Unlock, finish_err("Failed to get abs data path: e")]);
    let pulling = || {
        let (job, _) = resolving().step(Reply::Text(Ok(s("/v"))));
        let (job, _) = job.step(Reply::Text(Ok(s("/d"))));
        job
    };
    let (_, batch) = pulling().step(failed("e"));
    assert_eq!(batch, vec![Action::Unlock, finish_err("Failed to pull image: e")]);
    let (job, _) = pulling().step(done());
    let (_, batch) = job.step(Reply::Text(Err(s("e"))));
    assert_eq!(batch, vec![Action::Unlock, finish_err("Failed to create temp container: e")]);
    let (job, _) = pulling().step(done());
    let (job, _) = job.step(Reply::Text(Ok(s("t"))));
    let (_, batch) = job.step(failed("e"));
    assert_eq!(batch, vec![Action::Unlock, finish_err("Failed to start temp container: e")]);
}

#[test]
fn installations_without_a_record_or_a_container_end() {
    let (job, _) = manager().reinstall("u-1", "x");
    let (job, _) = job.step(done());
    let (job, _) = job.step(done());
    let (_, batch) = job.step(Reply::Tracker(Ok(None)));
    assert_eq!(
        batch,
        vec![Action::Unlock, finish_err("Container tracker data not found")]
    );
    let (job, _) = manager().reinstall("u-1", "x");
    let (job, _) = job.step(done());
    let (job, _) = job.step(done());
    let (_, batch) = job.step(Reply::Tracker(Err(s("e"))));
    assert_eq!(
        batch,
        vec![Action::Unlock, finish_err("Failed to load container data: e")]
    );
    let (job, _) = creating(None).step(done());
    let (job, _) = job.step(done());
    let (job, _) = job.step(done());
    let (_, batch) = job.step(Reply::Created(Err(s("e"))));
    assert_eq!(
        batch,
        vec![state("failed"), Action::Unlock, finish_err("Failed to create container: e")]
    );
}
