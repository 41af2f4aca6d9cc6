//! What the jobs that are begun for a container are about.

use vstd::prelude::*;
use vstd::utf8::encode_utf8;
use crate::actions::{Action, ActionValue};
use crate::container_lifecycle::{ContainerLifecycleManager, PortUpdate, PortUpdatePhaseValue};
use crate::file_plan::OperationValue;
use crate::filesystem_direct::{FileJob, FilesystemManagerDirect, job_begun};
use crate::installation::{InstallPhaseValue, InstallTaskValue, Installation, NewContainer};
use crate::models::{Pairs, ResourceLimits};
use crate::network::{add_port_binding, remove_port_binding, update_port_binding};
use crate::port_binding::{
    AddPortRequest, PortAction, PortActionValue, PortChangeJob, PortChangePhaseValue,
    PortChangeValue, RemovePortRequest, UpdatePortRequest,
};
use crate::recreation::{
    ContainerUpdateRequest, ContainerUpdateValue, Recreation, RecreationPhaseValue,
};

verus! {

/// Whether a recreation with the given changes begins with the lock, for the container of the
/// given uuid among the volumes of a manager.
pub open spec fn begins_recreation(
    job: (Recreation, Vec<Action>),
    manager: ContainerLifecycleManager,
    uuid: Seq<char>,
    update: Option<ContainerUpdateValue>,
) -> bool {
    &&& job.0.deep_view().place.uuid == uuid
    &&& job.0.deep_view().place.volumes_path == manager.volumes_path@
    &&& job.0.deep_view().phase == (RecreationPhaseValue::Locking { update })
    &&& job.1.deep_view() == seq![ActionValue::Lock { reason: "Recreating container"@ }]
}

/// A recreation is about the container and the changes that it was asked for with.
pub proof fn law_recreation_is_begun(
    manager: ContainerLifecycleManager,
    uuid: &str,
    update: Option<ContainerUpdateRequest>,
    job: (Recreation, Vec<Action>),
)
    requires
        call_ensures(ContainerLifecycleManager::recreate_container, (&manager, uuid, update), job),
    ensures
        begins_recreation(job, manager, uuid@, update.deep_view()),
{
}

/// Another environment is the one change that a container is recreated with.
pub proof fn law_env_is_changed(
    manager: ContainerLifecycleManager,
    uuid: &str,
    env: Pairs,
    job: (Recreation, Vec<Action>),
)
    requires
        call_ensures(ContainerLifecycleManager::update_env, (&manager, uuid, env), job),
    ensures
        begins_recreation(
            job,
            manager,
            uuid@,
            Some(
                ContainerUpdateValue {
                    env: Some(env.deep_view()),
                    limits: None,
                    ports: None,
                    image: None,
                    startup_command: None,
                },
            ),
        ),
{
}

/// Other limits are the one change that a container is recreated with.
pub proof fn law_limits_are_changed(
    manager: ContainerLifecycleManager,
    uuid: &str,
    limits: ResourceLimits,
    job: (Recreation, Vec<Action>),
)
    requires
        call_ensures(ContainerLifecycleManager::update_limits, (&manager, uuid, limits), job),
    ensures
        begins_recreation(
            job,
            manager,
            uuid@,
            Some(
                ContainerUpdateValue {
                    env: None,
                    limits: Some(limits.deep_view()),
                    ports: None,
                    image: None,
                    startup_command: None,
                },
            ),
        ),
{
}

/// Another image is the one change that a container is recreated with.
pub proof fn law_image_is_changed(
    manager: ContainerLifecycleManager,
    uuid: &str,
    image: String,
    job: (Recreation, Vec<Action>),
)
    requires
        call_ensures(ContainerLifecycleManager::change_image, (&manager, uuid, image), job),
    ensures
        begins_recreation(
            job,
            manager,
            uuid@,
            Some(
                ContainerUpdateValue {
                    env: None,
                    limits: None,
                    ports: None,
                    image: Some(image@),
                    startup_command: None,
                },
            ),
        ),
{
}

/// A change of ports is about the container and the ports that were asked for, and begins with the
/// record.
pub proof fn law_ports_are_changed(
    manager: ContainerLifecycleManager,
    uuid: &str,
    ports: Pairs,
    job: (PortUpdate, Vec<Action>),
)
    requires
        call_ensures(ContainerLifecycleManager::update_ports, (&manager, uuid, ports), job),
    ensures
        job.0.place.deep_view().uuid == uuid@,
        job.0.place.deep_view().volumes_path == manager.volumes_path@,
        job.0.phase.deep_view() == (PortUpdatePhaseValue::Loading { requested: ports.deep_view() }),
        job.1.deep_view() == seq![ActionValue::LoadTracker],
{
}

/// A first install is about the container that was asked for, and begins with the lock.
pub proof fn law_first_install_is_begun(
    manager: ContainerLifecycleManager,
    uuid: &str,
    container: NewContainer,
    job: (Installation, Vec<Action>),
)
    requires
        call_ensures(
            ContainerLifecycleManager::create_with_install,
            (&manager, uuid, container),
            job,
        ),
    ensures
        job.0.place.deep_view().uuid == uuid@,
        job.0.place.deep_view().volumes_path == manager.volumes_path@,
        job.0.phase.deep_view() == (InstallPhaseValue::Locking {
            task: InstallTaskValue::Create { container: container.deep_view() },
        }),
        job.1.deep_view() == seq![ActionValue::Lock { reason: "Installing"@ }],
{
}

/// Another install is about the container that was asked for and the script that was given, and
/// begins with the lock.
pub proof fn law_reinstall_is_begun(
    manager: ContainerLifecycleManager,
    uuid: &str,
    script: &str,
    job: (Installation, Vec<Action>),
)
    requires
        call_ensures(ContainerLifecycleManager::reinstall, (&manager, uuid, script), job),
    ensures
        job.0.place.deep_view().uuid == uuid@,
        job.0.place.deep_view().volumes_path == manager.volumes_path@,
        job.0.phase.deep_view() == (InstallPhaseValue::Locking {
            task: InstallTaskValue::Reinstall { script: script@ },
        }),
        job.1.deep_view() == seq![ActionValue::Lock { reason: "Reinstalling"@ }],
{
}

/// Whether a change of port bindings begins with the record.
pub open spec fn begins_port_change(
    job: (PortChangeJob, Vec<PortAction>),
    change: PortChangeValue,
) -> bool {
    &&& job.0.phase.deep_view() == (PortChangePhaseValue::Loading { change })
    &&& job.1.deep_view() == seq![PortActionValue::LoadTracker]
}

/// A change of port bindings is the one that was asked for, with all that was said of it.
pub proof fn law_port_changes_are_begun(
    added: AddPortRequest,
    add: (PortChangeJob, Vec<PortAction>),
    removed: RemovePortRequest,
    remove: (PortChangeJob, Vec<PortAction>),
    updated: UpdatePortRequest,
    update: (PortChangeJob, Vec<PortAction>),
)
    requires
        call_ensures(add_port_binding, (added,), add),
        call_ensures(remove_port_binding, (removed,), remove),
        call_ensures(update_port_binding, (updated,), update),
    ensures
        begins_port_change(
            add,
            PortChangeValue::Add {
                container_port: added.container_port@,
                host_port: added.host_port.deep_view(),
                host_ip: added.host_ip.deep_view(),
                protocol: added.protocol.deep_view(),
            },
        ),
        begins_port_change(
            remove,
            PortChangeValue::Remove { container_port: removed.container_port@ },
        ),
        begins_port_change(
            update,
            PortChangeValue::Update {
                container_port: updated.container_port@,
                new_host_port: updated.new_host_port@,
                host_ip: updated.host_ip.deep_view(),
            },
        ),
{
}

/// Whether a job is about an operation on the files of a container among the volumes of a manager.
pub open spec fn begins_operation(
    job: FileJob,
    manager: FilesystemManagerDirect,
    container_id: Seq<char>,
    operation: OperationValue,
) -> bool {
    &&& job@ == job_begun(manager.volumes_base_path@, container_id, operation)
    &&& job@.base == manager.volumes_base_path@
    &&& job@.container_id == container_id
    &&& job@.operation == operation
}

/// An operation on one path is about that path: listing, reading, creating and deleting.
pub proof fn law_operations_on_one_path(
    manager: FilesystemManagerDirect,
    container_id: &str,
    path: &str,
    list: FileJob,
    read: FileJob,
    create: FileJob,
    delete: FileJob,
)
    requires
        call_ensures(FilesystemManagerDirect::list_directory, (&manager, container_id, path), list),
        call_ensures(
            FilesystemManagerDirect::get_file_content,
            (&manager, container_id, path),
            read,
        ),
        call_ensures(
            FilesystemManagerDirect::create_directory,
            (&manager, container_id, path),
            create,
        ),
        call_ensures(FilesystemManagerDirect::delete, (&manager, container_id, path), delete),
    ensures
        begins_operation(list, manager, container_id@, OperationValue::List { path: path@ }),
        begins_operation(read, manager, container_id@, OperationValue::Read { path: path@ }),
        begins_operation(
            create,
            manager,
            container_id@,
            OperationValue::CreateDirectory { path: path@ },
        ),
        begins_operation(delete, manager, container_id@, OperationValue::Delete { path: path@ }),
{
}

/// What is written is what was given: a text in UTF-8, and bytes as they are.
pub proof fn law_content_is_written(
    manager: FilesystemManagerDirect,
    container_id: &str,
    path: &str,
    text: &str,
    bytes: Vec<u8>,
    first: FileJob,
    second: FileJob,
)
    requires
        call_ensures(
            FilesystemManagerDirect::write_file,
            (&manager, container_id, path, text),
            first,
        ),
        call_ensures(
            FilesystemManagerDirect::write_file_bytes,
            (&manager, container_id, path, &bytes),
            second,
        ),
    ensures
        begins_operation(
            first,
            manager,
            container_id@,
            OperationValue::Write { path: path@, content: encode_utf8(text@) },
        ),
        begins_operation(
            second,
            manager,
            container_id@,
            OperationValue::Write { path: path@, content: bytes@ },
        ),
{
}

/// An operation from one path to another is about both, in this order: copying, moving and
/// unpacking.
pub proof fn law_operations_on_two_paths(
    manager: FilesystemManagerDirect,
    container_id: &str,
    from: &str,
    to: &str,
    copy: FileJob,
    rename: FileJob,
    extract: FileJob,
    unzip: FileJob,
)
    requires
        call_ensures(FilesystemManagerDirect::copy_file, (&manager, container_id, from, to), copy),
        call_ensures(FilesystemManagerDirect::rename, (&manager, container_id, from, to), rename),
        call_ensures(
            FilesystemManagerDirect::extract_archive,
            (&manager, container_id, from, to),
            extract,
        ),
        call_ensures(
            FilesystemManagerDirect::extract_zip,
            (&manager, container_id, from, to),
            unzip,
        ),
    ensures
        begins_operation(
            copy,
            manager,
            container_id@,
            OperationValue::Copy { source: from@, dest: to@ },
        ),
        begins_operation(
            rename,
            manager,
            container_id@,
            OperationValue::Rename { old_path: from@, new_path: to@ },
        ),
        begins_operation(
            extract,
            manager,
            container_id@,
            OperationValue::ExtractArchive { archive: from@, dest: to@ },
        ),
        begins_operation(
            unzip,
            manager,
            container_id@,
            OperationValue::ExtractZip { zip: from@, dest: to@ },
        ),
{
}

/// Packing is about all sources, in order, and the archive that was asked for.
pub proof fn law_packing_is_begun(
    manager: FilesystemManagerDirect,
    container_id: &str,
    sources: Vec<String>,
    archive: &str,
    compression: Option<String>,
    pack: FileJob,
    zip: FileJob,
)
    requires
        call_ensures(
            FilesystemManagerDirect::create_archive,
            (&manager, container_id, &sources, archive, compression),
            pack,
        ),
        call_ensures(
            FilesystemManagerDirect::create_zip,
            (&manager, container_id, &sources, archive),
            zip,
        ),
    ensures
        begins_operation(
            pack,
            manager,
            container_id@,
            OperationValue::CreateArchive {
                sources: sources.deep_view(),
                archive: archive@,
                compression: compression.deep_view(),
            },
        ),
        begins_operation(
            zip,
            manager,
            container_id@,
            OperationValue::CreateZip { sources: sources.deep_view(), zip: archive@ },
        ),
{
}

/// Permissions and owners are changed to what was given.
pub proof fn law_changes_of_files_are_begun(
    manager: FilesystemManagerDirect,
    container_id: &str,
    path: &str,
    permissions: &str,
    owner: &str,
    group: Option<String>,
    chmod: FileJob,
    chown: FileJob,
)
    requires
        call_ensures(
            FilesystemManagerDirect::chmod,
            (&manager, container_id, path, permissions),
            chmod,
        ),
        call_ensures(
            FilesystemManagerDirect::chown,
            (&manager, container_id, path, owner, group),
            chown,
        ),
    ensures
        begins_operation(
            chmod,
            manager,
            container_id@,
            OperationValue::ChangeMode { path: path@, permissions: permissions@ },
        ),
        begins_operation(
            chown,
            manager,
            container_id@,
            OperationValue::ChangeOwner {
                path: path@,
                owner: owner@,
                group: group.deep_view(),
            },
        ),
{
}

} // verus!
