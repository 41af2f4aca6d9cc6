//! Operations on the files of a container, done directly in its volume on the host.
//!
//! An operation is a job that asks about the host until it either is refused or knows the
//! steps to be taken.

use vstd::prelude::*;
use vstd::utf8::encode_utf8;
use crate::bytes::{bytes_of, copy_bytes, path_views};
use crate::file_plan::{
    FsStep, FsStepValue, Operation, OperationValue, PathStatus, check_count, first_checked,
    is_or_holds_one_of, law_plan_writes_looked_up_paths_only, operation_paths, plan, refusal,
    refused_outright, report, writes_to,
};
use crate::host_path::{components, goes_up_behind, leads_into, parents_in, without_parents};
use crate::models::copy_texts;
use crate::volume_path::{
    LookupOutcome, LookupOutcomeValue, VolumeLookup, VolumeLookupValue, deepest_existing,
    law_destination_is_in_volume, law_lookup_decides_by_place, law_lookup_finds_deepest_existing,
    led_to, lookup_begun, lookup_probed, lookup_resolved, path_bytes, volume_path, volume_root,
};

verus! {

/// How far an operation has come.
#[derive(Debug, PartialEq, Eq)]
enum FileStage {
    /// It looks up the host path of the next path that it is about.
    Looking { lookup: VolumeLookup },
    /// It wants to know what the next checked path leads to.
    Checking,
    /// It knows what is to be done.
    Ready,
    /// It is refused.
    Refused { error: String },
}

/// How far an operation has come, by its values.
pub enum FileStageValue {
    Looking { lookup: VolumeLookupValue },
    Checking,
    Ready,
    Refused { error: Seq<char> },
}

/// An operation on the files of a container under way.
#[derive(Debug, PartialEq, Eq)]
pub struct FileJob {
    base: String,
    container_id: String,
    operation: Operation,
    hosts: Vec<Vec<u8>>,
    statuses: Vec<PathStatus>,
    stage: FileStage,
}

/// The values of an operation under way.
pub struct FileJobValue {
    pub base: Seq<char>,
    pub container_id: Seq<char>,
    pub operation: OperationValue,
    /// The host paths that were looked up so far.
    pub hosts: Seq<Seq<u8>>,
    /// What the checked paths were found to lead to so far.
    pub statuses: Seq<PathStatus>,
    pub stage: FileStageValue,
}

/// What an operation wants to know, or what is to be done.
#[derive(Debug, PartialEq, Eq)]
pub enum FileQuery {
    /// Whether there is anything at a path, be it a link that leads nowhere.
    Exists { path: Vec<u8> },
    /// What a path and the directory of the volume resolve to.
    Resolve { path: Vec<u8>, root: Vec<u8> },
    /// What a path leads to.
    Status { path: Vec<u8> },
    /// The steps to be taken, and what to report then.
    Perform { steps: Vec<FsStep>, report: Option<String> },
    /// Why the operation is refused.
    Refuse { error: String },
}

/// What an operation wants to know, or what is to be done, by its values.
pub enum FileQueryValue {
    Exists { path: Seq<u8> },
    Resolve { path: Seq<u8>, root: Seq<u8> },
    Status { path: Seq<u8> },
    Perform { steps: Seq<FsStepValue>, report: Option<Seq<char>> },
    Refuse { error: Seq<char> },
}

impl View for FileQuery {
    type V = FileQueryValue;

    open spec fn view(&self) -> FileQueryValue {
        match self {
            FileQuery::Exists { path } => FileQueryValue::Exists { path: path@ },
            FileQuery::Resolve { path, root } => FileQueryValue::Resolve {
                path: path@,
                root: root@,
            },
            FileQuery::Status { path } => FileQueryValue::Status { path: path@ },
            FileQuery::Perform { steps, report } => FileQueryValue::Perform {
                steps: steps.deep_view(),
                report: report.deep_view(),
            },
            FileQuery::Refuse { error } => FileQueryValue::Refuse { error: error@ },
        }
    }
}

impl FileJob {
    /// The values of the stage.
    spec fn stage_value(self) -> FileStageValue {
        match self.stage {
            FileStage::Looking { lookup } => FileStageValue::Looking { lookup: lookup@ },
            FileStage::Checking => FileStageValue::Checking,
            FileStage::Ready => FileStageValue::Ready,
            FileStage::Refused { error } => FileStageValue::Refused { error: error@ },
        }
    }

    /// A job is always sound.
    #[verifier::type_invariant]
    spec fn is_sound(self) -> bool {
        job_sound(self.value())
    }

    /// The values of the job.
    spec fn value(self) -> FileJobValue {
        FileJobValue {
            base: self.base@,
            container_id: self.container_id@,
            operation: self.operation@,
            hosts: path_views(self.hosts@),
            statuses: self.statuses@,
            stage: self.stage_value(),
        }
    }
}

impl View for FileJob {
    type V = FileJobValue;

    closed spec fn view(&self) -> FileJobValue {
        self.value()
    }
}

/// The host path that the path of a job in the given place stands for.
pub open spec fn host_of(job: FileJobValue, i: int) -> Seq<u8> {
    volume_path(job.base, job.container_id, operation_paths(job.operation)[i])
}

/// Whether a job is in order: the paths that it has are those that it was to look up, in
/// order; nothing that it looked at is a reason to refuse it; and it is only ready once it has
/// looked up and looked at everything.
pub open spec fn job_sound(job: FileJobValue) -> bool {
    &&& job.hosts.len() <= operation_paths(job.operation).len()
    &&& forall|i: int| 0 <= i < job.hosts.len() ==> #[trigger] job.hosts[i] == host_of(job, i)
    &&& forall|i: int|
        0 <= i < job.statuses.len() ==> refusal(job.operation, i, #[trigger] job.statuses[i])
            is None
    &&& match job.stage {
        FileStageValue::Looking { lookup } => {
            &&& job.hosts.len() < operation_paths(job.operation).len()
            &&& job.statuses.len() == 0
            &&& match lookup {
                VolumeLookupValue::Probing { root, full, .. } => root == volume_root(
                    job.base,
                    job.container_id,
                ) && full == host_of(job, job.hosts.len() as int),
                VolumeLookupValue::Resolving { root, full, .. } => root == volume_root(
                    job.base,
                    job.container_id,
                ) && full == host_of(job, job.hosts.len() as int),
            }
        },
        FileStageValue::Checking => job.hosts.len() == operation_paths(job.operation).len()
            && job.statuses.len() < check_count(job.operation),
        FileStageValue::Ready => job.hosts.len() == operation_paths(job.operation).len()
            && job.statuses.len() == check_count(job.operation),
        FileStageValue::Refused { .. } => true,
    }
}

/// A job at its start.
pub open spec fn job_begun(
    base: Seq<char>,
    container_id: Seq<char>,
    operation: OperationValue,
) -> FileJobValue {
    FileJobValue {
        base,
        container_id,
        operation,
        hosts: Seq::empty(),
        statuses: Seq::empty(),
        stage: match refused_outright(operation) {
            Some(error) => FileStageValue::Refused { error },
            None => FileStageValue::Looking {
                lookup: lookup_begun(base, container_id, operation_paths(operation)[0]),
            },
        },
    }
}

/// What comes after the looking up and the looking at of so many paths.
pub open spec fn checking_or_ready(operation: OperationValue, checked: nat) -> FileStageValue {
    if checked < check_count(operation) {
        FileStageValue::Checking
    } else {
        FileStageValue::Ready
    }
}

/// A job after one of its paths was found.
pub open spec fn path_found(job: FileJobValue, path: Seq<u8>) -> FileJobValue {
    let hosts = job.hosts.push(path);
    FileJobValue {
        hosts,
        stage: if hosts.len() < operation_paths(job.operation).len() {
            FileStageValue::Looking {
                lookup: lookup_begun(
                    job.base,
                    job.container_id,
                    operation_paths(job.operation)[hosts.len() as int],
                ),
            }
        } else {
            checking_or_ready(job.operation, 0)
        },
        ..job
    }
}

/// A job after it was told whether there is anything at a path. It takes no notice unless it asked.
pub open spec fn told_exists(job: FileJobValue, present: bool) -> FileJobValue {
    match job.stage {
        FileStageValue::Looking { lookup } => FileJobValue {
            stage: FileStageValue::Looking { lookup: lookup_probed(lookup, present) },
            ..job
        },
        _ => job,
    }
}

/// A job after it was told what a path and the directory of the volume resolve to. It takes no
/// notice unless it asked.
pub open spec fn told_resolved(
    job: FileJobValue,
    canonical: Option<Seq<u8>>,
    canonical_root: Option<Seq<u8>>,
) -> FileJobValue {
    match job.stage {
        FileStageValue::Looking { lookup } => match lookup_resolved(
            lookup,
            canonical,
            canonical_root,
        ) {
            LookupOutcomeValue::Accepted { path } => path_found(job, path),
            LookupOutcomeValue::Refused { error } => FileJobValue {
                stage: FileStageValue::Refused { error },
                ..job
            },
            LookupOutcomeValue::Pending { lookup: next } => FileJobValue {
                stage: FileStageValue::Looking { lookup: next },
                ..job
            },
        },
        _ => job,
    }
}

/// A job after it was told what a path leads to. It takes no notice unless it asked.
pub open spec fn told_status(job: FileJobValue, status: PathStatus) -> FileJobValue {
    match job.stage {
        FileStageValue::Checking => match refusal(
            job.operation,
            job.statuses.len() as int,
            status,
        ) {
            Some(error) => FileJobValue { stage: FileStageValue::Refused { error }, ..job },
            None => FileJobValue {
                statuses: job.statuses.push(status),
                stage: checking_or_ready(job.operation, job.statuses.len() + 1),
                ..job
            },
        },
        _ => job,
    }
}

/// What a job wants to know, or what is to be done.
pub open spec fn job_query(job: FileJobValue) -> FileQueryValue {
    match job.stage {
        FileStageValue::Looking { lookup } => match lookup {
            VolumeLookupValue::Probing { current, .. } => FileQueryValue::Exists { path: current },
            VolumeLookupValue::Resolving { root, checked, .. } => FileQueryValue::Resolve {
                path: checked,
                root,
            },
        },
        FileStageValue::Checking => FileQueryValue::Status {
            path: job.hosts[(first_checked(job.operation) + job.statuses.len()) as int],
        },
        FileStageValue::Ready => FileQueryValue::Perform {
            steps: plan(job.operation, job.hosts, job.statuses),
            report: report(job.operation),
        },
        FileStageValue::Refused { error } => FileQueryValue::Refuse { error },
    }
}

/// What a job that is ready does stays with its paths: every path that one of its steps names as
/// a place where something is created, changed, removed or moved away is the host path of one of
/// the paths that it was asked for, or the directory that such a path is in. A step that unpacks
/// an archive names the directory for it; where in there the entries go, and whether they stay
/// in there, is up to their names.
pub proof fn law_ready_jobs_write_in_place(job: FileJobValue, i: int, path: Seq<u8>)
    requires
        job_sound(job),
        job.stage is Ready,
        0 <= i < plan(job.operation, job.hosts, job.statuses).len(),
        writes_to(plan(job.operation, job.hosts, job.statuses)[i], path),
    ensures
        is_or_holds_one_of(path, all_hosts(job.base, job.container_id, job.operation)),
{
    assert(job.hosts =~= all_hosts(job.base, job.container_id, job.operation));
    law_plan_writes_looked_up_paths_only(job.operation, job.hosts, job.statuses, i, path);
}

/// Nothing brings a refused job back, and nothing takes a job that is ready further: what it
/// is told then it takes no notice of.
pub proof fn law_decided_jobs_stay_decided(
    job: FileJobValue,
    present: bool,
    canonical: Option<Seq<u8>>,
    canonical_root: Option<Seq<u8>>,
    status: PathStatus,
)
    requires
        job.stage is Refused || job.stage is Ready,
    ensures
        told_exists(job, present) == job,
        told_resolved(job, canonical, canonical_root) == job,
        told_status(job, status) == job,
{
}

/// One path is enough whose existing part does not resolve, or leads out of the volume with
/// nothing behind it that leads back up: a job is refused with it, whatever else it is about.
pub proof fn law_escaping_path_refuses_job(
    job: FileJobValue,
    root: Seq<u8>,
    full: Seq<u8>,
    target: Seq<u8>,
    checked: Seq<u8>,
    canonical: Option<Seq<u8>>,
    canonical_root: Seq<u8>,
)
    requires
        job.stage == (FileStageValue::Looking {
            lookup: VolumeLookupValue::Resolving { root, full, target, checked },
        }),
        canonical matches Some(place) ==> !goes_up_behind(target, components(checked).len())
            && !leads_into(place, canonical_root),
    ensures
        told_resolved(job, canonical, Some(canonical_root)).stage == (FileStageValue::Refused {
            error: "Path traversal attempt detected"@,
        }),
{
}

/// What is the case on the host.
pub struct HostView {
    /// At which paths there is anything, be it a link that leads nowhere.
    pub present: spec_fn(Seq<u8>) -> bool,
    /// What paths resolve to, where they do.
    pub resolved: spec_fn(Seq<u8>) -> Option<Seq<u8>>,
    /// What paths lead to.
    pub status: spec_fn(Seq<u8>) -> PathStatus,
}

/// A path as it resolves, and as it is written where it does not.
pub open spec fn resolved_or_written(host: HostView, path: Seq<u8>) -> Seq<u8> {
    match (host.resolved)(path) {
        Some(p) => p,
        None => path,
    }
}

/// Whether a host path may be followed: it leads into the volume, with links followed and every
/// `..` taken out.
pub open spec fn may_follow(host: HostView, root: Seq<u8>, path: Seq<u8>) -> bool {
    led_to(path, host.present, host.resolved) matches Some(d) && leads_into(
        d.canonical,
        resolved_or_written(host, root),
    )
}

/// The host paths that an operation is about.
pub open spec fn all_hosts(
    base: Seq<char>,
    container_id: Seq<char>,
    operation: OperationValue,
) -> Seq<Seq<u8>> {
    Seq::new(
        operation_paths(operation).len(),
        |i: int| volume_path(base, container_id, operation_paths(operation)[i]),
    )
}

/// What the checked paths of an operation lead to.
pub open spec fn all_statuses(
    host: HostView,
    operation: OperationValue,
    hosts: Seq<Seq<u8>>,
) -> Seq<PathStatus> {
    Seq::new(
        check_count(operation),
        |i: int| (host.status)(hosts[first_checked(operation) + i]),
    )
}

/// The first reason among the checked paths from number `i` on to refuse an operation.
pub open spec fn first_refusal(
    operation: OperationValue,
    statuses: Seq<PathStatus>,
    i: int,
) -> Option<Seq<char>>
    decreases statuses.len() - i,
{
    if i >= statuses.len() {
        None
    } else {
        match refusal(operation, i, statuses[i]) {
            Some(error) => Some(error),
            None => first_refusal(operation, statuses, i + 1),
        }
    }
}

/// What becomes of an operation on a host: it is refused outright, or because one of its paths
/// leads out of the volume, or because of what its paths lead to; otherwise its steps are
/// taken.
pub open spec fn verdict(
    host: HostView,
    base: Seq<char>,
    container_id: Seq<char>,
    operation: OperationValue,
) -> FileQueryValue {
    let hosts = all_hosts(base, container_id, operation);
    let statuses = all_statuses(host, operation, hosts);
    let root = volume_root(base, container_id);
    if refused_outright(operation) is Some {
        FileQueryValue::Refuse { error: refused_outright(operation)->0 }
    } else if exists|i: int| 0 <= i < hosts.len() && !may_follow(host, root, #[trigger] hosts[i]) {
        FileQueryValue::Refuse { error: "Path traversal attempt detected"@ }
    } else if first_refusal(operation, statuses, 0) is Some {
        FileQueryValue::Refuse { error: first_refusal(operation, statuses, 0)->0 }
    } else {
        FileQueryValue::Perform {
            steps: plan(operation, hosts, statuses),
            report: report(operation),
        }
    }
}

/// Whether what a job was told so far is the case on a host.
pub open spec fn told_truth(job: FileJobValue, host: HostView) -> bool {
    let hosts = all_hosts(job.base, job.container_id, job.operation);
    let statuses = all_statuses(host, job.operation, hosts);
    let root = volume_root(job.base, job.container_id);
    &&& job_sound(job)
    &&& refused_outright(job.operation) is None ==> forall|i: int|
        0 <= i < job.hosts.len() ==> may_follow(host, root, #[trigger] hosts[i])
    &&& forall|i: int| 0 <= i < job.statuses.len() ==> #[trigger] job.statuses[i] == statuses[i]
    &&& match job.stage {
        FileStageValue::Looking { lookup } => {
            &&& refused_outright(job.operation) is None
            &&& match lookup {
                VolumeLookupValue::Probing { full, target, current, .. } => {
                    &&& deepest_existing(current, host.present) == deepest_existing(
                        target,
                        host.present,
                    )
                    &&& led_to(target, host.present, host.resolved) == led_to(
                        full,
                        host.present,
                        host.resolved,
                    )
                },
                VolumeLookupValue::Resolving { full, target, checked, .. } => {
                    &&& checked == deepest_existing(target, host.present)
                    &&& led_to(target, host.present, host.resolved) == led_to(
                        full,
                        host.present,
                        host.resolved,
                    )
                },
            }
        },
        FileStageValue::Checking => refused_outright(job.operation) is None,
        FileStageValue::Ready => refused_outright(job.operation) is None,
        FileStageValue::Refused { error } => verdict(
            host,
            job.base,
            job.container_id,
            job.operation,
        ) == (FileQueryValue::Refuse { error }),
    }
}

/// A job after its question was answered truthfully; one that is decided stays as it is.
pub open spec fn answered(job: FileJobValue, host: HostView) -> FileJobValue {
    match job_query(job) {
        FileQueryValue::Exists { path } => told_exists(job, (host.present)(path)),
        FileQueryValue::Resolve { path, root } => told_resolved(
            job,
            (host.resolved)(path),
            (host.resolved)(root),
        ),
        FileQueryValue::Status { path } => told_status(job, (host.status)(path)),
        _ => job,
    }
}

/// How much a job still has to find out: how many paths it has to look up, how many to look at,
/// how many `..` it may have to take out, and how far it may have to climb.
pub open spec fn left_to_ask(job: FileJobValue) -> (nat, nat, nat, nat) {
    (
        (operation_paths(job.operation).len() - job.hosts.len()) as nat,
        match job.stage {
            FileStageValue::Looking { .. } => 0,
            FileStageValue::Checking => (check_count(job.operation) - job.statuses.len()) as nat,
            _ => 0,
        },
        match job.stage {
            FileStageValue::Looking { lookup } => match lookup {
                VolumeLookupValue::Probing { target, .. } => parents_in(components(target)),
                VolumeLookupValue::Resolving { target, .. } => parents_in(components(target)),
            },
            _ => 0,
        },
        match job.stage {
            FileStageValue::Looking { lookup } => match lookup {
                VolumeLookupValue::Probing { current, .. } => current.len() + 2,
                VolumeLookupValue::Resolving { .. } => 1,
            },
            _ => 0,
        },
    )
}

/// Refusals at or after a place are found from any earlier place without one.
proof fn lemma_first_refusal(operation: OperationValue, statuses: Seq<PathStatus>, i: int)
    requires
        0 <= i <= statuses.len(),
        forall|k: int| 0 <= k < i ==> refusal(operation, k, #[trigger] statuses[k]) is None,
    ensures
        first_refusal(operation, statuses, 0) == first_refusal(operation, statuses, i),
    decreases i,
{
    if i > 0 {
        lemma_first_refusal(operation, statuses, i - 1);
        assert(refusal(operation, i - 1, statuses[i - 1]) is None);
    }
}

/// A job that begins has been told nothing but the truth.
pub proof fn law_job_begins_truthful(
    host: HostView,
    base: Seq<char>,
    container_id: Seq<char>,
    operation: OperationValue,
)
    ensures
        told_truth(job_begun(base, container_id, operation), host),
{
    let job = job_begun(base, container_id, operation);
    assert(operation_paths(operation).len() > 0);
    assert(job_sound(job));
}

/// Operations do what the host calls for: a job whose questions are answered truthfully goes on
/// to the verdict. Each answer leaves it truthful and with less to ask, and once it asks no more
/// it says what the verdict is.
pub proof fn law_truthful_answers_lead_to_verdict(job: FileJobValue, host: HostView)
    requires
        told_truth(job, host),
    ensures
        told_truth(answered(job, host), host),
        job_query(job) is Perform || job_query(job) is Refuse ==> job_query(job) == verdict(
            host,
            job.base,
            job.container_id,
            job.operation,
        ),
        job_query(job) is Exists || job_query(job) is Resolve || job_query(job) is Status
            ==> decreases_to!(left_to_ask(job).0, left_to_ask(job).1, left_to_ask(job).2,
                left_to_ask(job).3 => left_to_ask(answered(job, host)).0,
                left_to_ask(answered(job, host)).1, left_to_ask(answered(job, host)).2,
                left_to_ask(answered(job, host)).3),
{
    let hosts = all_hosts(job.base, job.container_id, job.operation);
    let statuses = all_statuses(host, job.operation, hosts);
    let root = volume_root(job.base, job.container_id);
    let next = answered(job, host);
    match job.stage {
        FileStageValue::Looking { lookup } => match lookup {
            VolumeLookupValue::Probing { root: r, full, target, current } => {
                law_lookup_finds_deepest_existing(r, full, target, current, host.present);
            },
            VolumeLookupValue::Resolving { root: r, full, target, checked } => {
                let n = job.hosts.len() as int;
                assert(full == hosts[n]);
                law_lookup_decides_by_place(r, full, target, host.present, host.resolved);
                if (host.resolved)(checked) is Some && goes_up_behind(
                    target,
                    components(checked).len(),
                ) {
                    assert(next.stage is Looking);
                } else if may_follow(host, root, hosts[n]) {
                    assert(next == path_found(job, full));
                    assert(next.hosts =~= job.hosts.push(full));
                    assert forall|i: int| 0 <= i < next.hosts.len() implies may_follow(
                        host,
                        root,
                        #[trigger] hosts[i],
                    ) by {}
                    assert(job_sound(next));
                } else {
                    assert(next.stage is Refused);
                }
            },
        },
        FileStageValue::Checking => {
            let i = job.statuses.len() as int;
            assert(job.hosts =~= hosts);
            assert(statuses[i] == (host.status)(hosts[first_checked(job.operation) + i]));
            assert forall|k: int| 0 <= k < i implies refusal(
                job.operation,
                k,
                #[trigger] statuses[k],
            ) is None by {
                assert(job.statuses[k] == statuses[k]);
            }
            lemma_first_refusal(job.operation, statuses, i);
            assert(job_sound(next));
        },
        FileStageValue::Ready => {
            assert(job.hosts =~= hosts);
            assert(job.statuses =~= statuses);
            lemma_first_refusal(job.operation, statuses, statuses.len() as int);
        },
        FileStageValue::Refused { .. } => {},
    }
}

/// Operations stay in the volume: where the steps of an operation are taken, each path that it
/// is about leads, with links followed and every `..` taken out, to a place within what the
/// directory of the volume resolves to, also where it does not exist yet.
pub proof fn law_performed_operations_stay_in_volume(
    host: HostView,
    base: Seq<char>,
    container_id: Seq<char>,
    operation: OperationValue,
    i: int,
)
    requires
        verdict(host, base, container_id, operation) is Perform,
        0 <= i < all_hosts(base, container_id, operation).len(),
    ensures
        ({
            let path = all_hosts(base, container_id, operation)[i];
            let bound = resolved_or_written(host, volume_root(base, container_id));
            led_to(path, host.present, host.resolved) matches Some(d) && components(
                bound,
            ).is_prefix_of(without_parents(d.place()))
        }),
{
    let root = volume_root(base, container_id);
    let path = all_hosts(base, container_id, operation)[i];
    assert(may_follow(host, root, path));
    law_destination_is_in_volume(
        path,
        host.present,
        host.resolved,
        resolved_or_written(host, root),
    );
}

/// A job is about the operation that it was begun for, in the container that it was begun for, as
/// long as it lasts: whatever it is told, that stays.
pub proof fn law_job_keeps_to_its_operation(
    job: FileJobValue,
    present: bool,
    canonical: Option<Seq<u8>>,
    canonical_root: Option<Seq<u8>>,
    status: PathStatus,
)
    ensures
        ({
            let begun = job_begun(job.base, job.container_id, job.operation);
            let a = told_exists(job, present);
            let b = told_resolved(job, canonical, canonical_root);
            let c = told_status(job, status);
            &&& begun.base == job.base && begun.container_id == job.container_id && begun.operation
                == job.operation
            &&& a.base == job.base && a.container_id == job.container_id && a.operation
                == job.operation
            &&& b.base == job.base && b.container_id == job.container_id && b.operation
                == job.operation
            &&& c.base == job.base && c.container_id == job.container_id && c.operation
                == job.operation
        }),
{
}

/// A job after so many of its questions were answered truthfully.
pub open spec fn answered_often(job: FileJobValue, host: HostView, n: nat) -> FileJobValue
    decreases n,
{
    if n == 0 {
        job
    } else {
        answered_often(answered(job, host), host, (n - 1) as nat)
    }
}

/// A truthful job comes to the verdict.
proof fn lemma_job_comes_to_verdict(job: FileJobValue, host: HostView) -> (n: nat)
    requires
        told_truth(job, host),
    ensures
        job_query(answered_often(job, host, n)) == verdict(
            host,
            job.base,
            job.container_id,
            job.operation,
        ),
    decreases
            left_to_ask(job).0,
            left_to_ask(job).1,
            left_to_ask(job).2,
            left_to_ask(job).3,
{
    law_truthful_answers_lead_to_verdict(job, host);
    if job_query(job) is Perform || job_query(job) is Refuse {
        0
    } else {
        let next = answered(job, host);
        let rest = lemma_job_comes_to_verdict(next, host);
        assert(answered_often(job, host, rest + 1) == answered_often(next, host, rest));
        rest + 1
    }
}

/// Every operation is decided, and as the host calls for it: where its questions are answered
/// truthfully, a job comes to the verdict on the operation that it was begun for after so many of
/// them.
pub proof fn law_operation_comes_to_verdict(
    host: HostView,
    base: Seq<char>,
    container_id: Seq<char>,
    operation: OperationValue,
)
    ensures
        exists|n: nat|
            job_query(
                #[trigger] answered_often(job_begun(base, container_id, operation), host, n),
            ) == verdict(host, base, container_id, operation),
{
    let job = job_begun(base, container_id, operation);
    law_job_begins_truthful(host, base, container_id, operation);
    let n = lemma_job_comes_to_verdict(job, host);
    assert(job_query(answered_often(job, host, n)) == verdict(host, base, container_id, operation));
}

/// What is refused, and what is done: an operation without sources to pack is refused first, then
/// one with a path that may not be followed, then one of whose checked paths the first that does
/// not suit it is told; any other is performed as planned, on the host paths of its own paths and
/// by what they lead to, with its own report.
pub proof fn law_verdict(
    host: HostView,
    base: Seq<char>,
    container_id: Seq<char>,
    operation: OperationValue,
    k: int,
)
    ensures
        ({
            let paths = operation_paths(operation);
            let hosts = Seq::new(
                paths.len(),
                |i: int| volume_path(base, container_id, paths[i]),
            );
            let statuses = Seq::new(
                check_count(operation),
                |i: int| (host.status)(hosts[first_checked(operation) + i]),
            );
            let root = volume_root(base, container_id);
            let all_may = forall|i: int|
                0 <= i < hosts.len() ==> may_follow(host, root, #[trigger] hosts[i]);
            let v = verdict(host, base, container_id, operation);
            &&& refused_outright(operation) matches Some(error) ==> v == (FileQueryValue::Refuse {
                error,
            })
            &&& refused_outright(operation) is None && !all_may ==> v == (FileQueryValue::Refuse {
                error: "Path traversal attempt detected"@,
            })
            &&& refused_outright(operation) is None && all_may ==> {
                &&& (forall|i: int|
                    0 <= i < statuses.len() ==> refusal(operation, i, #[trigger] statuses[i])
                        is None) ==> v == (FileQueryValue::Perform {
                    steps: plan(operation, hosts, statuses),
                    report: report(operation),
                })
                &&& 0 <= k < statuses.len() && refusal(operation, k, statuses[k]) is Some && (
                forall|i: int|
                    0 <= i < k ==> refusal(operation, i, #[trigger] statuses[i]) is None) ==> v == (
                FileQueryValue::Refuse { error: refusal(operation, k, statuses[k])->0 })
            }
        }),
{
    let hosts = all_hosts(base, container_id, operation);
    let statuses = all_statuses(host, operation, hosts);
    assert(hosts =~= Seq::new(
        operation_paths(operation).len(),
        |i: int| volume_path(base, container_id, operation_paths(operation)[i]),
    ));
    assert(statuses =~= Seq::new(
        check_count(operation),
        |i: int| (host.status)(hosts[first_checked(operation) + i]),
    ));
    if forall|i: int|
        0 <= i < statuses.len() ==> refusal(operation, i, #[trigger] statuses[i]) is None {
        lemma_first_refusal(operation, statuses, statuses.len() as int);
    }
    if 0 <= k < statuses.len() && (forall|i: int|
        0 <= i < k ==> refusal(operation, i, #[trigger] statuses[i]) is None) {
        lemma_first_refusal(operation, statuses, k);
    }
}

impl FileJob {
    /// Begins an operation on the files of a container whose volume lies under `base`.
    pub fn begin(base: &str, container_id: &str, operation: Operation) -> (r: FileJob)
        ensures
            r@ == job_begun(base@, container_id@, operation@),
            job_sound(r@),
    {
        let stage = match operation.refused_outright() {
            Some(error) => FileStage::Refused { error },
            None => FileStage::Looking {
                lookup: VolumeLookup::begin(base, container_id, operation.path_at(0).as_str()),
            },
        };
        let hosts: Vec<Vec<u8>> = Vec::new();
        let statuses: Vec<PathStatus> = Vec::new();
        assert(path_views(hosts@) =~= Seq::<Seq<u8>>::empty());
        FileJob {
            base: base.to_owned(),
            container_id: container_id.to_owned(),
            operation,
            hosts,
            statuses,
            stage,
        }
    }

    /// What the job wants to know, or what is to be done.
    pub fn query(&self) -> (r: FileQuery)
        ensures
            r@ == job_query(self@),
    {
        proof {
            use_type_invariant(self);
        }
        match &self.stage {
            FileStage::Looking { lookup } => match lookup {
                VolumeLookup::Probing { current, .. } => FileQuery::Exists {
                    path: copy_bytes(current),
                },
                VolumeLookup::Resolving { root, checked, .. } => FileQuery::Resolve {
                    path: copy_bytes(checked),
                    root: copy_bytes(root),
                },
            },
            FileStage::Checking => {
                assert(first_checked(self.operation@) + self.statuses.len() < self.hosts.len());
                let at: usize = self.operation.first_checked() + self.statuses.len();
                FileQuery::Status { path: copy_bytes(&self.hosts[at]) }
            },
            FileStage::Ready => FileQuery::Perform {
                steps: self.operation.plan(&self.hosts, &self.statuses),
                report: self.operation.report(),
            },
            FileStage::Refused { error } => FileQuery::Refuse { error: error.clone() },
        }
    }

    /// Goes on once it is known whether there is anything at the path that it asked about.
    pub fn told_exists(self, present: bool) -> (r: FileJob)
        ensures
            r@ == told_exists(self@, present),
            job_sound(r@),
    {
        proof {
            use_type_invariant(&self);
        }
        let FileJob { base, container_id, operation, hosts, statuses, stage } = self;
        let next = match stage {
            FileStage::Looking { lookup } => FileStage::Looking { lookup: lookup.probed(present) },
            other => other,
        };
        FileJob { base, container_id, operation, hosts, statuses, stage: next }
    }

    /// Goes on once it is known what the path and the directory of the volume resolve to.
    pub fn told_resolved(self, canonical: Option<Vec<u8>>, canonical_root: Option<Vec<u8>>) -> (r:
        FileJob)
        ensures
            r@ == told_resolved(self@, path_bytes(canonical), path_bytes(canonical_root)),
            job_sound(r@),
    {
        proof {
            use_type_invariant(&self);
        }
        let ghost before = self@;
        let FileJob { base, container_id, operation, hosts, statuses, stage } = self;
        match stage {
            FileStage::Looking { lookup } => match lookup.resolved(canonical, canonical_root) {
                LookupOutcome::Accepted { path } => {
                    let ghost found = path_views(hosts@).push(path@);
                    let mut hosts = hosts;
                    hosts.push(path);
                    assert(path_views(hosts@) =~= found);
                    let next = if operation.has_path(hosts.len()) {
                        FileStage::Looking {
                            lookup: VolumeLookup::begin(
                                base.as_str(),
                                container_id.as_str(),
                                operation.path_at(hosts.len()).as_str(),
                            ),
                        }
                    } else if operation.check_count() > 0 {
                        FileStage::Checking
                    } else {
                        FileStage::Ready
                    };
                    FileJob { base, container_id, operation, hosts, statuses, stage: next }
                },
                LookupOutcome::Refused { error } => FileJob {
                    base,
                    container_id,
                    operation,
                    hosts,
                    statuses,
                    stage: FileStage::Refused { error },
                },
                LookupOutcome::Pending { lookup } => FileJob {
                    base,
                    container_id,
                    operation,
                    hosts,
                    statuses,
                    stage: FileStage::Looking { lookup },
                },
            },
            other => FileJob { base, container_id, operation, hosts, statuses, stage: other },
        }
    }

    /// Goes on once it is known what the path leads to that it asked about.
    pub fn told_status(self, status: PathStatus) -> (r: FileJob)
        ensures
            r@ == told_status(self@, status),
            job_sound(r@),
    {
        proof {
            use_type_invariant(&self);
        }
        let FileJob { base, container_id, operation, hosts, statuses, stage } = self;
        match stage {
            FileStage::Checking => match operation.refusal(statuses.len(), status) {
                Some(error) => FileJob {
                    base,
                    container_id,
                    operation,
                    hosts,
                    statuses,
                    stage: FileStage::Refused { error },
                },
                None => {
                    let mut statuses = statuses;
                    statuses.push(status);
                    let next = if statuses.len() < operation.check_count() {
                        FileStage::Checking
                    } else {
                        FileStage::Ready
                    };
                    FileJob { base, container_id, operation, hosts, statuses, stage: next }
                },
            },
            other => FileJob { base, container_id, operation, hosts, statuses, stage: other },
        }
    }
}

/// Works on the files of containers whose volumes lie under one directory.
#[derive(Clone, Debug, PartialEq, Eq)]
pub struct FilesystemManagerDirect {
    pub volumes_base_path: String,
}

impl FilesystemManagerDirect {
    /// A manager for the volumes under `volumes_base_path`.
    pub fn new(volumes_base_path: String) -> (r: FilesystemManagerDirect)
        ensures
            r.volumes_base_path == volumes_base_path,
    {
        FilesystemManagerDirect { volumes_base_path }
    }

    /// Begins the search for the host path of a path in a container.
    pub fn get_volume_path(&self, container_id: &str, container_path: &str) -> (r: VolumeLookup)
        ensures
            r@ == lookup_begun(self.volumes_base_path@, container_id@, container_path@),
    {
        VolumeLookup::begin(self.volumes_base_path.as_str(), container_id, container_path)
    }

    /// Begins to list files and directories. What is read of the directory becomes a listing
    /// by `make_listing`.
    pub fn list_directory(&self, container_id: &str, path: &str) -> (r: FileJob)
        ensures
            r@ == job_begun(
                self.volumes_base_path@,
                container_id@,
                OperationValue::List { path: path@ },
            ),
    {
        FileJob::begin(
            self.volumes_base_path.as_str(),
            container_id,
            Operation::List { path: path.to_owned() },
        )
    }

    /// Begins to read a file.
    pub fn get_file_content(&self, container_id: &str, path: &str) -> (r: FileJob)
        ensures
            r@ == job_begun(
                self.volumes_base_path@,
                container_id@,
                OperationValue::Read { path: path@ },
            ),
    {
        FileJob::begin(
            self.volumes_base_path.as_str(),
            container_id,
            Operation::Read { path: path.to_owned() },
        )
    }

    /// Begins to write a text to a file.
    pub fn write_file(&self, container_id: &str, path: &str, content: &str) -> (r: FileJob)
        ensures
            r@ == job_begun(
                self.volumes_base_path@,
                container_id@,
                OperationValue::Write { path: path@, content: encode_utf8(content@) },
            ),
    {
        FileJob::begin(
            self.volumes_base_path.as_str(),
            container_id,
            Operation::Write { path: path.to_owned(), content: bytes_of(content) },
        )
    }

    /// Begins to write bytes to a file.
    pub fn write_file_bytes(&self, container_id: &str, path: &str, content: &Vec<u8>) -> (r:
        FileJob)
        ensures
            r@ == job_begun(
                self.volumes_base_path@,
                container_id@,
                OperationValue::Write { path: path@, content: content@ },
            ),
    {
        FileJob::begin(
            self.volumes_base_path.as_str(),
            container_id,
            Operation::Write { path: path.to_owned(), content: copy_bytes(content) },
        )
    }

    /// Begins to copy a file byte by byte.
    pub fn copy_file(&self, container_id: &str, source_path: &str, dest_path: &str) -> (r: FileJob)
        ensures
            r@ == job_begun(
                self.volumes_base_path@,
                container_id@,
                OperationValue::Copy { source: source_path@, dest: dest_path@ },
            ),
    {
        FileJob::begin(
            self.volumes_base_path.as_str(),
            container_id,
            Operation::Copy { source: source_path.to_owned(), dest: dest_path.to_owned() },
        )
    }

    /// Begins to create a directory.
    pub fn create_directory(&self, container_id: &str, path: &str) -> (r: FileJob)
        ensures
            r@ == job_begun(
                self.volumes_base_path@,
                container_id@,
                OperationValue::CreateDirectory { path: path@ },
            ),
    {
        FileJob::begin(
            self.volumes_base_path.as_str(),
            container_id,
            Operation::CreateDirectory { path: path.to_owned() },
        )
    }

    /// Begins to delete a file or a directory.
    pub fn delete(&self, container_id: &str, path: &str) -> (r: FileJob)
        ensures
            r@ == job_begun(
                self.volumes_base_path@,
                container_id@,
                OperationValue::Delete { path: path@ },
            ),
    {
        FileJob::begin(
            self.volumes_base_path.as_str(),
            container_id,
            Operation::Delete { path: path.to_owned() },
        )
    }

    /// Begins to move a file or a directory.
    pub fn rename(&self, container_id: &str, old_path: &str, new_path: &str) -> (r: FileJob)
        ensures
            r@ == job_begun(
                self.volumes_base_path@,
                container_id@,
                OperationValue::Rename { old_path: old_path@, new_path: new_path@ },
            ),
    {
        FileJob::begin(
            self.volumes_base_path.as_str(),
            container_id,
            Operation::Rename { old_path: old_path.to_owned(), new_path: new_path.to_owned() },
        )
    }

    /// Begins to pack sources into a tar archive.
    pub fn create_archive(
        &self,
        container_id: &str,
        source_paths: &Vec<String>,
        archive_path: &str,
        compression: Option<String>,
    ) -> (r: FileJob)
        ensures
            r@ == job_begun(
                self.volumes_base_path@,
                container_id@,
                OperationValue::CreateArchive {
                    sources: source_paths.deep_view(),
                    archive: archive_path@,
                    compression: compression.deep_view(),
                },
            ),
    {
        FileJob::begin(
            self.volumes_base_path.as_str(),
            container_id,
            Operation::CreateArchive {
                sources: copy_texts(source_paths),
                archive: archive_path.to_owned(),
                compression,
            },
        )
    }

    /// Begins to unpack a tar archive.
    pub fn extract_archive(&self, container_id: &str, archive_path: &str, dest_path: &str) -> (r:
        FileJob)
        ensures
            r@ == job_begun(
                self.volumes_base_path@,
                container_id@,
                OperationValue::ExtractArchive { archive: archive_path@, dest: dest_path@ },
            ),
    {
        FileJob::begin(
            self.volumes_base_path.as_str(),
            container_id,
            Operation::ExtractArchive {
                archive: archive_path.to_owned(),
                dest: dest_path.to_owned(),
            },
        )
    }

    /// Begins to pack sources into a zip archive.
    pub fn create_zip(&self, container_id: &str, source_paths: &Vec<String>, zip_path: &str) -> (r:
        FileJob)
        ensures
            r@ == job_begun(
                self.volumes_base_path@,
                container_id@,
                OperationValue::CreateZip { sources: source_paths.deep_view(), zip: zip_path@ },
            ),
    {
        FileJob::begin(
            self.volumes_base_path.as_str(),
            container_id,
            Operation::CreateZip { sources: copy_texts(source_paths), zip: zip_path.to_owned() },
        )
    }

    /// Begins to unpack a zip archive.
    pub fn extract_zip(&self, container_id: &str, zip_path: &str, dest_path: &str) -> (r: FileJob)
        ensures
            r@ == job_begun(
                self.volumes_base_path@,
                container_id@,
                OperationValue::ExtractZip { zip: zip_path@, dest: dest_path@ },
            ),
    {
        FileJob::begin(
            self.volumes_base_path.as_str(),
            container_id,
            Operation::ExtractZip { zip: zip_path.to_owned(), dest: dest_path.to_owned() },
        )
    }

    /// Begins to change the permissions of a file.
    pub fn chmod(&self, container_id: &str, path: &str, permissions: &str) -> (r: FileJob)
        ensures
            r@ == job_begun(
                self.volumes_base_path@,
                container_id@,
                OperationValue::ChangeMode { path: path@, permissions: permissions@ },
            ),
    {
        FileJob::begin(
            self.volumes_base_path.as_str(),
            container_id,
            Operation::ChangeMode { path: path.to_owned(), permissions: permissions.to_owned() },
        )
    }

    /// Begins to change the owner of a file.
    pub fn chown(&self, container_id: &str, path: &str, owner: &str, group: Option<String>) -> (r:
        FileJob)
        ensures
            r@ == job_begun(
                self.volumes_base_path@,
                container_id@,
                OperationValue::ChangeOwner {
                    path: path@,
                    owner: owner@,
                    group: group.deep_view(),
                },
            ),
    {
        FileJob::begin(
            self.volumes_base_path.as_str(),
            container_id,
            Operation::ChangeOwner { path: path.to_owned(), owner: owner.to_owned(), group },
        )
    }
}

} // verus!
