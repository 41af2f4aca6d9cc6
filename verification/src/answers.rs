//! What requests are answered, and what the panel is told.

use vstd::prelude::*;
use crate::actions::Action;
use crate::auth::{
    AuthDecision, AuthState, AuthorizationConfig, Rejection, auth_middleware,
    law_only_token_lets_in, law_token_lets_in, unauthorized_response,
};
use crate::begun_jobs::begins_recreation;
use crate::container_lifecycle::ContainerLifecycleManager;
use crate::file_plan::command_result;
use crate::listed_entries::{begins_with_dot, is_of_entry, is_told, law_listing_tells_of_entries};
use crate::listing::{DirEntry, DirectoryListing, make_listing, shown_path};
use crate::models::{ApiResponse, ApiResponseValue, ContainerTracker, PortAllocation};
use crate::monitoring::{
    BillingStatusResponse, ContainerMetricsResponse, EstimateAmounts, MetricsQuery,
    RUEstimateRequest, Sample, calculate_ru_estimate, cpu_amount, disable_container_billing,
    disk_amount, enable_container_billing, get_container_billing_status, get_container_metrics,
    get_container_metrics_history, get_container_ru_breakdown, get_ru_config, get_ru_summary,
    get_system_metrics, get_system_metrics_history, history_part, memory_amount,
};
use crate::network::{
    Accepted, AvailablePortsResponse, NetworkInfo, apply_port_changes, get_all_port_allocations,
    get_available_ports, get_container_network, law_lowest_free_ports_are_listed, with_ports,
};
use crate::recreation::Recreation;
use crate::remote::{Field, FieldValue, PanelRequest, Remote, body_value, text_or_missing};
use crate::text::utf8_lossy;
use crate::time::Timestamp;

verus! {

/// Whether a message goes out exactly if there is a panel and it is enabled, and to the given path,
/// authorised by the secret, with the given body.
pub open spec fn is_sent_to<P>(
    message: Option<PanelRequest<P>>,
    remote: Remote,
    path: Seq<char>,
    body: Seq<(Seq<char>, FieldValue<P>)>,
) -> bool {
    &&& message is Some <==> remote.cfg is Some && remote.cfg->0.enabled
    &&& message matches Some(m) ==> {
        &&& path.is_suffix_of(m.url@)
        &&& m.content_type@ == "application/json"@
        &&& m.authorization@ == "Bearer "@ + remote.cfg->0.secret@
        &&& body_value(m.body@) == body
    }
}

/// An event is told with its name and what belongs to it.
pub proof fn law_event_is_told<P>(
    remote: Remote,
    name: &str,
    payload: P,
    message: Option<PanelRequest<P>>,
)
    requires
        call_ensures(Remote::send_event::<P>, (&remote, name, payload), message),
    ensures
        is_sent_to(
            message,
            remote,
            "/api/lightd/event"@,
            seq![("name"@, FieldValue::Text(name@)), ("payload"@, FieldValue::Given(payload))],
        ),
{
    if message is Some {
        lemma_path_ends_url(message->0.url@, "/api/lightd/event"@);
    }
}

/// The state of a container is told under the uuid of the container.
pub proof fn law_state_is_told<P>(
    remote: Remote,
    container_uuid: &str,
    state: &str,
    message: Option<PanelRequest<P>>,
)
    requires
        call_ensures(Remote::send_container_state::<P>, (&remote, container_uuid, state), message),
    ensures
        is_sent_to(
            message,
            remote,
            "/api/lightd/containers/"@ + container_uuid@ + "/state"@,
            seq![
                ("container_uuid"@, FieldValue::Text(container_uuid@)),
                ("state"@, FieldValue::Text(state@)),
            ],
        ),
{
    if message is Some {
        lemma_path_ends_url(
            message->0.url@,
            "/api/lightd/containers/"@ + container_uuid@ + "/state"@,
        );
    }
}

/// How an installation goes is told under the uuid of the container, with the message where there
/// is one.
pub proof fn law_install_status_is_told<P>(
    remote: Remote,
    container_uuid: &str,
    status: &str,
    note: Option<String>,
    message: Option<PanelRequest<P>>,
)
    requires
        call_ensures(
            Remote::send_install_status::<P>,
            (&remote, container_uuid, status, note),
            message,
        ),
    ensures
        is_sent_to(
            message,
            remote,
            "/api/lightd/containers/"@ + container_uuid@ + "/install_status"@,
            seq![
                ("container_uuid"@, FieldValue::Text(container_uuid@)),
                ("status"@, FieldValue::Text(status@)),
                ("message"@, text_or_missing(note.deep_view())),
            ],
        ),
{
    if message is Some {
        lemma_path_ends_url(
            message->0.url@,
            "/api/lightd/containers/"@ + container_uuid@ + "/install_status"@,
        );
    }
}

/// A charge is told with the container, the amount as it is, and what it is for.
pub proof fn law_charge_is_told<P>(
    remote: Remote,
    container_uuid: &str,
    amount: P,
    description: &str,
    message: Option<PanelRequest<P>>,
)
    requires
        call_ensures(
            Remote::post_ru_deduction::<P>,
            (&remote, container_uuid, amount, description),
            message,
        ),
    ensures
        is_sent_to(
            message,
            remote,
            "/api/lightd/deduct"@,
            seq![
                ("container_id"@, FieldValue::Text(container_uuid@)),
                ("amount"@, FieldValue::Given(amount)),
                ("description"@, FieldValue::Text(description@)),
            ],
        ),
{
    if message is Some {
        lemma_path_ends_url(message->0.url@, "/api/lightd/deduct"@);
    }
}

/// A message of any kind is made where there is a panel, enabled or not, and holds what it was
/// given; there is nothing to reach the panel by where there is none.
pub proof fn law_message_is_made<P>(
    remote: Remote,
    path: &str,
    body: Vec<(String, Field<P>)>,
    message: Option<PanelRequest<P>>,
    enabled: bool,
    authorization: Option<String>,
)
    requires
        call_ensures(Remote::post::<P>, (&remote, path, body), message),
        call_ensures(Remote::is_enabled, (&remote,), enabled),
        call_ensures(Remote::auth_header, (&remote,), authorization),
    ensures
        message is Some <==> remote.cfg is Some,
        message matches Some(m) ==> path@.is_suffix_of(m.url@) && body_value(m.body@)
            == body_value(body@) && m.authorization@ == "Bearer "@ + remote.cfg->0.secret@,
        enabled <==> remote.cfg is Some && remote.cfg->0.enabled,
        authorization is Some <==> remote.cfg is Some,
        authorization matches Some(a) ==> a@ == "Bearer "@ + remote.cfg->0.secret@,
{
    if message is Some {
        lemma_path_ends_url(message->0.url@, path@);
    }
}

/// What was put behind something is the end of the whole.
proof fn lemma_path_ends_url(url: Seq<char>, path: Seq<char>)
    ensures
        forall|base: Seq<char>| url == #[trigger] (base + path) ==> path.is_suffix_of(url),
{
    assert forall|base: Seq<char>| url == #[trigger] (base + path) implies path.is_suffix_of(
        url,
    ) by {
        assert(url.subrange(url.len() - path.len(), url.len() as int) =~= path);
    }
}

/// What requests are checked against.
spec fn config_of(auth: AuthState) -> AuthorizationConfig {
    *auth.config
}

/// A request is let in where none has to be authorised, or with the token, on its own or behind
/// `Bearer` and a space; any other is answered with 401 and why.
pub proof fn law_requests_are_let_in_by_token(
    auth: AuthState,
    header: Option<&str>,
    decision: AuthDecision,
)
    requires
        call_ensures(auth_middleware, (&auth, header), decision),
    ensures
        !auth.config.enabled ==> decision is Pass,
        auth.config.enabled && header is None ==> !(decision is Pass),
        auth.config.enabled && decision is Pass ==> header->0@ == auth.config.token@ || header->0@
            == "Bearer "@ + auth.config.token@,
        header is Some && header->0@ == "Bearer "@ + auth.config.token@ ==> decision is Pass,
        decision matches AuthDecision::Reject(rejection) ==> {
            &&& rejection.status == 401
            &&& rejection.error@ == "Unauthorized"@
            &&& header is None ==> rejection.message@ == "Missing Authorization header"@
            &&& header is Some ==> rejection.message@ == "Invalid authorization token"@
        },
{
    let told = match header {
        Some(h) => Some(h@),
        None => None,
    };
    law_token_lets_in(config_of(auth));
    if auth.config.enabled && decision is Pass {
        law_only_token_lets_in(config_of(auth), told);
    }
}

/// The answer to a request that is not let in has the status 401 and the reason that was given.
pub proof fn law_refusal_gives_reason(message: &str, rejection: Rejection)
    requires
        call_ensures(unauthorized_response, (message,), rejection),
    ensures
        rejection.status == 401,
        rejection.error@ == "Unauthorized"@,
        rejection.message@ == message@,
{
}

/// A program that was run is judged by whether it succeeded; what it complained of is told behind
/// the given words.
pub proof fn law_complaints_are_told(
    succeeded: bool,
    stderr: Vec<u8>,
    complaint: &str,
    result: Result<(), String>,
)
    requires
        call_ensures(command_result, (succeeded, &stderr, complaint), result),
    ensures
        succeeded <==> result is Ok,
        result matches Err(e) ==> e@ == complaint@ + utf8_lossy(stderr@),
{
}

/// A listing is that of the directory: it is shown by its path, tells of every entry that does not
/// begin with a dot what was read of it, and of nothing else, and counts directories and all
/// others.
pub proof fn law_listing_is_of_directory(
    path: &str,
    entries: Vec<DirEntry>,
    listing: DirectoryListing,
)
    requires
        call_ensures(make_listing, (path, &entries), listing),
    ensures
        listing.path@ == shown_path(path@),
        forall|i: int|
            0 <= i < entries@.len() && !begins_with_dot(utf8_lossy(entries@[i].name@)) ==> is_told(
                listing.files.deep_view(),
                path@,
                #[trigger] entries@[i],
            ),
        forall|k: int|
            0 <= k < listing.files@.len() ==> is_of_entry(
                #[trigger] listing.files.deep_view()[k],
                path@,
                entries@,
            ),
        listing.total_files + listing.total_directories == listing.files@.len(),
        listing.total_directories == entries@.filter(
            |e: DirEntry| !begins_with_dot(utf8_lossy(e.name@)) && e.is_directory,
        ).len(),
{
    law_listing_tells_of_entries(path@, entries@, listing.files.deep_view());
}

/// The ports of a container are told with its id and its uuid, as they are on record, and with how
/// many of fifty are left.
pub proof fn law_container_ports_are_told(
    by_uuid: Result<Option<ContainerTracker>, String>,
    by_id: Result<Option<ContainerTracker>, String>,
    allocated: usize,
    answer: ApiResponse<NetworkInfo>,
)
    requires
        allocated <= 50,
        call_ensures(get_container_network, (by_uuid, by_id, allocated), answer),
    ensures
        ({
            let tells = |t: ContainerTracker|
                answer is Success && answer->Success_0.container_id@ == t.container_id@
                    && answer->Success_0.uuid@ == t.custom_uuid@
                    && answer->Success_0.allocated_ports.deep_view()
                    == t.allocated_ports.deep_view() && answer->Success_0.available_port_count
                    + allocated == 50;
            &&& by_uuid matches Ok(Some(t)) ==> tells(t)
            &&& by_uuid matches Ok(None) ==> (by_id matches Ok(Some(t)) ==> tells(t))
            &&& by_uuid matches Ok(None) ==> !(by_id matches Ok(Some(_))) ==> answer is Error
                && answer->Error_0@ == "Container not found"@
            &&& by_uuid matches Err(e) ==> answer is Error && answer->Error_0@ == e@
        }),
{
    assert(answer.deep_view() is Success ==> answer is Success);
}

/// The ports that are told to be available are the lowest free ones of the range, up to a hundred,
/// with the range and the count of those that are allocated.
pub proof fn law_available_ports_are_told(
    range: (u16, u16),
    allocated: Vec<u16>,
    answer: ApiResponse<AvailablePortsResponse>,
)
    requires
        call_ensures(get_available_ports, (range, &allocated), answer),
    ensures
        answer is Success,
        answer->Success_0.port_range == range,
        answer->Success_0.allocated_count == allocated@.len(),
        ({
            let listed = answer->Success_0.available_ports@;
            &&& listed.len() <= 100
            &&& forall|i: int|
                0 <= i < listed.len() ==> range.0 <= #[trigger] listed[i] < range.1
                    && !allocated@.contains(listed[i])
            &&& forall|i: int, j: int|
                0 <= i < j < listed.len() ==> (#[trigger] listed[i]) < (#[trigger] listed[j])
            &&& forall|p: u16|
                range.0 <= p < range.1 && !allocated@.contains(p) && (listed.len() < 100 || p
                    <= listed.last()) ==> #[trigger] listed.contains(p)
        }),
{
    law_lowest_free_ports_are_listed(range.0, range.1, allocated@);
}

/// All allocated ports are told, container by container.
pub proof fn law_all_allocations_are_told(
    containers: Result<Vec<ContainerTracker>, String>,
    answer: ApiResponse<Vec<(String, Vec<PortAllocation>)>>,
)
    requires
        call_ensures(get_all_port_allocations, (containers,), answer),
    ensures
        containers matches Ok(list) ==> answer.deep_view() == ApiResponseValue::Success(
            with_ports(list.deep_view()),
        ),
        containers matches Err(e) ==> answer is Error && answer->Error_0@ == e@,
{
}

/// Port changes are applied by recreating the container as it is on record: unless it is locked,
/// not on record or cannot be looked up, the work is begun and said to be.
pub proof fn law_port_changes_are_applied(
    lifecycle: ContainerLifecycleManager,
    uuid: &str,
    locked: bool,
    found: Result<Option<ContainerTracker>, String>,
    answer: (ApiResponse<Accepted>, Option<(Recreation, Vec<Action>)>),
)
    requires
        call_ensures(apply_port_changes, (&lifecycle, uuid, locked, found), answer),
    ensures
        answer.1 is Some <==> !locked && (found matches Ok(Some(_))),
        answer.1 matches Some(job) ==> begins_recreation(job, lifecycle, uuid@, None) && answer.0
            is Success && answer.0->Success_0.status@ == "accepted"@
            && answer.0->Success_0.message@ == "Port changes being applied for container "@ + uuid@,
        locked ==> answer.0 is Error && answer.0->Error_0@ == "Container is currently locked"@,
        !locked ==> (found matches Ok(None) ==> answer.0 is Error && answer.0->Error_0@
            == "Container not found"@),
        !locked ==> (found matches Err(e) ==> answer.0 is Error && answer.0->Error_0@
            == "Failed to get container: "@ + e@),
{
}

/// Whether a request is refused because nothing is monitored.
pub open spec fn is_unmonitored<T>(answer: ApiResponse<T>) -> bool {
    answer is Error && answer->Error_0@ == "Resource monitoring is not enabled"@
}

/// What was measured is told as it is, where anything is monitored.
pub proof fn law_measures_are_told<T, M, H, C>(
    system: Option<T>,
    first: ApiResponse<T>,
    second: ApiResponse<T>,
    container: Option<(Option<M>, Option<H>)>,
    third: ApiResponse<ContainerMetricsResponse<M, H>>,
    config: Option<C>,
    fourth: Result<ApiResponse<C>, u16>,
)
    requires
        call_ensures(get_system_metrics::<T>, (system,), first),
        call_ensures(get_ru_summary::<T>, (system,), second),
        call_ensures(get_container_metrics::<M, H>, (container,), third),
        call_ensures(get_ru_config::<C>, (config,), fourth),
    ensures
        system matches Some(t) ==> first == ApiResponse::Success(t) && second
            == ApiResponse::Success(t),
        system is None ==> is_unmonitored(first) && is_unmonitored(second),
        container matches Some((m, h)) ==> third is Success && third->Success_0.current_metrics == m
            && third->Success_0.ru_history == h,
        container is None ==> is_unmonitored(third),
        config matches Some(c) ==> fourth == Ok::<ApiResponse<C>, u16>(ApiResponse::Success(c)),
        config is None ==> fourth == Err::<ApiResponse<C>, u16>(503),
{
}

/// Of a history the part that is asked for is told; a container of which there is none is named.
pub proof fn law_histories_are_told<M, H>(
    container_id: &str,
    history: Option<Vec<Sample<M>>>,
    measured: Option<Option<Vec<Sample<M>>>>,
    charged: Option<Option<H>>,
    query: MetricsQuery,
    now: Timestamp,
    first: ApiResponse<Vec<Sample<M>>>,
    second: ApiResponse<Vec<Sample<M>>>,
    third: ApiResponse<H>,
)
    requires
        call_ensures(get_system_metrics_history::<M>, (history, &query, &now), first),
        call_ensures(
            get_container_metrics_history::<M>,
            (container_id, measured, &query, &now),
            second,
        ),
        call_ensures(get_container_ru_breakdown::<H>, (container_id, charged), third),
    ensures
        history matches Some(h) ==> first is Success && first->Success_0@ == history_part(
            h@,
            query,
            now,
        ),
        history is None ==> is_unmonitored(first),
        measured matches Some(Some(h)) ==> second is Success && second->Success_0@ == history_part(
            h@,
            query,
            now,
        ),
        measured matches Some(None) ==> second is Error && second->Error_0@
            == "No metrics found for container: "@ + container_id@,
        measured is None ==> is_unmonitored(second),
        charged matches Some(Some(h)) ==> third == ApiResponse::Success(h),
        charged matches Some(None) ==> third is Error && third->Error_0@
            == "No RU history found for container: "@ + container_id@,
        charged is None ==> is_unmonitored(third),
{
}

/// Billing is told of the container that was asked about: enabled once it was enabled, not so once
/// it was disabled, and otherwise unless it was switched off.
pub proof fn law_billing_is_told(
    uuid: String,
    monitored: bool,
    disabled: Option<bool>,
    on: ApiResponse<BillingStatusResponse>,
    off: ApiResponse<BillingStatusResponse>,
    status: ApiResponse<BillingStatusResponse>,
)
    requires
        call_ensures(enable_container_billing, (uuid, monitored), on),
        call_ensures(disable_container_billing, (uuid, monitored), off),
        call_ensures(get_container_billing_status, (uuid, disabled), status),
    ensures
        ({
            let told = |r: ApiResponse<BillingStatusResponse>, enabled: bool, words: Seq<char>|
                r is Success && r->Success_0.container_uuid@ == uuid@
                    && r->Success_0.billing_enabled == enabled && r->Success_0.message@ == words;
            &&& monitored ==> told(on, true, "Billing enabled for container"@)
            &&& monitored ==> told(off, false, "Billing disabled for container"@)
            &&& !monitored ==> is_unmonitored(on) && is_unmonitored(off)
            &&& disabled == Some(false) ==> told(status, true, "Billing is active"@)
            &&& disabled == Some(true) ==> told(status, false, "Billing is disabled"@)
            &&& disabled is None ==> is_unmonitored(status)
        }),
{
}

/// A charge is estimated by the CPU, the memory and the disk space that were given, where there
/// is anything to estimate it by; otherwise the status code is 503.
pub proof fn law_charge_is_estimated(
    configured: bool,
    request: RUEstimateRequest,
    estimate: Result<EstimateAmounts, u16>,
)
    requires
        call_ensures(calculate_ru_estimate, (configured, &request), estimate),
    ensures
        !configured ==> estimate == Err::<EstimateAmounts, u16>(503),
        configured ==> estimate is Ok && estimate->Ok_0.cpu_percent.deep_view() == cpu_amount(
            request.cpu@,
        ) && estimate->Ok_0.memory_mb.deep_view() == memory_amount(request.memory@)
            && estimate->Ok_0.disk_gb.deep_view() == disk_amount(request.disk@),
{
}

} // verus!
