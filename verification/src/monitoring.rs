//! Requests about the resources that containers use.

use vstd::prelude::*;
use crate::models::{ApiResponse, ApiResponseValue};
use crate::text::{
    concat2, ends_with, law_trailing_copies_go, lowercase, strip_suffix, to_lowercase,
    trim_trailing, without_trailing,
};
use crate::time::{Timestamp, cutoff_time, minutes_before};

verus! {

/// The status code of a request that cannot be served for want of configuration.
pub const SERVICE_UNAVAILABLE: u16 = 503;

/// Which part of a history is asked for.
#[derive(Clone, Copy, Debug, PartialEq, Eq)]
pub struct MetricsQuery {
    /// At most so many of the latest samples.
    pub limit: Option<usize>,
    /// Only samples of the last so many minutes.
    pub since_minutes: Option<i64>,
}

/// What was measured at a point in time.
#[derive(Debug, PartialEq, Eq)]
pub struct Sample<M> {
    pub timestamp: Timestamp,
    pub metrics: M,
}

/// The metrics of a container and what it was charged.
#[derive(Debug, PartialEq, Eq)]
pub struct ContainerMetricsResponse<M, H> {
    pub current_metrics: Option<M>,
    pub ru_history: Option<H>,
}

/// Whether a container is charged.
#[derive(Debug, PartialEq, Eq)]
pub struct BillingStatusResponse {
    pub container_uuid: String,
    pub billing_enabled: bool,
    pub message: String,
}

/// The values of whether a container is charged.
pub struct BillingStatusValue {
    pub container_uuid: Seq<char>,
    pub billing_enabled: bool,
    pub message: Seq<char>,
}

impl DeepView for BillingStatusResponse {
    type V = BillingStatusValue;

    open spec fn deep_view(&self) -> BillingStatusValue {
        BillingStatusValue {
            container_uuid: self.container_uuid@,
            billing_enabled: self.billing_enabled,
            message: self.message@,
        }
    }
}

/// The limits of a container whose charge is to be estimated.
#[derive(Clone, Debug, PartialEq, Eq)]
pub struct RUEstimateRequest {
    /// A percentage with its sign, or a number of cores.
    pub cpu: String,
    /// An amount with the letter of its unit, or in megabytes.
    pub memory: String,
    /// An amount with the letter of its unit, or in megabytes.
    pub disk: String,
}

/// The latest of the samples, so many where a limit is given.
pub open spec fn latest<M>(history: Seq<Sample<M>>, limit: Option<usize>) -> Seq<Sample<M>> {
    match limit {
        Some(n) => if history.len() > n {
            history.skip(history.len() - n)
        } else {
            history
        },
        None => history,
    }
}

/// The samples that are not from before a point in time.
pub open spec fn not_older<M>(history: Seq<Sample<M>>, cutoff: Timestamp) -> Seq<Sample<M>>
    decreases history.len(),
{
    if history.len() == 0 {
        Seq::empty()
    } else {
        let front = not_older(history.drop_last(), cutoff);
        if history.last().timestamp.not_before(cutoff) {
            front.push(history.last())
        } else {
            front
        }
    }
}

/// The part of a history that is asked for: the limit is applied first, then the age.
pub open spec fn history_part<M>(
    history: Seq<Sample<M>>,
    query: MetricsQuery,
    now: Timestamp,
) -> Seq<Sample<M>> {
    let part = latest(history, query.limit);
    match query.since_minutes {
        Some(minutes) => not_older(part, minutes_before(now, minutes)->0),
        None => part,
    }
}

/// Whether the age that is asked for leads to a point in time that a date can be given for.
pub open spec fn query_dated(query: MetricsQuery, now: Timestamp) -> bool {
    query.since_minutes is Some ==> now.valid() && minutes_before(
        now,
        query.since_minutes->0,
    ) is Some
}

/// Samples that are not too old are among those that there are, and each of them is not from
/// before the point in time.
pub proof fn lemma_not_older<M>(history: Seq<Sample<M>>, cutoff: Timestamp)
    ensures
        not_older(history, cutoff).len() <= history.len(),
        forall|i: int|
            0 <= i < not_older(history, cutoff).len() ==> (#[trigger] not_older(
                history,
                cutoff,
            )[i]).timestamp.not_before(cutoff) && history.contains(not_older(history, cutoff)[i]),
        forall|i: int|
            0 <= i < history.len() && (#[trigger] history[i]).timestamp.not_before(cutoff)
                ==> not_older(history, cutoff).contains(history[i]),
    decreases history.len(),
{
    if history.len() > 0 {
        let front = history.drop_last();
        let kept = not_older(front, cutoff);
        let all = not_older(history, cutoff);
        lemma_not_older(front, cutoff);
        assert forall|i: int| 0 <= i < all.len() implies (
        #[trigger] all[i]).timestamp.not_before(cutoff) && history.contains(all[i]) by {
            if i < kept.len() {
                assert(all[i] == kept[i]);
                let k = choose|k: int| 0 <= k < front.len() && front[k] == kept[i];
                assert(history[k] == front[k]);
            } else {
                assert(all[i] == history[history.len() - 1]);
            }
        }
        assert forall|i: int|
            0 <= i < history.len() && (#[trigger] history[i]).timestamp.not_before(
                cutoff,
            ) implies all.contains(history[i]) by {
            if i < front.len() {
                assert(kept.contains(front[i]));
                let k = choose|k: int| 0 <= k < kept.len() && kept[k] == front[i];
                assert(all[k] == history[i]);
            } else {
                assert(all[all.len() - 1] == history[i]);
            }
        }
    }
}

/// The part of a history that is asked for holds no more samples than the limit, none that is
/// too old, and every sample among the latest that is not too old.
pub proof fn law_history_part<M>(history: Seq<Sample<M>>, query: MetricsQuery, now: Timestamp)
    requires
        query_dated(query, now),
    ensures
        ({
            let part = history_part(history, query, now);
            &&& query.limit matches Some(n) ==> part.len() <= n
            &&& query.since_minutes matches Some(minutes) ==> forall|i: int|
                0 <= i < part.len() ==> (#[trigger] part[i]).timestamp.not_before(
                    minutes_before(now, minutes)->0,
                )
            &&& forall|i: int|
                0 <= i < latest(history, query.limit).len() && (query.since_minutes is Some ==> (
                #[trigger] latest(history, query.limit)[i]).timestamp.not_before(
                    minutes_before(now, query.since_minutes->0)->0,
                )) ==> part.contains(latest(history, query.limit)[i])
        }),
{
    let recent = latest(history, query.limit);
    if query.since_minutes is Some {
        lemma_not_older(recent, minutes_before(now, query.since_minutes->0)->0);
    }
}

/// Keeps the samples that are not from before a point in time.
fn keep_not_older<M>(history: Vec<Sample<M>>, cutoff: &Timestamp) -> (r: Vec<Sample<M>>)
    ensures
        r@ == not_older(history@, *cutoff),
{
    let ghost all = history@;
    let mut rest = history;
    let mut reversed: Vec<Sample<M>> = Vec::new();
    assert(rest@ =~= all);
    while rest.len() > 0
        invariant
            not_older(all, *cutoff) == not_older(rest@, *cutoff) + reversed@.reverse(),
        decreases rest.len(),
    {
        let ghost before = rest@;
        let ghost old_reversed = reversed@;
        match rest.pop() {
            Some(sample) => {
                assert(before.drop_last() =~= rest@);
                if sample.timestamp.is_not_before(cutoff) {
                    reversed.push(sample);
                    assert(reversed@.reverse() =~= seq![sample] + old_reversed.reverse());
                }
                assert(not_older(before, *cutoff) + old_reversed.reverse() =~= not_older(
                    rest@,
                    *cutoff,
                ) + reversed@.reverse());
            },
            None => {},
        }
    }
    let ghost backwards = reversed@;
    assert(not_older(all, *cutoff) =~= backwards.reverse());
    let mut r: Vec<Sample<M>> = Vec::new();
    while reversed.len() > 0
        invariant
            reversed@.len() <= backwards.len(),
            reversed@ == backwards.take(reversed@.len() as int),
            r@ == backwards.reverse().take(backwards.len() - reversed@.len()),
        decreases reversed.len(),
    {
        let ghost n = reversed@.len() as int;
        match reversed.pop() {
            Some(sample) => {
                assert(sample == backwards[n - 1]);
                r.push(sample);
                assert(reversed@ =~= backwards.take(n - 1));
                assert(r@ =~= backwards.reverse().take(backwards.len() - (n - 1)));
            },
            None => {},
        }
    }
    assert(r@ =~= backwards.reverse());
    r
}

/// Cuts the part out of a history that is asked for.
pub fn cut_history<M>(history: Vec<Sample<M>>, query: &MetricsQuery, now: &Timestamp) -> (r: Vec<
    Sample<M>,
>)
    requires
        query_dated(*query, *now),
    ensures
        r@ == history_part(history@, *query, *now),
{
    let ghost all = history@;
    let mut part = history;
    if let Some(limit) = query.limit {
        if part.len() > limit {
            let start: usize = part.len() - limit;
            part = part.split_off(start);
            assert(part@ =~= all.skip(start as int));
        }
    }
    assert(part@ == latest(all, query.limit));
    if let Some(minutes) = query.since_minutes {
        if let Some(cutoff) = cutoff_time(now, minutes) {
            part = keep_not_older(part, &cutoff);
        }
    }
    part
}

/// Why a request is refused where nothing is monitored.
pub fn monitoring_disabled() -> (r: String)
    ensures
        r@ == "Resource monitoring is not enabled"@,
{
    "Resource monitoring is not enabled".to_owned()
}

/// Answers with what was measured of the system and its containers. `None` stands for no
/// monitoring.
pub fn get_system_metrics<T>(monitored: Option<T>) -> (r: ApiResponse<T>)
    ensures
        monitored matches Some(t) ==> r == ApiResponse::Success(t),
        monitored is None ==> r is Error && r->Error_0@ == "Resource monitoring is not enabled"@,
{
    match monitored {
        Some(t) => ApiResponse::Success(t),
        None => ApiResponse::Error(monitoring_disabled()),
    }
}

/// Answers with a summary of what containers are charged. `None` stands for no monitoring.
pub fn get_ru_summary<T>(monitored: Option<T>) -> (r: ApiResponse<T>)
    ensures
        monitored matches Some(t) ==> r == ApiResponse::Success(t),
        monitored is None ==> r is Error && r->Error_0@ == "Resource monitoring is not enabled"@,
{
    get_system_metrics(monitored)
}

/// Answers with the part of the system's history that is asked for.
pub fn get_system_metrics_history<M>(
    history: Option<Vec<Sample<M>>>,
    query: &MetricsQuery,
    now: &Timestamp,
) -> (r: ApiResponse<Vec<Sample<M>>>)
    requires
        history is Some ==> query_dated(*query, *now),
    ensures
        history matches Some(h) ==> r is Success && r->Success_0@ == history_part(h@, *query, *now),
        history is None ==> r is Error && r->Error_0@ == "Resource monitoring is not enabled"@,
{
    match history {
        Some(h) => ApiResponse::Success(cut_history(h, query, now)),
        None => ApiResponse::Error(monitoring_disabled()),
    }
}

/// Answers with the metrics of a container and what it was charged; either may be missing.
pub fn get_container_metrics<M, H>(monitored: Option<(Option<M>, Option<H>)>) -> (r: ApiResponse<
    ContainerMetricsResponse<M, H>,
>)
    ensures
        monitored matches Some((m, h)) ==> r == ApiResponse::Success(
            ContainerMetricsResponse { current_metrics: m, ru_history: h },
        ),
        monitored is None ==> r is Error && r->Error_0@ == "Resource monitoring is not enabled"@,
{
    match monitored {
        Some((current_metrics, ru_history)) => ApiResponse::Success(
            ContainerMetricsResponse { current_metrics, ru_history },
        ),
        None => ApiResponse::Error(monitoring_disabled()),
    }
}

/// Answers with the part of a container's history that is asked for. The inner `None` stands
/// for a container of which nothing was measured.
pub fn get_container_metrics_history<M>(
    container_id: &str,
    monitored: Option<Option<Vec<Sample<M>>>>,
    query: &MetricsQuery,
    now: &Timestamp,
) -> (r: ApiResponse<Vec<Sample<M>>>)
    requires
        monitored is Some && monitored->0 is Some ==> query_dated(*query, *now),
    ensures
        monitored matches Some(Some(h)) ==> r is Success && r->Success_0@ == history_part(
            h@,
            *query,
            *now,
        ),
        monitored matches Some(None) ==> r is Error && r->Error_0@
            == "No metrics found for container: "@ + container_id@,
        monitored is None ==> r is Error && r->Error_0@ == "Resource monitoring is not enabled"@,
{
    match monitored {
        Some(Some(h)) => ApiResponse::Success(cut_history(h, query, now)),
        Some(None) => ApiResponse::Error(
            concat2("No metrics found for container: ", container_id),
        ),
        None => ApiResponse::Error(monitoring_disabled()),
    }
}

/// Answers with what a container was charged. The inner `None` stands for a container that was
/// never charged.
pub fn get_container_ru_breakdown<H>(container_id: &str, monitored: Option<Option<H>>) -> (r:
    ApiResponse<H>)
    ensures
        monitored matches Some(Some(h)) ==> r == ApiResponse::Success(h),
        monitored matches Some(None) ==> r is Error && r->Error_0@
            == "No RU history found for container: "@ + container_id@,
        monitored is None ==> r is Error && r->Error_0@ == "Resource monitoring is not enabled"@,
{
    match monitored {
        Some(Some(h)) => ApiResponse::Success(h),
        Some(None) => ApiResponse::Error(
            concat2("No RU history found for container: ", container_id),
        ),
        None => ApiResponse::Error(monitoring_disabled()),
    }
}

/// The answer to a request about the billing of a container.
pub open spec fn billing_answer(
    monitored: bool,
    container_uuid: Seq<char>,
    billing_enabled: bool,
    message: Seq<char>,
) -> ApiResponseValue<BillingStatusValue> {
    if monitored {
        ApiResponseValue::Success(BillingStatusValue { container_uuid, billing_enabled, message })
    } else {
        ApiResponseValue::Error("Resource monitoring is not enabled"@)
    }
}

/// Answers that a container is charged from now on. `monitored` is whether there is anything
/// to charge by.
pub fn enable_container_billing(container_uuid: String, monitored: bool) -> (r: ApiResponse<
    BillingStatusResponse,
>)
    ensures
        r.deep_view() == billing_answer(
            monitored,
            container_uuid@,
            true,
            "Billing enabled for container"@,
        ),
{
    if monitored {
        ApiResponse::success(
            BillingStatusResponse {
                container_uuid,
                billing_enabled: true,
                message: "Billing enabled for container".to_owned(),
            },
        )
    } else {
        ApiResponse::error(monitoring_disabled())
    }
}

/// Answers that a container is not charged from now on. `monitored` is whether there is
/// anything to charge by.
pub fn disable_container_billing(container_uuid: String, monitored: bool) -> (r: ApiResponse<
    BillingStatusResponse,
>)
    ensures
        r.deep_view() == billing_answer(
            monitored,
            container_uuid@,
            false,
            "Billing disabled for container"@,
        ),
{
    if monitored {
        ApiResponse::success(
            BillingStatusResponse {
                container_uuid,
                billing_enabled: false,
                message: "Billing disabled for container".to_owned(),
            },
        )
    } else {
        ApiResponse::error(monitoring_disabled())
    }
}

/// Answers whether a container is charged. `disabled` is whether charging it was switched off,
/// and missing where nothing is monitored.
pub fn get_container_billing_status(container_uuid: String, disabled: Option<bool>) -> (r:
    ApiResponse<BillingStatusResponse>)
    ensures
        r.deep_view() == billing_answer(
            disabled is Some,
            container_uuid@,
            disabled == Some(false),
            if disabled == Some(false) {
                "Billing is active"@
            } else {
                "Billing is disabled"@
            },
        ),
{
    match disabled {
        Some(off) => {
            let message = if off {
                "Billing is disabled".to_owned()
            } else {
                "Billing is active".to_owned()
            };
            ApiResponse::success(
                BillingStatusResponse { container_uuid, billing_enabled: !off, message },
            )
        },
        None => ApiResponse::error(monitoring_disabled()),
    }
}

/// An amount as it is written: the text of a number, the number to take where that is none,
/// and what the number is multiplied with and divided by.
#[derive(Clone, Debug, PartialEq, Eq)]
pub struct Amount {
    pub number: String,
    pub fallback: u32,
    pub times: u32,
    pub over: u32,
}

/// The values of an amount.
pub struct AmountValue {
    pub number: Seq<char>,
    pub fallback: u32,
    pub times: u32,
    pub over: u32,
}

impl DeepView for Amount {
    type V = AmountValue;

    open spec fn deep_view(&self) -> AmountValue {
        AmountValue {
            number: self.number@,
            fallback: self.fallback,
            times: self.times,
            over: self.over,
        }
    }
}

/// A text without the letter that it ends with.
pub open spec fn cut_last(text: Seq<char>) -> Seq<char> {
    text.take(text.len() - 1)
}

/// An amount of CPU in percent of one core: percentages as they are, anything else as a number
/// of cores.
pub open spec fn cpu_amount(cpu: Seq<char>) -> AmountValue {
    if "%"@.is_suffix_of(cpu) {
        AmountValue { number: without_trailing(cpu, "%"@), fallback: 100, times: 1, over: 1 }
    } else {
        AmountValue { number: cpu, fallback: 1, times: 100, over: 1 }
    }
}

/// An amount of memory in megabytes.
pub open spec fn memory_amount(memory: Seq<char>) -> AmountValue {
    let lower = lowercase(memory);
    if "g"@.is_suffix_of(lower) {
        AmountValue { number: cut_last(lower), fallback: 1, times: 1024, over: 1 }
    } else if "m"@.is_suffix_of(lower) {
        AmountValue { number: cut_last(lower), fallback: 1024, times: 1, over: 1 }
    } else {
        AmountValue { number: lower, fallback: 1024, times: 1, over: 1 }
    }
}

/// An amount of disk space in gigabytes.
pub open spec fn disk_amount(disk: Seq<char>) -> AmountValue {
    let lower = lowercase(disk);
    if "g"@.is_suffix_of(lower) {
        AmountValue { number: cut_last(lower), fallback: 10, times: 1, over: 1 }
    } else if "t"@.is_suffix_of(lower) {
        AmountValue { number: cut_last(lower), fallback: 1, times: 1024, over: 1 }
    } else if "m"@.is_suffix_of(lower) {
        AmountValue { number: cut_last(lower), fallback: 10240, times: 1, over: 1024 }
    } else {
        AmountValue { number: lower, fallback: 10240, times: 1, over: 1024 }
    }
}

/// Memory that cannot be read counts as a gigabyte whatever its unit, and CPU as one core; disk
/// space counts as ten gigabytes unless it is given in terabytes, when it counts as one.
pub proof fn law_unreadable_amounts(cpu: Seq<char>, memory: Seq<char>, disk: Seq<char>)
    ensures
        memory_amount(memory).fallback * memory_amount(memory).times == 1024 * memory_amount(
            memory,
        ).over,
        cpu_amount(cpu).fallback * cpu_amount(cpu).times == 100 * cpu_amount(cpu).over,
        disk_amount(disk).fallback * disk_amount(disk).times == (if "t"@.is_suffix_of(
            lowercase(disk),
        ) && !"g"@.is_suffix_of(lowercase(disk)) {
            1024int
        } else {
            10int
        }) * disk_amount(disk).over,
{
    let m = memory_amount(memory);
    assert(m.fallback * m.times == 1024 * m.over) by (nonlinear_arith)
        requires
            m.over == 1,
            (m.fallback == 1 && m.times == 1024) || (m.fallback == 1024 && m.times == 1),
    ;
    let c = cpu_amount(cpu);
    assert(c.fallback * c.times == 100 * c.over) by (nonlinear_arith)
        requires
            c.over == 1,
            (c.fallback == 1 && c.times == 100) || (c.fallback == 100 && c.times == 1),
    ;
    let d = disk_amount(disk);
    assert(d.fallback == 10240 || d.fallback == 10 ==> d.fallback * d.times == 10 * d.over)
        by (nonlinear_arith)
        requires
            d.fallback == 10240 ==> d.times == 1 && d.over == 1024,
            d.fallback == 10 ==> d.times == 1 && d.over == 1,
    ;
    assert(d.fallback == 1 ==> d.fallback * d.times == 1024 * d.over) by (nonlinear_arith)
        requires
            d.fallback == 1 ==> d.times == 1024 && d.over == 1,
    ;
}

/// CPU is given in cores unless it is given in percent: n cores are 100 * n percent, and a
/// percentage is taken as it is, without its sign, which may be there more than once.
pub proof fn law_cores_are_a_hundred_percent_each(cpu: Seq<char>)
    ensures
        cpu.len() == 0 || cpu.last() != '%' ==> {
            &&& cpu_amount(cpu).number == cpu
            &&& cpu_amount(cpu).times == 100
            &&& cpu_amount(cpu).over == 1
        },
        cpu_amount(cpu + "%"@).times == 1,
        cpu_amount(cpu + "%"@).over == 1,
        cpu.len() == 0 || cpu.last() != '%' ==> cpu_amount(cpu + "%"@).number == cpu,
        cpu.len() > 0 && cpu.last() == '%' ==> cpu_amount(cpu + "%"@) == cpu_amount(cpu),
{
    reveal_strlit("%");
    let signed = cpu + "%"@;
    law_trailing_copies_go(cpu, "%"@);
    assert(signed.subrange(signed.len() - 1, signed.len() as int) =~= "%"@);
    lemma_ends_with_letter(cpu, "%"@);
}

/// Memory is taken in megabytes: with the letter g, large or small, it is given in units of 1024
/// of them, with the letter m or without any letter in megabytes. What stands before the letter
/// is the number.
pub proof fn law_memory_is_in_megabytes(memory: Seq<char>, number: Seq<char>)
    ensures
        lowercase(memory) == number + "g"@ ==> {
            &&& memory_amount(memory).number == number
            &&& memory_amount(memory).times == 1024
            &&& memory_amount(memory).over == 1
        },
        lowercase(memory) == number + "m"@ ==> {
            &&& memory_amount(memory).number == number
            &&& memory_amount(memory).times == 1
            &&& memory_amount(memory).over == 1
        },
        lowercase(memory) == number && (number.len() == 0 || (number.last() != 'g' && number.last()
            != 'm')) ==> {
            &&& memory_amount(memory).number == number
            &&& memory_amount(memory).times == 1
            &&& memory_amount(memory).over == 1
        },
{
    let lower = lowercase(memory);
    reveal_strlit("g");
    reveal_strlit("m");
    lemma_ends_with_letter(lower, "g"@);
    lemma_ends_with_letter(lower, "m"@);
    if lower == number + "g"@ || lower == number + "m"@ {
        assert(cut_last(lower) =~= number);
    }
}

/// Disk space is taken in gigabytes: with the letter g it is given in these, with the letter t in
/// units of 1024 of them, with the letter m or without any letter in megabytes, 1024 to one. The
/// case of the letter does not count, and what stands before it is the number.
pub proof fn law_disk_space_is_in_gigabytes(disk: Seq<char>, number: Seq<char>)
    ensures
        lowercase(disk) == number + "g"@ ==> {
            &&& disk_amount(disk).number == number
            &&& disk_amount(disk).times == 1
            &&& disk_amount(disk).over == 1
        },
        lowercase(disk) == number + "t"@ ==> {
            &&& disk_amount(disk).number == number
            &&& disk_amount(disk).times == 1024
            &&& disk_amount(disk).over == 1
        },
        lowercase(disk) == number + "m"@ ==> {
            &&& disk_amount(disk).number == number
            &&& disk_amount(disk).times == 1
            &&& disk_amount(disk).over == 1024
        },
        lowercase(disk) == number && (number.len() == 0 || (number.last() != 'g' && number.last()
            != 't' && number.last() != 'm')) ==> {
            &&& disk_amount(disk).number == number
            &&& disk_amount(disk).times == 1
            &&& disk_amount(disk).over == 1024
        },
{
    let lower = lowercase(disk);
    reveal_strlit("g");
    reveal_strlit("t");
    reveal_strlit("m");
    lemma_ends_with_letter(lower, "g"@);
    lemma_ends_with_letter(lower, "t"@);
    lemma_ends_with_letter(lower, "m"@);
    if lower == number + "g"@ || lower == number + "t"@ || lower == number + "m"@ {
        assert(cut_last(lower) =~= number);
    }
}

/// A text ends with one letter exactly if that is its last one.
proof fn lemma_ends_with_letter(text: Seq<char>, letter: Seq<char>)
    requires
        letter.len() == 1,
    ensures
        letter.is_suffix_of(text) <==> text.len() > 0 && text.last() == letter[0],
{
    if text.len() > 0 {
        let end = text.subrange(text.len() - 1, text.len() as int);
        if text.last() == letter[0] {
            assert(end =~= letter);
        } else {
            assert(end[0] == text.last());
        }
    }
}

/// The limit keeps the latest samples: as many as it says, or all where there are no more, and
/// those are the end of the history, in order. Without one all are kept.
pub proof fn law_latest_samples_are_kept<M>(history: Seq<Sample<M>>, limit: Option<usize>)
    ensures
        ({
            let part = latest(history, limit);
            &&& limit is None ==> part == history
            &&& limit matches Some(n) ==> part.len() == if n < history.len() {
                n as int
            } else {
                history.len() as int
            }
            &&& part.is_suffix_of(history)
        }),
{
    let part = latest(history, limit);
    assert(history.subrange(history.len() - part.len(), history.len() as int) =~= part);
}

/// The age takes out what is too old and nothing else: of the latest samples, those that are not
/// from before the point in time so many minutes ago are kept, in order.
pub proof fn law_old_samples_are_left_out<M>(
    history: Seq<Sample<M>>,
    query: MetricsQuery,
    now: Timestamp,
)
    ensures
        query.since_minutes is None ==> history_part(history, query, now) == latest(
            history,
            query.limit,
        ),
        query.since_minutes matches Some(minutes) ==> history_part(history, query, now) == latest(
            history,
            query.limit,
        ).filter(|s: Sample<M>| s.timestamp.not_before(minutes_before(now, minutes)->0)),
{
    if let Some(minutes) = query.since_minutes {
        lemma_not_older_filters(
            latest(history, query.limit),
            minutes_before(now, minutes)->0,
        );
    }
}

/// An age can be asked for if a date can be given for the present and for so many minutes before
/// it; where no age is asked for any query will do.
pub proof fn law_ages_lead_to_dates(query: MetricsQuery, now: Timestamp)
    ensures
        query.since_minutes is None ==> query_dated(query, now),
        query.since_minutes matches Some(minutes) ==> (query_dated(query, now) <==> now.valid()
            && -8334601228800 <= now.secs - 60 * minutes <= 8210266876799),
{
}

/// The samples that are not too old are those that are left when the others are taken out.
proof fn lemma_not_older_filters<M>(history: Seq<Sample<M>>, cutoff: Timestamp)
    ensures
        not_older(history, cutoff) == history.filter(
            |s: Sample<M>| s.timestamp.not_before(cutoff),
        ),
    decreases history.len(),
{
    reveal(Seq::filter);
    if history.len() > 0 {
        lemma_not_older_filters(history.drop_last(), cutoff);
    } else {
        assert(not_older(history, cutoff) =~= Seq::empty());
    }
}

/// A request about billing is answered for the container that it is about, with what it is told,
/// and refused where nothing is monitored. A request that cannot be served for want of
/// configuration gets the status code 503.
pub proof fn law_billing_is_answered(uuid: Seq<char>, enabled: bool, message: Seq<char>)
    ensures
        billing_answer(true, uuid, enabled, message) == ApiResponseValue::Success(
            BillingStatusValue { container_uuid: uuid, billing_enabled: enabled, message },
        ),
        billing_answer(false, uuid, enabled, message) == ApiResponseValue::<
            BillingStatusValue,
        >::Error("Resource monitoring is not enabled"@),
        SERVICE_UNAVAILABLE == 503,
{
}

/// Reads an amount of CPU.
pub fn parse_cpu_to_percent(cpu: &str) -> (r: Amount)
    ensures
        r.deep_view() == cpu_amount(cpu@),
{
    if ends_with(cpu, "%") {
        Amount { number: trim_trailing(cpu, "%"), fallback: 100, times: 1, over: 1 }
    } else {
        Amount { number: cpu.to_owned(), fallback: 1, times: 100, over: 1 }
    }
}

/// Reads an amount of memory, to be taken in megabytes.
pub fn parse_memory_to_mb(memory: &str) -> (r: Amount)
    ensures
        r.deep_view() == memory_amount(memory@),
{
    proof {
        reveal_strlit("g");
        reveal_strlit("m");
    }
    let lower = to_lowercase(memory);
    if let Some(number) = strip_suffix(lower.as_str(), "g") {
        Amount { number, fallback: 1, times: 1024, over: 1 }
    } else if let Some(number) = strip_suffix(lower.as_str(), "m") {
        Amount { number, fallback: 1024, times: 1, over: 1 }
    } else {
        Amount { number: lower, fallback: 1024, times: 1, over: 1 }
    }
}

/// Reads an amount of disk space, to be taken in gigabytes.
pub fn parse_disk_to_gb(disk: &str) -> (r: Amount)
    ensures
        r.deep_view() == disk_amount(disk@),
{
    proof {
        reveal_strlit("g");
        reveal_strlit("t");
        reveal_strlit("m");
    }
    let lower = to_lowercase(disk);
    if let Some(number) = strip_suffix(lower.as_str(), "g") {
        Amount { number, fallback: 10, times: 1, over: 1 }
    } else if let Some(number) = strip_suffix(lower.as_str(), "t") {
        Amount { number, fallback: 1, times: 1024, over: 1 }
    } else if let Some(number) = strip_suffix(lower.as_str(), "m") {
        Amount { number, fallback: 10240, times: 1, over: 1024 }
    } else {
        Amount { number: lower, fallback: 10240, times: 1, over: 1024 }
    }
}

/// The amounts that a charge is estimated by.
#[derive(Clone, Debug, PartialEq, Eq)]
pub struct EstimateAmounts {
    pub cpu_percent: Amount,
    pub memory_mb: Amount,
    pub disk_gb: Amount,
}

/// Reads the limits of a container whose charge is to be estimated. `configured` is whether
/// there is anything to estimate it by; the error is a status code.
pub fn calculate_ru_estimate(configured: bool, request: &RUEstimateRequest) -> (r: Result<
    EstimateAmounts,
    u16,
>)
    ensures
        r is Ok <==> configured,
        r is Err ==> r->Err_0 == SERVICE_UNAVAILABLE,
        r matches Ok(a) ==> a.cpu_percent.deep_view() == cpu_amount(request.cpu@)
            && a.memory_mb.deep_view() == memory_amount(request.memory@) && a.disk_gb.deep_view()
            == disk_amount(request.disk@),
{
    if !configured {
        return Err(SERVICE_UNAVAILABLE);
    }
    Ok(
        EstimateAmounts {
            cpu_percent: parse_cpu_to_percent(request.cpu.as_str()),
            memory_mb: parse_memory_to_mb(request.memory.as_str()),
            disk_gb: parse_disk_to_gb(request.disk.as_str()),
        },
    )
}

/// Answers with the configuration that containers are charged by. The error is a status code.
pub fn get_ru_config<C>(configured: Option<C>) -> (r: Result<ApiResponse<C>, u16>)
    ensures
        configured matches Some(c) ==> r == Ok::<ApiResponse<C>, u16>(ApiResponse::Success(c)),
        configured is None ==> r == Err::<ApiResponse<C>, u16>(SERVICE_UNAVAILABLE),
{
    match configured {
        Some(c) => Ok(ApiResponse::Success(c)),
        None => Err(SERVICE_UNAVAILABLE),
    }
}

} // verus!
