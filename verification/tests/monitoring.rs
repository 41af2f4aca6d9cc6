use lightd::models::ApiResponse;
use lightd::monitoring::{
    calculate_ru_estimate, cut_history, disable_container_billing, enable_container_billing,
    get_container_billing_status, get_container_metrics, get_container_metrics_history,
    get_container_ru_breakdown, get_ru_config, get_ru_summary, get_system_metrics,
    get_system_metrics_history, parse_cpu_to_percent, parse_disk_to_gb, parse_memory_to_mb, Amount,
    BillingStatusResponse, ContainerMetricsResponse, MetricsQuery, RUEstimateRequest, Sample,
};
use lightd::time::Timestamp;

fn s(text: &str) -> String {
    text.to_string()
}

fn history() -> Vec<Sample<u32>> {
    (0..5)
        .map(|i| Sample {
            timestamp: Timestamp { secs: 1000 + 60 * i, nanos: 0 },
            metrics: i as u32,
        })
        .collect()
}

fn cut(limit: Option<usize>, since_minutes: Option<i64>) -> Vec<u32> {
    let query = MetricsQuery { limit, since_minutes };
    let now = Timestamp { secs: 1240, nanos: 0 };
    cut_history(history(), &query, &now).iter().map(|x| x.metrics).collect()
}

fn disabled<T>() -> ApiResponse<T> {
    ApiResponse::Error(s("Resource monitoring is not enabled"))
}

#[test]
fn histories_are_cut() {
    assert_eq!(cut(None, None), vec![0, 1, 2, 3, 4]);
    assert_eq!(cut(Some(2), None), vec![3, 4]);
    assert_eq!(cut(Some(9), None), vec![0, 1, 2, 3, 4]);
    assert_eq!(cut(Some(0), None), Vec::<u32>::new());
    assert_eq!(cut(None, Some(2)), vec![2, 3, 4]);
    assert_eq!(cut(Some(2), Some(3)), vec![3, 4]);
    assert_eq!(cut(Some(4), Some(1)), vec![3, 4]);
    assert_eq!(cut(None, Some(-1)), Vec::<u32>::new());
}

#[test]
fn samples_out_of_order_are_kept_in_place() {
    let history = vec![
        Sample { timestamp: Timestamp { secs: 900, nanos: 0 }, metrics: 'a' },
        Sample { timestamp: Timestamp { secs: 100, nanos: 0 }, metrics: 'b' },
        Sample { timestamp: Timestamp { secs: 700, nanos: 0 }, metrics: 'c' },
    ];
    let query = MetricsQuery { limit: None, since_minutes: Some(5) };
    let kept = cut_history(history, &query, &Timestamp { secs: 1000, nanos: 0 });
    let names: Vec<char> = kept.iter().map(|x| x.metrics).collect();
    assert_eq!(names, vec!['a', 'c']);
}

#[test]
fn histories_are_answered() {
    let query = MetricsQuery { limit: Some(1), since_minutes: None };
    let now = Timestamp { secs: 0, nanos: 0 };
    match get_system_metrics_history(Some(history()), &query, &now) {
        ApiResponse::Success(h) => assert_eq!(h[0].metrics, 4),
        other => panic!("{:?}", other),
    }
    assert_eq!(get_system_metrics_history::<u32>(None, &query, &now), disabled());
    match get_container_metrics_history("c", Some(Some(history())), &query, &now) {
        ApiResponse::Success(h) => assert_eq!(h.len(), 1),
        other => panic!("{:?}", other),
    }
    assert_eq!(
        get_container_metrics_history::<u32>("c", Some(None), &query, &now),
        ApiResponse::Error(s("No metrics found for container: c"))
    );
    assert_eq!(get_container_metrics_history::<u32>("c", None, &query, &now), disabled());
}

#[test]
fn metrics_are_answered() {
    assert_eq!(get_system_metrics(Some(7)), ApiResponse::Success(7));
    assert_eq!(get_system_metrics::<u32>(None), disabled());
    assert_eq!(get_ru_summary(Some(7)), ApiResponse::Success(7));
    assert_eq!(get_ru_summary::<u32>(None), disabled());
    assert_eq!(
        get_container_metrics(Some((Some(1), None::<u8>))),
        ApiResponse::Success(ContainerMetricsResponse { current_metrics: Some(1), ru_history: None })
    );
    assert_eq!(get_container_metrics::<u8, u8>(None), disabled());
    assert_eq!(get_container_ru_breakdown("c", Some(Some(3))), ApiResponse::Success(3));
    assert_eq!(
        get_container_ru_breakdown::<u8>("c", Some(None)),
        ApiResponse::Error(s("No RU history found for container: c"))
    );
    assert_eq!(get_container_ru_breakdown::<u8>("c", None), disabled());
    assert_eq!(get_ru_config(Some(5)), Ok(ApiResponse::Success(5)));
    assert_eq!(get_ru_config::<u8>(None), Err(503));
}

#[test]
fn billing_is_switched() {
    let answer = |enabled: bool, message: &str| {
        ApiResponse::Success(BillingStatusResponse {
            container_uuid: s("u"),
            billing_enabled: enabled,
            message: s(message),
        })
    };
    assert_eq!(
        enable_container_billing(s("u"), true),
        answer(true, "Billing enabled for container")
    );
    assert_eq!(
        disable_container_billing(s("u"), true),
        answer(false, "Billing disabled for container")
    );
    assert_eq!(
        get_container_billing_status(s("u"), Some(false)),
        answer(true, "Billing is active")
    );
    assert_eq!(
        get_container_billing_status(s("u"), Some(true)),
        answer(false, "Billing is disabled")
    );
    assert_eq!(enable_container_billing(s("u"), false), disabled());
    assert_eq!(disable_container_billing(s("u"), false), disabled());
    assert_eq!(get_container_billing_status(s("u"), None), disabled());
}

fn amount(number: &str, fallback: u32, times: u32, over: u32) -> Amount {
    Amount { number: s(number), fallback, times, over }
}

/// What an amount comes to.
fn value(a: &Amount) -> f64 {
    a.number.parse::<f64>().unwrap_or(a.fallback as f64) * a.times as f64 / a.over as f64
}

#[test]
fn amounts_are_read() {
    assert_eq!(parse_cpu_to_percent("50%"), amount("50", 100, 1, 1));
    assert_eq!(parse_cpu_to_percent("50%%"), amount("50", 100, 1, 1));
    assert_eq!(parse_cpu_to_percent("0.5"), amount("0.5", 1, 100, 1));
    assert_eq!(parse_memory_to_mb("2G"), amount("2", 1, 1024, 1));
    assert_eq!(parse_memory_to_mb("512m"), amount("512", 1024, 1, 1));
    assert_eq!(parse_memory_to_mb("512"), amount("512", 1024, 1, 1));
    assert_eq!(parse_memory_to_mb("x"), amount("x", 1024, 1, 1));
    assert_eq!(parse_disk_to_gb("10g"), amount("10", 10, 1, 1));
    assert_eq!(parse_disk_to_gb("1T"), amount("1", 1, 1024, 1));
    assert_eq!(parse_disk_to_gb("10240M"), amount("10240", 10240, 1, 1024));
    assert_eq!(parse_disk_to_gb("5120"), amount("5120", 10240, 1, 1024));
}

#[test]
fn amounts_come_to_what_they_say() {
    assert_eq!(value(&parse_cpu_to_percent("50%")), 50.0);
    assert_eq!(value(&parse_cpu_to_percent("0.5")), 50.0);
    assert_eq!(value(&parse_memory_to_mb("2g")), 2048.0);
    assert_eq!(value(&parse_disk_to_gb("512m")), 0.5);
    assert_eq!(value(&parse_disk_to_gb("2t")), 2048.0);
}

#[test]
fn unreadable_amounts_fall_back() {
    assert_eq!(value(&parse_cpu_to_percent("lots")), 100.0);
    assert_eq!(value(&parse_cpu_to_percent("lots%")), 100.0);
    for memory in ["", "lots", "manyg", "somem"] {
        assert_eq!(value(&parse_memory_to_mb(memory)), 1024.0);
    }
    for disk in ["", "lots", "manyg", "somem"] {
        assert_eq!(value(&parse_disk_to_gb(disk)), 10.0);
    }
    assert_eq!(value(&parse_disk_to_gb("?t")), 1024.0);
}

#[test]
fn estimates_need_a_configuration() {
    let request = RUEstimateRequest { cpu: s("200%"), memory: s("4G"), disk: s("20g") };
    let amounts = calculate_ru_estimate(true, &request).unwrap();
    assert_eq!(amounts.cpu_percent, amount("200", 100, 1, 1));
    assert_eq!(amounts.memory_mb, amount("4", 1, 1024, 1));
    assert_eq!(amounts.disk_gb, amount("20", 10, 1, 1));
    assert_eq!(calculate_ru_estimate(false, &request), Err(503));
}
