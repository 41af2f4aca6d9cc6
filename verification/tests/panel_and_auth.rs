use lightd::auth::{
    auth_middleware, unauthorized_response, AuthDecision, AuthState, AuthorizationConfig, Rejection,
};
use lightd::remote::{Field, PanelRequest, Remote, RemoteConfig};

fn s(text: &str) -> String {
    text.to_string()
}

fn remote(enabled: bool, url: &str) -> Remote {
    Remote::new(Some(RemoteConfig { enabled, url: s(url), secret: s("hush") }))
}

fn to_panel(path: &str, body: Vec<(&str, Field<f64>)>) -> Option<PanelRequest<f64>> {
    Some(PanelRequest {
        url: format!("https://panel.example{}", path),
        content_type: s("application/json"),
        authorization: s("Bearer hush"),
        body: body.into_iter().map(|(n, v)| (s(n), v)).collect(),
    })
}

fn text(value: &str) -> Field<f64> {
    Field::Text(s(value))
}

#[test]
fn events_are_sent() {
    assert_eq!(
        remote(true, "https://panel.example").send_event("started", 1.5),
        to_panel(
            "/api/lightd/event",
            vec![("name", text("started")), ("payload", Field::Given(1.5))]
        )
    );
}

#[test]
fn states_are_sent() {
    assert_eq!(
        remote(true, "https://panel.example").send_container_state("u-1", "running"),
        to_panel(
            "/api/lightd/containers/u-1/state",
            vec![("container_uuid", text("u-1")), ("state", text("running"))]
        )
    );
}

#[test]
fn install_statuses_are_sent() {
    let r = remote(true, "https://panel.example");
    assert_eq!(
        r.send_install_status("u-1", "failed", Some(s("no space"))),
        to_panel(
            "/api/lightd/containers/u-1/install_status",
            vec![
                ("container_uuid", text("u-1")),
                ("status", text("failed")),
                ("message", text("no space")),
            ]
        )
    );
    assert_eq!(
        r.send_install_status("u-1", "done", None),
        to_panel(
            "/api/lightd/containers/u-1/install_status",
            vec![
                ("container_uuid", text("u-1")),
                ("status", text("done")),
                ("message", Field::Missing),
            ]
        )
    );
}

#[test]
fn deductions_are_sent() {
    assert_eq!(
        remote(true, "https://panel.example").post_ru_deduction("u-1", 0.25, "hourly"),
        to_panel(
            "/api/lightd/deduct",
            vec![
                ("container_id", text("u-1")),
                ("amount", Field::Given(0.25)),
                ("description", text("hourly")),
            ]
        )
    );
}

#[test]
fn slashes_at_the_end_of_the_base_do_not_count() {
    let plain = remote(true, "https://panel.example").send_event("e", 0.0);
    assert_eq!(remote(true, "https://panel.example/").send_event("e", 0.0), plain);
    assert_eq!(remote(true, "https://panel.example///").send_event("e", 0.0), plain);
}

#[test]
fn nothing_is_sent_unless_enabled() {
    for r in [remote(false, "https://panel.example"), Remote::new(None)] {
        assert!(!r.is_enabled());
        assert!(r.send_event("e", 0.0).is_none());
        assert!(r.send_container_state::<f64>("u", "s").is_none());
        assert!(r.send_install_status::<f64>("u", "s", None).is_none());
        assert!(r.post_ru_deduction("u", 1.0, "d").is_none());
    }
    assert!(remote(true, "x").is_enabled());
    assert!(Remote::new(None).post::<f64>("/x", vec![]).is_none());
    assert!(remote(false, "x").post::<f64>("/x", vec![]).is_some());
    assert_eq!(remote(false, "x").base_url(), Some("x"));
    assert_eq!(remote(false, "x").auth_header(), Some(s("Bearer hush")));
    assert_eq!(Remote::new(None).base_url(), None);
    assert_eq!(Remote::new(None).auth_header(), None);
}

fn auth(enabled: bool, token: &str) -> AuthState {
    AuthState::new(AuthorizationConfig { enabled, token: s(token) })
}

fn rejected(message: &str) -> AuthDecision {
    AuthDecision::Reject(Rejection { status: 401, error: s("Unauthorized"), message: s(message) })
}

#[test]
fn the_token_lets_in() {
    let a = auth(true, "t0ken");
    assert_eq!(auth_middleware(&a, Some("Bearer t0ken")), AuthDecision::Pass);
    assert_eq!(auth_middleware(&a, Some("t0ken")), AuthDecision::Pass);
}

#[test]
fn nothing_else_lets_in() {
    let a = auth(true, "t0ken");
    let invalid = rejected("Invalid authorization token");
    for header in ["", "Bearer ", "bearer t0ken", "Bearer  t0ken", "Bearer Bearer t0ken", "t0ken "] {
        assert_eq!(auth_middleware(&a, Some(header)), invalid);
    }
    assert_eq!(auth_middleware(&a, None), rejected("Missing Authorization header"));
    let odd = auth(true, "Bearer x");
    assert_eq!(auth_middleware(&odd, Some("Bearer x")), invalid);
    assert_eq!(auth_middleware(&odd, Some("Bearer Bearer x")), AuthDecision::Pass);
}

#[test]
fn everybody_is_let_in_where_nothing_is_checked() {
    let a = auth(false, "t0ken");
    assert_eq!(auth_middleware(&a, None), AuthDecision::Pass);
    assert_eq!(auth_middleware(&a, Some("wrong")), AuthDecision::Pass);
}

#[test]
fn rejections_say_why() {
    assert_eq!(
        unauthorized_response("no"),
        Rejection { status: 401, error: s("Unauthorized"), message: s("no") }
    );
}
