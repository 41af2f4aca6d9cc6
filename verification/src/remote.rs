//! What the daemon tells the panel.

use vstd::prelude::*;
use crate::text::{concat2, concat3, trim_trailing, without_trailing};

verus! {

/// How the panel is reached.
#[derive(Clone, Debug, PartialEq, Eq)]
pub struct RemoteConfig {
    pub enabled: bool,
    pub url: String,
    pub secret: String,
}

/// A value in the body of a message. `P` is what a caller brings along, which is passed on as
/// it is.
#[derive(Clone, Debug, PartialEq, Eq)]
pub enum Field<P> {
    Text(String),
    Missing,
    Given(P),
}

/// A value in the body of a message, by its values.
pub enum FieldValue<P> {
    Text(Seq<char>),
    Missing,
    Given(P),
}

impl<P> View for Field<P> {
    type V = FieldValue<P>;

    open spec fn view(&self) -> FieldValue<P> {
        match self {
            Field::Text(t) => FieldValue::Text(t@),
            Field::Missing => FieldValue::Missing,
            Field::Given(p) => FieldValue::Given(*p),
        }
    }
}

/// A message to the panel.
#[derive(Debug, PartialEq, Eq)]
pub struct PanelRequest<P> {
    pub url: String,
    pub content_type: String,
    pub authorization: String,
    /// The names in the body with their values.
    pub body: Vec<(String, Field<P>)>,
}

/// The values of a message to the panel.
pub struct PanelRequestValue<P> {
    pub url: Seq<char>,
    pub content_type: Seq<char>,
    pub authorization: Seq<char>,
    pub body: Seq<(Seq<char>, FieldValue<P>)>,
}

/// The values of the body of a message.
pub open spec fn body_value<P>(body: Seq<(String, Field<P>)>) -> Seq<(Seq<char>, FieldValue<P>)> {
    Seq::new(body.len(), |i: int| (body[i].0@, body[i].1@))
}

impl<P> View for PanelRequest<P> {
    type V = PanelRequestValue<P>;

    open spec fn view(&self) -> PanelRequestValue<P> {
        PanelRequestValue {
            url: self.url@,
            content_type: self.content_type@,
            authorization: self.authorization@,
            body: body_value(self.body@),
        }
    }
}

/// The values of a message that may not be sent at all.
pub open spec fn request_value<P>(request: Option<PanelRequest<P>>) -> Option<PanelRequestValue<P>> {
    match request {
        Some(r) => Some(r@),
        None => None,
    }
}

/// A text in the body of a message that may be missing.
pub open spec fn text_or_missing<P>(text: Option<Seq<char>>) -> FieldValue<P> {
    match text {
        Some(t) => FieldValue::Text(t),
        None => FieldValue::Missing,
    }
}

/// The address of a path of the panel: slashes at the end of its base do not count.
pub open spec fn panel_url(base: Seq<char>, path: Seq<char>) -> Seq<char> {
    without_trailing(base, "/"@) + path
}

/// A message to a path of the panel.
pub open spec fn posted<P>(
    cfg: RemoteConfig,
    path: Seq<char>,
    body: Seq<(Seq<char>, FieldValue<P>)>,
) -> PanelRequestValue<P> {
    PanelRequestValue {
        url: panel_url(cfg.url@, path),
        content_type: "application/json"@,
        authorization: "Bearer "@ + cfg.secret@,
        body,
    }
}

/// Tells the panel what happens.
#[derive(Clone, Debug, PartialEq, Eq)]
pub struct Remote {
    pub cfg: Option<RemoteConfig>,
}

/// The message to a path of the panel that is sent where the panel is enabled.
pub open spec fn sent<P>(
    remote: Remote,
    path: Seq<char>,
    body: Seq<(Seq<char>, FieldValue<P>)>,
) -> Option<PanelRequestValue<P>> {
    match remote.cfg {
        Some(cfg) => if cfg.enabled {
            Some(posted(cfg, path, body))
        } else {
            None
        },
        None => None,
    }
}

/// A slash at the end of the base makes no difference to where messages go.
pub proof fn law_base_may_end_with_slash(base: Seq<char>, path: Seq<char>)
    ensures
        panel_url(base + "/"@, path) == panel_url(base, path),
{
    reveal_strlit("/");
    let longer = base + "/"@;
    assert("/"@.is_suffix_of(longer)) by {
        assert(longer.subrange(longer.len() - 1, longer.len() as int) =~= "/"@);
    }
    assert(longer.take(longer.len() - 1) =~= base);
}

/// A message goes out exactly if there is a panel and it is enabled. It goes to the path behind
/// the base of the panel, which may end with slashes, as JSON, with the secret behind `Bearer` and
/// a space, and holds what it was given.
pub proof fn law_messages_reach_the_panel<P>(
    remote: Remote,
    path: Seq<char>,
    body: Seq<(Seq<char>, FieldValue<P>)>,
)
    ensures
        remote.cfg is None ==> sent(remote, path, body) is None,
        remote.cfg matches Some(cfg) ==> {
            &&& sent(remote, path, body) is Some <==> cfg.enabled
            &&& sent(remote, path, body) matches Some(m) ==> {
                &&& m.content_type == "application/json"@
                &&& m.authorization == "Bearer "@ + cfg.secret@
                &&& m.body == body
                &&& cfg.url@.len() == 0 || cfg.url@.last() != '/' ==> m.url == cfg.url@ + path
            }
        },
{
    reveal_strlit("/");
    if let Some(cfg) = remote.cfg {
        let base = cfg.url@;
        if "/"@.is_suffix_of(base) {
            assert(base.subrange(base.len() - 1, base.len() as int)[0] == '/');
        }
    }
}

/// A text in a message is told as it is, and one that is missing as missing.
pub proof fn law_missing_texts_are_told<P>(text: Seq<char>)
    ensures
        text_or_missing::<P>(Some(text)) == FieldValue::<P>::Text(text),
        text_or_missing::<P>(None) == FieldValue::<P>::Missing,
{
}

/// Two fields.
fn fields2<P>(a: String, x: Field<P>, b: String, y: Field<P>) -> (r: Vec<(String, Field<P>)>)
    ensures
        body_value(r@) == seq![(a@, x@), (b@, y@)],
{
    let mut r: Vec<(String, Field<P>)> = Vec::new();
    r.push((a, x));
    r.push((b, y));
    assert(body_value(r@) =~= seq![(a@, x@), (b@, y@)]);
    r
}

/// Three fields.
fn fields3<P>(a: String, x: Field<P>, b: String, y: Field<P>, c: String, z: Field<P>) -> (r: Vec<
    (String, Field<P>),
>)
    ensures
        body_value(r@) == seq![(a@, x@), (b@, y@), (c@, z@)],
{
    let mut r: Vec<(String, Field<P>)> = Vec::new();
    r.push((a, x));
    r.push((b, y));
    r.push((c, z));
    assert(body_value(r@) =~= seq![(a@, x@), (b@, y@), (c@, z@)]);
    r
}

impl Remote {
    /// One that reaches the panel as configured, or not at all.
    pub fn new(cfg: Option<RemoteConfig>) -> (r: Remote)
        ensures
            r.cfg == cfg,
    {
        Remote { cfg }
    }

    /// Whether anything is sent.
    pub fn is_enabled(&self) -> (r: bool)
        ensures
            r == (self.cfg is Some && self.cfg->0.enabled),
    {
        match &self.cfg {
            Some(c) => c.enabled,
            None => false,
        }
    }

    /// What messages are authorised with.
    pub fn auth_header(&self) -> (r: Option<String>)
        ensures
            r.deep_view() == match self.cfg {
                Some(c) => Some("Bearer "@ + c.secret@),
                None => None,
            },
    {
        match &self.cfg {
            Some(c) => Some(concat2("Bearer ", c.secret.as_str())),
            None => None,
        }
    }

    /// The base of the panel's addresses.
    pub fn base_url(&self) -> (r: Option<&str>)
        ensures
            r is Some <==> self.cfg is Some,
            r is Some ==> r->0@ == self.cfg->0.url@,
    {
        match &self.cfg {
            Some(c) => Some(c.url.as_str()),
            None => None,
        }
    }

    /// Makes a message to a path of the panel, unless there is no panel.
    pub fn post<P>(&self, path: &str, body: Vec<(String, Field<P>)>) -> (r: Option<PanelRequest<P>>)
        ensures
            request_value(r) == match self.cfg {
                Some(cfg) => Some(posted(cfg, path@, body_value(body@))),
                None => None,
            },
    {
        match (self.base_url(), self.auth_header()) {
            (Some(base), Some(authorization)) => {
                let bare = trim_trailing(base, "/");
                Some(
                    PanelRequest {
                        url: concat2(bare.as_str(), path),
                        content_type: "application/json".to_owned(),
                        authorization,
                        body,
                    },
                )
            },
            _ => None,
        }
    }

    /// Tells the panel of an event.
    pub fn send_event<P>(&self, name: &str, payload: P) -> (r: Option<PanelRequest<P>>)
        ensures
            request_value(r) == sent(
                *self,
                "/api/lightd/event"@,
                seq![
                    ("name"@, FieldValue::Text(name@)),
                    ("payload"@, FieldValue::Given(payload)),
                ],
            ),
    {
        if !self.is_enabled() {
            return None;
        }
        let body = fields2(
            "name".to_owned(),
            Field::Text(name.to_owned()),
            "payload".to_owned(),
            Field::Given(payload),
        );
        self.post("/api/lightd/event", body)
    }

    /// Tells the panel what state a container is in.
    pub fn send_container_state<P>(&self, container_uuid: &str, state: &str) -> (r: Option<
        PanelRequest<P>,
    >)
        ensures
            request_value(r) == sent::<P>(
                *self,
                "/api/lightd/containers/"@ + container_uuid@ + "/state"@,
                seq![
                    ("container_uuid"@, FieldValue::Text(container_uuid@)),
                    ("state"@, FieldValue::Text(state@)),
                ],
            ),
    {
        if !self.is_enabled() {
            return None;
        }
        let body = fields2(
            "container_uuid".to_owned(),
            Field::Text(container_uuid.to_owned()),
            "state".to_owned(),
            Field::Text(state.to_owned()),
        );
        let path = concat3("/api/lightd/containers/", container_uuid, "/state");
        self.post(path.as_str(), body)
    }

    /// Tells the panel how an installation or an update goes.
    pub fn send_install_status<P>(&self, container_uuid: &str, status: &str, message: Option<
        String,
    >) -> (r: Option<PanelRequest<P>>)
        ensures
            request_value(r) == sent::<P>(
                *self,
                "/api/lightd/containers/"@ + container_uuid@ + "/install_status"@,
                seq![
                    ("container_uuid"@, FieldValue::Text(container_uuid@)),
                    ("status"@, FieldValue::Text(status@)),
                    ("message"@, text_or_missing(message.deep_view())),
                ],
            ),
    {
        if !self.is_enabled() {
            return None;
        }
        let note = match message {
            Some(m) => Field::Text(m),
            None => Field::Missing,
        };
        let body = fields3(
            "container_uuid".to_owned(),
            Field::Text(container_uuid.to_owned()),
            "status".to_owned(),
            Field::Text(status.to_owned()),
            "message".to_owned(),
            note,
        );
        let path = concat3("/api/lightd/containers/", container_uuid, "/install_status");
        self.post(path.as_str(), body)
    }

    /// Tells the panel what to charge a container.
    pub fn post_ru_deduction<P>(&self, container_uuid: &str, amount: P, description: &str) -> (r:
        Option<PanelRequest<P>>)
        ensures
            request_value(r) == sent(
                *self,
                "/api/lightd/deduct"@,
                seq![
                    ("container_id"@, FieldValue::Text(container_uuid@)),
                    ("amount"@, FieldValue::Given(amount)),
                    ("description"@, FieldValue::Text(description@)),
                ],
            ),
    {
        if !self.is_enabled() {
            return None;
        }
        let body = fields3(
            "container_id".to_owned(),
            Field::Text(container_uuid.to_owned()),
            "amount".to_owned(),
            Field::Given(amount),
            "description".to_owned(),
            Field::Text(description.to_owned()),
        );
        self.post("/api/lightd/deduct", body)
    }
}

} // verus!
