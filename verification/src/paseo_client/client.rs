//! The session with a daemon: which requests wait for an answer, which terminals are followed, and
//! what each message means.
use crate::collections::{ByteSet, TextMap, TextSet};
use crate::json;
use crate::json::{Json, JsonModel, ObjectBuilder};
use crate::paseo_client::binary_frames;
use crate::paseo_client::binary_frames::Opcode;
use crate::paseo_client::envelope;
use crate::paseo_client::error::{ErrorModel, PaseoError};
use crate::paseo_client::events::{StreamModel, TerminalStreamEvent};
use crate::paseo_client::protocol::agents;
use crate::paseo_client::protocol::terminals;
use crate::paseo_client::protocol::workspaces;
use crate::paseo_client::transport::Frame;
use crate::text;
use vstd::prelude::*;

verus! {

/// Whether the character is a hexadecimal digit, in lower case.
pub open spec fn is_hex(c: char) -> bool {
    ('0' <= c <= '9') || ('a' <= c <= 'f')
}

/// Whether the text is laid out as a random UUID: hexadecimal digits with hyphens after 8, 12, 16 and
/// 20 of them. The thirteenth digit is the version, 4, and the seventeenth begins with the bits `10`.
pub open spec fn is_uuid(s: Seq<char>) -> bool {
    &&& s.len() == 36
    &&& s[14] == '4'
    &&& s[19] == '8' || s[19] == '9' || s[19] == 'a' || s[19] == 'b'
    &&& forall|i: int|
        0 <= i < 36 ==> if i == 8 || i == 13 || i == 18 || i == 23 {
            #[trigger] s[i] == '-'
        } else {
            is_hex(s[i])
        }
}

/// `uuid::Uuid::new_v4` in its hyphenated form. Which UUID it is depends on chance.
#[verifier::external_body]
fn random_uuid() -> (r: String)
    ensures
        is_uuid(r@),
{
    uuid::Uuid::new_v4().to_string()
}

/// A fresh name for a request or a subscription.
pub fn new_id() -> (r: String)
    ensures
        is_uuid(r@),
{
    random_uuid()
}

/// What a message of the session asks the client to do.
#[derive(Debug)]
pub enum SessionAction {
    Nothing,
    /// The request failed.
    Fail { request_id: String, message: String },
    /// The request is answered.
    Reply { request_id: String, payload: Json },
    /// An agent appeared, changed or went.
    AgentUpdate { payload: Json },
    /// An agent did something.
    AgentStream { agent_id: String, event: Json },
    /// An agent asks for permission.
    PermissionRequest { agent_id: String, request: Json },
    /// These are the terminals now.
    TerminalsChanged { terminals: Vec<Json> },
    /// A terminal ended.
    TerminalExit { terminal_id: String },
    /// The diff of a checkout changed.
    CheckoutDiff { payload: Json },
}

/// What a [`SessionAction`] says.
#[verifier::ext_equal]
pub enum ActionModel {
    Nothing,
    Fail { request_id: Seq<char>, message: Seq<char> },
    Reply { request_id: Seq<char>, payload: JsonModel },
    AgentUpdate { payload: JsonModel },
    AgentStream { agent_id: Seq<char>, event: JsonModel },
    PermissionRequest { agent_id: Seq<char>, request: JsonModel },
    TerminalsChanged { terminals: Seq<JsonModel> },
    TerminalExit { terminal_id: Seq<char> },
    CheckoutDiff { payload: JsonModel },
}

impl View for SessionAction {
    type V = ActionModel;

    open spec fn view(&self) -> ActionModel {
        match self {
            SessionAction::Nothing => ActionModel::Nothing,
            SessionAction::Fail { request_id, message } => ActionModel::Fail {
                request_id: request_id@,
                message: message@,
            },
            SessionAction::Reply { request_id, payload } => ActionModel::Reply {
                request_id: request_id@,
                payload: payload@,
            },
            SessionAction::AgentUpdate { payload } => ActionModel::AgentUpdate {
                payload: payload@,
            },
            SessionAction::AgentStream { agent_id, event } => ActionModel::AgentStream {
                agent_id: agent_id@,
                event: event@,
            },
            SessionAction::PermissionRequest { agent_id, request } => {
                ActionModel::PermissionRequest { agent_id: agent_id@, request: request@ }
            },
            SessionAction::TerminalsChanged { terminals } => ActionModel::TerminalsChanged {
                terminals: json::models(terminals@),
            },
            SessionAction::TerminalExit { terminal_id } => ActionModel::TerminalExit {
                terminal_id: terminal_id@,
            },
            SessionAction::CheckoutDiff { payload } => ActionModel::CheckoutDiff {
                payload: payload@,
            },
        }
    }
}

/// The text, or the given one where there is none.
pub open spec fn text_or(s: Option<Seq<char>>, default: Seq<char>) -> Seq<char> {
    match s {
        Some(s) => s,
        None => default,
    }
}

/// The payload of a message, `null` where it has none.
pub open spec fn payload_of(message: JsonModel) -> JsonModel {
    envelope::or_null(json::member(message, "payload"@))
}

/// What the message asks for when no request waits for it, by its type.
pub open spec fn announced(message: JsonModel) -> ActionModel {
    let ty = envelope::message_type(message);
    let payload = payload_of(message);
    let agent_id = text_or(json::text_member(payload, "agentId"@), ""@);
    if ty == "agent_update"@ {
        ActionModel::AgentUpdate { payload }
    } else if ty == "agent_stream"@ {
        match json::member(payload, "event"@) {
            Some(event) => ActionModel::AgentStream { agent_id, event },
            None => ActionModel::Nothing,
        }
    } else if ty == "agent_permission_request"@ {
        match json::member(payload, "request"@) {
            Some(request) => ActionModel::PermissionRequest { agent_id, request },
            None => ActionModel::Nothing,
        }
    } else if ty == "terminals_changed"@ {
        ActionModel::TerminalsChanged { terminals: terminals::entries_of(payload, "terminals"@) }
    } else if ty == "terminal_stream_exit"@ {
        match json::text_member(payload, "terminalId"@) {
            Some(terminal_id) => ActionModel::TerminalExit { terminal_id },
            None => ActionModel::Nothing,
        }
    } else if ty == "checkout_diff_update"@ {
        ActionModel::CheckoutDiff { payload }
    } else {
        ActionModel::Nothing
    }
}

/// What the message asks for: a message that a request waits for is its answer, whatever its type.
pub open spec fn routed(pending: Set<Seq<char>>, message: JsonModel) -> ActionModel {
    let payload = payload_of(message);
    match envelope::request_id_of(message) {
        Some(request_id) => if pending.contains(request_id) {
            if envelope::message_type(message) == "rpc_error"@ {
                ActionModel::Fail {
                    request_id,
                    message: text_or(json::text_member(payload, "error"@), "rpc error"@),
                }
            } else {
                ActionModel::Reply { request_id, payload }
            }
        } else {
            announced(message)
        },
        None => announced(message),
    }
}

/// The requests that wait once the message has arrived.
pub open spec fn pending_after(pending: Set<Seq<char>>, message: JsonModel) -> Set<Seq<char>> {
    match envelope::request_id_of(message) {
        Some(request_id) => pending.remove(request_id),
        None => pending,
    }
}

/// The slots of the terminals once the action is taken: one that ended has none.
pub open spec fn slots_after(slots: Map<Seq<char>, u8>, action: ActionModel) -> Map<Seq<char>, u8> {
    match action {
        ActionModel::TerminalExit { terminal_id } => slots.remove(terminal_id),
        _ => slots,
    }
}

/// The slots that are followed once the action is taken: that of a terminal that ended is not.
pub open spec fn streams_after(
    slots: Map<Seq<char>, u8>,
    streams: Set<u8>,
    action: ActionModel,
) -> Set<u8> {
    match action {
        ActionModel::TerminalExit { terminal_id } => if slots.contains_key(terminal_id) {
            streams.remove(slots[terminal_id])
        } else {
            streams
        },
        _ => streams,
    }
}

/// What a binary message brings, and for which slot: nothing where it is no terminal frame, where the
/// slot is not followed, or where the frame is one that only clients send. A snapshot that is no JSON
/// counts as `null`.
pub open spec fn streamed(streams: Set<u8>, data: Seq<u8>) -> Option<(u8, StreamModel)> {
    match binary_frames::decoded(data) {
        None => None,
        Some(frame) => if !streams.contains(frame.slot) {
            None
        } else {
            match frame.opcode {
                Opcode::Output => Some((frame.slot, StreamModel::Output(frame.payload))),
                Opcode::Restore => Some((frame.slot, StreamModel::Restore(frame.payload))),
                Opcode::Snapshot => Some(
                    (
                        frame.slot,
                        StreamModel::Snapshot(
                            match json::json_bytes_parsed(frame.payload) {
                                Ok(value) => value,
                                Err(_) => JsonModel::Null,
                            },
                        ),
                    ),
                ),
                Opcode::Input | Opcode::Resize => None,
            }
        },
    }
}

/// The session with a daemon: the requests that wait for an answer, the slot of each terminal that was
/// subscribed to, and the slots that are followed.
pub struct Session {
    pub pending: TextSet,
    pub slots: TextMap<u8>,
    pub streams: ByteSet,
}

/// A request on its way out.
#[derive(Debug)]
pub struct Outgoing {
    pub request_id: String,
    pub text: String,
}

fn member_text_or(value: &Json, key: &str, default: &str) -> (r: String)
    ensures
        r@ == text_or(json::text_member(value@, key@), default@),
{
    match value.get_text(key) {
        Some(s) => s,
        None => default.to_owned(),
    }
}

/// Whether a reader of the text finds the message in the envelope of the session.
pub open spec fn arrives_as(text: Seq<char>, message: JsonModel) -> bool {
    json::json_parsed(text) matches Ok(value) && envelope::incoming_of(value)
        == envelope::IncomingModel::Session(message)
}

/// The text that carries a message of the session. Its reader finds the message in it, where that
/// holds no double and is not nested too deep.
pub fn session_text(message: Json) -> (r: String)
    ensures
        r@ == json::json_rendered(envelope::enveloped(message@)),
        json::is_exact(message@, 119) ==> arrives_as(r@, message@),
{
    let ghost inner = message@;
    let whole = envelope::session_envelope(message);
    proof {
        envelope::envelopes_open(inner);
        if json::is_exact(inner, 119) {
            assert(json::is_exact(JsonModel::Text("session"@), 119));
            assert(json::is_exact(whole@, 120));
        }
    }
    whole.write()
}

impl Session {
    /// A session in which nothing was asked yet.
    pub fn new() -> (r: Session)
        ensures
            r.pending@ == Set::<Seq<char>>::empty(),
            r.slots@ == Map::<Seq<char>, u8>::empty(),
            r.streams@ == Set::<u8>::empty(),
    {
        Session { pending: TextSet::new(), slots: TextMap::new(), streams: ByteSet::new() }
    }

    /// The text of a request, which now waits for its answer; a request without an identifier is
    /// refused.
    pub fn begin_request(&mut self, message: Json) -> (r: Result<Outgoing, PaseoError>)
        ensures
            final(self).slots == old(self).slots,
            final(self).streams == old(self).streams,
            match json::text_member(message@, "requestId"@) {
                None => final(self).pending@ == old(self).pending@ && (r matches Err(e) && e@
                    == ErrorModel::Protocol("request missing requestId"@)),
                Some(id) => final(self).pending@ == old(self).pending@.insert(id) && (
                r matches Ok(o) && o.request_id@ == id && o.text@ == json::json_rendered(
                    envelope::enveloped(message@),
                ) && (json::is_exact(message@, 119) ==> arrives_as(o.text@, message@))),
            },
    {
        let request_id = match message.get_text("requestId") {
            Some(id) => id,
            None => return Err(PaseoError::Protocol("request missing requestId".to_owned())),
        };
        let _ = self.pending.insert(request_id.as_str());
        let text = session_text(message);
        Ok(Outgoing { request_id, text })
    }

    /// The request no longer waits: it could not be sent.
    pub fn cancel_request(&mut self, request_id: &str)
        ensures
            final(self).pending@ == old(self).pending@.remove(request_id@),
            final(self).slots == old(self).slots,
            final(self).streams == old(self).streams,
    {
        let _ = self.pending.remove(request_id);
    }

    /// What a message of the session asks for. The request that it answers no longer waits, and a
    /// terminal that ended is no longer followed.
    pub fn dispatch_session(&mut self, message: &Json) -> (r: SessionAction)
        ensures
            r@ == routed(old(self).pending@, message@),
            final(self).pending@ == pending_after(old(self).pending@, message@),
            final(self).slots@ == slots_after(old(self).slots@, r@),
            final(self).streams@ == streams_after(old(self).slots@, old(self).streams@, r@),
    {
        let ty = envelope::session_message_type(message);
        let payload = envelope::member_or_null(message, "payload");
        if let Some(request_id) = envelope::session_request_id(message) {
            if self.pending.remove(request_id.as_str()) {
                if text::same(ty, "rpc_error") {
                    let message = member_text_or(&payload, "error", "rpc error");
                    return SessionAction::Fail { request_id, message };
                }
                return SessionAction::Reply { request_id, payload };
            }
        }
        if text::same(ty, "agent_update") {
            return SessionAction::AgentUpdate { payload };
        }
        if text::same(ty, "agent_stream") {
            let agent_id = member_text_or(&payload, "agentId", "");
            return match payload.get("event") {
                Some(event) => SessionAction::AgentStream { agent_id, event: event.copy() },
                None => SessionAction::Nothing,
            };
        }
        if text::same(ty, "agent_permission_request") {
            let agent_id = member_text_or(&payload, "agentId", "");
            return match payload.get("request") {
                Some(request) => SessionAction::PermissionRequest {
                    agent_id,
                    request: request.copy(),
                },
                None => SessionAction::Nothing,
            };
        }
        if text::same(ty, "terminals_changed") {
            return SessionAction::TerminalsChanged {
                terminals: terminals::terminal_entries(&payload),
            };
        }
        if text::same(ty, "terminal_stream_exit") {
            return match payload.get_text("terminalId") {
                Some(terminal_id) => {
                    if let Some(slot) = self.slots.remove(terminal_id.as_str()) {
                        self.streams.remove(slot);
                    }
                    SessionAction::TerminalExit { terminal_id }
                },
                None => SessionAction::Nothing,
            };
        }
        if text::same(ty, "checkout_diff_update") {
            return SessionAction::CheckoutDiff { payload };
        }
        SessionAction::Nothing
    }

    /// What a binary message brings, and for which slot.
    pub fn dispatch_binary(&self, data: &[u8]) -> (r: Option<(u8, TerminalStreamEvent)>)
        ensures
            match streamed(self.streams@, data@) {
                Some((slot, event)) => r matches Some((s, e)) && s == slot && e@ == event,
                None => r is None,
            },
    {
        let frame = match binary_frames::decode(data) {
            Some(frame) => frame,
            None => return None,
        };
        if !self.streams.contains(frame.slot) {
            return None;
        }
        match frame.opcode {
            Opcode::Output => Some((frame.slot, TerminalStreamEvent::Output(frame.payload))),
            Opcode::Restore => Some((frame.slot, TerminalStreamEvent::Restore(frame.payload))),
            Opcode::Snapshot => {
                let snapshot = match Json::read_bytes(&frame.payload) {
                    Ok(value) => value,
                    Err(_) => Json::Null,
                };
                Some((frame.slot, TerminalStreamEvent::Snapshot(snapshot)))
            },
            Opcode::Input => None,
            Opcode::Resize => None,
        }
    }

    /// Follows the terminal in the slot that the daemon's answer names.
    pub fn subscribed(&mut self, terminal_id: &str, payload: &Json) -> (r: Result<u8, PaseoError>)
        ensures
            final(self).pending == old(self).pending,
            match terminals::subscribe_slot(payload@) {
                Ok(slot) => (r matches Ok(s) && s == slot) && final(self).streams@ == old(
                    self,
                ).streams@.insert(slot) && final(self).slots@ == old(self).slots@.insert(
                    terminal_id@,
                    slot,
                ),
                Err(e) => (r matches Err(x) && x@ == e) && final(self).streams == old(self).streams
                    && final(self).slots == old(self).slots,
            },
    {
        match terminals::parse_subscribe_slot(payload) {
            Ok(slot) => {
                self.streams.insert(slot);
                self.slots.insert(terminal_id, slot);
                Ok(slot)
            },
            Err(e) => Err(e),
        }
    }

    /// No longer follows the slot.
    pub fn unsubscribed(&mut self, slot: u8)
        ensures
            final(self).pending == old(self).pending,
            final(self).slots == old(self).slots,
            final(self).streams@ == old(self).streams@.remove(slot),
    {
        self.streams.remove(slot);
    }

    /// The connection ended: no terminal is followed any more.
    pub fn disconnected(&mut self)
        ensures
            final(self).pending == old(self).pending,
            final(self).slots@ == Map::<Seq<char>, u8>::empty(),
            final(self).streams@ == Set::<u8>::empty(),
    {
        self.slots.clear();
        self.streams = ByteSet::new();
    }
}

/// What a message that arrived asks for.
#[derive(Debug)]
pub enum Dispatched {
    Nothing,
    Session(SessionAction),
    Stream { slot: u8, event: TerminalStreamEvent },
}

impl Session {
    /// What a message that arrived asks for: text is a message of the session or of no account, and
    /// bytes are a terminal frame.
    pub fn dispatch(&mut self, frame: Frame) -> (r: Dispatched)
        ensures
            match frame {
                Frame::Json(t) => match json::json_parsed(t@) {
                    Ok(value) => match envelope::incoming_of(value) {
                        envelope::IncomingModel::Session(message) => {
                            let action = routed(old(self).pending@, message);
                            &&& r matches Dispatched::Session(a) && a@ == action
                            &&& final(self).pending@ == pending_after(old(self).pending@, message)
                            &&& final(self).slots@ == slots_after(old(self).slots@, action)
                            &&& final(self).streams@ == streams_after(
                                old(self).slots@,
                                old(self).streams@,
                                action,
                            )
                        },
                        _ => r is Nothing && *final(self) == *old(self),
                    },
                    Err(_) => r is Nothing && *final(self) == *old(self),
                },
                Frame::Binary(b) => *final(self) == *old(self) && match streamed(
                    old(self).streams@,
                    b@,
                ) {
                    Some((slot, event)) => r matches Dispatched::Stream { slot: s, event: e } && s
                        == slot && e@ == event,
                    None => r is Nothing,
                },
            },
    {
        match frame {
            Frame::Json(t) => match envelope::parse_top_level(t.as_str()) {
                Ok(envelope::Incoming::Session(message)) => Dispatched::Session(
                    self.dispatch_session(&message),
                ),
                Ok(_) => Dispatched::Nothing,
                Err(_) => Dispatched::Nothing,
            },
            Frame::Binary(data) => match self.dispatch_binary(&data) {
                Some((slot, event)) => Dispatched::Stream { slot, event },
                None => Dispatched::Nothing,
            },
        }
    }
}

/// A request that waits is answered by the first message with its identifier, and by no other.
pub proof fn requests_are_answered_once(pending: Set<Seq<char>>, id: Seq<char>, message: JsonModel)
    requires
        envelope::request_id_of(message) == Some(id),
    ensures
        match routed(pending.insert(id), message) {
            ActionModel::Fail { request_id, .. } => request_id == id,
            ActionModel::Reply { request_id, .. } => request_id == id,
            _ => false,
        },
        !pending_after(pending.insert(id), message).contains(id),
        routed(pending_after(pending.insert(id), message), message) == announced(message),
{
}

/// A message leaves every request waiting that it does not answer.
pub proof fn other_requests_keep_waiting(
    pending: Set<Seq<char>>,
    id: Seq<char>,
    message: JsonModel,
)
    requires
        envelope::request_id_of(message) != Some(id),
    ensures
        pending_after(pending, message).contains(id) == pending.contains(id),
{
}

/// The answer where it carries no error text, else that error.
pub open spec fn error_in(payload: JsonModel) -> Option<ErrorModel> {
    match json::text_member(payload, "error"@) {
        Some(e) => Some(ErrorModel::Rpc(e)),
        None => None,
    }
}

/// The request for a new agent: what is not given is left out.
pub fn create_agent_request(
    request_id: &str,
    provider: &str,
    cwd: &str,
    workspace_id: Option<&str>,
    initial_prompt: Option<&str>,
) -> (r: Json)
    ensures
        r@ == JsonModel::Object(
            agents::with_text(
                agents::with_text(
                    map![
                        "type"@ => JsonModel::Text("create_agent_request"@),
                        "requestId"@ => JsonModel::Text(request_id@),
                        "config"@ => JsonModel::Object(
                            map![
                                "provider"@ => JsonModel::Text(provider@),
                                "cwd"@ => JsonModel::Text(cwd@),
                            ],
                        ),
                        "labels"@ => JsonModel::Object(Map::empty()),
                    ],
                    "workspaceId"@,
                    workspaces::opt_str(workspace_id),
                ),
                "initialPrompt"@,
                workspaces::opt_str(initial_prompt),
            ),
        ),
{
    let config = ObjectBuilder::new().with("provider", Json::text(provider)).with(
        "cwd",
        Json::text(cwd),
    ).build();
    let msg = ObjectBuilder::new().with("type", Json::text("create_agent_request")).with(
        "requestId",
        Json::text(request_id),
    ).with("config", config).with("labels", ObjectBuilder::new().build());
    let msg = match workspace_id {
        Some(id) => msg.with("workspaceId", Json::text(id)),
        None => msg,
    };
    match initial_prompt {
        Some(prompt) => msg.with("initialPrompt", Json::text(prompt)).build(),
        None => msg.build(),
    }
}

/// The request to open a project.
pub fn open_project_request(request_id: &str, cwd: &str) -> (r: Json)
    ensures
        r@ == JsonModel::Object(
            map![
                "type"@ => JsonModel::Text("open_project_request"@),
                "cwd"@ => JsonModel::Text(cwd@),
                "requestId"@ => JsonModel::Text(request_id@),
            ],
        ),
{
    ObjectBuilder::new().with("type", Json::text("open_project_request")).with(
        "cwd",
        Json::text(cwd),
    ).with("requestId", Json::text(request_id)).build()
}

/// A copy of the member `key` of an answer, or the error that it is missing.
fn required_member(payload: &Json, key: &str, missing: &str) -> (r: Result<Json, PaseoError>)
    ensures
        match json::member(payload@, key@) {
            Some(value) => r matches Ok(j) && j@ == value,
            None => r matches Err(e) && e@ == ErrorModel::Protocol(missing@),
        },
{
    match payload.get(key) {
        Some(value) => Ok(value.copy()),
        None => Err(PaseoError::Protocol(missing.to_owned())),
    }
}

/// The agent in the answer to a request for it.
pub fn fetch_agent_reply(payload: &Json) -> (r: Result<Json, PaseoError>)
    ensures
        match json::member(payload@, "agent"@) {
            Some(agent) => r matches Ok(j) && j@ == agent,
            None => r matches Err(e) && e@ == ErrorModel::Protocol("fetch_agent missing agent"@),
        },
{
    required_member(payload, "agent", "fetch_agent missing agent")
}

/// The agent in the answer to a request for a new one.
pub open spec fn created_agent(payload: JsonModel) -> Result<JsonModel, ErrorModel> {
    if json::text_member(payload, "status"@) == Some("agent_created"@) {
        match json::member(payload, "agent"@) {
            Some(agent) => Ok(agent),
            None => Err(ErrorModel::Protocol("agent_created missing agent"@)),
        }
    } else {
        Err(ErrorModel::Rpc(text_or(json::text_member(payload, "error"@), "create_agent failed"@)))
    }
}

/// The agent in the answer to a request for a new one.
pub fn create_agent_reply(payload: &Json) -> (r: Result<Json, PaseoError>)
    ensures
        match created_agent(payload@) {
            Ok(agent) => r matches Ok(j) && j@ == agent,
            Err(e) => r matches Err(x) && x@ == e,
        },
{
    let created = match payload.get_text("status") {
        Some(status) => text::same(status.as_str(), "agent_created"),
        None => false,
    };
    if created {
        required_member(payload, "agent", "agent_created missing agent")
    } else {
        Err(PaseoError::Rpc(member_text_or(payload, "error", "create_agent failed")))
    }
}

/// The terminal in the answer to a request for a new one.
pub fn create_terminal_reply(payload: &Json) -> (r: Result<Json, PaseoError>)
    ensures
        match error_in(payload@) {
            Some(e) => r matches Err(x) && x@ == e,
            None => match json::member(payload@, "terminal"@) {
                Some(terminal) => r matches Ok(j) && j@ == terminal,
                None => r matches Err(e) && e@ == ErrorModel::Protocol(
                    "create_terminal_response missing terminal"@,
                ),
            },
        },
{
    if let Some(error) = payload.get_text("error") {
        return Err(PaseoError::Rpc(error));
    }
    required_member(payload, "terminal", "create_terminal_response missing terminal")
}

fn required_text(found: Option<&Json>, missing: &str) -> (r: Result<String, PaseoError>)
    ensures
        match json::text_in(json::opt_model(found)) {
            Some(s) => r matches Ok(t) && t@ == s,
            None => r matches Err(e) && e@ == ErrorModel::Protocol(missing@),
        },
{
    match found {
        Some(j) => match j.as_text() {
            Some(s) => Ok(s.to_owned()),
            None => Err(PaseoError::Protocol(missing.to_owned())),
        },
        None => Err(PaseoError::Protocol(missing.to_owned())),
    }
}

/// The directory in the answer to a request for one.
pub fn create_directory_reply(payload: &Json) -> (r: Result<String, PaseoError>)
    ensures
        match error_in(payload@) {
            Some(e) => r matches Err(x) && x@ == e,
            None => match json::text_member(payload@, "directoryPath"@) {
                Some(path) => r matches Ok(t) && t@ == path,
                None => r matches Err(e) && e@ == ErrorModel::Protocol(
                    "create_directory missing directoryPath"@,
                ),
            },
        },
{
    if let Some(error) = payload.get_text("error") {
        return Err(PaseoError::Rpc(error));
    }
    required_text(payload.get("directoryPath"), "create_directory missing directoryPath")
}

/// The root of the project in the answer to a request for a clone.
pub fn github_clone_reply(payload: &Json) -> (r: Result<String, PaseoError>)
    ensures
        match error_in(payload@) {
            Some(e) => r matches Err(x) && x@ == e,
            None => match json::text_in(json::member_at(payload@, seq!["project"@, "rootPath"@])) {
                Some(path) => r matches Ok(t) && t@ == path,
                None => r matches Err(e) && e@ == ErrorModel::Protocol(
                    "github clone missing project.rootPath"@,
                ),
            },
        },
{
    if let Some(error) = payload.get_text("error") {
        return Err(PaseoError::Rpc(error));
    }
    required_text(
        envelope::nested(payload, "project", "rootPath"),
        "github clone missing project.rootPath",
    )
}

/// The workspace in the answer to a request to open a project.
pub fn open_project_reply(payload: &Json) -> (r: Result<String, PaseoError>)
    ensures
        match error_in(payload@) {
            Some(e) => r matches Err(x) && x@ == e,
            None => match json::text_in(json::member_at(payload@, seq!["workspace"@, "id"@])) {
                Some(id) => r matches Ok(t) && t@ == id,
                None => r matches Err(e) && e@ == ErrorModel::Protocol(
                    "open_project_response missing workspace.id"@,
                ),
            },
        },
{
    if let Some(error) = payload.get_text("error") {
        return Err(PaseoError::Rpc(error));
    }
    required_text(
        envelope::nested(payload, "workspace", "id"),
        "open_project_response missing workspace.id",
    )
}

/// The items among the entries of an answer from index `i` on: the member `item` of each that has one.
pub open spec fn items_from(entries: Seq<JsonModel>, i: int) -> Seq<JsonModel>
    decreases entries.len() - i,
{
    if i < 0 || i >= entries.len() {
        Seq::empty()
    } else {
        match json::member(entries[i], "item"@) {
            Some(item) => seq![item] + items_from(entries, i + 1),
            None => items_from(entries, i + 1),
        }
    }
}

/// What an agent did, as the answer to a request for it lists it, each step still in JSON.
pub fn timeline_items(payload: &Json) -> (r: Vec<Json>)
    ensures
        json::models(r@) == items_from(terminals::entries_of(payload@, "entries"@), 0),
{
    let entries = terminals::entries(payload, "entries");
    let ghost all = json::models(entries@);
    let mut out: Vec<Json> = Vec::new();
    let mut i: usize = 0;
    assert(json::models(out@) + items_from(all, 0) == items_from(all, 0));
    while i < entries.len()
        invariant
            i <= entries@.len(),
            all == json::models(entries@),
            json::models(out@) + items_from(all, i as int) == items_from(all, 0),
        decreases entries@.len() - i,
    {
        let ghost before = json::models(out@);
        assert(all[i as int] == entries@[i as int]@);
        if let Some(item) = entries[i].get("item") {
            let item = item.copy();
            out.push(item);
            assert(json::models(out@) == before.push(item@));
            assert(before + (seq![item@] + items_from(all, i + 1)) == json::models(out@)
                + items_from(all, i + 1));
        }
        i += 1;
    }
    assert(json::models(out@) + Seq::<JsonModel>::empty() == json::models(out@));
    out
}

/// What the daemon says of itself, where the message is the one that does.
pub open spec fn server_info_in(incoming: envelope::IncomingModel) -> Option<JsonModel> {
    match incoming {
        envelope::IncomingModel::Session(message) => match json::member(message, "payload"@) {
            Some(payload) => if envelope::message_type(message) == "status"@ && json::text_member(
                payload,
                "status"@,
            ) == Some("server_info"@) {
                Some(payload)
            } else {
                None
            },
            None => None,
        },
        _ => None,
    }
}

/// What the daemon says of itself, where the message is the one that does.
pub fn server_info_of(incoming: envelope::Incoming) -> (r: Option<Json>)
    ensures
        json::opt_json(r) == server_info_in(incoming@),
{
    let message = match incoming {
        envelope::Incoming::Session(message) => message,
        _ => return None,
    };
    if !text::same(envelope::session_message_type(&message), "status") {
        return None;
    }
    match message.get("payload") {
        None => None,
        Some(payload) => match payload.get_text("status") {
            Some(status) => if text::same(status.as_str(), "server_info") {
                Some(payload.copy())
            } else {
                None
            },
            None => None,
        },
    }
}

/// What the daemon says of itself, where the text is the message that does.
pub fn try_parse_server_info(t: &str) -> (r: Option<Json>)
    ensures
        json::opt_json(r) == (match json::json_parsed(t@) {
            Ok(value) => server_info_in(envelope::incoming_of(value)),
            Err(_) => None,
        }),
{
    match envelope::parse_top_level(t) {
        Ok(incoming) => server_info_of(incoming),
        Err(_) => None,
    }
}

/// What a message means while the daemon has not introduced itself yet.
#[derive(Debug)]
pub enum GreetingStep {
    /// What the daemon says of itself, still in JSON.
    Introduced(Json),
    /// The next message counts.
    Wait,
    /// The daemon will not introduce itself.
    Failed(PaseoError),
}

/// What the next message, or the end of the connection, means while the daemon has not introduced
/// itself yet.
pub fn greeting_step(frame: Option<Frame>) -> (r: GreetingStep)
    ensures
        match frame {
            None => r matches GreetingStep::Failed(e) && e@ == ErrorModel::Handshake(
                "closed before server_info"@,
            ),
            Some(Frame::Binary(_)) => r is Wait,
            Some(Frame::Json(t)) => match json::json_parsed(t@) {
                Ok(value) => match server_info_in(envelope::incoming_of(value)) {
                    Some(info) => r matches GreetingStep::Introduced(j) && j@ == info,
                    None => r is Wait,
                },
                Err(_) => r is Wait,
            },
        },
{
    match frame {
        None => GreetingStep::Failed(PaseoError::Handshake("closed before server_info".to_owned())),
        Some(Frame::Binary(_)) => GreetingStep::Wait,
        Some(Frame::Json(t)) => match try_parse_server_info(t.as_str()) {
            Some(info) => GreetingStep::Introduced(info),
            None => GreetingStep::Wait,
        },
    }
}

/// For a slot that is followed, a frame of each kind that a daemon sends brings an event of that kind
/// for that slot: output and what restores a screen with exactly its payload, a snapshot with the
/// value that its payload is. A frame of a kind that only clients send brings nothing, nor does one
/// for a slot that is not followed.
pub proof fn frames_reach_their_slot(streams: Set<u8>, slot: u8, payload: Seq<u8>)
    ensures
        ({
            let brought = |opcode: Opcode|
                streamed(
                    streams,
                    binary_frames::encoded(binary_frames::FrameModel { opcode, slot, payload }),
                );
            &&& streams.contains(slot) ==> {
                &&& brought(Opcode::Output) == Some((slot, StreamModel::Output(payload)))
                &&& brought(Opcode::Restore) == Some((slot, StreamModel::Restore(payload)))
                &&& brought(Opcode::Snapshot) is Some
                &&& match json::json_bytes_parsed(payload) {
                    Ok(value) => brought(Opcode::Snapshot) == Some(
                        (slot, StreamModel::Snapshot(value)),
                    ),
                    Err(_) => brought(Opcode::Snapshot) == Some(
                        (slot, StreamModel::Snapshot(JsonModel::Null)),
                    ),
                }
            }
            &&& !streams.contains(slot) ==> {
                &&& brought(Opcode::Output) is None
                &&& brought(Opcode::Restore) is None
                &&& brought(Opcode::Snapshot) is None
            }
            &&& brought(Opcode::Input) is None
            &&& brought(Opcode::Resize) is None
        }),
{
    binary_frames::frames_read_back(
        binary_frames::FrameModel { opcode: Opcode::Output, slot, payload },
    );
    binary_frames::frames_read_back(
        binary_frames::FrameModel { opcode: Opcode::Restore, slot, payload },
    );
    binary_frames::frames_read_back(
        binary_frames::FrameModel { opcode: Opcode::Snapshot, slot, payload },
    );
    binary_frames::frames_read_back(
        binary_frames::FrameModel { opcode: Opcode::Input, slot, payload },
    );
    binary_frames::frames_read_back(
        binary_frames::FrameModel { opcode: Opcode::Resize, slot, payload },
    );
}

/// What is brought comes from bytes that a frame to a followed slot is written as.
pub proof fn events_come_from_frames(streams: Set<u8>, data: Seq<u8>)
    ensures
        match streamed(streams, data) {
            None => true,
            Some((slot, event)) => streams.contains(slot) && match event {
                StreamModel::Output(payload) => data == seq![1u8, slot] + payload,
                StreamModel::Restore(payload) => data == seq![5u8, slot] + payload,
                StreamModel::Snapshot(_) => data.len() >= 2 && data.take(2) == seq![4u8, slot],
            },
        },
{
    binary_frames::frames_write_back(data);
    if let Some(frame) = binary_frames::decoded(data) {
        assert(data.take(2) == seq![data[0], data[1]]);
        assert(data == seq![data[0], data[1]] + data.skip(2));
    }
}

/// Whether the message has the type and the payload.
pub open spec fn carries(message: JsonModel, ty: Seq<char>, payload: JsonModel) -> bool {
    &&& json::member(message, "type"@) == Some(JsonModel::Text(ty))
    &&& json::member(message, "payload"@) == Some(payload)
}

/// What the daemon announces of an agent is passed on with the agent and what it did: an update as it
/// is, an event or a question of the agent where the payload holds one.
pub proof fn agents_are_announced(
    message: JsonModel,
    payload: JsonModel,
    agent: Seq<char>,
    what: JsonModel,
)
    ensures
        carries(message, "agent_update"@, payload) ==> announced(message)
            == (ActionModel::AgentUpdate { payload }),
        carries(message, "agent_stream"@, payload) && json::member(payload, "event"@) == Some(what)
            && json::member(payload, "agentId"@) == Some(JsonModel::Text(agent)) ==> announced(message)
            == (ActionModel::AgentStream { agent_id: agent, event: what }),
        carries(message, "agent_stream"@, payload) && json::member(payload, "event"@) is None
            ==> announced(message) is Nothing,
        carries(message, "agent_permission_request"@, payload) && json::member(payload, "request"@)
            == Some(what) && json::member(payload, "agentId"@) == Some(JsonModel::Text(agent))
            ==> announced(message) == (ActionModel::PermissionRequest {
            agent_id: agent,
            request: what,
        }),
        carries(message, "agent_permission_request"@, payload) && json::member(payload, "request"@)
            is None ==> announced(message) is Nothing,
{
    lemma_types_differ();
}

/// What the daemon announces of terminals and checkouts is passed on: the terminals that it lists, the
/// terminal that ended, and the diff that changed.
pub proof fn changes_are_announced(
    message: JsonModel,
    payload: JsonModel,
    listed: Seq<JsonModel>,
    terminal: Seq<char>,
)
    ensures
        carries(message, "terminals_changed"@, payload) && json::member(payload, "terminals"@)
            == Some(JsonModel::Array(listed)) ==> announced(message)
            == (ActionModel::TerminalsChanged { terminals: listed }),
        carries(message, "terminal_stream_exit"@, payload) && json::member(payload, "terminalId"@)
            == Some(JsonModel::Text(terminal)) ==> announced(message)
            == (ActionModel::TerminalExit { terminal_id: terminal }),
        carries(message, "terminal_stream_exit"@, payload) && json::member(payload, "terminalId"@)
            is None ==> announced(message) is Nothing,
        carries(message, "checkout_diff_update"@, payload) ==> announced(message)
            == (ActionModel::CheckoutDiff { payload }),
{
    lemma_types_differ();
}

proof fn lemma_types_differ()
    ensures
        "agent_update"@ != "agent_stream"@,
        "agent_update"@ != "agent_permission_request"@,
        "agent_update"@ != "terminals_changed"@,
        "agent_update"@ != "terminal_stream_exit"@,
        "agent_update"@ != "checkout_diff_update"@,
        "agent_stream"@ != "agent_permission_request"@,
        "agent_stream"@ != "terminals_changed"@,
        "agent_stream"@ != "terminal_stream_exit"@,
        "agent_stream"@ != "checkout_diff_update"@,
        "agent_permission_request"@ != "terminals_changed"@,
        "agent_permission_request"@ != "terminal_stream_exit"@,
        "agent_permission_request"@ != "checkout_diff_update"@,
        "terminals_changed"@ != "terminal_stream_exit"@,
        "terminals_changed"@ != "checkout_diff_update"@,
        "terminal_stream_exit"@ != "checkout_diff_update"@,
{
    reveal_strlit("agent_update");
    reveal_strlit("agent_stream");
    reveal_strlit("agent_permission_request");
    reveal_strlit("terminals_changed");
    reveal_strlit("terminal_stream_exit");
    reveal_strlit("checkout_diff_update");
    assert("agent_update"@[6] == 'u' && "agent_stream"@[6] == 's');
    assert("terminal_stream_exit"@[0] == 't' && "checkout_diff_update"@[0] == 'c');
    assert("agent_update"@.len() == 12 && "agent_stream"@.len() == 12);
    assert("agent_permission_request"@.len() == 24 && "terminals_changed"@.len() == 17);
    assert("terminal_stream_exit"@.len() == 20 && "checkout_diff_update"@.len() == 20);
}

/// A request that waits is answered with the payload of the message that names it, or fails with the
/// error that the payload tells. A message that names no waiting request is only announced.
pub proof fn answers_carry_the_payload(
    pending: Set<Seq<char>>,
    message: JsonModel,
    ty: Seq<char>,
    payload: JsonModel,
    id: Seq<char>,
    error: Seq<char>,
)
    requires
        carries(message, ty, payload),
        json::member(payload, "requestId"@) == Some(JsonModel::Text(id)),
    ensures
        pending.contains(id) && ty != "rpc_error"@ ==> routed(pending, message)
            == (ActionModel::Reply { request_id: id, payload }),
        pending.contains(id) && ty == "rpc_error"@ && json::member(payload, "error"@) == Some(
            JsonModel::Text(error),
        ) ==> routed(pending, message) == (ActionModel::Fail { request_id: id, message: error }),
        !pending.contains(id) ==> routed(pending, message) == announced(message),
        pending_after(pending, message) == pending.remove(id),
{
    envelope::the_payload_names_the_request(message, payload, id);
}

/// A terminal that ended has no slot and is not followed any more; all others stay as they are, and
/// no other message changes what is followed.
pub proof fn ended_terminals_are_dropped(
    slots: Map<Seq<char>, u8>,
    streams: Set<u8>,
    action: ActionModel,
    terminal: Seq<char>,
    other: Seq<char>,
)
    requires
        slots.contains_key(terminal),
        other != terminal,
    ensures
        ({
            let ended = ActionModel::TerminalExit { terminal_id: terminal };
            &&& !slots_after(slots, ended).contains_key(terminal)
            &&& slots.contains_key(other) <==> slots_after(slots, ended).contains_key(other)
            &&& slots.contains_key(other) ==> slots_after(slots, ended)[other] == slots[other]
            &&& !streams_after(slots, streams, ended).contains(slots[terminal])
            &&& forall|s: u8|
                s != slots[terminal] ==> (#[trigger] streams_after(slots, streams, ended).contains(s)
                    <==> streams.contains(s))
        }),
        !(action is TerminalExit) ==> slots_after(slots, action) == slots && streams_after(
            slots,
            streams,
            action,
        ) == streams,
{
}

proof fn lemma_items_from(entries: Seq<JsonModel>, i: int)
    requires
        0 <= i <= entries.len(),
    ensures
        items_from(entries, i) == entries.skip(i).filter(
            |e: JsonModel| json::member(e, "item"@) is Some,
        ).map_values(|e: JsonModel| json::member(e, "item"@)->0),
    decreases entries.len() - i,
{
    let has = |e: JsonModel| json::member(e, "item"@) is Some;
    let get = |e: JsonModel| json::member(e, "item"@)->0;
    if i < entries.len() {
        lemma_items_from(entries, i + 1);
        let one = seq![entries[i]];
        let rest = entries.skip(i + 1);
        assert(entries.skip(i) == one + rest);
        Seq::filter_distributes_over_add(one, rest, has);
        assert(one.drop_last() == Seq::<JsonModel>::empty());
        reveal_with_fuel(Seq::filter, 2);
        assert((one.filter(has) + rest.filter(has)).map_values(get) == one.filter(has).map_values(
            get,
        ) + rest.filter(has).map_values(get));
        if has(entries[i]) {
            assert(one.filter(has) == one);
            assert(one.map_values(get) == seq![get(entries[i])]);
        } else {
            assert(one.filter(has) == Seq::<JsonModel>::empty());
        }
        assert(Seq::<JsonModel>::empty() + rest.filter(has).map_values(get) == rest.filter(
            has,
        ).map_values(get));
    } else {
        assert(entries.skip(i) == Seq::<JsonModel>::empty());
        reveal_with_fuel(Seq::filter, 1);
        assert(Seq::<JsonModel>::empty().filter(has).map_values(get) == Seq::<JsonModel>::empty());
    }
}

/// The steps of a timeline are the items of all entries that have one, in their order.
pub proof fn timelines_keep_their_items(entries: Seq<JsonModel>)
    ensures
        items_from(entries, 0) == entries.filter(
            |e: JsonModel| json::member(e, "item"@) is Some,
        ).map_values(|e: JsonModel| json::member(e, "item"@)->0),
{
    lemma_items_from(entries, 0);
    assert(entries.skip(0) == entries);
}

/// The daemon introduces itself just with a message of the session of the type and status for it, and
/// what it says is the whole payload.
pub proof fn introductions_are_recognised(message: JsonModel, payload: JsonModel)
    ensures
        server_info_in(envelope::IncomingModel::Session(message)) == Some(payload) <==> carries(
            message,
            "status"@,
            payload,
        ) && json::member(payload, "status"@) == Some(JsonModel::Text("server_info"@)),
        server_info_in(envelope::IncomingModel::Pong) is None,
        server_info_in(envelope::IncomingModel::Unknown(message)) is None,
{
    reveal_strlit("");
    reveal_strlit("status");
    assert(""@.len() != "status"@.len());
}

/// The answer to a request for an agent holds it where it says that it was made, and else the reason
/// why not.
pub proof fn created_agents_are_read(payload: JsonModel, agent: JsonModel, error: Seq<char>)
    ensures
        json::member(payload, "status"@) == Some(JsonModel::Text("agent_created"@)) && json::member(
            payload,
            "agent"@,
        ) == Some(agent) ==> created_agent(payload) == Ok::<JsonModel, ErrorModel>(agent),
        json::member(payload, "status"@) == Some(JsonModel::Text("agent_created"@)) && json::member(
            payload,
            "agent"@,
        ) is None ==> created_agent(payload) is Err,
        json::member(payload, "status"@) != Some(JsonModel::Text("agent_created"@)) && json::member(
            payload,
            "error"@,
        ) == Some(JsonModel::Text(error)) ==> created_agent(payload) == Err::<
            JsonModel,
            ErrorModel,
        >(ErrorModel::Rpc(error)),
        created_agent(payload) is Ok ==> json::member(payload, "status"@) == Some(
            JsonModel::Text("agent_created"@),
        ),
        json::member(payload, "status"@) != Some(JsonModel::Text("agent_created"@)) && !(
        json::member(payload, "error"@) matches Some(JsonModel::Text(_))) ==> created_agent(payload)
            == Err::<JsonModel, ErrorModel>(ErrorModel::Rpc("create_agent failed"@)),
        error_in(payload) == Some(ErrorModel::Rpc(error)) <==> json::member(payload, "error"@) == Some(
            JsonModel::Text(error),
        ),
{
}

/// What an announcement does not tell is empty: an agent without a name, a payload that is missing, a
/// list that is none. An announcement of another type asks for nothing.
pub proof fn announcements_may_tell_less(
    message: JsonModel,
    ty: Seq<char>,
    payload: JsonModel,
    what: JsonModel,
)
    ensures
        carries(message, "agent_stream"@, payload) && json::member(payload, "event"@) == Some(what)
            && !(json::member(payload, "agentId"@) matches Some(JsonModel::Text(_))) ==> (announced(
            message,
        ) matches ActionModel::AgentStream { agent_id, event } && agent_id.len() == 0 && event
            == what),
        carries(message, "agent_permission_request"@, payload) && json::member(payload, "request"@)
            == Some(what) && !(json::member(payload, "agentId"@) matches Some(JsonModel::Text(_)))
            ==> (announced(message) matches ActionModel::PermissionRequest { agent_id, request }
            && agent_id.len() == 0 && request == what),
        carries(message, "terminals_changed"@, payload) && !(json::member(payload, "terminals"@)
            matches Some(JsonModel::Array(_))) ==> (announced(message)
            matches ActionModel::TerminalsChanged { terminals } && terminals.len() == 0),
        carries(message, "terminal_stream_exit"@, payload) && !(json::member(payload, "terminalId"@)
            matches Some(JsonModel::Text(_))) ==> announced(message) is Nothing,
        json::member(message, "type"@) == Some(JsonModel::Text(ty)) && ty != "agent_update"@ && ty
            != "agent_stream"@ && ty != "agent_permission_request"@ && ty != "terminals_changed"@ && ty
            != "terminal_stream_exit"@ && ty != "checkout_diff_update"@ ==> announced(message)
            is Nothing,
        !(json::member(message, "type"@) matches Some(JsonModel::Text(_))) ==> announced(message)
            is Nothing,
        json::member(message, "type"@) == Some(JsonModel::Text("agent_update"@)) && json::member(
            message,
            "payload"@,
        ) is None ==> announced(message) == (ActionModel::AgentUpdate { payload: JsonModel::Null }),
{
    lemma_types_differ();
    reveal_strlit("");
    reveal_strlit("agent_update");
    reveal_strlit("agent_stream");
    reveal_strlit("agent_permission_request");
    reveal_strlit("terminals_changed");
    reveal_strlit("terminal_stream_exit");
    reveal_strlit("checkout_diff_update");
    assert(""@.len() == 0 && "agent_update"@.len() > 0 && "agent_stream"@.len() > 0);
    assert("agent_permission_request"@.len() > 0 && "terminals_changed"@.len() > 0);
    assert("terminal_stream_exit"@.len() > 0 && "checkout_diff_update"@.len() > 0);
}

/// A request fails with `rpc error` where the answer tells no error. An answer without a payload that
/// names the request itself answers it with nothing.
pub proof fn answers_may_tell_less(
    pending: Set<Seq<char>>,
    message: JsonModel,
    payload: JsonModel,
    ty: Seq<char>,
    id: Seq<char>,
)
    requires
        pending.contains(id),
    ensures
        carries(message, "rpc_error"@, payload) && json::member(payload, "requestId"@) == Some(
            JsonModel::Text(id),
        ) && !(json::member(payload, "error"@) matches Some(JsonModel::Text(_))) ==> routed(
            pending,
            message,
        ) == (ActionModel::Fail { request_id: id, message: "rpc error"@ }),
        json::member(message, "type"@) == Some(JsonModel::Text(ty)) && ty != "rpc_error"@
            && json::member(message, "payload"@) is None && json::member(message, "requestId"@)
            == Some(JsonModel::Text(id)) ==> routed(pending, message) == (ActionModel::Reply {
            request_id: id,
            payload: JsonModel::Null,
        }),
{
    if json::member(message, "payload"@) is None {
        envelope::a_bare_message_names_its_request(message, id);
    } else {
        envelope::the_payload_names_the_request(
            message,
            json::member(message, "payload"@)->0,
            id,
        );
    }
}

/// Once a slot is followed its output arrives, and once it is not followed any more nothing does. Other
/// slots are not touched by either.
pub proof fn following_a_slot_lets_its_output_through(
    streams: Set<u8>,
    slot: u8,
    other: u8,
    payload: Seq<u8>,
)
    requires
        other != slot,
    ensures
        ({
            let here = binary_frames::encoded(
                binary_frames::FrameModel { opcode: Opcode::Output, slot, payload },
            );
            let there = binary_frames::encoded(
                binary_frames::FrameModel { opcode: Opcode::Output, slot: other, payload },
            );
            &&& streamed(streams.insert(slot), here) == Some((slot, StreamModel::Output(payload)))
            &&& streamed(streams.remove(slot), here) is None
            &&& streamed(streams.insert(slot), there) == streamed(streams, there)
            &&& streamed(streams.remove(slot), there) == streamed(streams, there)
        }),
{
    frames_reach_their_slot(streams.insert(slot), slot, payload);
    frames_reach_their_slot(streams.remove(slot), slot, payload);
    frames_reach_their_slot(streams, other, payload);
    frames_reach_their_slot(streams.insert(slot), other, payload);
    frames_reach_their_slot(streams.remove(slot), other, payload);
}

} // verus!
