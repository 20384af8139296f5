//! Requests, answers and notifications on the relay connection.
use crate::json;
use crate::json::{Json, JsonModel, NumberModel, ObjectBuilder};
use crate::collections::TextSet;
use crate::orca_mux::relay::frame::{Frame, FrameModel, FrameType};
use crate::paseo_client::envelope;
use crate::text;
use std::collections::HashSet;
use vstd::prelude::*;

verus! {

broadcast use vstd::std_specs::hash::group_hash_axioms;

/// How many units of output a client takes before it acknowledges them.
pub const DEFAULT_WINDOW_SU: u64 = 4 * 1024 * 1024;

/// Something that the relay reports unasked.
#[derive(Debug)]
pub struct Notification {
    pub method: String,
    pub params: Json,
}

/// What a [`Notification`] says.
#[verifier::ext_equal]
pub struct NotificationModel {
    pub method: Seq<char>,
    pub params: JsonModel,
}

impl View for Notification {
    type V = NotificationModel;

    open spec fn view(&self) -> NotificationModel {
        NotificationModel { method: self.method@, params: self.params@ }
    }
}

/// What a frame that arrived asks for.
#[derive(Debug)]
pub enum RelayAction {
    Nothing,
    /// The request is answered.
    Respond { id: u32, response: Json },
    /// The notification is for the follower of the PTY.
    Route { pty_id: String, notification: Notification },
    /// The notification is for nobody in particular.
    Notify { notification: Notification },
}

/// What a [`RelayAction`] says.
#[verifier::ext_equal]
pub enum RelayActionModel {
    Nothing,
    Respond { id: u32, response: JsonModel },
    Route { pty_id: Seq<char>, notification: NotificationModel },
    Notify { notification: NotificationModel },
}

impl View for RelayAction {
    type V = RelayActionModel;

    open spec fn view(&self) -> RelayActionModel {
        match self {
            RelayAction::Nothing => RelayActionModel::Nothing,
            RelayAction::Respond { id, response } => RelayActionModel::Respond {
                id: *id,
                response: response@,
            },
            RelayAction::Route { pty_id, notification } => RelayActionModel::Route {
                pty_id: pty_id@,
                notification: notification@,
            },
            RelayAction::Notify { notification } => RelayActionModel::Notify {
                notification: notification@,
            },
        }
    }
}

/// The request that a value answers: it has a natural number as `id`, of which the low 32 bits count,
/// and a result or an error.
pub open spec fn response_id(value: JsonModel) -> Option<u32> {
    match json::count_in(json::member(value, "id"@)) {
        Some(id) => if json::member(value, "result"@) is Some || json::member(value, "error"@) is Some {
            Some((id % 0x1_0000_0000) as u32)
        } else {
            None
        },
        None => None,
    }
}

/// What a JSON value that arrived asks for: an answer goes to its request, where that waits; a
/// notification to the follower of the PTY that it names, where there is one.
pub open spec fn relayed(
    pending: Set<u32>,
    routes: Set<Seq<char>>,
    value: JsonModel,
) -> RelayActionModel {
    match response_id(value) {
        Some(id) => if pending.contains(id) {
            RelayActionModel::Respond { id, response: value }
        } else {
            RelayActionModel::Nothing
        },
        None => match json::text_member(value, "method"@) {
            None => RelayActionModel::Nothing,
            Some(method) => {
                let params = envelope::or_null(json::member(value, "params"@));
                let notification = NotificationModel { method, params };
                match json::text_member(params, "id"@) {
                    Some(pty_id) => if routes.contains(pty_id) {
                        RelayActionModel::Route { pty_id, notification }
                    } else {
                        RelayActionModel::Notify { notification }
                    },
                    None => RelayActionModel::Notify { notification },
                }
            },
        },
    }
}

/// The members of a request or, without an identifier, of a notification.
pub open spec fn call_members(id: Option<u32>, method: Seq<char>, params: JsonModel) -> Map<
    Seq<char>,
    JsonModel,
> {
    match id {
        Some(id) => map![
            "jsonrpc"@ => JsonModel::Text("2.0"@),
            "id"@ => JsonModel::Number(NumberModel::PosInt(id as u64)),
            "method"@ => JsonModel::Text(method),
            "params"@ => params,
        ],
        None => map![
            "jsonrpc"@ => JsonModel::Text("2.0"@),
            "method"@ => JsonModel::Text(method),
            "params"@ => params,
        ],
    }
}

/// The bytes of a JSON value as it is written.
pub open spec fn json_bytes(j: JsonModel) -> Seq<u8> {
    vstd::utf8::encode_utf8(json::json_rendered(j))
}

/// The connection to a relay: the number of the next frame, the highest number that arrived, the
/// requests that wait, and the PTYs that are followed.
pub struct RelayConnection {
    pub next_id: u32,
    pub last_recv: u32,
    pub pending: HashSet<u32>,
    pub routes: TextSet,
    pub closed: bool,
}

/// The number after `id`; after the last comes 0.
pub open spec fn number_after(id: u32) -> u32 {
    if id == u32::MAX {
        0
    } else {
        (id + 1) as u32
    }
}

/// The greater of two numbers.
pub open spec fn greater(a: u32, b: u32) -> u32 {
    if a >= b {
        a
    } else {
        b
    }
}

fn frame_payload(call: &Json) -> (r: Vec<u8>)
    ensures
        r@ == json_bytes(call@),
{
    let text = call.write();
    let data = text.as_str().as_bytes();
    crate::bytes::copy_range(data, 0, data.len())
}

impl RelayConnection {
    /// A connection on which nothing was sent yet.
    pub fn new() -> (r: RelayConnection)
        ensures
            r.next_id == 1,
            r.last_recv == 0,
            r.pending@ == Set::<u32>::empty(),
            r.routes@ == Set::<Seq<char>>::empty(),
            !r.closed,
    {
        RelayConnection {
            next_id: 1,
            last_recv: 0,
            pending: HashSet::new(),
            routes: TextSet::new(),
            closed: false,
        }
    }

    /// Whether the connection has ended.
    pub fn is_closed(&self) -> (r: bool)
        ensures
            r == self.closed,
    {
        self.closed
    }

    /// The number of the last frame that arrived.
    fn ack(&self) -> (r: u32)
        ensures
            r == self.last_recv,
    {
        self.last_recv
    }

    fn alloc_id(&mut self) -> (r: u32)
        ensures
            r == old(self).next_id,
            final(self).next_id == number_after(old(self).next_id),
            final(self).last_recv == old(self).last_recv,
            final(self).pending == old(self).pending,
            final(self).routes == old(self).routes,
            final(self).closed == old(self).closed,
    {
        let id: u32 = self.next_id;
        self.next_id = id.wrapping_add(1);
        id
    }

    /// Follows the PTY.
    pub fn route_pty(&mut self, id: &str)
        ensures
            final(self).routes@ == old(self).routes@.insert(id@),
            final(self).next_id == old(self).next_id,
            final(self).last_recv == old(self).last_recv,
            final(self).pending == old(self).pending,
            final(self).closed == old(self).closed,
    {
        let _ = self.routes.insert(id);
    }

    /// No longer follows the PTY.
    pub fn unroute_pty(&mut self, id: &str)
        ensures
            final(self).routes@ == old(self).routes@.remove(id@),
            final(self).next_id == old(self).next_id,
            final(self).last_recv == old(self).last_recv,
            final(self).pending == old(self).pending,
            final(self).closed == old(self).closed,
    {
        let _ = self.routes.remove(id);
    }

    /// The frame of a request, which now waits for its answer under the number of the frame.
    pub fn request(&mut self, method: &str, params: Json) -> (r: Frame)
        ensures
            r@ == (FrameModel {
                kind: FrameType::Regular,
                id: old(self).next_id,
                ack: old(self).last_recv,
                payload: json_bytes(
                    JsonModel::Object(call_members(Some(old(self).next_id), method@, params@)),
                ),
            }),
            final(self).next_id == number_after(old(self).next_id),
            final(self).pending@ == old(self).pending@.insert(old(self).next_id),
            final(self).last_recv == old(self).last_recv,
            final(self).routes == old(self).routes,
            final(self).closed == old(self).closed,
    {
        let id: u32 = self.alloc_id();
        let _ = self.pending.insert(id);
        let call = ObjectBuilder::new().with("jsonrpc", Json::text("2.0")).with(
            "id",
            Json::count(id as u64),
        ).with("method", Json::text(method)).with("params", params).build();
        Frame::new(FrameType::Regular, id, self.ack(), frame_payload(&call))
    }

    /// The frame of a notification.
    pub fn notify(&mut self, method: &str, params: Json) -> (r: Frame)
        ensures
            r@ == (FrameModel {
                kind: FrameType::Regular,
                id: old(self).next_id,
                ack: old(self).last_recv,
                payload: json_bytes(JsonModel::Object(call_members(None, method@, params@))),
            }),
            final(self).next_id == number_after(old(self).next_id),
            final(self).pending == old(self).pending,
            final(self).last_recv == old(self).last_recv,
            final(self).routes == old(self).routes,
            final(self).closed == old(self).closed,
    {
        let id: u32 = self.alloc_id();
        let call = ObjectBuilder::new().with("jsonrpc", Json::text("2.0")).with(
            "method",
            Json::text(method),
        ).with("params", params).build();
        Frame::new(FrameType::Regular, id, self.ack(), frame_payload(&call))
    }

    /// The frame that keeps the connection alive.
    pub fn keepalive(&mut self) -> (r: Frame)
        ensures
            r@ == (FrameModel {
                kind: FrameType::KeepAlive,
                id: old(self).next_id,
                ack: old(self).last_recv,
                payload: Seq::empty(),
            }),
            final(self).next_id == number_after(old(self).next_id),
            final(self).pending == old(self).pending,
            final(self).last_recv == old(self).last_recv,
            final(self).routes == old(self).routes,
            final(self).closed == old(self).closed,
    {
        let id: u32 = self.alloc_id();
        Frame::new(FrameType::KeepAlive, id, self.ack(), Vec::new())
    }

    /// What a JSON value that arrived asks for; a request that it answers no longer waits.
    pub fn relay(&mut self, value: Json) -> (r: RelayAction)
        ensures
            r@ == relayed(old(self).pending@, old(self).routes@, value@),
            final(self).pending@ == (match response_id(value@) {
                Some(id) => old(self).pending@.remove(id),
                None => old(self).pending@,
            }),
            final(self).next_id == old(self).next_id,
            final(self).last_recv == old(self).last_recv,
            final(self).routes == old(self).routes,
            final(self).closed == old(self).closed,
    {
        let id: Option<u64> = match value.get("id") {
            Some(id) => id.as_count(),
            None => None,
        };
        if let Some(id) = id {
            if value.get("result").is_some() || value.get("error").is_some() {
                let id: u32 = (id % 0x1_0000_0000) as u32;
                if self.pending.remove(&id) {
                    return RelayAction::Respond { id, response: value };
                }
                assert(self.pending@ =~= old(self).pending@.remove(id));
                return RelayAction::Nothing;
            }
        }
        let method = match value.get_text("method") {
            Some(method) => method,
            None => return RelayAction::Nothing,
        };
        let params = envelope::member_or_null(&value, "params");
        let pty_id = params.get_text("id");
        let notification = Notification { method, params };
        match pty_id {
            Some(pty_id) => if self.routes.contains(pty_id.as_str()) {
                RelayAction::Route { pty_id, notification }
            } else {
                RelayAction::Notify { notification }
            },
            None => RelayAction::Notify { notification },
        }
    }

    /// What a frame that arrived asks for. Its number is noted where it is the highest so far; only a
    /// regular frame that holds JSON asks for anything.
    pub fn receive(&mut self, frame: &Frame) -> (r: RelayAction)
        ensures
            final(self).last_recv == greater(old(self).last_recv, frame.id),
            final(self).next_id == old(self).next_id,
            final(self).routes == old(self).routes,
            final(self).closed == old(self).closed,
            if frame.kind == FrameType::Regular {
                match json::json_bytes_parsed(frame.payload@) {
                    Ok(value) => {
                        &&& r@ == relayed(old(self).pending@, old(self).routes@, value)
                        &&& final(self).pending@ == (match response_id(value) {
                            Some(id) => old(self).pending@.remove(id),
                            None => old(self).pending@,
                        })
                    },
                    Err(_) => r is Nothing && final(self).pending == old(self).pending,
                }
            } else {
                r is Nothing && final(self).pending == old(self).pending
            },
    {
        if frame.id > self.last_recv {
            self.last_recv = frame.id;
        }
        if frame.kind != FrameType::Regular {
            return RelayAction::Nothing;
        }
        match Json::read_bytes(&frame.payload) {
            Ok(value) => self.relay(value),
            Err(_) => RelayAction::Nothing,
        }
    }

    /// The connection ended: nothing is followed any more.
    pub fn close(&mut self)
        ensures
            final(self).closed,
            final(self).routes@ == Set::<Seq<char>>::empty(),
            final(self).next_id == old(self).next_id,
            final(self).last_recv == old(self).last_recv,
            final(self).pending == old(self).pending,
    {
        self.closed = true;
        self.routes.clear();
    }
}

/// The number that is acknowledged never goes down, and no number that arrived is above it.
pub proof fn acknowledged_numbers_grow(last_recv: u32, id: u32)
    ensures
        greater(last_recv, id) >= last_recv,
        greater(last_recv, id) >= id,
        greater(last_recv, id) == last_recv || greater(last_recv, id) == id,
{
}

/// A request is answered once: a later answer to it asks for nothing. Every other request still waits.
pub proof fn requests_are_answered_once(
    pending: Set<u32>,
    routes: Set<Seq<char>>,
    value: JsonModel,
    later: JsonModel,
    other: u32,
)
    requires
        relayed(pending, routes, value) is Respond,
        response_id(later) == response_id(value),
    ensures
        ({
            let id = response_id(value)->0;
            let left = pending.remove(id);
            &&& relayed(pending, routes, value) == (RelayActionModel::Respond {
                id,
                response: value,
            })
            &&& relayed(left, routes, later) == RelayActionModel::Nothing
            &&& other != id ==> left.contains(other) == pending.contains(other)
        }),
{
}

/// What a request gave: its result, `null` where there is none, or the error in words.
pub open spec fn response_result(method: Seq<char>, response: JsonModel) -> Result<
    JsonModel,
    Seq<char>,
> {
    match json::member(response, "error"@) {
        Some(error) => Err("relay "@ + method + " failed: "@ + json::json_rendered(error)),
        None => Ok(envelope::or_null(json::member(response, "result"@))),
    }
}

/// What a request gave.
pub fn result_of(method: &str, response: &Json) -> (r: Result<Json, String>)
    ensures
        match response_result(method@, response@) {
            Ok(value) => r matches Ok(j) && j@ == value,
            Err(e) => r matches Err(x) && x@ == e,
        },
{
    match response.get("error") {
        Some(error) => {
            let mut out = "relay ".to_owned();
            out.push_str(method);
            out.push_str(" failed: ");
            out.push_str(error.write().as_str());
            Err(out)
        },
        None => Ok(envelope::member_or_null(response, "result")),
    }
}

/// The parameters that open a client in the given role.
pub fn open_client_params(role: &str, window_su: u64) -> (r: Json)
    ensures
        r@ == JsonModel::Object(
            map![
                "protocolVersion"@ => JsonModel::Number(NumberModel::PosInt(1)),
                "clientInstanceId"@ => JsonModel::Text("wezterm-relay"@),
                "requestedRole"@ => JsonModel::Text(role@),
                "capabilities"@ => JsonModel::Object(
                    map![
                        "outputFlowControl"@ => JsonModel::Object(
                            map![
                                "versions"@ => JsonModel::Array(
                                    seq![JsonModel::Number(NumberModel::PosInt(1))],
                                ),
                                "requestedWindowSu"@ => JsonModel::Number(
                                    NumberModel::PosInt(window_su),
                                ),
                            ],
                        ),
                    ],
                ),
            ],
        ),
{
    let mut versions: Vec<Json> = Vec::new();
    versions.push(Json::count(1));
    proof {
        json::items_are_models(versions);
        assert(json::models(versions@) == seq![JsonModel::Number(NumberModel::PosInt(1))]);
    }
    let flow = ObjectBuilder::new().with("versions", Json::Array(versions)).with(
        "requestedWindowSu",
        Json::count(window_su),
    ).build();
    let capabilities = ObjectBuilder::new().with("outputFlowControl", flow).build();
    ObjectBuilder::new().with("protocolVersion", Json::count(1)).with(
        "clientInstanceId",
        Json::text("wezterm-relay"),
    ).with("requestedRole", Json::text(role)).with("capabilities", capabilities).build()
}

/// The parameters that start a PTY of the given size, in a directory where one is given.
pub fn spawn_params(cols: u16, rows: u16, cwd: Option<&str>) -> (r: Json)
    ensures
        r@ == JsonModel::Object(
            match cwd {
                Some(cwd) => map![
                    "cols"@ => JsonModel::Number(NumberModel::PosInt(cols as u64)),
                    "rows"@ => JsonModel::Number(NumberModel::PosInt(rows as u64)),
                    "cwd"@ => JsonModel::Text(cwd@),
                ],
                None => map![
                    "cols"@ => JsonModel::Number(NumberModel::PosInt(cols as u64)),
                    "rows"@ => JsonModel::Number(NumberModel::PosInt(rows as u64)),
                ],
            },
        ),
{
    let params = ObjectBuilder::new().with("cols", Json::count(cols as u64)).with(
        "rows",
        Json::count(rows as u64),
    );
    match cwd {
        Some(cwd) => params.with("cwd", Json::text(cwd)).build(),
        None => params.build(),
    }
}

/// The PTY that was started.
pub fn spawned_id(result: &Json) -> (r: Result<String, String>)
    ensures
        match json::text_member(result@, "id"@) {
            Some(id) => r matches Ok(s) && s@ == id,
            None => r matches Err(e) && e@ == "pty.spawn returned no id"@,
        },
{
    match result.get_text("id") {
        Some(id) => Ok(id),
        None => Err("pty.spawn returned no id".to_owned()),
    }
}

/// The parameters that follow a PTY from what it last showed.
pub fn attach_params(id: &str) -> (r: Json)
    ensures
        r@ == JsonModel::Object(
            map!["id"@ => JsonModel::Text(id@), "requireReplay"@ => JsonModel::Bool(true)],
        ),
{
    ObjectBuilder::new().with("id", Json::text(id)).with("requireReplay", Json::Bool(true)).build()
}

/// The parameters that name a PTY.
pub fn pty_params(id: &str) -> (r: Json)
    ensures
        r@ == JsonModel::Object(map!["id"@ => JsonModel::Text(id@)]),
{
    ObjectBuilder::new().with("id", Json::text(id)).build()
}

/// The columns and rows of a PTY, of each number its low 16 bits, where both are given.
pub fn pty_size(size: &Json) -> (r: Option<(u16, u16)>)
    ensures
        r == (match (
            json::count_in(json::member(size@, "cols"@)),
            json::count_in(json::member(size@, "rows"@)),
        ) {
            (Some(cols), Some(rows)) => Some(
                ((cols % 0x1_0000) as u16, (rows % 0x1_0000) as u16),
            ),
            _ => None,
        }),
{
    let cols: Option<u64> = match size.get("cols") {
        Some(cols) => cols.as_count(),
        None => None,
    };
    let rows: Option<u64> = match size.get("rows") {
        Some(rows) => rows.as_count(),
        None => None,
    };
    match cols {
        Some(cols) => match rows {
            Some(rows) => Some(((cols % 0x1_0000) as u16, (rows % 0x1_0000) as u16)),
            None => None,
        },
        None => None,
    }
}

/// The processes that the relay lists, none where it lists none.
pub fn processes(result: &Json) -> (r: Vec<Json>)
    ensures
        json::models(r@) == (match result@ {
            JsonModel::Array(items) => items,
            _ => Seq::empty(),
        }),
{
    match result {
        Json::Array(v) => json::copy_items(v),
        _ => {
            let none: Vec<Json> = Vec::new();
            assert(json::models(none@) == Seq::<JsonModel>::empty());
            none
        },
    }
}

/// The parameters that type into a PTY.
pub fn input_params(id: &str, data: &str) -> (r: Json)
    ensures
        r@ == JsonModel::Object(
            map!["id"@ => JsonModel::Text(id@), "data"@ => JsonModel::Text(data@)],
        ),
{
    ObjectBuilder::new().with("id", Json::text(id)).with("data", Json::text(data)).build()
}

/// The parameters that set the size of a PTY.
pub fn resize_params(id: &str, cols: u16, rows: u16) -> (r: Json)
    ensures
        r@ == JsonModel::Object(
            map![
                "id"@ => JsonModel::Text(id@),
                "cols"@ => JsonModel::Number(NumberModel::PosInt(cols as u64)),
                "rows"@ => JsonModel::Number(NumberModel::PosInt(rows as u64)),
            ],
        ),
{
    ObjectBuilder::new().with("id", Json::text(id)).with("cols", Json::count(cols as u64)).with(
        "rows",
        Json::count(rows as u64),
    ).build()
}

/// The parameters that end a PTY.
pub fn shutdown_params(id: &str) -> (r: Json)
    ensures
        r@ == JsonModel::Object(
            map!["id"@ => JsonModel::Text(id@), "immediate"@ => JsonModel::Bool(false)],
        ),
{
    ObjectBuilder::new().with("id", Json::text(id)).with("immediate", Json::Bool(false)).build()
}

/// The parameters that acknowledge output of a PTY: there are none where the output does not say how
/// far it goes; what else it does not say is `null`.
pub open spec fn ack_members(id: Seq<char>, frame: JsonModel) -> Option<Map<Seq<char>, JsonModel>> {
    match json::count_in(json::member(frame, "sourceEndSu"@)) {
        None => None,
        Some(end_su) => Some(
            map![
                "id"@ => JsonModel::Text(id),
                "clientGeneration"@ => envelope::or_null(json::member(frame, "clientGeneration"@)),
                "ownerGeneration"@ => envelope::or_null(json::member(frame, "ownerGeneration"@)),
                "deliveryToken"@ => envelope::or_null(json::member(frame, "deliveryToken"@)),
                "creditedEndSu"@ => JsonModel::Number(NumberModel::PosInt(end_su)),
            ],
        ),
    }
}

/// The parameters that acknowledge output of a PTY, where there is anything to acknowledge.
pub fn ack_data(id: &str, frame: &Json) -> (r: Option<Json>)
    ensures
        match ack_members(id@, frame@) {
            Some(members) => r matches Some(j) && j@ == JsonModel::Object(members),
            None => r is None,
        },
{
    let end_su: u64 = match frame.get("sourceEndSu") {
        Some(end) => match end.as_count() {
            Some(end) => end,
            None => return None,
        },
        None => return None,
    };
    Some(
        ObjectBuilder::new().with("id", Json::text(id)).with(
            "clientGeneration",
            envelope::member_or_null(frame, "clientGeneration"),
        ).with("ownerGeneration", envelope::member_or_null(frame, "ownerGeneration")).with(
            "deliveryToken",
            envelope::member_or_null(frame, "deliveryToken"),
        ).with("creditedEndSu", Json::count(end_su)).build(),
    )
}

/// A message is a response just where it has a number and a result or an error. It goes whole to the
/// request of that number, where one waits, and else to nobody.
pub proof fn responses_reach_their_request(
    pending: Set<u32>,
    routes: Set<Seq<char>>,
    value: JsonModel,
    id: u32,
)
    requires
        json::member(value, "id"@) == Some(JsonModel::Number(NumberModel::PosInt(id as u64))),
    ensures
        (json::member(value, "result"@) is Some || json::member(value, "error"@) is Some) ==> {
            &&& response_id(value) == Some(id)
            &&& pending.contains(id) ==> relayed(pending, routes, value)
                == (RelayActionModel::Respond { id, response: value })
            &&& !pending.contains(id) ==> relayed(pending, routes, value) is Nothing
        },
        json::member(value, "result"@) is None && json::member(value, "error"@) is None
            ==> response_id(value) is None,
{
    assert(id as u64 % 0x1_0000_0000 == id as u64);
}

/// A notification about a terminal that is followed goes to that terminal, and any other to all. A
/// message that is neither a response nor a notification goes nowhere.
pub proof fn notifications_reach_their_terminal(
    pending: Set<u32>,
    routes: Set<Seq<char>>,
    value: JsonModel,
    method: Seq<char>,
    params: JsonModel,
    pty_id: Seq<char>,
)
    requires
        json::member(value, "id"@) is None || (json::member(value, "result"@) is None
            && json::member(value, "error"@) is None),
    ensures
        json::member(value, "method"@) is None ==> relayed(pending, routes, value) is Nothing,
        json::member(value, "method"@) == Some(JsonModel::Text(method)) && json::member(
            value,
            "params"@,
        ) == Some(params) ==> {
            let notification = NotificationModel { method, params };
            &&& json::member(params, "id"@) == Some(JsonModel::Text(pty_id)) && routes.contains(
                pty_id,
            ) ==> relayed(pending, routes, value) == (RelayActionModel::Route {
                pty_id,
                notification,
            })
            &&& json::member(params, "id"@) == Some(JsonModel::Text(pty_id)) && !routes.contains(
                pty_id,
            ) ==> relayed(pending, routes, value) == (RelayActionModel::Notify { notification })
            &&& json::member(params, "id"@) is None ==> relayed(pending, routes, value) == (
            RelayActionModel::Notify { notification })
        },
{
}

/// A call says which protocol it follows, its method and its parameters, and its number where it waits
/// for an answer.
pub proof fn calls_are_written(id: u32, method: Seq<char>, params: JsonModel)
    ensures
        ({
            let call = JsonModel::Object(call_members(Some(id), method, params));
            let note = JsonModel::Object(call_members(None, method, params));
            &&& json::member(call, "method"@) == Some(JsonModel::Text(method))
            &&& json::member(note, "method"@) == Some(JsonModel::Text(method))
            &&& json::member(call, "params"@) == Some(params)
            &&& json::member(note, "params"@) == Some(params)
            &&& json::member(call, "id"@) == Some(
                JsonModel::Number(NumberModel::PosInt(id as u64)),
            )
            &&& json::member(note, "id"@) is None
            &&& json::member(call, "jsonrpc"@) == Some(JsonModel::Text("2.0"@))
            &&& json::member(note, "jsonrpc"@) == Some(JsonModel::Text("2.0"@))
        }),
{
    reveal_strlit("jsonrpc");
    reveal_strlit("id");
    reveal_strlit("method");
    reveal_strlit("params");
    assert("jsonrpc"@.len() == 7 && "id"@.len() == 2 && "method"@.len() == 6 && "params"@.len() == 6);
    assert("method"@[0] == 'm' && "params"@[0] == 'p');
}

/// Numbers are given out one after the other, from zero again behind the greatest.
pub proof fn numbers_go_round(id: u32)
    ensures
        number_after(id) as int == (id as int + 1) % 0x1_0000_0000,
{
}

/// A response with an error fails with that error, and any other gives its result.
pub proof fn responses_are_read(
    method: Seq<char>,
    response: JsonModel,
    inner: JsonModel,
)
    ensures
        json::member(response, "error"@) == Some(inner) ==> response_result(method, response)
            == Err::<JsonModel, Seq<char>>(
            "relay "@ + method + " failed: "@ + json::json_rendered(inner),
        ),
        json::member(response, "error"@) is None && json::member(response, "result"@) == Some(inner)
            ==> response_result(method, response) == Ok::<JsonModel, Seq<char>>(inner),
        json::member(response, "error"@) is None && json::member(response, "result"@) is None
            ==> response_result(method, response) == Ok::<JsonModel, Seq<char>>(JsonModel::Null),
{
}

/// Output is acknowledged up to where it reaches, with what the relay told along with it. Output that
/// does not say how far it reaches is not acknowledged.
pub proof fn acknowledgements_give_back_what_was_told(
    id: Seq<char>,
    frame: JsonModel,
    end_su: u64,
    token: JsonModel,
)
    ensures
        json::member(frame, "sourceEndSu"@) is None ==> ack_members(id, frame) is None,
        json::member(frame, "sourceEndSu"@) == Some(
            JsonModel::Number(NumberModel::PosInt(end_su)),
        ) ==> (ack_members(id, frame) matches Some(m) && {
            &&& m.contains_pair("id"@, JsonModel::Text(id))
            &&& m.contains_pair("creditedEndSu"@, JsonModel::Number(NumberModel::PosInt(end_su)))
            &&& json::member(frame, "deliveryToken"@) == Some(token) ==> m.contains_pair(
                "deliveryToken"@,
                token,
            )
            &&& json::member(frame, "clientGeneration"@) == Some(token) ==> m.contains_pair(
                "clientGeneration"@,
                token,
            )
            &&& json::member(frame, "ownerGeneration"@) == Some(token) ==> m.contains_pair(
                "ownerGeneration"@,
                token,
            )
        }),
{
    reveal_strlit("id");
    reveal_strlit("clientGeneration");
    reveal_strlit("ownerGeneration");
    reveal_strlit("deliveryToken");
    reveal_strlit("creditedEndSu");
    assert("id"@.len() == 2 && "clientGeneration"@.len() == 16 && "ownerGeneration"@.len() == 15);
    assert("deliveryToken"@.len() == 13 && "creditedEndSu"@.len() == 13);
    assert("deliveryToken"@[0] == 'd' && "creditedEndSu"@[0] == 'c');
}

/// A number of more than 32 bits counts by its last 32 bits, and a message whose number is none is no
/// response.
pub proof fn response_numbers_have_thirty_two_bits(value: JsonModel, n: u64)
    ensures
        json::member(value, "id"@) == Some(JsonModel::Number(NumberModel::PosInt(n)))
            && json::member(value, "result"@) is Some ==> (response_id(value) matches Some(id) && id
            as int == n as int % 0x1_0000_0000),
        !(json::member(value, "id"@) matches Some(JsonModel::Number(NumberModel::PosInt(_))))
            ==> response_id(value) is None,
{
}

/// A notification without parameters, or with parameters that name no terminal, goes to all.
pub proof fn notifications_may_tell_less(
    pending: Set<u32>,
    routes: Set<Seq<char>>,
    value: JsonModel,
    method: Seq<char>,
    params: JsonModel,
)
    requires
        response_id(value) is None,
        json::member(value, "method"@) == Some(JsonModel::Text(method)),
    ensures
        json::member(value, "params"@) is None ==> relayed(pending, routes, value) == (
        RelayActionModel::Notify {
            notification: NotificationModel { method, params: JsonModel::Null },
        }),
        json::member(value, "params"@) == Some(params) && !(json::member(params, "id"@) matches Some(
            JsonModel::Text(_),
        )) ==> relayed(pending, routes, value) == (RelayActionModel::Notify {
            notification: NotificationModel { method, params },
        }),
{
}

/// What the relay did not tell along with its output is acknowledged as nothing.
pub proof fn acknowledgements_may_tell_less(id: Seq<char>, frame: JsonModel)
    ensures
        !(json::member(frame, "sourceEndSu"@) matches Some(JsonModel::Number(NumberModel::PosInt(_))))
            <==> ack_members(id, frame) is None,
        ack_members(id, frame) matches Some(m) ==> {
            &&& json::member(frame, "deliveryToken"@) is None ==> m.contains_pair(
                "deliveryToken"@,
                JsonModel::Null,
            )
            &&& json::member(frame, "clientGeneration"@) is None ==> m.contains_pair(
                "clientGeneration"@,
                JsonModel::Null,
            )
            &&& json::member(frame, "ownerGeneration"@) is None ==> m.contains_pair(
                "ownerGeneration"@,
                JsonModel::Null,
            )
        },
{
    reveal_strlit("id");
    reveal_strlit("clientGeneration");
    reveal_strlit("ownerGeneration");
    reveal_strlit("deliveryToken");
    reveal_strlit("creditedEndSu");
    assert("id"@.len() == 2 && "clientGeneration"@.len() == 16 && "ownerGeneration"@.len() == 15);
    assert("deliveryToken"@.len() == 13 && "creditedEndSu"@.len() == 13);
    assert("deliveryToken"@[0] == 'd' && "creditedEndSu"@[0] == 'c');
}

} // verus!
