//! The outermost layer of the messages between client and daemon.
use crate::json;
use crate::json::{Json, JsonModel, NumberModel, ObjectBuilder};
use crate::text;
use vstd::prelude::*;

verus! {

/// What the client can do.
pub open spec fn capabilities_json() -> JsonModel {
    JsonModel::Object(
        map![
            "custom_mode_icons"@ => JsonModel::Bool(true),
            "reasoning_merge_enum"@ => JsonModel::Bool(true),
            "terminal_reflowable_snapshot"@ => JsonModel::Bool(true),
            "provider_subagents"@ => JsonModel::Bool(true),
            "project_updates"@ => JsonModel::Bool(true),
            "selective_agent_timeline"@ => JsonModel::Bool(true),
        ],
    )
}

/// What the client can do.
pub fn capabilities() -> (r: Json)
    ensures
        r@ == capabilities_json(),
{
    ObjectBuilder::new().with("custom_mode_icons", Json::Bool(true)).with(
        "reasoning_merge_enum",
        Json::Bool(true),
    ).with("terminal_reflowable_snapshot", Json::Bool(true)).with(
        "provider_subagents",
        Json::Bool(true),
    ).with("project_updates", Json::Bool(true)).with("selective_agent_timeline", Json::Bool(true)).build()
}

/// The first message of a client, without a version.
pub open spec fn hello_members(client_id: Seq<char>) -> Map<Seq<char>, JsonModel> {
    map![
        "type"@ => JsonModel::Text("hello"@),
        "clientId"@ => JsonModel::Text(client_id),
        "clientType"@ => JsonModel::Text("cli"@),
        "protocolVersion"@ => JsonModel::Number(NumberModel::PosInt(1)),
        "capabilities"@ => capabilities_json(),
    ]
}

/// The first message of a client.
pub fn hello_message(client_id: &str, app_version: Option<&str>) -> (r: Json)
    ensures
        r@ == JsonModel::Object(
            match app_version {
                Some(version) => hello_members(client_id@).insert(
                    "appVersion"@,
                    JsonModel::Text(version@),
                ),
                None => hello_members(client_id@),
            },
        ),
{
    let msg = ObjectBuilder::new().with("type", Json::text("hello")).with(
        "clientId",
        Json::text(client_id),
    ).with("clientType", Json::text("cli")).with("protocolVersion", Json::count(1)).with(
        "capabilities",
        capabilities(),
    );
    match app_version {
        Some(version) => msg.with("appVersion", Json::text(version)).build(),
        None => msg.build(),
    }
}

/// The message that asks for a sign of life.
pub fn ping_message() -> (r: Json)
    ensures
        r@ == JsonModel::Object(map!["type"@ => JsonModel::Text("ping"@)]),
{
    ObjectBuilder::new().with("type", Json::text("ping")).build()
}

/// A message of the session in its envelope.
pub open spec fn enveloped(message: JsonModel) -> JsonModel {
    JsonModel::Object(map!["type"@ => JsonModel::Text("session"@), "message"@ => message])
}

/// A message of the session in its envelope.
pub fn session_envelope(message: Json) -> (r: Json)
    ensures
        r@ == enveloped(message@),
{
    ObjectBuilder::new().with("type", Json::text("session")).with("message", message).build()
}

/// A message from the daemon.
#[derive(Debug)]
pub enum Incoming {
    Pong,
    Session(Json),
    Unknown(Json),
}

/// What an [`Incoming`] says.
#[verifier::ext_equal]
pub enum IncomingModel {
    Pong,
    Session(JsonModel),
    Unknown(JsonModel),
}

impl View for Incoming {
    type V = IncomingModel;

    open spec fn view(&self) -> IncomingModel {
        match self {
            Incoming::Pong => IncomingModel::Pong,
            Incoming::Session(j) => IncomingModel::Session(j@),
            Incoming::Unknown(j) => IncomingModel::Unknown(j@),
        }
    }
}

/// The value, or `null` where there is none.
pub open spec fn or_null(j: Option<JsonModel>) -> JsonModel {
    match j {
        Some(j) => j,
        None => JsonModel::Null,
    }
}

/// A message from the daemon by its type.
pub open spec fn incoming_of(value: JsonModel) -> IncomingModel {
    match json::text_member(value, "type"@) {
        Some(ty) => if ty == "pong"@ {
            IncomingModel::Pong
        } else if ty == "session"@ {
            IncomingModel::Session(or_null(json::member(value, "message"@)))
        } else {
            IncomingModel::Unknown(value)
        },
        None => IncomingModel::Unknown(value),
    }
}

/// A copy of the member `key`, or `null` where there is none.
pub fn member_or_null(value: &Json, key: &str) -> (r: Json)
    ensures
        r@ == or_null(json::member(value@, key@)),
{
    match value.get(key) {
        Some(j) => j.copy(),
        None => Json::Null,
    }
}

/// A message from the daemon by its type.
pub fn classify_top_level(value: Json) -> (r: Incoming)
    ensures
        r@ == incoming_of(value@),
{
    let ty = match value.get_text("type") {
        Some(ty) => ty,
        None => return Incoming::Unknown(value),
    };
    if text::same(ty.as_str(), "pong") {
        Incoming::Pong
    } else if text::same(ty.as_str(), "session") {
        Incoming::Session(member_or_null(&value, "message"))
    } else {
        Incoming::Unknown(value)
    }
}

/// Reads a message from the daemon.
pub fn parse_top_level(text: &str) -> (r: Result<Incoming, String>)
    ensures
        match json::json_parsed(text@) {
            Ok(value) => r matches Ok(i) && i@ == incoming_of(value),
            Err(e) => r matches Err(x) && x@ == e,
        },
{
    match Json::read(text) {
        Ok(value) => Ok(classify_top_level(value)),
        Err(e) => Err(e),
    }
}

/// The type of a message of the session, empty where it has none.
pub open spec fn message_type(message: JsonModel) -> Seq<char> {
    match json::text_member(message, "type"@) {
        Some(ty) => ty,
        None => ""@,
    }
}

/// The type of a message of the session, empty where it has none.
pub fn session_message_type(message: &Json) -> (r: &str)
    ensures
        r@ == message_type(message@),
{
    match message.get("type") {
        Some(ty) => match ty.as_text() {
            Some(ty) => ty,
            None => "",
        },
        None => "",
    }
}

/// The request that a message answers: the `requestId` of its payload, where that has one, else its
/// own.
pub open spec fn request_id_of(message: JsonModel) -> Option<Seq<char>> {
    match json::member_at(message, seq!["payload"@, "requestId"@]) {
        Some(id) => json::text_in(Some(id)),
        None => json::text_member(message, "requestId"@),
    }
}

/// The member that two keys lead to.
pub fn nested<'a>(value: &'a Json, outer: &str, inner: &str) -> (r: Option<&'a Json>)
    ensures
        json::opt_model(r) == json::member_at(value@, seq![outer@, inner@]),
{
    proof {
        let path = seq![outer@, inner@];
        assert(path.drop_last() == seq![outer@]);
        assert(path.drop_last().drop_last() == Seq::<Seq<char>>::empty());
        reveal_with_fuel(json::member_at, 3);
    }
    match value.get(outer) {
        Some(v) => v.get(inner),
        None => None,
    }
}

/// The request that a message of the session answers.
pub fn session_request_id(message: &Json) -> (r: Option<String>)
    ensures
        text::opt_text(r) == request_id_of(message@),
{
    match nested(message, "payload", "requestId") {
        Some(id) => match id.as_text() {
            Some(id) => Some(id.to_owned()),
            None => None,
        },
        None => message.get_text("requestId"),
    }
}

/// What is sent in an envelope of the session arrives as a message of the session.
pub proof fn envelopes_open(message: JsonModel)
    ensures
        incoming_of(enveloped(message)) == IncomingModel::Session(message),
{
    reveal_strlit("type");
    reveal_strlit("message");
    reveal_strlit("pong");
    reveal_strlit("session");
    assert("type"@.len() != "message"@.len());
    assert("pong"@.len() != "session"@.len());
}

/// A message answers the request that its payload names, whatever it names itself. Only where the
/// payload names none it answers the request that it names itself.
pub proof fn the_payload_names_the_request(message: JsonModel, inner: JsonModel, id: Seq<char>)
    requires
        json::member(message, "payload"@) == Some(inner),
    ensures
        json::member(inner, "requestId"@) == Some(JsonModel::Text(id)) ==> request_id_of(message)
            == Some(id),
        json::member(inner, "requestId"@) matches Some(other) ==> (request_id_of(message) is Some
            <==> other is Text),
        json::member(inner, "requestId"@) is None && json::member(message, "requestId"@) == Some(
            JsonModel::Text(id),
        ) ==> request_id_of(message) == Some(id),
        json::member(inner, "requestId"@) is None && json::member(message, "requestId"@) is None
            ==> request_id_of(message) is None,
{
    let path = seq!["payload"@, "requestId"@];
    assert(path.drop_last() == seq!["payload"@]);
    assert(path.drop_last().drop_last() == Seq::<Seq<char>>::empty());
    reveal_with_fuel(json::member_at, 3);
}

/// A message without a payload answers the request that it names.
pub proof fn a_bare_message_names_its_request(message: JsonModel, id: Seq<char>)
    requires
        json::member(message, "payload"@) is None,
    ensures
        request_id_of(message) == Some(id) <==> json::member(message, "requestId"@) == Some(
            JsonModel::Text(id),
        ),
{
    let path = seq!["payload"@, "requestId"@];
    assert(path.drop_last() == seq!["payload"@]);
    assert(path.drop_last().drop_last() == Seq::<Seq<char>>::empty());
    reveal_with_fuel(json::member_at, 3);
}

/// What arrives is a message of the session where its type says so, a sign of life where it says
/// that, and else unknown, with nothing of it lost.
pub proof fn arrivals_are_told_apart(members: Map<Seq<char>, JsonModel>, value: JsonModel)
    ensures
        ({
            let whole = JsonModel::Object(members);
            &&& members.contains_pair("type"@, JsonModel::Text("pong"@)) ==> incoming_of(whole)
                == IncomingModel::Pong
            &&& members.contains_pair("type"@, JsonModel::Text("session"@))
                && members.contains_key("message"@) ==> incoming_of(whole)
                == IncomingModel::Session(members["message"@])
            &&& members.contains_pair("type"@, JsonModel::Text("session"@))
                && !members.contains_key("message"@) ==> incoming_of(whole)
                == IncomingModel::Session(JsonModel::Null)
        }),
        incoming_of(value) is Pong ==> value is Object && value->Object_0.contains_pair(
            "type"@,
            JsonModel::Text("pong"@),
        ),
        incoming_of(value) is Session ==> value is Object && value->Object_0.contains_pair(
            "type"@,
            JsonModel::Text("session"@),
        ),
        incoming_of(value) matches IncomingModel::Unknown(left) ==> left == value,
{
    reveal_strlit("pong");
    reveal_strlit("session");
    assert("pong"@.len() != "session"@.len());
}

/// The first message of a client says who it is and which protocol it speaks, and names what it can do.
pub proof fn clients_say_hello(client_id: Seq<char>)
    ensures
        ({
            let hello = JsonModel::Object(hello_members(client_id));
            &&& json::member(hello, "type"@) == Some(JsonModel::Text("hello"@))
            &&& json::member(hello, "clientId"@) == Some(JsonModel::Text(client_id))
            &&& json::member(hello, "clientType"@) == Some(JsonModel::Text("cli"@))
            &&& json::member(hello, "protocolVersion"@) == Some(
                JsonModel::Number(NumberModel::PosInt(1)),
            )
            &&& json::member(hello, "capabilities"@) == Some(capabilities_json())
        }),
{
    reveal_strlit("type");
    reveal_strlit("clientId");
    reveal_strlit("clientType");
    reveal_strlit("protocolVersion");
    reveal_strlit("capabilities");
    assert("type"@.len() == 4 && "clientId"@.len() == 8 && "clientType"@.len() == 10);
    assert("protocolVersion"@.len() == 15 && "capabilities"@.len() == 12);
}

/// What a client names is what it can do: each of it is true.
pub proof fn capabilities_are_true(name: Seq<char>)
    ensures
        json::member(capabilities_json(), name) is Some ==> json::member(capabilities_json(), name)
            == Some(JsonModel::Bool(true)),
        json::member(capabilities_json(), "terminal_reflowable_snapshot"@) is Some,
        json::member(capabilities_json(), "selective_agent_timeline"@) is Some,
        json::member(capabilities_json(), "custom_mode_icons"@) is Some,
        json::member(capabilities_json(), "reasoning_merge_enum"@) is Some,
        json::member(capabilities_json(), "provider_subagents"@) is Some,
        json::member(capabilities_json(), "project_updates"@) is Some,
{
}

} // verus!
