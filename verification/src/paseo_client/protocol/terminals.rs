//! Terminals of the daemon.
use crate::json;
use crate::json::{Json, JsonModel, NumberModel, ObjectBuilder};
use crate::paseo_client::error::{ErrorModel, PaseoError};
use crate::paseo_client::protocol::agents;
use crate::text;
use vstd::prelude::*;

verus! {

/// A terminal as the daemon lists it.
#[derive(Clone, Debug, PartialEq, Eq)]
pub struct TerminalInfo {
    pub id: String,
    pub name: String,
    pub cwd: String,
    pub workspace_id: Option<String>,
    pub title: Option<String>,
    pub activity: Option<String>,
}

/// The request for the terminals, those of a directory where one is given.
pub fn list_terminals_request(request_id: &str, cwd: Option<&str>) -> (r: Json)
    ensures
        r@ == JsonModel::Object(
            agents::with_text(
                map![
                    "type"@ => JsonModel::Text("list_terminals_request"@),
                    "requestId"@ => JsonModel::Text(request_id@),
                ],
                "cwd"@,
                match cwd {
                    Some(cwd) => Some(cwd@),
                    None => None,
                },
            ),
        ),
{
    let msg = ObjectBuilder::new()
        .with("type", Json::text("list_terminals_request"))
        .with("requestId", Json::text(request_id));
    match cwd {
        Some(cwd) => msg.with("cwd", Json::text(cwd)).build(),
        None => msg.build(),
    }
}

/// What a new terminal runs, for whom, and its size.
#[derive(Debug)]
pub struct CreateTerminalOpts {
    pub name: Option<String>,
    pub agent_id: Option<String>,
    pub command: Option<String>,
    pub args: Option<Vec<String>>,
    pub workspace_id: Option<String>,
    pub rows: u32,
    pub cols: u32,
}

impl Default for CreateTerminalOpts {
    /// A shell of 24 rows and 80 columns.
    fn default() -> (r: CreateTerminalOpts)
        ensures
            r.name is None,
            r.agent_id is None,
            r.command is None,
            r.args is None,
            r.workspace_id is None,
            r.rows == 24,
            r.cols == 80,
    {
        CreateTerminalOpts {
            name: None,
            agent_id: None,
            command: None,
            args: None,
            workspace_id: None,
            rows: 24,
            cols: 80,
        }
    }
}

/// The members of the request for a terminal: what the options do not give is left out.
pub open spec fn create_terminal_members(
    request_id: Seq<char>,
    cwd: Seq<char>,
    opts: CreateTerminalOpts,
) -> Map<Seq<char>, JsonModel> {
    let base = map![
        "type"@ => JsonModel::Text("create_terminal_request"@),
        "requestId"@ => JsonModel::Text(request_id),
        "cwd"@ => JsonModel::Text(cwd),
        "size"@ => JsonModel::Object(
            map![
                "rows"@ => JsonModel::Number(NumberModel::PosInt(opts.rows as u64)),
                "cols"@ => JsonModel::Number(NumberModel::PosInt(opts.cols as u64)),
            ],
        ),
    ];
    let named = agents::with_text(base, "name"@, text::opt_text(opts.name));
    let owned = agents::with_text(named, "agentId"@, text::opt_text(opts.agent_id));
    let run = agents::with_text(owned, "command"@, text::opt_text(opts.command));
    let with_args = match opts.args {
        Some(args) => run.insert(
            "args"@,
            JsonModel::Array(json::text_items(text::texts(args@))),
        ),
        None => run,
    };
    agents::with_text(with_args, "workspaceId"@, text::opt_text(opts.workspace_id))
}

/// The request for a new terminal.
pub fn create_terminal_request(request_id: &str, cwd: &str, opts: &CreateTerminalOpts) -> (r: Json)
    ensures
        r@ == JsonModel::Object(create_terminal_members(request_id@, cwd@, *opts)),
{
    let size = ObjectBuilder::new()
        .with("rows", Json::count(opts.rows as u64))
        .with("cols", Json::count(opts.cols as u64))
        .build();
    let msg = ObjectBuilder::new()
        .with("type", Json::text("create_terminal_request"))
        .with("requestId", Json::text(request_id))
        .with("cwd", Json::text(cwd))
        .with("size", size);
    let msg = agents::set_text(msg, "name", &opts.name);
    let msg = agents::set_text(msg, "agentId", &opts.agent_id);
    let msg = agents::set_text(msg, "command", &opts.command);
    let msg = match &opts.args {
        Some(args) => msg.with("args", Json::text_array(args)),
        None => msg,
    };
    agents::set_text(msg, "workspaceId", &opts.workspace_id).build()
}

/// The request for the output of a terminal.
pub fn subscribe_terminal_request(request_id: &str, terminal_id: &str, restore_mode: &str) -> (r: Json)
    ensures
        r@ == JsonModel::Object(
            map![
                "type"@ => JsonModel::Text("subscribe_terminal_request"@),
                "requestId"@ => JsonModel::Text(request_id@),
                "terminalId"@ => JsonModel::Text(terminal_id@),
                "restore"@ => JsonModel::Object(map!["mode"@ => JsonModel::Text(restore_mode@)]),
            ],
        ),
{
    ObjectBuilder::new()
        .with("type", Json::text("subscribe_terminal_request"))
        .with("requestId", Json::text(request_id))
        .with("terminalId", Json::text(terminal_id))
        .with("restore", ObjectBuilder::new().with("mode", Json::text(restore_mode)).build())
        .build()
}

/// The message that ends a subscription to a terminal.
pub fn unsubscribe_terminal_request(terminal_id: &str) -> (r: Json)
    ensures
        r@ == JsonModel::Object(
            map![
                "type"@ => JsonModel::Text("unsubscribe_terminal_request"@),
                "terminalId"@ => JsonModel::Text(terminal_id@),
            ],
        ),
{
    ObjectBuilder::new()
        .with("type", Json::text("unsubscribe_terminal_request"))
        .with("terminalId", Json::text(terminal_id))
        .build()
}

/// The request to end a terminal.
pub fn kill_terminal_request(request_id: &str, terminal_id: &str) -> (r: Json)
    ensures
        r@ == JsonModel::Object(
            map![
                "type"@ => JsonModel::Text("kill_terminal_request"@),
                "requestId"@ => JsonModel::Text(request_id@),
                "terminalId"@ => JsonModel::Text(terminal_id@),
            ],
        ),
{
    ObjectBuilder::new()
        .with("type", Json::text("kill_terminal_request"))
        .with("requestId", Json::text(request_id))
        .with("terminalId", Json::text(terminal_id))
        .build()
}

/// The slot that a subscription got: the daemon's error where it reports one, else a number of one
/// byte.
pub open spec fn subscribe_slot(payload: JsonModel) -> Result<u8, ErrorModel> {
    match json::text_member(payload, "error"@) {
        Some(e) => Err(ErrorModel::Rpc(e)),
        None => match json::count_in(json::member(payload, "slot"@)) {
            None => Err(ErrorModel::Protocol("subscribe_terminal_response missing slot"@)),
            Some(slot) => if slot > 255 {
                Err(ErrorModel::Protocol("slot out of range"@))
            } else {
                Ok(slot as u8)
            },
        },
    }
}

/// The slot that a subscription got.
pub fn parse_subscribe_slot(payload: &Json) -> (r: Result<u8, PaseoError>)
    ensures
        match subscribe_slot(payload@) {
            Ok(slot) => r matches Ok(s) && s == slot,
            Err(e) => r matches Err(x) && x@ == e,
        },
{
    if let Some(error) = payload.get_text("error") {
        return Err(PaseoError::Rpc(error));
    }
    let slot: Option<u64> = match payload.get("slot") {
        Some(slot) => slot.as_count(),
        None => None,
    };
    match slot {
        None => Err(PaseoError::Protocol("subscribe_terminal_response missing slot".to_owned())),
        Some(slot) => if slot > 255 {
            Err(PaseoError::Protocol("slot out of range".to_owned()))
        } else {
            Ok(slot as u8)
        },
    }
}

/// The entries of the member `key`, none where it is no array.
pub open spec fn entries_of(payload: JsonModel, key: Seq<char>) -> Seq<JsonModel> {
    match json::member(payload, key) {
        Some(JsonModel::Array(items)) => items,
        _ => Seq::empty(),
    }
}

/// Copies of the entries of the member `key`.
pub fn entries(payload: &Json, key: &str) -> (r: Vec<Json>)
    ensures
        json::models(r@) == entries_of(payload@, key@),
{
    match payload.get(key) {
        Some(Json::Array(v)) => json::copy_items(v),
        _ => {
            let none: Vec<Json> = Vec::new();
            assert(json::models(none@) == Seq::<JsonModel>::empty());
            none
        },
    }
}

/// The terminals that the daemon lists, each still in JSON.
pub fn terminal_entries(payload: &Json) -> (r: Vec<Json>)
    ensures
        json::models(r@) == entries_of(payload@, "terminals"@),
{
    entries(payload, "terminals")
}

/// A subscription has the slot that the daemon gives, where that is one byte. It is refused with the
/// daemon's error where there is one, and where the slot is missing or greater.
pub proof fn slots_are_read(payload: JsonModel, error: Seq<char>, slot: u64)
    ensures
        json::member(payload, "error"@) == Some(JsonModel::Text(error)) ==> subscribe_slot(payload)
            == Err::<u8, ErrorModel>(ErrorModel::Rpc(error)),
        !(json::member(payload, "error"@) matches Some(JsonModel::Text(_))) ==> {
            &&& !(json::member(payload, "slot"@) matches Some(
                JsonModel::Number(NumberModel::PosInt(_)),
            )) ==> subscribe_slot(payload) is Err
            &&& json::member(payload, "slot"@) == Some(
                JsonModel::Number(NumberModel::PosInt(slot)),
            ) && slot < 256 ==> subscribe_slot(payload) == Ok::<u8, ErrorModel>(slot as u8)
            &&& json::member(payload, "slot"@) == Some(
                JsonModel::Number(NumberModel::PosInt(slot)),
            ) && slot >= 256 ==> subscribe_slot(payload) is Err
        },
{
}

/// The request for a terminal says what is asked for, and leaves out what is not: each option stands
/// under its own name.
pub proof fn options_are_asked_for(
    request_id: Seq<char>,
    cwd: Seq<char>,
    opts: CreateTerminalOpts,
)
    ensures
        ({
            let m = create_terminal_members(request_id, cwd, opts);
            &&& m.contains_pair("requestId"@, JsonModel::Text(request_id))
            &&& m.contains_pair("cwd"@, JsonModel::Text(cwd))
            &&& m.contains_key("name"@) <==> opts.name is Some
            &&& opts.name matches Some(s) ==> m["name"@] == JsonModel::Text(s@)
            &&& m.contains_key("agentId"@) <==> opts.agent_id is Some
            &&& opts.agent_id matches Some(s) ==> m["agentId"@] == JsonModel::Text(s@)
            &&& m.contains_key("command"@) <==> opts.command is Some
            &&& opts.command matches Some(s) ==> m["command"@] == JsonModel::Text(s@)
            &&& m.contains_key("workspaceId"@) <==> opts.workspace_id is Some
            &&& opts.workspace_id matches Some(s) ==> m["workspaceId"@] == JsonModel::Text(s@)
            &&& m.contains_key("args"@) <==> opts.args is Some
            &&& m.contains_key("size"@) && json::member(m["size"@], "rows"@) == Some(
                JsonModel::Number(NumberModel::PosInt(opts.rows as u64)),
            ) && json::member(m["size"@], "cols"@) == Some(
                JsonModel::Number(NumberModel::PosInt(opts.cols as u64)),
            )
        }),
{
    reveal_strlit("type");
    reveal_strlit("requestId");
    reveal_strlit("cwd");
    reveal_strlit("size");
    reveal_strlit("rows");
    reveal_strlit("cols");
    reveal_strlit("name");
    reveal_strlit("agentId");
    reveal_strlit("command");
    reveal_strlit("args");
    reveal_strlit("workspaceId");
    assert("type"@.len() == 4 && "size"@.len() == 4 && "name"@.len() == 4 && "args"@.len() == 4);
    assert("type"@[0] == 't' && "size"@[0] == 's' && "name"@[0] == 'n' && "args"@[0] == 'a');
    assert("requestId"@.len() == 9 && "cwd"@.len() == 3 && "workspaceId"@.len() == 11);
    assert("agentId"@.len() == 7 && "command"@.len() == 7 && "agentId"@[0] == 'a' && "command"@[0]
        == 'c');
    assert("rows"@[0] == 'r' && "cols"@[0] == 'c');
}

} // verus!
