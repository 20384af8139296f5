//! Agents: what the daemon says of them, and the requests about them.
use crate::collections::TextMap;
use crate::json;
use crate::json::{Json, JsonModel, NumberModel, ObjectBuilder};
use crate::paseo_client::protocol::timeline::ToolCallDetail;
use crate::text;
use vstd::prelude::*;

verus! {

/// A way in which an agent can work.
#[derive(Clone, Debug, PartialEq, Eq)]
pub struct AgentMode {
    pub id: String,
    pub label: String,
}

/// One of several choices.
#[derive(Clone, Debug, PartialEq, Eq)]
pub struct SelectOption {
    pub id: String,
    pub label: String,
}

/// A model that an agent can use.
#[derive(Clone, Debug, PartialEq, Eq)]
pub struct ModelDefinition {
    pub id: String,
    pub label: String,
    pub thinking_options: Vec<SelectOption>,
    pub default_thinking_option_id: Option<String>,
}

/// An agent as it stands.
#[derive(Debug)]
pub struct AgentSnapshot {
    pub id: String,
    pub provider: String,
    pub cwd: String,
    pub workspace_id: Option<String>,
    pub model: Option<String>,
    pub status: String,
    pub current_mode_id: Option<String>,
    pub available_modes: Vec<AgentMode>,
    pub thinking_option_id: Option<String>,
    pub title: Option<String>,
    pub labels: TextMap<Json>,
    pub created_at: Option<String>,
    pub updated_at: Option<String>,
    pub requires_attention: bool,
    pub attention_reason: Option<String>,
    pub archived_at: Option<String>,
    pub pending_permissions: Vec<PermissionRequest>,
}

/// An agent and the project that it works on.
#[derive(Debug)]
pub struct AgentListEntry {
    pub agent: AgentSnapshot,
    pub project: Json,
}

/// One answer that a request for permission offers.
#[derive(Clone, Debug, PartialEq, Eq)]
pub struct PermissionAction {
    pub id: String,
    pub label: String,
    pub behavior: String,
    pub variant: Option<String>,
}

/// What an agent asks leave for.
#[derive(Debug)]
pub struct PermissionRequest {
    pub id: String,
    pub provider: String,
    pub name: String,
    pub kind: String,
    pub title: Option<String>,
    pub description: Option<String>,
    pub detail: Option<ToolCallDetail>,
    pub input: Option<Json>,
    pub actions: Vec<PermissionAction>,
}

/// The answer to a request for permission.
#[derive(Debug)]
pub enum PermissionResponse {
    Allow { selected_action_id: Option<String>, updated_input: Option<Json> },
    Deny { message: Option<String>, interrupt: bool },
}

/// The members with `key` set to the text, where there is one.
pub open spec fn with_text(
    members: Map<Seq<char>, JsonModel>,
    key: Seq<char>,
    text: Option<Seq<char>>,
) -> Map<Seq<char>, JsonModel> {
    match text {
        Some(s) => members.insert(key, JsonModel::Text(s)),
        None => members,
    }
}

/// The object with `key` set to the text, where there is one.
pub fn set_text(object: ObjectBuilder, key: &str, text: &Option<String>) -> (r: ObjectBuilder)
    ensures
        r@ == with_text(object@, key@, text::opt_text(*text)),
{
    match text {
        Some(s) => object.with(key, Json::text(s.as_str())),
        None => object,
    }
}

impl PermissionResponse {
    /// The answer in JSON: what is not given is left out.
    pub open spec fn json(&self) -> JsonModel {
        match self {
            PermissionResponse::Allow { selected_action_id, updated_input } => {
                let chosen = with_text(
                    map!["behavior"@ => JsonModel::Text("allow"@)],
                    "selectedActionId"@,
                    text::opt_text(*selected_action_id),
                );
                JsonModel::Object(
                    match updated_input {
                        Some(input) => chosen.insert("updatedInput"@, input@),
                        None => chosen,
                    },
                )
            },
            PermissionResponse::Deny { message, interrupt } => JsonModel::Object(
                with_text(
                    map![
                        "behavior"@ => JsonModel::Text("deny"@),
                        "interrupt"@ => JsonModel::Bool(*interrupt),
                    ],
                    "message"@,
                    text::opt_text(*message),
                ),
            ),
        }
    }

    /// The answer in JSON.
    pub fn to_value(&self) -> (r: Json)
        ensures
            r@ == self.json(),
    {
        match self {
            PermissionResponse::Allow { selected_action_id, updated_input } => {
                let v = ObjectBuilder::new().with("behavior", Json::text("allow"));
                let v = set_text(v, "selectedActionId", selected_action_id);
                match updated_input {
                    Some(input) => v.with("updatedInput", input.copy()).build(),
                    None => v.build(),
                }
            },
            PermissionResponse::Deny { message, interrupt } => {
                let v = ObjectBuilder::new().with("behavior", Json::text("deny")).with(
                    "interrupt",
                    Json::Bool(*interrupt),
                );
                set_text(v, "message", message).build()
            },
        }
    }
}

/// The request for the agents.
pub fn fetch_agents_request(request_id: &str) -> (r: Json)
    ensures
        r@ == JsonModel::Object(
            map![
                "type"@ => JsonModel::Text("fetch_agents_request"@),
                "requestId"@ => JsonModel::Text(request_id@),
                "page"@ => JsonModel::Object(map!["limit"@ => JsonModel::Number(NumberModel::PosInt(200 as u64))]),
            ],
        ),
{
    ObjectBuilder::new()
        .with("type", Json::text("fetch_agents_request"))
        .with("requestId", Json::text(request_id))
        .with("page", ObjectBuilder::new().with("limit", Json::count(200 as u64)).build())
        .build()
}

/// The request for the agents, and for word of every change to them.
pub fn subscribe_agents_request(request_id: &str, subscription_id: &str) -> (r: Json)
    ensures
        r@ == JsonModel::Object(
            map![
                "type"@ => JsonModel::Text("fetch_agents_request"@),
                "requestId"@ => JsonModel::Text(request_id@),
                "page"@ => JsonModel::Object(map!["limit"@ => JsonModel::Number(NumberModel::PosInt(200 as u64))]),
                "subscribe"@ => JsonModel::Object(map!["subscriptionId"@ => JsonModel::Text(subscription_id@)]),
            ],
        ),
{
    ObjectBuilder::new()
        .with("type", Json::text("fetch_agents_request"))
        .with("requestId", Json::text(request_id))
        .with("page", ObjectBuilder::new().with("limit", Json::count(200 as u64)).build())
        .with("subscribe", ObjectBuilder::new().with("subscriptionId", Json::text(subscription_id)).build())
        .build()
}

/// The request for one agent.
pub fn fetch_agent_request(request_id: &str, agent_id: &str) -> (r: Json)
    ensures
        r@ == JsonModel::Object(
            map![
                "type"@ => JsonModel::Text("fetch_agent_request"@),
                "requestId"@ => JsonModel::Text(request_id@),
                "agentId"@ => JsonModel::Text(agent_id@),
            ],
        ),
{
    ObjectBuilder::new()
        .with("type", Json::text("fetch_agent_request"))
        .with("requestId", Json::text(request_id))
        .with("agentId", Json::text(agent_id))
        .build()
}

/// The request for what an agent did.
pub fn fetch_agent_timeline_request(request_id: &str, agent_id: &str, direction: &str, limit: u32) -> (r: Json)
    ensures
        r@ == JsonModel::Object(
            map![
                "type"@ => JsonModel::Text("fetch_agent_timeline_request"@),
                "requestId"@ => JsonModel::Text(request_id@),
                "agentId"@ => JsonModel::Text(agent_id@),
                "direction"@ => JsonModel::Text(direction@),
                "limit"@ => JsonModel::Number(NumberModel::PosInt(limit as u64)),
            ],
        ),
{
    ObjectBuilder::new()
        .with("type", Json::text("fetch_agent_timeline_request"))
        .with("requestId", Json::text(request_id))
        .with("agentId", Json::text(agent_id))
        .with("direction", Json::text(direction))
        .with("limit", Json::count(limit as u64))
        .build()
}

/// The request for word of what the given agents do.
pub fn set_timeline_subscription_request(request_id: &str, agent_ids: &[String]) -> (r: Json)
    ensures
        r@ == JsonModel::Object(
            map![
                "type"@ => JsonModel::Text("agent.timeline.set_subscription.request"@),
                "requestId"@ => JsonModel::Text(request_id@),
                "agentIds"@ => JsonModel::Array(json::text_items(text::texts(agent_ids@))),
            ],
        ),
{
    ObjectBuilder::new()
        .with("type", Json::text("agent.timeline.set_subscription.request"))
        .with("requestId", Json::text(request_id))
        .with("agentIds", Json::text_array(agent_ids))
        .build()
}

/// The request to tell an agent something.
pub fn send_agent_message_request(request_id: &str, agent_id: &str, text: &str) -> (r: Json)
    ensures
        r@ == JsonModel::Object(
            map![
                "type"@ => JsonModel::Text("send_agent_message_request"@),
                "requestId"@ => JsonModel::Text(request_id@),
                "agentId"@ => JsonModel::Text(agent_id@),
                "text"@ => JsonModel::Text(text@),
            ],
        ),
{
    ObjectBuilder::new()
        .with("type", Json::text("send_agent_message_request"))
        .with("requestId", Json::text(request_id))
        .with("agentId", Json::text(agent_id))
        .with("text", Json::text(text))
        .build()
}

/// The request to stop what an agent does.
pub fn cancel_agent_request(request_id: &str, agent_id: &str) -> (r: Json)
    ensures
        r@ == JsonModel::Object(
            map![
                "type"@ => JsonModel::Text("cancel_agent_request"@),
                "agentId"@ => JsonModel::Text(agent_id@),
                "requestId"@ => JsonModel::Text(request_id@),
            ],
        ),
{
    ObjectBuilder::new()
        .with("type", Json::text("cancel_agent_request"))
        .with("agentId", Json::text(agent_id))
        .with("requestId", Json::text(request_id))
        .build()
}

/// The request to change an agent's mode.
pub fn set_agent_mode_request(request_id: &str, agent_id: &str, mode_id: &str) -> (r: Json)
    ensures
        r@ == JsonModel::Object(
            map![
                "type"@ => JsonModel::Text("set_agent_mode_request"@),
                "agentId"@ => JsonModel::Text(agent_id@),
                "modeId"@ => JsonModel::Text(mode_id@),
                "requestId"@ => JsonModel::Text(request_id@),
            ],
        ),
{
    ObjectBuilder::new()
        .with("type", Json::text("set_agent_mode_request"))
        .with("agentId", Json::text(agent_id))
        .with("modeId", Json::text(mode_id))
        .with("requestId", Json::text(request_id))
        .build()
}

/// The request to change an agent's model.
pub fn set_agent_model_request(request_id: &str, agent_id: &str, model_id: &str) -> (r: Json)
    ensures
        r@ == JsonModel::Object(
            map![
                "type"@ => JsonModel::Text("set_agent_model_request"@),
                "agentId"@ => JsonModel::Text(agent_id@),
                "modelId"@ => JsonModel::Text(model_id@),
                "requestId"@ => JsonModel::Text(request_id@),
            ],
        ),
{
    ObjectBuilder::new()
        .with("type", Json::text("set_agent_model_request"))
        .with("agentId", Json::text(agent_id))
        .with("modelId", Json::text(model_id))
        .with("requestId", Json::text(request_id))
        .build()
}

/// The request to change how an agent thinks.
pub fn set_agent_thinking_request(request_id: &str, agent_id: &str, thinking_option_id: &str) -> (r: Json)
    ensures
        r@ == JsonModel::Object(
            map![
                "type"@ => JsonModel::Text("set_agent_thinking_request"@),
                "agentId"@ => JsonModel::Text(agent_id@),
                "thinkingOptionId"@ => JsonModel::Text(thinking_option_id@),
                "requestId"@ => JsonModel::Text(request_id@),
            ],
        ),
{
    ObjectBuilder::new()
        .with("type", Json::text("set_agent_thinking_request"))
        .with("agentId", Json::text(agent_id))
        .with("thinkingOptionId", Json::text(thinking_option_id))
        .with("requestId", Json::text(request_id))
        .build()
}

/// The request for the models of a provider, those of a directory where one is given.
pub fn list_provider_models_request(request_id: &str, provider: &str, cwd: Option<&str>) -> (r: Json)
    ensures
        r@ == JsonModel::Object(
            with_text(
                map![
                    "type"@ => JsonModel::Text("list_provider_models_request"@),
                    "provider"@ => JsonModel::Text(provider@),
                    "requestId"@ => JsonModel::Text(request_id@),
                ],
                "cwd"@,
                match cwd {
                    Some(cwd) => Some(cwd@),
                    None => None,
                },
            ),
        ),
{
    let msg = ObjectBuilder::new()
        .with("type", Json::text("list_provider_models_request"))
        .with("provider", Json::text(provider))
        .with("requestId", Json::text(request_id));
    match cwd {
        Some(cwd) => msg.with("cwd", Json::text(cwd)).build(),
        None => msg.build(),
    }
}

/// The message that answers an agent's request for permission.
pub fn permission_response_message(agent_id: &str, request_id: &str, response: &PermissionResponse) -> (r: Json)
    ensures
        r@ == JsonModel::Object(
            map![
                "type"@ => JsonModel::Text("agent_permission_response"@),
                "agentId"@ => JsonModel::Text(agent_id@),
                "requestId"@ => JsonModel::Text(request_id@),
                "response"@ => response.json(),
            ],
        ),
{
    ObjectBuilder::new()
        .with("type", Json::text("agent_permission_response"))
        .with("agentId", Json::text(agent_id))
        .with("requestId", Json::text(request_id))
        .with("response", response.to_value())
        .build()
}

/// A permission that is given says so, with the action that was chosen and the input that was changed,
/// where there are any. One that is refused says so, whether the agent is to be stopped, and why.
pub proof fn answers_to_permissions(
    selected: Option<String>,
    input: Option<Json>,
    message: Option<String>,
    interrupt: bool,
)
    ensures
        ({
            let allow = (PermissionResponse::Allow {
                selected_action_id: selected,
                updated_input: input,
            }).json();
            let deny = (PermissionResponse::Deny { message, interrupt }).json();
            &&& json::member(allow, "behavior"@) == Some(JsonModel::Text("allow"@))
            &&& json::text_member(allow, "selectedActionId"@) == text::opt_text(selected)
            &&& json::member(allow, "updatedInput"@) == (match input {
                Some(j) => Some(j@),
                None => None,
            })
            &&& json::member(allow, "interrupt"@) is None
            &&& json::member(deny, "behavior"@) == Some(JsonModel::Text("deny"@))
            &&& json::member(deny, "interrupt"@) == Some(JsonModel::Bool(interrupt))
            &&& json::text_member(deny, "message"@) == text::opt_text(message)
        }),
{
    reveal_strlit("behavior");
    reveal_strlit("selectedActionId");
    reveal_strlit("updatedInput");
    reveal_strlit("interrupt");
    reveal_strlit("message");
    assert("behavior"@.len() == 8 && "selectedActionId"@.len() == 16 && "updatedInput"@.len() == 12);
    assert("interrupt"@.len() == 9 && "message"@.len() == 7);
}

} // verus!
