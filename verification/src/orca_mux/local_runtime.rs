//! The orca runtime on this machine: where it listens, what it is asked, and its answers.
use crate::bytes;
use crate::json;
use crate::json::{Json, JsonModel, ObjectBuilder};
use crate::paseo_client::client;
use crate::paseo_client::envelope;
use crate::text;
use vstd::prelude::*;

verus! {

/// Where the runtime listens, and what it asks its callers for.
#[derive(Clone, Debug, PartialEq, Eq)]
pub struct LocalRuntime {
    endpoint: String,
    auth_token: String,
    runtime_id: String,
}

/// What a [`LocalRuntime`] says.
#[verifier::ext_equal]
pub struct RuntimeModel {
    pub endpoint: Seq<char>,
    pub auth_token: Seq<char>,
    pub runtime_id: Seq<char>,
}

impl View for LocalRuntime {
    type V = RuntimeModel;

    closed spec fn view(&self) -> RuntimeModel {
        RuntimeModel {
            endpoint: self.endpoint@,
            auth_token: self.auth_token@,
            runtime_id: self.runtime_id@,
        }
    }
}

/// A call of the runtime.
#[derive(Debug)]
pub struct Call {
    pub method: String,
    pub params: Json,
}

/// The first of the transports from index `i` on that is a unix socket.
pub open spec fn unix_from(transports: Seq<JsonModel>, i: int) -> Option<JsonModel>
    decreases transports.len() - i,
{
    if i < 0 || i >= transports.len() {
        None
    } else if json::text_member(transports[i], "kind"@) == Some("unix"@) {
        Some(transports[i])
    } else {
        unix_from(transports, i + 1)
    }
}

/// The runtime that its metadata describe: it needs a token and a unix socket with an endpoint.
pub open spec fn runtime_in(metadata: JsonModel) -> Option<RuntimeModel> {
    match (json::text_member(metadata, "authToken"@), json::member(metadata, "transports"@)) {
        (Some(auth_token), Some(JsonModel::Array(transports))) => match unix_from(transports, 0) {
            None => None,
            Some(unix) => match json::text_member(unix, "endpoint"@) {
                None => None,
                Some(endpoint) => Some(
                    RuntimeModel {
                        endpoint,
                        auth_token,
                        runtime_id: client::text_or(
                            json::text_member(metadata, "runtimeId"@),
                            ""@,
                        ),
                    },
                ),
            },
        },
        _ => None,
    }
}

/// The call of `method` without parameters.
fn plain_call(method: &str) -> (r: Call)
    ensures
        r.method@ == method@,
        r.params@ == JsonModel::Object(Map::empty()),
{
    Call { method: method.to_owned(), params: ObjectBuilder::new().build() }
}

fn text_call(method: &str, key: &str, value: &str) -> (r: Call)
    ensures
        r.method@ == method@,
        r.params@ == JsonModel::Object(map![key@ => JsonModel::Text(value@)]),
{
    Call {
        method: method.to_owned(),
        params: ObjectBuilder::new().with(key, Json::text(value)).build(),
    }
}

impl LocalRuntime {
    /// The runtime that its metadata describe.
    pub fn from_metadata(metadata: &Json) -> (r: Option<LocalRuntime>)
        ensures
            match runtime_in(metadata@) {
                Some(runtime) => r matches Some(x) && x@ == runtime,
                None => r is None,
            },
    {
        let auth_token = match metadata.get_text("authToken") {
            Some(token) => token,
            None => return None,
        };
        let runtime_id = match metadata.get_text("runtimeId") {
            Some(id) => id,
            None => "".to_owned(),
        };
        let transports = match metadata.get("transports") {
            Some(Json::Array(v)) => v,
            _ => return None,
        };
        proof {
            json::items_are_models(*transports);
        }
        let ghost all = json::models(transports@);
        let mut i: usize = 0;
        while i < transports.len()
            invariant
                i <= transports@.len(),
                all == json::models(transports@),
                json::member(metadata@, "transports"@) == Some(JsonModel::Array(all)),
                json::text_member(metadata@, "authToken"@) == Some(auth_token@),
                runtime_id@ == client::text_or(json::text_member(metadata@, "runtimeId"@), ""@),
                unix_from(all, 0) == unix_from(all, i as int),
            decreases transports@.len() - i,
        {
            assert(all[i as int] == transports@[i as int]@);
            let is_unix = match transports[i].get_text("kind") {
                Some(kind) => text::same(kind.as_str(), "unix"),
                None => false,
            };
            if is_unix {
                return match transports[i].get_text("endpoint") {
                    Some(endpoint) => Some(LocalRuntime { endpoint, auth_token, runtime_id }),
                    None => None,
                };
            }
            i += 1;
        }
        None
    }

    /// The runtime, from the bytes of its metadata file.
    pub fn discover(metadata: &[u8]) -> (r: Option<LocalRuntime>)
        ensures
            match json::json_bytes_parsed(metadata@) {
                Ok(value) => match runtime_in(value) {
                    Some(runtime) => r matches Some(x) && x@ == runtime,
                    None => r is None,
                },
                Err(_) => r is None,
            },
    {
        match Json::read_bytes(metadata) {
            Ok(value) => LocalRuntime::from_metadata(&value),
            Err(_) => None,
        }
    }

    /// The name of the runtime.
    pub fn runtime_id(&self) -> (r: &str)
        ensures
            r@ == self@.runtime_id,
    {
        self.runtime_id.as_str()
    }

    /// The socket at which the runtime listens.
    pub fn endpoint(&self) -> (r: &str)
        ensures
            r@ == self@.endpoint,
    {
        self.endpoint.as_str()
    }

    /// The line that makes a call: JSON with the token, and a line feed.
    pub fn request_line(&self, call: Call) -> (r: String)
        ensures
            r@ == json::json_rendered(
                JsonModel::Object(
                    map![
                        "id"@ => JsonModel::Text("wezterm"@),
                        "method"@ => JsonModel::Text(call.method@),
                        "params"@ => call.params@,
                        "authToken"@ => JsonModel::Text(self@.auth_token),
                    ],
                ),
            ).push('\n'),
    {
        let request = ObjectBuilder::new().with("id", Json::text("wezterm")).with(
            "method",
            Json::text(call.method.as_str()),
        ).with("params", call.params).with("authToken", Json::text(self.auth_token.as_str())).build();
        let mut line = request.write();
        line.push('\n');
        line
    }

    /// The call for all tabs of all sessions.
    pub fn list_all(&self) -> (r: Call)
        ensures
            r.method@ == "session.tabs.listAll"@,
            r.params@ == JsonModel::Object(Map::empty()),
    {
        plain_call("session.tabs.listAll")
    }

    /// The call for the ssh targets.
    pub fn ssh_targets(&self) -> (r: Call)
        ensures
            r.method@ == "ssh.listTargetSummaries"@,
            r.params@ == JsonModel::Object(Map::empty()),
    {
        plain_call("ssh.listTargetSummaries")
    }

    /// The call for the state of an ssh target.
    pub fn ssh_target_state(&self, target_id: &str) -> (r: Call)
        ensures
            r.method@ == "ssh.getState"@,
            r.params@ == JsonModel::Object(map!["targetId"@ => JsonModel::Text(target_id@)]),
    {
        text_call("ssh.getState", "targetId", target_id)
    }

    /// The call that connects an ssh target.
    pub fn connect_ssh_target(&self, target_id: &str) -> (r: Call)
        ensures
            r.method@ == "ssh.connect"@,
            r.params@ == JsonModel::Object(map!["targetId"@ => JsonModel::Text(target_id@)]),
    {
        text_call("ssh.connect", "targetId", target_id)
    }

    /// The call for the agents that are installed.
    pub fn detect_agents(&self) -> (r: Call)
        ensures
            r.method@ == "preflight.detectAgents"@,
            r.params@ == JsonModel::Object(Map::empty()),
    {
        plain_call("preflight.detectAgents")
    }

    /// The call for the worktrees.
    pub fn worktree_ps(&self) -> (r: Call)
        ensures
            r.method@ == "worktree.ps"@,
            r.params@ == JsonModel::Object(Map::empty()),
    {
        plain_call("worktree.ps")
    }

    /// The call that creates a worktree.
    pub fn create_worktree(&self, repo: &str, name: &str) -> (r: Call)
        ensures
            r.method@ == "worktree.create"@,
            r.params@ == JsonModel::Object(
                map!["repo"@ => JsonModel::Text(repo@), "name"@ => JsonModel::Text(name@)],
            ),
    {
        Call {
            method: "worktree.create".to_owned(),
            params: ObjectBuilder::new().with("repo", Json::text(repo)).with(
                "name",
                Json::text(name),
            ).build(),
        }
    }

    /// The call that adds a repository.
    pub fn add_repo(&self, path: &str) -> (r: Call)
        ensures
            r.method@ == "repo.add"@,
            r.params@ == JsonModel::Object(map!["path"@ => JsonModel::Text(path@)]),
    {
        text_call("repo.add", "path", path)
    }

    /// The call that clones a repository.
    pub fn clone_repo(&self, url: &str, destination: &str) -> (r: Call)
        ensures
            r.method@ == "repo.clone"@,
            r.params@ == JsonModel::Object(
                map![
                    "url"@ => JsonModel::Text(url@),
                    "destination"@ => JsonModel::Text(destination@),
                ],
            ),
    {
        Call {
            method: "repo.clone".to_owned(),
            params: ObjectBuilder::new().with("url", Json::text(url)).with(
                "destination",
                Json::text(destination),
            ).build(),
        }
    }

    /// The call that creates a repository.
    pub fn create_repo(&self, parent_path: &str, name: &str) -> (r: Call)
        ensures
            r.method@ == "repo.create"@,
            r.params@ == JsonModel::Object(
                map![
                    "parentPath"@ => JsonModel::Text(parent_path@),
                    "name"@ => JsonModel::Text(name@),
                    "kind"@ => JsonModel::Text("git"@),
                ],
            ),
    {
        Call {
            method: "repo.create".to_owned(),
            params: ObjectBuilder::new().with("parentPath", Json::text(parent_path)).with(
                "name",
                Json::text(name),
            ).with("kind", Json::text("git")).build(),
        }
    }

    /// The call for the contents of a directory.
    pub fn browse_server_dir(&self, path: &str) -> (r: Call)
        ensures
            r.method@ == "files.browseServerDir"@,
            r.params@ == JsonModel::Object(map!["path"@ => JsonModel::Text(path@)]),
    {
        text_call("files.browseServerDir", "path", path)
    }

    /// The call for a terminal in a worktree.
    pub fn create_terminal(&self, worktree: &str) -> (r: Call)
        ensures
            r.method@ == "session.tabs.createTerminal"@,
            r.params@ == JsonModel::Object(map!["worktree"@ => JsonModel::Text(worktree@)]),
    {
        text_call("session.tabs.createTerminal", "worktree", worktree)
    }

    /// The call for a terminal in a worktree that runs an agent.
    pub fn create_agent_terminal(&self, worktree: &str, agent: &str) -> (r: Call)
        ensures
            r.method@ == "session.tabs.createTerminal"@,
            r.params@ == JsonModel::Object(
                map![
                    "worktree"@ => JsonModel::Text(worktree@),
                    "launchAgent"@ => JsonModel::Text(agent@),
                ],
            ),
    {
        Call {
            method: "session.tabs.createTerminal".to_owned(),
            params: ObjectBuilder::new().with("worktree", Json::text(worktree)).with(
                "launchAgent",
                Json::text(agent),
            ).build(),
        }
    }

    /// The call that closes a tab.
    pub fn close_tab(&self, tab_id: &str) -> (r: Call)
        ensures
            r.method@ == "session.tabs.close"@,
            r.params@ == JsonModel::Object(map!["tabId"@ => JsonModel::Text(tab_id@)]),
    {
        text_call("session.tabs.close", "tabId", tab_id)
    }
}

/// The state in an answer about an ssh target, where there is one.
pub fn ssh_state_in(answer: &Json) -> (r: Option<Json>)
    ensures
        json::opt_json(r) == (match json::member(answer@, "state"@) {
            Some(JsonModel::Null) => None,
            state => state,
        }),
{
    match answer.get("state") {
        Some(Json::Null) => None,
        Some(state) => Some(state.copy()),
        None => None,
    }
}

/// The member `key` of an answer, `null` where there is none.
fn member_or_null(answer: &Json, key: &str) -> (r: Json)
    ensures
        r@ == envelope::or_null(json::member(answer@, key@)),
{
    match answer.get(key) {
        Some(value) => value.copy(),
        None => Json::Null,
    }
}

/// The ssh targets in an answer, `null` where there are none.
pub fn ssh_targets_in(answer: &Json) -> (r: Json)
    ensures
        r@ == envelope::or_null(json::member(answer@, "targets"@)),
{
    member_or_null(answer, "targets")
}

/// The worktrees in an answer, `null` where there are none.
pub fn worktrees_in(answer: &Json) -> (r: Json)
    ensures
        r@ == envelope::or_null(json::member(answer@, "worktrees"@)),
{
    member_or_null(answer, "worktrees")
}

/// Whether `names` are the agents in an answer: its items where it is an array of texts, else none.
pub open spec fn are_agents(names: Seq<Seq<char>>, answer: JsonModel) -> bool {
    match answer {
        JsonModel::Array(items) => if forall|i: int|
            0 <= i < items.len() ==> (#[trigger] items[i]) is Text {
            json::text_items(names) == items
        } else {
            names.len() == 0
        },
        _ => names.len() == 0,
    }
}

/// The agents in an answer: its items where it is an array of texts, else none.
pub fn agents_in(answer: &Json) -> (r: Vec<String>)
    ensures
        are_agents(text::texts(r@), answer@),
{
    let items = match answer.as_items() {
        Some(items) => items,
        None => return Vec::new(),
    };
    let ghost all = json::models(items@);
    let mut names: Vec<String> = Vec::new();
    let mut i: usize = 0;
    while i < items.len()
        invariant
            i <= items@.len(),
            all == json::models(items@),
            answer@ == JsonModel::Array(all),
            json::text_items(text::texts(names@)) == all.take(i as int),
        decreases items@.len() - i,
    {
        assert(all[i as int] == items@[i as int]@);
        let ghost before = text::texts(names@);
        match items[i].as_text() {
            Some(name) => {
                text::push_text(&mut names, name);
                assert(json::text_items(before.push(name@)) == json::text_items(before).push(
                    JsonModel::Text(name@),
                ));
                assert(all.take(i + 1) == all.take(i as int).push(all[i as int]));
            },
            None => {
                assert(all[i as int] !is Text);
                return Vec::new();
            },
        }
        i += 1;
    }
    assert(all.take(i as int) == all);
    assert forall|j: int| 0 <= j < all.len() implies (#[trigger] all[j]) is Text by {
        assert(json::text_items(text::texts(names@))[j] is Text);
    }
    names
}

/// What came of a call.
#[derive(Debug)]
pub enum Reply {
    /// The answer has not arrived yet.
    Pending,
    Done(Json),
    Failed(String),
}

/// What a [`Reply`] says.
#[verifier::ext_equal]
pub enum ReplyModel {
    Pending,
    Done(JsonModel),
    Failed(Seq<char>),
}

impl View for Reply {
    type V = ReplyModel;

    open spec fn view(&self) -> ReplyModel {
        match self {
            Reply::Pending => ReplyModel::Pending,
            Reply::Done(j) => ReplyModel::Done(j@),
            Reply::Failed(e) => ReplyModel::Failed(e@),
        }
    }
}

/// What an answer says: the result, `null` where there is none, or why the call failed.
pub open spec fn answered(method: Seq<char>, value: JsonModel) -> ReplyModel {
    if json::member(value, "ok"@) == Some(JsonModel::Bool(true)) {
        ReplyModel::Done(envelope::or_null(json::member(value, "result"@)))
    } else {
        ReplyModel::Failed(
            "orca runtime "@ + method + ": "@ + client::text_or(
                json::text_in(json::member_at(value, seq!["error"@, "message"@])),
                "local runtime call failed"@,
            ),
        )
    }
}

/// What an answer says.
pub fn answer_of(method: &str, value: &Json) -> (r: Reply)
    ensures
        r@ == answered(method@, value@),
{
    let ok = match value.get("ok") {
        Some(ok) => match ok.as_truth() {
            Some(ok) => ok,
            None => false,
        },
        None => false,
    };
    if ok {
        return Reply::Done(envelope::member_or_null(value, "result"));
    }
    let message = match envelope::nested(value, "error", "message") {
        Some(message) => match message.as_text() {
            Some(message) => message,
            None => "local runtime call failed",
        },
        None => "local runtime call failed",
    };
    let mut out = "orca runtime ".to_owned();
    out.push_str(method);
    out.push_str(": ");
    out.push_str(message);
    Reply::Failed(out)
}

/// What the lines that have arrived say, and what follows the line that says it: empty lines and signs
/// of life are passed over, and a line that is no JSON is a failure.
pub open spec fn replied(method: Seq<char>, buffer: Seq<u8>) -> (ReplyModel, Seq<u8>)
    decreases buffer.len(),
{
    let end = bytes::find_byte(buffer, 10, 0);
    if 0 <= end < buffer.len() {
        let line = buffer.take(end);
        let rest = buffer.skip(end + 1);
        if line.len() == 0 {
            replied(method, rest)
        } else {
            match json::json_bytes_parsed(line) {
                Err(e) => (ReplyModel::Failed(e), rest),
                Ok(value) => if json::member(value, "_keepalive"@) is Some {
                    replied(method, rest)
                } else {
                    (answered(method, value), rest)
                },
            }
        }
    } else {
        (ReplyModel::Pending, buffer)
    }
}

/// Takes the answer to a call out of a stream of bytes that arrives in chunks of any size.
pub struct ReplyReader {
    buffer: Vec<u8>,
}

impl View for ReplyReader {
    type V = Seq<u8>;

    closed spec fn view(&self) -> Seq<u8> {
        self.buffer@
    }
}

impl ReplyReader {
    /// A reader that no byte has reached yet.
    pub fn new() -> (r: ReplyReader)
        ensures
            r@ == Seq::<u8>::empty(),
    {
        ReplyReader { buffer: Vec::new() }
    }

    /// Takes in the next bytes of the stream.
    pub fn feed(&mut self, chunk: &[u8])
        ensures
            final(self)@ == old(self)@ + chunk@,
    {
        bytes::push_all(&mut self.buffer, chunk);
    }

    /// What the lines that have arrived say.
    pub fn next_reply(&mut self, method: &str) -> (r: Reply)
        ensures
            (r@, final(self)@) == replied(method@, old(self)@),
    {
        loop
            invariant
                replied(method@, self@) == replied(method@, old(self)@),
            decreases self@.len(),
        {
            let n: usize = self.buffer.len();
            let end: usize = bytes::index_of(&self.buffer, 10, 0);
            if end == n {
                return Reply::Pending;
            }
            let line = bytes::copy_range(&self.buffer, 0, end);
            let rest = bytes::copy_range(&self.buffer, end + 1, n);
            assert(line@ == self@.take(end as int));
            assert(rest@ == self@.skip(end + 1));
            self.buffer = rest;
            if line.len() == 0 {
                continue;
            }
            match Json::read_bytes(&line) {
                Err(e) => return Reply::Failed(e),
                Ok(value) => {
                    if value.get("_keepalive").is_none() {
                        return answer_of(method, &value);
                    }
                },
            }
        }
    }
}

/// While no whole line has arrived, there is no reply, and nothing is lost.
pub proof fn parts_of_lines_wait(method: Seq<char>, buffer: Seq<u8>)
    requires
        forall|i: int| 0 <= i < buffer.len() ==> buffer[i] != 10,
    ensures
        replied(method, buffer) == (ReplyModel::Pending, buffer),
{
    lemma_no_byte(buffer, 10, 0);
}

proof fn lemma_no_byte(s: Seq<u8>, b: u8, from: int)
    requires
        0 <= from,
        forall|i: int| 0 <= i < s.len() ==> s[i] != b,
    ensures
        bytes::find_byte(s, b, from) == s.len(),
    decreases s.len() - from,
{
    if from < s.len() {
        lemma_no_byte(s, b, from + 1);
    }
}

/// A relative path under a directory.
pub open spec fn joined(base: Seq<char>, rel: Seq<char>) -> Seq<char> {
    if base.len() == 0 {
        rel
    } else if base.last() == '/' {
        base + rel
    } else {
        base.push('/') + rel
    }
}

/// A relative path under a directory.
pub fn join_path(base: &str, rel: &str) -> (r: String)
    ensures
        r@ == joined(base@, rel@),
{
    let cs = text::chars_of(base);
    let mut out = base.to_owned();
    if cs.len() > 0 && cs[cs.len() - 1] != '/' {
        out.push('/');
    }
    out.push_str(rel);
    assert(Seq::<char>::empty() + rel@ == rel@);
    out
}

/// The metadata file of the runtime: under the directory that is named for it, else under that of the
/// system for the user's configuration.
pub open spec fn metadata_path(
    explicit: Option<Seq<char>>,
    home: Option<Seq<char>>,
    config_home: Option<Seq<char>>,
    macos: bool,
) -> Option<Seq<char>> {
    match explicit {
        Some(dir) => Some(joined(dir, "orca-runtime.json"@)),
        None => match home {
            None => None,
            Some(home) => if macos {
                Some(joined(home, "Library/Application Support/orca/orca-runtime.json"@))
            } else {
                let base = match config_home {
                    Some(dir) => dir,
                    None => joined(home, ".config"@),
                };
                Some(joined(base, "orca/orca-runtime.json"@))
            },
        },
    }
}

/// An optional text as characters.
pub open spec fn opt_str(s: Option<&str>) -> Option<Seq<char>> {
    match s {
        Some(s) => Some(s@),
        None => None,
    }
}

/// The metadata file of the runtime, from the environment.
pub fn runtime_metadata_path(
    explicit: Option<&str>,
    home: Option<&str>,
    config_home: Option<&str>,
    macos: bool,
) -> (r: Option<String>)
    ensures
        text::opt_text(r) == metadata_path(
            opt_str(explicit),
            opt_str(home),
            opt_str(config_home),
            macos,
        ),
{
    if let Some(dir) = explicit {
        return Some(join_path(dir, "orca-runtime.json"));
    }
    let home = match home {
        Some(home) => home,
        None => return None,
    };
    if macos {
        return Some(join_path(home, "Library/Application Support/orca/orca-runtime.json"));
    }
    match config_home {
        Some(dir) => Some(join_path(dir, "orca/orca-runtime.json")),
        None => {
            let base = join_path(home, ".config");
            Some(join_path(base.as_str(), "orca/orca-runtime.json"))
        },
    }
}

/// The socket of a runtime is the first of its transports that is one.
pub proof fn the_first_socket_counts(transports: Seq<JsonModel>, i: int)
    requires
        0 <= i <= transports.len(),
    ensures
        match unix_from(transports, i) {
            Some(t) => exists|k: int|
                i <= k < transports.len() && #[trigger] transports[k] == t && json::member(
                    t,
                    "kind"@,
                ) == Some(JsonModel::Text("unix"@)) && forall|j: int|
                    i <= j < k ==> json::member(#[trigger] transports[j], "kind"@) != Some(
                        JsonModel::Text("unix"@),
                    ),
            None => forall|j: int|
                i <= j < transports.len() ==> json::member(#[trigger] transports[j], "kind"@)
                    != Some(JsonModel::Text("unix"@)),
        },
    decreases transports.len() - i,
{
    if i < transports.len() && json::text_member(transports[i], "kind"@) != Some("unix"@) {
        the_first_socket_counts(transports, i + 1);
    }
}

/// A runtime is known by its token, its name and the endpoint of its socket, and is not known where the
/// token, the socket or the endpoint is missing.
pub proof fn runtimes_are_read(
    metadata: JsonModel,
    transports: Seq<JsonModel>,
    token: Seq<char>,
    endpoint: Seq<char>,
    id: Seq<char>,
)
    requires
        json::member(metadata, "transports"@) == Some(JsonModel::Array(transports)),
    ensures
        !(json::member(metadata, "authToken"@) matches Some(JsonModel::Text(_))) ==> runtime_in(
            metadata,
        ) is None,
        unix_from(transports, 0) is None ==> runtime_in(metadata) is None,
        json::member(metadata, "authToken"@) == Some(JsonModel::Text(token)) && (unix_from(
            transports,
            0,
        ) matches Some(unix) && json::member(unix, "endpoint"@) == Some(JsonModel::Text(endpoint)))
            && json::member(metadata, "runtimeId"@) == Some(JsonModel::Text(id)) ==> runtime_in(
            metadata,
        ) == Some(RuntimeModel { endpoint, auth_token: token, runtime_id: id }),
        (unix_from(transports, 0) matches Some(unix) && !(json::member(unix, "endpoint"@)
            matches Some(JsonModel::Text(_)))) ==> runtime_in(metadata) is None,
        !(json::member(metadata, "runtimeId"@) matches Some(JsonModel::Text(_))) ==> (runtime_in(
            metadata,
        ) matches Some(r) ==> r.runtime_id.len() == 0),
{
    reveal_strlit("");
}

/// A call that went well has the result that the runtime gives. One that did not has the message of
/// the error behind the name of the method.
pub proof fn answers_are_read(
    method: Seq<char>,
    value: JsonModel,
    result: JsonModel,
    error: JsonModel,
    message: Seq<char>,
)
    ensures
        json::member(value, "ok"@) == Some(JsonModel::Bool(true)) && json::member(value, "result"@)
            == Some(result) ==> answered(method, value) == ReplyModel::Done(result),
        answered(method, value) is Done <==> json::member(value, "ok"@) == Some(
            JsonModel::Bool(true),
        ),
        json::member(value, "ok"@) != Some(JsonModel::Bool(true)) && json::member(value, "error"@)
            == Some(error) && json::member(error, "message"@) == Some(JsonModel::Text(message))
            ==> answered(method, value) == ReplyModel::Failed(
            "orca runtime "@ + method + ": "@ + message,
        ),
        json::member(value, "ok"@) != Some(JsonModel::Bool(true)) && (json::member(value, "error"@)
            is None || (json::member(value, "error"@) == Some(error) && !(json::member(
            error,
            "message"@,
        ) matches Some(JsonModel::Text(_))))) ==> answered(method, value) == ReplyModel::Failed(
            "orca runtime "@ + method + ": "@ + "local runtime call failed"@,
        ),
        json::member(value, "ok"@) == Some(JsonModel::Bool(true)) && json::member(value, "result"@)
            is None ==> answered(method, value) == ReplyModel::Done(JsonModel::Null),
{
    let path = seq!["error"@, "message"@];
    assert(path.drop_last() == seq!["error"@]);
    assert(path.drop_last().drop_last() == Seq::<Seq<char>>::empty());
    reveal_with_fuel(json::member_at, 3);
}

proof fn lemma_find_byte(s: Seq<u8>, b: u8, from: int, at: int)
    requires
        0 <= from <= at < s.len(),
        s[at] == b,
        forall|i: int| from <= i < at ==> s[i] != b,
    ensures
        bytes::find_byte(s, b, from) == at,
    decreases at - from,
{
    if from < at {
        lemma_find_byte(s, b, from + 1, at);
    }
}

/// The reply to a call is the first line that is neither empty nor a sign of life, and what stands
/// behind it is left for later.
pub proof fn replies_are_read_line_by_line(
    method: Seq<char>,
    line: Seq<u8>,
    rest: Seq<u8>,
)
    requires
        !line.contains(10u8),
    ensures
        replied(method, line + seq![10u8] + rest) == (if line.len() == 0 {
            replied(method, rest)
        } else {
            match json::json_bytes_parsed(line) {
                Err(e) => (ReplyModel::Failed(e), rest),
                Ok(value) => if json::member(value, "_keepalive"@) is Some {
                    replied(method, rest)
                } else {
                    (answered(method, value), rest)
                },
            }
        }),
        replied(method, line) == (ReplyModel::Pending, line),
{
    let whole = line + seq![10u8] + rest;
    let n = line.len() as int;
    assert forall|i: int| 0 <= i < n implies whole[i] != 10 by {
        assert(line.contains(line[i]));
    }
    lemma_find_byte(whole, 10, 0, n);
    assert(whole.take(n) == line);
    assert(whole.skip(n + 1) == rest);
    assert forall|i: int| 0 <= i < line.len() implies line[i] != 10 by {
        assert(line.contains(line[i]));
    }
    parts_of_lines_wait(method, line);
}

/// A path goes on from a directory with one slash between them.
pub proof fn paths_are_joined_with_one_slash(dir: Seq<char>, rel: Seq<char>)
    ensures
        joined(dir + seq!['/'], rel) == dir + seq!['/'] + rel,
        dir.len() > 0 && dir.last() != '/' ==> joined(dir, rel) == dir + seq!['/'] + rel,
        joined(Seq::empty(), rel) == rel,
{
    assert((dir + seq!['/']).last() == '/');
    assert(dir.push('/') == dir + seq!['/']);
}

/// The agents are those that the runtime lists, in its order, where all that it lists is text, and else
/// none.
pub proof fn agents_are_those_listed(names: Seq<Seq<char>>, items: Seq<JsonModel>, i: int)
    requires
        are_agents(names, JsonModel::Array(items)),
        0 <= i < items.len(),
    ensures
        (forall|k: int| 0 <= k < items.len() ==> (#[trigger] items[k]) is Text) ==> names.len()
            == items.len() && items[i] == JsonModel::Text(names[i]),
        (exists|k: int| 0 <= k < items.len() && !((#[trigger] items[k]) is Text)) ==> names.len()
            == 0,
{
    if forall|k: int| 0 <= k < items.len() ==> (#[trigger] items[k]) is Text {
        assert(json::text_items(names) == items);
        assert(json::text_items(names)[i] == JsonModel::Text(names[i]));
    }
}

/// The runtime is described in the directory that is given for it, or else in the usual one of the
/// system: below the home directory, or below the directory for settings where that is given. Without
/// a home directory there is none.
pub proof fn runtimes_are_described_in_a_file(
    dir: Seq<char>,
    home: Seq<char>,
    any_home: Option<Seq<char>>,
    config: Option<Seq<char>>,
    settings: Seq<char>,
    macos: bool,
)
    ensures
        metadata_path(Some(dir), any_home, config, macos) == Some(joined(dir, "orca-runtime.json"@)),
        metadata_path(None, None, config, macos) is None,
        metadata_path(None, Some(home), config, true) == Some(
            joined(home, "Library/Application Support/orca/orca-runtime.json"@),
        ),
        metadata_path(None, Some(home), Some(settings), false) == Some(
            joined(settings, "orca/orca-runtime.json"@),
        ),
        metadata_path(None, Some(home), None, false) == Some(
            joined(joined(home, ".config"@), "orca/orca-runtime.json"@),
        ),
{
}

} // verus!
