//! Workspaces and projects.
use crate::json;
use crate::json::{Json, JsonModel, NumberModel, ObjectBuilder};
use crate::paseo_client::protocol::agents;
use crate::text;
use vstd::prelude::*;

verus! {

/// What git says of a workspace.
#[derive(Clone, Debug, PartialEq, Eq)]
pub struct WorkspaceGitRuntime {
    pub current_branch: Option<String>,
}

/// A directory in which agents work on a project.
#[derive(Clone, Debug, PartialEq, Eq)]
pub struct Workspace {
    pub id: String,
    pub project_id: String,
    pub project_display_name: String,
    pub project_root_path: String,
    pub workspace_directory: Option<String>,
    pub workspace_kind: String,
    pub name: String,
    pub git_runtime: Option<WorkspaceGitRuntime>,
}

/// The text, where there is one and it is not empty.
pub open spec fn nonempty(s: Option<String>) -> Option<Seq<char>> {
    match s {
        Some(s) => if s@.len() > 0 {
            Some(s@)
        } else {
            None
        },
        None => None,
    }
}

impl Workspace {
    /// The directory of the workspace: its own, else that of its project.
    pub fn cwd(&self) -> (r: &str)
        ensures
            r@ == (match nonempty(self.workspace_directory) {
                Some(dir) => dir,
                None => self.project_root_path@,
            }),
    {
        match &self.workspace_directory {
            Some(dir) => if dir.as_str().is_empty() {
                self.project_root_path.as_str()
            } else {
                dir.as_str()
            },
            None => self.project_root_path.as_str(),
        }
    }

    /// The branch that is checked out, where it is known.
    pub fn branch(&self) -> (r: Option<&str>)
        ensures
            match (match self.git_runtime {
                Some(git) => nonempty(git.current_branch),
                None => None,
            }) {
                Some(branch) => r matches Some(b) && b@ == branch,
                None => r is None,
            },
    {
        match &self.git_runtime {
            Some(git) => match &git.current_branch {
                Some(branch) => if branch.as_str().is_empty() {
                    None
                } else {
                    Some(branch.as_str())
                },
                None => None,
            },
            None => None,
        }
    }
}

/// The request for the workspaces.
pub fn fetch_workspaces_request(request_id: &str) -> (r: Json)
    ensures
        r@ == JsonModel::Object(
            map![
                "type"@ => JsonModel::Text("fetch_workspaces_request"@),
                "requestId"@ => JsonModel::Text(request_id@),
            ],
        ),
{
    ObjectBuilder::new()
        .with("type", Json::text("fetch_workspaces_request"))
        .with("requestId", Json::text(request_id))
        .build()
}

/// The request to add a project.
pub fn project_add_request(request_id: &str, cwd: &str) -> (r: Json)
    ensures
        r@ == JsonModel::Object(
            map![
                "type"@ => JsonModel::Text("project.add.request"@),
                "cwd"@ => JsonModel::Text(cwd@),
                "requestId"@ => JsonModel::Text(request_id@),
            ],
        ),
{
    ObjectBuilder::new()
        .with("type", Json::text("project.add.request"))
        .with("cwd", Json::text(cwd))
        .with("requestId", Json::text(request_id))
        .build()
}

/// The request to create a directory for a project.
pub fn project_create_directory_request(request_id: &str, parent_path: &str, name: &str) -> (r: Json)
    ensures
        r@ == JsonModel::Object(
            map![
                "type"@ => JsonModel::Text("project.create_directory.request"@),
                "parentPath"@ => JsonModel::Text(parent_path@),
                "name"@ => JsonModel::Text(name@),
                "requestId"@ => JsonModel::Text(request_id@),
            ],
        ),
{
    ObjectBuilder::new()
        .with("type", Json::text("project.create_directory.request"))
        .with("parentPath", Json::text(parent_path))
        .with("name", Json::text(name))
        .with("requestId", Json::text(request_id))
        .build()
}

/// The request for directories that match what was typed.
pub fn directory_suggestions_request(request_id: &str, query: &str, limit: u32) -> (r: Json)
    ensures
        r@ == JsonModel::Object(
            map![
                "type"@ => JsonModel::Text("directory_suggestions_request"@),
                "query"@ => JsonModel::Text(query@),
                "includeDirectories"@ => JsonModel::Bool(true),
                "includeFiles"@ => JsonModel::Bool(false),
                "matchMode"@ => JsonModel::Text("fuzzy"@),
                "limit"@ => JsonModel::Number(NumberModel::PosInt(limit as u64)),
                "requestId"@ => JsonModel::Text(request_id@),
            ],
        ),
{
    ObjectBuilder::new()
        .with("type", Json::text("directory_suggestions_request"))
        .with("query", Json::text(query))
        .with("includeDirectories", Json::Bool(true))
        .with("includeFiles", Json::Bool(false))
        .with("matchMode", Json::text("fuzzy"))
        .with("limit", Json::count(limit as u64))
        .with("requestId", Json::text(request_id))
        .build()
}

/// The request for branches that match what was typed.
pub fn branch_suggestions_request(request_id: &str, cwd: &str, query: &str, limit: u32) -> (r: Json)
    ensures
        r@ == JsonModel::Object(
            map![
                "type"@ => JsonModel::Text("branch_suggestions_request"@),
                "cwd"@ => JsonModel::Text(cwd@),
                "query"@ => JsonModel::Text(query@),
                "limit"@ => JsonModel::Number(NumberModel::PosInt(limit as u64)),
                "requestId"@ => JsonModel::Text(request_id@),
            ],
        ),
{
    ObjectBuilder::new()
        .with("type", Json::text("branch_suggestions_request"))
        .with("cwd", Json::text(cwd))
        .with("query", Json::text(query))
        .with("limit", Json::count(limit as u64))
        .with("requestId", Json::text(request_id))
        .build()
}

/// The request for a workspace in a directory.
pub fn workspace_create_directory_request(request_id: &str, path: &str) -> (r: Json)
    ensures
        r@ == JsonModel::Object(
            map![
                "type"@ => JsonModel::Text("workspace.create.request"@),
                "requestId"@ => JsonModel::Text(request_id@),
                "source"@ => JsonModel::Object(map!["kind"@ => JsonModel::Text("directory"@), "path"@ => JsonModel::Text(path@)]),
            ],
        ),
{
    ObjectBuilder::new()
        .with("type", Json::text("workspace.create.request"))
        .with("requestId", Json::text(request_id))
        .with("source", ObjectBuilder::new().with("kind", Json::text("directory")).with("path", Json::text(path)).build())
        .build()
}

/// An optional text as characters.
pub open spec fn opt_str(s: Option<&str>) -> Option<Seq<char>> {
    match s {
        Some(s) => Some(s@),
        None => None,
    }
}

fn set_str(object: ObjectBuilder, key: &str, value: Option<&str>) -> (r: ObjectBuilder)
    ensures
        r@ == agents::with_text(object@, key@, opt_str(value)),
{
    match value {
        Some(s) => object.with(key, Json::text(s)),
        None => object,
    }
}

/// Where the worktree of a new workspace comes from: what is not given is left out.
pub open spec fn worktree_source(
    cwd: Seq<char>,
    action: Seq<char>,
    ref_name: Option<Seq<char>>,
    base_branch: Option<Seq<char>>,
    branch_name: Option<Seq<char>>,
) -> Map<Seq<char>, JsonModel> {
    let source = map![
        "kind"@ => JsonModel::Text("worktree"@),
        "cwd"@ => JsonModel::Text(cwd),
        "action"@ => JsonModel::Text(action),
    ];
    agents::with_text(
        agents::with_text(
            agents::with_text(source, "refName"@, ref_name),
            "baseBranch"@,
            base_branch,
        ),
        "branchName"@,
        branch_name,
    )
}

/// The request for a workspace in a new worktree.
pub fn workspace_create_worktree_request(
    request_id: &str,
    cwd: &str,
    action: &str,
    ref_name: Option<&str>,
    base_branch: Option<&str>,
    branch_name: Option<&str>,
) -> (r: Json)
    ensures
        r@ == JsonModel::Object(
            map![
                "type"@ => JsonModel::Text("workspace.create.request"@),
                "requestId"@ => JsonModel::Text(request_id@),
                "source"@ => JsonModel::Object(
                    worktree_source(
                        cwd@,
                        action@,
                        opt_str(ref_name),
                        opt_str(base_branch),
                        opt_str(branch_name),
                    ),
                ),
            ],
        ),
{
    let source = ObjectBuilder::new()
        .with("kind", Json::text("worktree"))
        .with("cwd", Json::text(cwd))
        .with("action", Json::text(action));
    let source = set_str(source, "refName", ref_name);
    let source = set_str(source, "baseBranch", base_branch);
    let source = set_str(source, "branchName", branch_name);
    ObjectBuilder::new()
        .with("type", Json::text("workspace.create.request"))
        .with("requestId", Json::text(request_id))
        .with("source", source.build())
        .build()
}

/// The request to clone a repository.
pub fn project_github_clone_request(request_id: &str, repo: &str, protocol: &str) -> (r: Json)
    ensures
        r@ == JsonModel::Object(
            map![
                "type"@ => JsonModel::Text("project.github.clone.request"@),
                "repo"@ => JsonModel::Text(repo@),
                "cloneProtocol"@ => JsonModel::Text(protocol@),
                "requestId"@ => JsonModel::Text(request_id@),
            ],
        ),
{
    ObjectBuilder::new()
        .with("type", Json::text("project.github.clone.request"))
        .with("repo", Json::text(repo))
        .with("cloneProtocol", Json::text(protocol))
        .with("requestId", Json::text(request_id))
        .build()
}

/// The request for a worktree says where it is made and what is done, and names the reference, the base
/// and the branch where they are given.
pub proof fn worktrees_are_asked_for(
    cwd: Seq<char>,
    action: Seq<char>,
    ref_name: Option<Seq<char>>,
    base_branch: Option<Seq<char>>,
    branch_name: Option<Seq<char>>,
)
    ensures
        ({
            let m = JsonModel::Object(
                worktree_source(cwd, action, ref_name, base_branch, branch_name),
            );
            &&& json::text_member(m, "kind"@) == Some("worktree"@)
            &&& json::text_member(m, "cwd"@) == Some(cwd)
            &&& json::text_member(m, "action"@) == Some(action)
            &&& json::text_member(m, "refName"@) == ref_name
            &&& json::text_member(m, "baseBranch"@) == base_branch
            &&& json::text_member(m, "branchName"@) == branch_name
        }),
{
    reveal_strlit("kind");
    reveal_strlit("cwd");
    reveal_strlit("action");
    reveal_strlit("refName");
    reveal_strlit("baseBranch");
    reveal_strlit("branchName");
    assert("kind"@.len() == 4 && "cwd"@.len() == 3 && "action"@.len() == 6 && "refName"@.len() == 7);
    assert("baseBranch"@.len() == 10 && "branchName"@.len() == 10);
    assert("baseBranch"@[1] == 'a' && "branchName"@[1] == 'r');
}

} // verus!
