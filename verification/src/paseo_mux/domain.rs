//! What a domain of a paseo daemon knows and decides.
use crate::collections::{TextMap, TextSet};
use crate::orca_mux::domain::state::DomainState;
use crate::paseo_client::protocol::terminals::CreateTerminalOpts;
use crate::paseo_client::protocol::workspaces;
use crate::paseo_client::protocol::workspaces::Workspace;
use crate::text;
use vstd::prelude::*;

verus! {

/// The rows and columns of a terminal when the domain is attached.
pub const DEFAULT_ROWS: u32 = 24;

pub const DEFAULT_COLS: u32 = 80;

/// How the daemon is reached: through a relay, by a pairing offer, or at an endpoint.
#[derive(Debug)]
pub enum ConnectTarget {
    Relay { offer_url: String },
    Local { host_port: String, use_tls: bool, password: Option<String> },
}

/// A domain of a paseo daemon.
#[derive(Debug)]
pub struct PaseoDomain {
    name: String,
    target: ConnectTarget,
    connected: bool,
    state: DomainState,
    attached_terminals: TextSet,
    projects: TextMap<String>,
}

/// What a [`PaseoDomain`] knows.
#[verifier::ext_equal]
pub struct PaseoDomainModel {
    pub name: Seq<char>,
    pub target: ConnectTarget,
    pub connected: bool,
    pub state: DomainState,
    pub attached_terminals: Set<Seq<char>>,
    pub projects: Map<Seq<char>, Seq<char>>,
}

/// The texts of a map.
pub open spec fn text_values(m: Map<Seq<char>, String>) -> Map<Seq<char>, Seq<char>> {
    m.map_values(|s: String| s@)
}

impl View for PaseoDomain {
    type V = PaseoDomainModel;

    closed spec fn view(&self) -> PaseoDomainModel {
        PaseoDomainModel {
            name: self.name@,
            target: self.target,
            connected: self.connected,
            state: self.state,
            attached_terminals: self.attached_terminals@,
            projects: text_values(self.projects@),
        }
    }
}

/// The directory of a workspace: its own, else that of its project.
pub open spec fn directory_of(workspace: Workspace) -> Seq<char> {
    match workspaces::nonempty(workspace.workspace_directory) {
        Some(dir) => dir,
        None => workspace.project_root_path@,
    }
}

/// The names of projects by directory, once the first `n` workspaces are taken up. A project without
/// a name is left out.
pub open spec fn with_projects(
    known: Map<Seq<char>, Seq<char>>,
    workspaces: Seq<Workspace>,
    n: int,
) -> Map<Seq<char>, Seq<char>>
    decreases n,
{
    if n <= 0 {
        known
    } else {
        let before = with_projects(known, workspaces, n - 1);
        let workspace = workspaces[n - 1];
        if workspace.project_display_name@.len() > 0 {
            before.insert(directory_of(workspace), workspace.project_display_name@)
        } else {
            before
        }
    }
}

impl PaseoDomain {
    /// A domain that nothing was done with yet.
    pub fn new(name: &str, target: ConnectTarget) -> (r: PaseoDomain)
        ensures
            r@ == (PaseoDomainModel {
                name: name@,
                target,
                connected: false,
                state: DomainState::Detached,
                attached_terminals: Set::empty(),
                projects: Map::empty(),
            }),
    {
        let r = PaseoDomain {
            name: name.to_owned(),
            target,
            connected: false,
            state: DomainState::Detached,
            attached_terminals: TextSet::new(),
            projects: TextMap::new(),
        };
        assert(r@.projects =~= Map::<Seq<char>, Seq<char>>::empty());
        r
    }

    /// The name of the domain.
    pub fn domain_name(&self) -> (r: &str)
        ensures
            r@ == self@.name,
    {
        self.name.as_str()
    }

    /// How the daemon is reached.
    pub fn target(&self) -> (r: &ConnectTarget)
        ensures
            *r == self@.target,
    {
        &self.target
    }

    /// The name by which the daemon knows this client.
    pub fn client_id(&self) -> (r: String)
        ensures
            r@ == "wezterm-paseo-"@ + self@.name,
    {
        text::concat("wezterm-paseo-", self.name.as_str())
    }

    /// Whether there is a connection to the daemon.
    pub fn is_connected(&self) -> (r: bool)
        ensures
            r == self@.connected,
    {
        self.connected
    }

    /// Whether the domain shows its terminals.
    pub fn state(&self) -> (r: DomainState)
        ensures
            r == self@.state,
    {
        self.state
    }

    /// The name of the project in the directory `cwd`.
    pub fn project_for_cwd(&self, cwd: &str) -> (r: Option<String>)
        ensures
            text::opt_text(r) == (if self@.projects.contains_key(cwd@) {
                Some(self@.projects[cwd@])
            } else {
                None
            }),
    {
        match self.projects.get(cwd) {
            Some(name) => Some(name.clone()),
            None => None,
        }
    }

    /// Notes a connection to the daemon.
    pub fn client_connected(&mut self)
        ensures
            final(self)@ == (PaseoDomainModel {
                connected: true,
                state: DomainState::Attached,
                ..old(self)@
            }),
    {
        self.connected = true;
        self.state = DomainState::Attached;
    }

    /// Takes up the projects of the daemon's workspaces.
    pub fn take_projects(&mut self, workspaces: &[Workspace])
        ensures
            final(self)@ == (PaseoDomainModel {
                projects: with_projects(
                    old(self)@.projects,
                    workspaces@,
                    workspaces@.len() as int,
                ),
                ..old(self)@
            }),
    {
        let ghost start = self@;
        let mut i: usize = 0;
        while i < workspaces.len()
            invariant
                i <= workspaces@.len(),
                self@ == (PaseoDomainModel {
                    projects: with_projects(start.projects, workspaces@, i as int),
                    ..start
                }),
            decreases workspaces@.len() - i,
        {
            let workspace = &workspaces[i];
            let ghost before = self.projects@;
            if !workspace.project_display_name.as_str().is_empty() {
                let name = workspace.project_display_name.clone();
                self.projects.insert(workspace.cwd(), name);
                assert(text_values(before.insert(directory_of(*workspace), name)) =~= text_values(
                    before,
                ).insert(directory_of(*workspace), name@));
            }
            i += 1;
        }
    }

    /// Claims a terminal for a pane, and says whether it had none.
    pub fn claim_terminal(&mut self, id: &str) -> (r: bool)
        ensures
            r == !old(self)@.attached_terminals.contains(id@),
            final(self)@ == (PaseoDomainModel {
                attached_terminals: old(self)@.attached_terminals.insert(id@),
                ..old(self)@
            }),
    {
        self.attached_terminals.insert(id)
    }

    /// Notes that all terminals are shown.
    pub fn attached(&mut self)
        ensures
            final(self)@ == (PaseoDomainModel { state: DomainState::Attached, ..old(self)@ }),
    {
        self.state = DomainState::Attached;
    }

    /// Drops the connection, and forgets the terminals.
    pub fn detach(&mut self)
        ensures
            final(self)@ == (PaseoDomainModel {
                connected: false,
                attached_terminals: Set::empty(),
                state: DomainState::Detached,
                ..old(self)@
            }),
    {
        self.connected = false;
        self.attached_terminals.clear();
        self.state = DomainState::Detached;
    }
}

/// The directory to start a terminal in.
pub fn spawn_directory(command_dir: Option<String>) -> (r: String)
    ensures
        r@ == (match command_dir {
            Some(dir) => dir@,
            None => "/tmp"@,
        }),
{
    match command_dir {
        Some(dir) => dir,
        None => "/tmp".to_owned(),
    }
}

/// What to start in a new terminal: the program that the command names first and the words that
/// follow as its arguments, or a shell.
pub fn spawn_options(argv: Option<&[String]>, workspace_id: String, rows: u32, cols: u32) -> (r:
    CreateTerminalOpts)
    ensures
        r.name is None,
        r.agent_id is None,
        r.workspace_id matches Some(id) && id@ == workspace_id@,
        r.rows == rows,
        r.cols == cols,
        match argv {
            Some(words) if words@.len() > 0 => r.command matches Some(program) && program@
                == words@[0]@ && (r.args matches Some(args) && text::texts(args@) == text::texts(
                words@,
            ).skip(1)),
            _ => r.command is None && r.args is None,
        },
{
    let (command, args) = match argv {
        Some(words) => if words.len() > 0 {
            let ghost all = text::texts(words@);
            let mut rest: Vec<String> = Vec::new();
            let mut i: usize = 1;
            assert(text::texts(rest@) == all.subrange(1, 1));
            while i < words.len()
                invariant
                    1 <= i <= words@.len(),
                    all == text::texts(words@),
                    text::texts(rest@) == all.subrange(1, i as int),
                decreases words@.len() - i,
            {
                assert(all[i as int] == words@[i as int]@);
                text::push_text(&mut rest, words[i].as_str());
                assert(all.subrange(1, i + 1) == all.subrange(1, i as int).push(all[i as int]));
                i += 1;
            }
            assert(all.subrange(1, i as int) == all.skip(1));
            (Some(words[0].clone()), Some(rest))
        } else {
            (None, None)
        },
        None => (None, None),
    };
    CreateTerminalOpts {
        name: None,
        agent_id: None,
        command,
        args,
        workspace_id: Some(workspace_id),
        rows,
        cols,
    }
}

/// The project of a directory has the name that the last workspace there gives it. A workspace without
/// a name gives none, and what is known of other directories stays.
pub proof fn projects_are_those_named_last(
    known: Map<Seq<char>, Seq<char>>,
    workspaces: Seq<Workspace>,
    n: int,
    dir: Seq<char>,
)
    requires
        0 <= n <= workspaces.len(),
    ensures
        ({
            let after = with_projects(known, workspaces, n);
            ||| exists|k: int|
                0 <= k < n && directory_of(#[trigger] workspaces[k]) == dir
                    && workspaces[k].project_display_name@.len() > 0 && after.contains_pair(
                    dir,
                    workspaces[k].project_display_name@,
                ) && forall|j: int|
                    k < j < n ==> directory_of(#[trigger] workspaces[j]) != dir
                        || workspaces[j].project_display_name@.len() == 0
            ||| {
                &&& forall|j: int|
                    0 <= j < n ==> directory_of(#[trigger] workspaces[j]) != dir
                        || workspaces[j].project_display_name@.len() == 0
                &&& after.contains_key(dir) <==> known.contains_key(dir)
                &&& after[dir] == known[dir]
            }
        }),
    decreases n,
{
    if n > 0 {
        projects_are_those_named_last(known, workspaces, n - 1, dir);
        let before = with_projects(known, workspaces, n - 1);
        let after = with_projects(known, workspaces, n);
        let last = workspaces[n - 1];
        if directory_of(last) == dir && last.project_display_name@.len() > 0 {
            assert(after.contains_pair(dir, workspaces[n - 1].project_display_name@));
        } else if exists|k: int|
            0 <= k < n - 1 && directory_of(#[trigger] workspaces[k]) == dir
                && workspaces[k].project_display_name@.len() > 0 && before.contains_pair(
                dir,
                workspaces[k].project_display_name@,
            ) && forall|j: int|
                k < j < n - 1 ==> directory_of(#[trigger] workspaces[j]) != dir
                    || workspaces[j].project_display_name@.len() == 0 {
            let k = choose|k: int|
                0 <= k < n - 1 && directory_of(#[trigger] workspaces[k]) == dir
                    && workspaces[k].project_display_name@.len() > 0 && before.contains_pair(
                    dir,
                    workspaces[k].project_display_name@,
                ) && forall|j: int|
                    k < j < n - 1 ==> directory_of(#[trigger] workspaces[j]) != dir
                        || workspaces[j].project_display_name@.len() == 0;
            assert(after.contains_pair(dir, workspaces[k].project_display_name@));
        }
    }
}

/// A workspace lies in its own directory where it has one, and else in that of its project.
pub proof fn workspaces_lie_in_a_directory(workspace: Workspace)
    ensures
        (workspace.workspace_directory matches Some(dir) && dir@.len() > 0) ==> directory_of(
            workspace,
        ) == (workspace.workspace_directory->0)@,
        !(workspace.workspace_directory matches Some(dir) && dir@.len() > 0) ==> directory_of(
            workspace,
        ) == workspace.project_root_path@,
{
}

} // verus!
