//! Tunnels to a host, where new terminals are started, and what may be in the way.
use crate::orca_mux::domain::state;
use crate::orca_mux::domain::state::{OrcaDomain, Route, WorktreeEntryModel};
use crate::shell::{CommandLine, CommandModel};
use crate::text;
use vstd::prelude::*;

verus! {

/// How often the tunnel is tried before it is given up.
pub const TUNNEL_TRIES: u32 = 25;

/// The time between two tries of the tunnel, in milliseconds.
pub const TUNNEL_TRY_INTERVAL_MS: u64 = 200;

/// What keeps the domain from doing what it was asked for.
#[derive(Debug)]
pub enum DomainError {
    NeedsDirectory { domain: String },
    NoWorktree { cwd: String },
    Provisioning,
    AgentProvisioning,
    AlreadyAttached { terminal: String },
    TunnelDown { port: u16 },
    InvalidTab { id: usize },
    InvalidPane { id: usize },
    InvalidPaneIndex { index: usize },
    MovesIntoDomain,
    MovesIntoRelay,
    Moves,
}

/// What to tell the user.
pub open spec fn error_text(e: DomainError) -> Seq<char> {
    match e {
        DomainError::NeedsDirectory { domain } => "orca domain "@ + domain@
            + " needs a working directory"@,
        DomainError::NoWorktree { cwd } => "no orca worktree contains "@ + cwd@
            + "; add it in orca first"@,
        DomainError::Provisioning => "orca terminal is still provisioning; try again shortly"@,
        DomainError::AgentProvisioning =>
            "orca terminal is still provisioning; refresh and open it"@,
        DomainError::AlreadyAttached { terminal } => "terminal "@ + terminal@
            + " is already attached"@,
        DomainError::TunnelDown { port } => "ssh tunnel on 127.0.0.1:"@ + text::decimal(port as nat)
            + " did not come up"@,
        DomainError::InvalidTab { id } => "invalid tab id "@ + text::decimal(id as nat),
        DomainError::InvalidPane { id } => "invalid pane id "@ + text::decimal(id as nat),
        DomainError::InvalidPaneIndex { index } => "invalid pane index "@ + text::decimal(
            index as nat,
        ),
        DomainError::MovesIntoDomain => "moving panes into an orca domain is not supported"@,
        DomainError::MovesIntoRelay => "moving panes into a relay host is not supported"@,
        DomainError::Moves => "moving panes is not supported"@,
    }
}

fn between(before: &str, middle: &str, after: &str) -> (r: String)
    ensures
        r@ == before@ + middle@ + after@,
{
    let mut out = before.to_owned();
    out.push_str(middle);
    out.push_str(after);
    out
}

impl DomainError {
    /// What to tell the user.
    pub fn message(&self) -> (r: String)
        ensures
            r@ == error_text(*self),
    {
        match self {
            DomainError::NeedsDirectory { domain } => between(
                "orca domain ",
                domain.as_str(),
                " needs a working directory",
            ),
            DomainError::NoWorktree { cwd } => between(
                "no orca worktree contains ",
                cwd.as_str(),
                "; add it in orca first",
            ),
            DomainError::Provisioning =>
                "orca terminal is still provisioning; try again shortly".to_owned(),
            DomainError::AgentProvisioning =>
                "orca terminal is still provisioning; refresh and open it".to_owned(),
            DomainError::AlreadyAttached { terminal } => between(
                "terminal ",
                terminal.as_str(),
                " is already attached",
            ),
            DomainError::TunnelDown { port } => between(
                "ssh tunnel on 127.0.0.1:",
                text::decimal_text(*port as u64).as_str(),
                " did not come up",
            ),
            DomainError::InvalidTab { id } => text::concat(
                "invalid tab id ",
                text::decimal_text(*id as u64).as_str(),
            ),
            DomainError::InvalidPane { id } => text::concat(
                "invalid pane id ",
                text::decimal_text(*id as u64).as_str(),
            ),
            DomainError::InvalidPaneIndex { index } => text::concat(
                "invalid pane index ",
                text::decimal_text(*index as u64).as_str(),
            ),
            DomainError::MovesIntoDomain =>
                "moving panes into an orca domain is not supported".to_owned(),
            DomainError::MovesIntoRelay =>
                "moving panes into a relay host is not supported".to_owned(),
            DomainError::Moves => "moving panes is not supported".to_owned(),
        }
    }
}

/// The command that keeps a port of this machine tied to one of the host.
pub open spec fn tunnel_line(target: Seq<char>, local_port: u16, remote_port: u16) -> CommandModel {
    CommandModel {
        program: "ssh"@,
        args: seq![
            "-N"@,
            "-oBatchMode=yes"@,
            "-oConnectTimeout=10"@,
            "-oExitOnForwardFailure=yes"@,
            "-L"@,
            "127.0.0.1:"@ + text::decimal(local_port as nat) + ":127.0.0.1:"@ + text::decimal(
                remote_port as nat,
            ),
            target,
        ],
    }
}

/// The command that keeps a port of this machine tied to one of the host.
pub fn tunnel_command(target: &str, local_port: u16, remote_port: u16) -> (r: CommandLine)
    ensures
        r@ == tunnel_line(target@, local_port, remote_port),
{
    let mut forward = "127.0.0.1:".to_owned();
    text::push_decimal(&mut forward, local_port as u64);
    forward.push_str(":127.0.0.1:");
    text::push_decimal(&mut forward, remote_port as u64);
    let mut args: Vec<String> = Vec::new();
    text::push_text(&mut args, "-N");
    text::push_text(&mut args, "-oBatchMode=yes");
    text::push_text(&mut args, "-oConnectTimeout=10");
    text::push_text(&mut args, "-oExitOnForwardFailure=yes");
    text::push_text(&mut args, "-L");
    text::push_text(&mut args, forward.as_str());
    text::push_text(&mut args, target);
    assert(text::texts(args@) == tunnel_line(target@, local_port, remote_port).args);
    CommandLine { program: "ssh".to_owned(), args }
}

/// The endpoint of the hub at the near end of a tunnel.
pub fn tunnel_endpoint(local_port: u16) -> (r: String)
    ensures
        r@ == "ws://127.0.0.1:"@ + text::decimal(local_port as nat),
{
    let mut out = "ws://127.0.0.1:".to_owned();
    text::push_decimal(&mut out, local_port as u64);
    out
}

/// Whether the tunnel is tried once more, after `tries` times in vain.
pub fn tries_tunnel_again(port: u16, tries: u32) -> (r: Result<(), DomainError>)
    ensures
        r is Ok <==> tries < TUNNEL_TRIES,
        r matches Err(e) ==> (e matches DomainError::TunnelDown { port: p } && p == port),
{
    if tries < TUNNEL_TRIES {
        Ok(())
    } else {
        Err(DomainError::TunnelDown { port })
    }
}

/// Whether a fresh pairing offer is asked for after the hub refused a connection: once, and only on a
/// host over ssh.
pub fn asks_fresh_offer(domain: &OrcaDomain, refused: u32) -> (r: bool)
    ensures
        r == (domain@.target is Some && refused == 1),
{
    domain.ssh_target().is_some() && refused == 1
}

/// Where to start a terminal.
#[derive(Debug)]
pub enum SpawnStep {
    /// Ask the hub for its worktrees first.
    Refresh,
    /// In this worktree.
    In { selector: String, path: String },
}

/// Where to start a terminal that works in `cwd`. `refreshed` says whether the hub was asked for its
/// worktrees.
pub fn spawn_step(domain: &OrcaDomain, cwd: Option<&str>, refreshed: bool) -> (r: Result<
    SpawnStep,
    DomainError,
>)
    ensures
        match cwd {
            None => r matches Err(DomainError::NeedsDirectory { domain: name }) && name@
                == domain@.name,
            Some(dir) => match r {
                Ok(SpawnStep::In { selector, path }) => exists|entry: WorktreeEntryModel| #[trigger]
                    state::is_entry_of(domain@.worktrees, dir@, Some(entry)) && entry.selector
                        == selector@ && entry.path == path@,
                Ok(SpawnStep::Refresh) => !refreshed && state::is_entry_of(
                    domain@.worktrees,
                    dir@,
                    None,
                ),
                Err(e) => refreshed && state::is_entry_of(domain@.worktrees, dir@, None) && (
                e matches DomainError::NoWorktree { cwd: c } && c@ == dir@),
            },
        },
{
    let dir = match cwd {
        Some(dir) => dir,
        None => {
            return Err(DomainError::NeedsDirectory { domain: domain.domain_name().to_owned() });
        },
    };
    match domain.worktree_for_cwd(dir) {
        Some(entry) => {
            assert(state::is_entry_of(domain@.worktrees, dir@, Some(entry@)));
            Ok(SpawnStep::In { selector: entry.selector.clone(), path: entry.path.clone() })
        },
        None => if refreshed {
            Err(DomainError::NoWorktree { cwd: dir.to_owned() })
        } else {
            Ok(SpawnStep::Refresh)
        },
    }
}

/// The terminal that the hub made, where it is ready. `agent` says whether one was asked for.
pub fn made_terminal(terminal: Option<String>, agent: bool) -> (r: Result<String, DomainError>)
    ensures
        match terminal {
            Some(t) => r matches Ok(s) && s@ == t@,
            None => r matches Err(e) && (if agent {
                e is AgentProvisioning
            } else {
                e is Provisioning
            }),
        },
{
    match terminal {
        Some(terminal) => Ok(terminal),
        None => if agent {
            Err(DomainError::AgentProvisioning)
        } else {
            Err(DomainError::Provisioning)
        },
    }
}

/// The directory in which a pane beside another one works: the one that was asked for, else that of
/// the other pane, by its address, where that is a file.
pub fn split_directory(command_dir: Option<String>, address: Option<(String, String)>) -> (r: Option<
    String,
>)
    ensures
        text::opt_text(r) == (match command_dir {
            Some(dir) => Some(dir@),
            None => match address {
                Some(parts) if parts.0@ == "file"@ => Some(parts.1@),
                _ => None,
            },
        }),
{
    match command_dir {
        Some(dir) => Some(dir),
        None => match address {
            Some((scheme, path)) => if text::same(scheme.as_str(), "file") {
                Some(path)
            } else {
                None
            },
            None => None,
        },
    }
}

/// Why a pane is not split, where that is known at once: its tab is not there, a pane would be moved
/// into the split, or the pane is not in the tab. A hub looks for the pane before it refuses to move
/// one; a relay is reached first and then looks for it.
pub open spec fn refusal(
    route: Route,
    tab: (usize, bool),
    pane: (usize, bool),
    moves: bool,
) -> Option<DomainError> {
    if !tab.1 {
        Some(DomainError::InvalidTab { id: tab.0 })
    } else {
        match route {
            Route::Client => if !pane.1 {
                Some(DomainError::InvalidPane { id: pane.0 })
            } else if moves {
                Some(DomainError::MovesIntoDomain)
            } else {
                None
            },
            Route::Relay => if moves {
                Some(DomainError::MovesIntoRelay)
            } else {
                None
            },
            Route::Runtime => if moves {
                Some(DomainError::Moves)
            } else if !pane.1 {
                Some(DomainError::InvalidPane { id: pane.0 })
            } else {
                None
            },
        }
    }
}

/// Whether a pane may be split, as far as that is known at once. `tab` and `pane` are the ids, each
/// with whether it is there; `moves` says whether a pane would be moved into the split.
pub fn may_split(route: Route, tab: (usize, bool), pane: (usize, bool), moves: bool) -> (r: Result<
    (),
    DomainError,
>)
    ensures
        match refusal(route, tab, pane, moves) {
            Some(error) => r == Err::<(), DomainError>(error),
            None => r is Ok,
        },
{
    if !tab.1 {
        return Err(DomainError::InvalidTab { id: tab.0 });
    }
    match route {
        Route::Client => {
            if !pane.1 {
                return Err(DomainError::InvalidPane { id: pane.0 });
            }
            if moves {
                return Err(DomainError::MovesIntoDomain);
            }
        },
        Route::Relay => {
            if moves {
                return Err(DomainError::MovesIntoRelay);
            }
        },
        Route::Runtime => {
            if moves {
                return Err(DomainError::Moves);
            }
            if !pane.1 {
                return Err(DomainError::InvalidPane { id: pane.0 });
            }
        },
    }
    Ok(())
}

/// The index of a pane in its tab, where it is there.
pub fn split_index(pane_id: usize, index: Option<usize>) -> (r: Result<usize, DomainError>)
    ensures
        r == (match index {
            Some(index) => Ok::<usize, DomainError>(index),
            None => Err(DomainError::InvalidPane { id: pane_id }),
        }),
{
    match index {
        Some(index) => Ok(index),
        None => Err(DomainError::InvalidPane { id: pane_id }),
    }
}

/// Whether the pane at an index is split, by whether it has room.
pub fn split_room(index: usize, room: bool) -> (r: Result<(), DomainError>)
    ensures
        r == (if room {
            Ok::<(), DomainError>(())
        } else {
            Err(DomainError::InvalidPaneIndex { index })
        }),
{
    if room {
        Ok(())
    } else {
        Err(DomainError::InvalidPaneIndex { index })
    }
}

/// A split is refused just where its tab is not there, where it would move panes, or where the pane to
/// split is not there and the route needs it. A relay does not ask for the pane. A client asks for the
/// pane before it refuses a move, and a runtime refuses a move first.
pub proof fn refusals_have_a_reason(
    route: Route,
    tab: (usize, bool),
    pane: (usize, bool),
    moves: bool,
)
    ensures
        refusal(route, tab, pane, moves) is None <==> tab.1 && !moves && (pane.1 || route is Relay),
        !tab.1 <==> refusal(route, tab, pane, moves) == Some(DomainError::InvalidTab { id: tab.0 }),
        tab.1 && !pane.1 && route is Client ==> refusal(route, tab, pane, moves) == Some(
            DomainError::InvalidPane { id: pane.0 },
        ),
        tab.1 && !pane.1 && route is Runtime && !moves ==> refusal(route, tab, pane, moves) == Some(
            DomainError::InvalidPane { id: pane.0 },
        ),
        tab.1 && moves && route is Runtime ==> refusal(route, tab, pane, moves) == Some(
            DomainError::Moves,
        ),
        tab.1 && moves && route is Relay ==> refusal(route, tab, pane, moves) == Some(
            DomainError::MovesIntoRelay,
        ),
        tab.1 && pane.1 && moves && route is Client ==> refusal(route, tab, pane, moves) == Some(
            DomainError::MovesIntoDomain,
        ),
{
}

/// A tunnel leads from a port here to a port of the host, both only on the machine itself, and gives up
/// where it cannot be made.
pub proof fn tunnels_lead_to_the_host(target: Seq<char>, local: u16, remote: u16)
    ensures
        ({
            let line = tunnel_line(target, local, remote);
            let n = line.args.len();
            &&& line.program == "ssh"@ && n >= 3 && line.args[n - 1] == target
            &&& line.args[n - 3] == "-L"@
            &&& line.args[n - 2] == "127.0.0.1:"@ + text::decimal(local as nat) + ":127.0.0.1:"@
                + text::decimal(remote as nat)
            &&& line.args.contains("-oExitOnForwardFailure=yes"@)
            &&& line.args.contains("-N"@)
        }),
{
    let line = tunnel_line(target, local, remote);
    assert(line.args[0] == "-N"@);
    assert(line.args[3] == "-oExitOnForwardFailure=yes"@);
}

} // verus!
