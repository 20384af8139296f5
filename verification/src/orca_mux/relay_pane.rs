//! A pane on a terminal of the relay.
use crate::json;
use crate::orca_mux::relay::protocol::{Notification, NotificationModel};
use crate::text;
use vstd::prelude::*;

verus! {

/// What a notification asks of the pane.
#[derive(Debug)]
pub enum OutputAction {
    /// The pane follows the terminal elsewhere now: this stream is over.
    Stop,
    /// Show the data, if there is any, and acknowledge it where `ack` says so.
    Show { data: Option<String>, ack: bool },
    /// The terminal ended.
    Exit,
    Ignore,
}

/// What an [`OutputAction`] says.
#[verifier::ext_equal]
pub enum OutputModel {
    Stop,
    Show { data: Option<Seq<char>>, ack: bool },
    Exit,
    Ignore,
}

impl View for OutputAction {
    type V = OutputModel;

    open spec fn view(&self) -> OutputModel {
        match self {
            OutputAction::Stop => OutputModel::Stop,
            OutputAction::Show { data, ack } => OutputModel::Show {
                data: text::opt_text(*data),
                ack: *ack,
            },
            OutputAction::Exit => OutputModel::Exit,
            OutputAction::Ignore => OutputModel::Ignore,
        }
    }
}

/// What a notification asks of a pane that still follows the stream. Replayed data is shown and not
/// acknowledged.
pub open spec fn output_for(notification: NotificationModel) -> OutputModel {
    if notification.method == "pty.data"@ || notification.method == "pty.replay"@ {
        OutputModel::Show {
            data: json::text_member(notification.params, "data"@),
            ack: notification.method == "pty.data"@,
        }
    } else if notification.method == "pty.exit"@ {
        OutputModel::Exit
    } else {
        OutputModel::Ignore
    }
}

/// What the end of a stream asks of the pane.
#[derive(Clone, Copy, Debug, PartialEq, Eq, Structural)]
pub enum EndAction {
    Nothing,
    /// The terminal ended: the pane is dead.
    Dead,
    /// The connection dropped: the pane waits for the terminal.
    Held,
}

/// A pane on a terminal of the relay.
#[derive(Debug)]
pub struct RelayPane {
    pty_id: String,
    cwd: String,
    parent_tab_id: String,
    owns_pty: bool,
    dead: bool,
    killed: bool,
    held: bool,
    io_generation: u64,
}

/// What a [`RelayPane`] knows.
#[verifier::ext_equal]
pub struct RelayPaneModel {
    pub pty_id: Seq<char>,
    pub cwd: Seq<char>,
    pub parent_tab_id: Seq<char>,
    pub owns_pty: bool,
    pub dead: bool,
    pub killed: bool,
    pub held: bool,
    pub io_generation: u64,
}

impl View for RelayPane {
    type V = RelayPaneModel;

    closed spec fn view(&self) -> RelayPaneModel {
        RelayPaneModel {
            pty_id: self.pty_id@,
            cwd: self.cwd@,
            parent_tab_id: self.parent_tab_id@,
            owns_pty: self.owns_pty,
            dead: self.dead,
            killed: self.killed,
            held: self.held,
            io_generation: self.io_generation,
        }
    }
}

/// A title, marked where the pane waits for its terminal.
pub open spec fn held_title(held: bool, title: Seq<char>) -> Seq<char> {
    if held {
        "⌁ "@ + title
    } else {
        title
    }
}

/// What a notification on the stream `generation` asks of the pane.
pub open spec fn output_on(
    pane: RelayPaneModel,
    generation: u64,
    notification: NotificationModel,
) -> OutputModel {
    if pane.io_generation != generation {
        OutputModel::Stop
    } else {
        output_for(notification)
    }
}

/// The `file` URL that `url::Url::from_file_path` writes out for a path, where the path is absolute.
/// Paths are taken as those of a unix host.
pub uninterp spec fn file_url(path: Seq<char>) -> Option<Seq<char>>;

/// `url::Url::from_file_path`, written out. There is a URL just for a path that begins with `/`, and
/// it begins with `file:///`.
#[verifier::external_body]
pub(crate) fn file_url_of(path: &str) -> (r: Option<String>)
    ensures
        text::opt_text(r) == file_url(path@),
        r is Some <==> text::is_prefix(path@, "/"@),
        r matches Some(url) ==> text::is_prefix(url@, "file:///"@),
{
    url::Url::from_file_path(path).ok().map(|url| url.into())
}

/// The directory that a pane is in: the one that its terminal reports, else the one to fall back to.
pub open spec fn directory_of(
    reported: Option<Seq<char>>,
    fallback: Option<Seq<char>>,
) -> Option<Seq<char>> {
    match reported {
        Some(url) => Some(url),
        None => fallback,
    }
}

/// The directory that a pane is in: the one that its terminal reports, else the one to fall back to.
pub fn current_directory(reported: Option<String>, fallback: Option<String>) -> (r: Option<String>)
    ensures
        text::opt_text(r) == directory_of(text::opt_text(reported), text::opt_text(fallback)),
{
    match reported {
        Some(url) => Some(url),
        None => fallback,
    }
}

/// The pane once it follows a new stream.
pub open spec fn following_next(pane: RelayPaneModel) -> RelayPaneModel {
    RelayPaneModel { io_generation: pane.io_generation.wrapping_add(1), ..pane }
}

/// Whether closing the pane ends the terminal: only one of our own, once, and not where the whole
/// domain was detached.
pub open spec fn ends_terminal(pane: RelayPaneModel, detached: bool) -> bool {
    !detached && pane.owns_pty && !pane.killed
}

/// The pane once it is closed.
pub open spec fn closed(pane: RelayPaneModel, detached: bool) -> RelayPaneModel {
    RelayPaneModel { dead: true, killed: pane.killed || ends_terminal(pane, detached), ..pane }
}

impl RelayPane {
    /// A pane that follows no stream yet.
    pub fn new(pty_id: String, cwd: String, parent_tab_id: String, owns_pty: bool) -> (r: RelayPane)
        ensures
            r@ == (RelayPaneModel {
                pty_id: pty_id@,
                cwd: cwd@,
                parent_tab_id: parent_tab_id@,
                owns_pty,
                dead: false,
                killed: false,
                held: false,
                io_generation: 0,
            }),
    {
        RelayPane {
            pty_id,
            cwd,
            parent_tab_id,
            owns_pty,
            dead: false,
            killed: false,
            held: false,
            io_generation: 0,
        }
    }

    /// The tab of the hub that the pane belongs to.
    pub fn parent_tab_id(&self) -> (r: &str)
        ensures
            r@ == self@.parent_tab_id,
    {
        self.parent_tab_id.as_str()
    }

    /// The terminal.
    pub fn pty_id(&self) -> (r: &str)
        ensures
            r@ == self@.pty_id,
    {
        self.pty_id.as_str()
    }

    /// The directory that the terminal was started in.
    pub fn cwd(&self) -> (r: &str)
        ensures
            r@ == self@.cwd,
    {
        self.cwd.as_str()
    }

    /// Whether the pane is dead.
    pub fn is_dead(&self) -> (r: bool)
        ensures
            r == self@.dead,
    {
        self.dead
    }

    /// Follows a new stream, and gives its number. The streams before it are over.
    pub fn start_io(&mut self) -> (r: u64)
        ensures
            final(self)@ == following_next(old(self)@),
            r == final(self)@.io_generation,
    {
        self.io_generation = self.io_generation.wrapping_add(1);
        self.io_generation
    }

    /// What a notification on the stream `generation` asks of the pane.
    pub fn on_notification(&self, generation: u64, notification: &Notification) -> (r: OutputAction)
        ensures
            r@ == output_on(self@, generation, notification@),
    {
        if self.io_generation != generation {
            return OutputAction::Stop;
        }
        let method = notification.method.as_str();
        let is_data = text::same(method, "pty.data");
        if is_data || text::same(method, "pty.replay") {
            OutputAction::Show { data: notification.params.get_text("data"), ack: is_data }
        } else if text::same(method, "pty.exit") {
            OutputAction::Exit
        } else {
            OutputAction::Ignore
        }
    }

    /// Takes the end of the stream `generation`: after the terminal ended the pane is dead, after the
    /// connection dropped it waits.
    pub fn on_end(&mut self, generation: u64, exited: bool) -> (r: EndAction)
        ensures
            r == (if old(self)@.io_generation != generation {
                EndAction::Nothing
            } else if exited {
                if old(self)@.dead {
                    EndAction::Nothing
                } else {
                    EndAction::Dead
                }
            } else {
                EndAction::Held
            }),
            final(self)@ == (if old(self)@.io_generation != generation {
                old(self)@
            } else if exited {
                RelayPaneModel { dead: true, ..old(self)@ }
            } else {
                RelayPaneModel { held: true, ..old(self)@ }
            }),
    {
        if self.io_generation != generation {
            return EndAction::Nothing;
        }
        if exited {
            let first = !self.dead;
            self.dead = true;
            if first {
                EndAction::Dead
            } else {
                EndAction::Nothing
            }
        } else {
            self.held = true;
            EndAction::Held
        }
    }

    /// Closes the pane, and says whether to end the terminal: only one of our own, once, and not
    /// where the whole domain was detached.
    pub fn kill(&mut self, detached: bool) -> (r: bool)
        ensures
            r == ends_terminal(old(self)@, detached),
            final(self)@ == closed(old(self)@, detached),
    {
        self.dead = true;
        if detached || !self.owns_pty || self.killed {
            return false;
        }
        self.killed = true;
        true
    }

    /// The size to tell the relay of, as columns and rows. Only the owner sets the size of a terminal.
    pub fn resize(&self, cols: usize, rows: usize) -> (r: Option<(u16, u16)>)
        ensures
            r == (if self@.owns_pty {
                Some((cols as u16, rows as u16))
            } else {
                None
            }),
    {
        if self.owns_pty {
            Some((#[verifier::truncate] (cols as u16), #[verifier::truncate] (rows as u16)))
        } else {
            None
        }
    }

    /// The directory that the pane is in, as a URL: the one that its terminal reports, else the one
    /// that it was started in.
    pub fn get_current_working_dir(&self, reported: Option<String>) -> (r: Option<String>)
        ensures
            text::opt_text(r) == directory_of(text::opt_text(reported), file_url(self@.cwd)),
    {
        current_directory(reported, file_url_of(self.cwd.as_str()))
    }

    /// The title, marked where the pane waits for its terminal.
    pub fn get_title(&self, title: &str) -> (r: String)
        ensures
            r@ == held_title(self@.held && !self@.dead, title@),
    {
        if self.held && !self.dead {
            text::concat("⌁ ", title)
        } else {
            title.to_owned()
        }
    }
}

/// The terminal is ended at most once, however often the pane is closed.
pub proof fn a_terminal_is_ended_once(pane: RelayPaneModel, detached: bool, again: bool)
    requires
        ends_terminal(pane, detached),
    ensures
        !ends_terminal(closed(pane, detached), again),
{
}

/// Once a pane follows a new stream, what arrives on the one before it is not shown.
pub proof fn a_replaced_stream_is_over(pane: RelayPaneModel, notification: NotificationModel)
    ensures
        output_on(following_next(pane), pane.io_generation, notification) == OutputModel::Stop,
{
}

/// What a relay tells of a terminal is shown, and only output is acknowledged, not what was shown
/// before. The end of a process ends the pane, and all else is of no account.
pub proof fn notifications_are_told_apart(notification: NotificationModel, data: Seq<char>)
    ensures
        notification.method == "pty.data"@ ==> (output_for(notification) matches OutputModel::Show {
            data: d,
            ack,
        } && ack && (json::member(notification.params, "data"@) == Some(json::JsonModel::Text(data))
            ==> d == Some(data))),
        notification.method == "pty.replay"@ ==> (output_for(notification)
            matches OutputModel::Show { data: d, ack } && !ack && (json::member(
            notification.params,
            "data"@,
        ) == Some(json::JsonModel::Text(data)) ==> d == Some(data))),
        notification.method == "pty.exit"@ <==> output_for(notification) is Exit,
        notification.method != "pty.data"@ && notification.method != "pty.replay"@
            && notification.method != "pty.exit"@ ==> output_for(notification) is Ignore,
{
    reveal_strlit("pty.data");
    reveal_strlit("pty.replay");
    reveal_strlit("pty.exit");
    assert("pty.data"@[4] == 'd' && "pty.exit"@[4] == 'e');
    assert("pty.replay"@.len() == 10 && "pty.data"@.len() == 8 && "pty.exit"@.len() == 8);
}

/// A terminal is ended with its pane just where it was started from here and the host is still
/// attached, and once. Closing changes nothing else of the pane.
pub proof fn closing_a_pane(pane: RelayPaneModel, detached: bool)
    ensures
        closed(pane, detached).dead,
        ends_terminal(pane, detached) ==> pane.owns_pty && !detached && closed(pane, detached).killed,
        pane.owns_pty && !detached && !pane.killed ==> ends_terminal(pane, detached),
        detached || !pane.owns_pty ==> closed(pane, detached).killed == pane.killed,
        ({
            let after = closed(pane, detached);
            &&& after.pty_id == pane.pty_id && after.cwd == pane.cwd
            &&& after.parent_tab_id == pane.parent_tab_id && after.owns_pty == pane.owns_pty
            &&& after.held == pane.held && after.io_generation == pane.io_generation
        }),
{
}

/// The title of a pane that is held is marked, and any other is left as it is.
pub proof fn held_titles_are_marked(title: Seq<char>)
    ensures
        held_title(false, title) == title,
        text::after_prefix(held_title(true, title), "⌁ "@) == Some(title),
{
    text::prefixes_are_taken_off(held_title(true, title), "⌁ "@, title);
}

/// A directory that the program in the pane reports counts before the one that is known.
pub proof fn reported_directories_come_first(url: Seq<char>, fallback: Option<Seq<char>>)
    ensures
        directory_of(Some(url), fallback) == Some(url),
        directory_of(None, fallback) == fallback,
{
}

/// Output that holds no text shows nothing, and is acknowledged all the same.
pub proof fn output_may_hold_nothing(notification: NotificationModel)
    requires
        notification.method == "pty.data"@ || notification.method == "pty.replay"@,
        !(json::member(notification.params, "data"@) matches Some(json::JsonModel::Text(_))),
    ensures
        output_for(notification) matches OutputModel::Show { data, ack } && data is None && (ack
            <==> notification.method == "pty.data"@),
{
    reveal_strlit("pty.data");
    reveal_strlit("pty.replay");
    assert("pty.replay"@.len() != "pty.data"@.len());
}

/// A pane that follows anew shows what arrives under its new number, and nothing else of it changes.
pub proof fn a_new_stream_is_shown(pane: RelayPaneModel, notification: NotificationModel)
    ensures
        ({
            let next = following_next(pane);
            &&& output_on(next, next.io_generation, notification) == output_for(notification)
            &&& next.io_generation != pane.io_generation
            &&& next.pty_id == pane.pty_id && next.cwd == pane.cwd
            &&& next.parent_tab_id == pane.parent_tab_id && next.owns_pty == pane.owns_pty
            &&& next.dead == pane.dead && next.killed == pane.killed && next.held == pane.held
        }),
{
}

} // verus!
