//! Finding the relay of a host and opening a connection to it.
use crate::lists;
use crate::shell;
use crate::shell::{CommandLine, CommandModel};
use crate::text;
use vstd::prelude::*;

verus! {

/// Shell lines that find the newest node runtime of a host: `node_bin` and `node_major`.
pub const NODE_DISCOVERY: &'static str = "shell_path=$(\"${SHELL:-/bin/sh}\" -l -c env 2>/dev/null </dev/null | sed -n 's/^PATH=//p' | tail -1)
[ -n \"$shell_path\" ] && PATH=\"$shell_path:$PATH\"
export PATH
node_bin=\"\"
node_major=0
for candidate in node /opt/homebrew/bin/node /usr/local/bin/node /usr/bin/node \"$HOME\"/.nvm/versions/node/*/bin/node; do
  resolved=$(command -v \"$candidate\" 2>/dev/null) || resolved=\"$candidate\"
  [ -x \"$resolved\" ] || continue
  major=$(\"$resolved\" -e 'process.stdout.write(process.versions.node.split(\".\")[0])' 2>/dev/null) || continue
  if [ \"$major\" -gt \"$node_major\" ]; then node_bin=\"$resolved\"; node_major=$major; fi
done";

/// The script that lists the sockets of all relays of a host, newest first.
pub const LIST_DAEMONS: &'static str = "
for s in $(ls -t \"$HOME/.orca-remote/\"relay-*/relay-*.sock 2>/dev/null); do
  [ -e \"$s.credential\" ] || continue
  echo \"$s\"
done
";

/// The script that prints the directory, the socket and the credential of the newest relay of a host.
pub const FIND_DAEMON: &'static str = "
found=\"\"
for s in $(ls -t \"$HOME/.orca-remote/\"relay-*/relay-*.sock 2>/dev/null); do
  [ -e \"$s.credential\" ] || continue
  found=\"$s\"
  break
done
[ -n \"$found\" ] || { echo NO_RELAY; exit 0; }
dir=$(dirname \"$found\")/
echo \"$dir\"; echo \"$found\"; echo \"$found.credential\"
";

/// Where a relay listens.
#[derive(Clone, Debug, PartialEq, Eq)]
pub struct RelayDaemon {
    pub dir: String,
    pub sock: String,
    pub credential: String,
}

/// What a [`RelayDaemon`] says.
#[verifier::ext_equal]
pub struct DaemonModel {
    pub dir: Seq<char>,
    pub sock: Seq<char>,
    pub credential: Seq<char>,
}

impl View for RelayDaemon {
    type V = DaemonModel;

    open spec fn view(&self) -> DaemonModel {
        DaemonModel { dir: self.dir@, sock: self.sock@, credential: self.credential@ }
    }
}

/// The models of the daemons.
pub open spec fn daemon_models(v: Seq<RelayDaemon>) -> Seq<DaemonModel> {
    Seq::new(v.len(), |i: int| v[i]@)
}

/// The path that `std::path::Path::parent` gives, written out, where there is one. Paths are taken as
/// those of a unix host, on which the parts are separated by `/`.
pub uninterp spec fn path_parent(path: Seq<char>) -> Option<Seq<char>>;

/// `std::path::Path::parent`, written out: a function of the path alone, which does not look at the
/// disk.
#[verifier::external_body]
fn parent_of(path: &str) -> (r: Option<String>)
    ensures
        text::opt_text(r) == path_parent(path@),
{
    std::path::Path::new(path).parent().map(|parent| parent.display().to_string())
}

/// The path without its last part, where it has one.
pub fn parent_path(path: &str) -> (r: Option<String>)
    ensures
        text::opt_text(r) == path_parent(path@),
{
    parent_of(path)
}

/// The relay at a socket: its directory, and the credential beside the socket.
pub open spec fn daemon_at(sock: Seq<char>, parent: Option<Seq<char>>) -> DaemonModel {
    DaemonModel {
        dir: match parent {
            Some(parent) => parent.push('/'),
            None => Seq::empty(),
        },
        sock,
        credential: sock + ".credential"@,
    }
}

/// The relay at a socket in the given directory.
pub fn daemon_in(sock: &str, parent: Option<String>) -> (r: RelayDaemon)
    ensures
        r@ == daemon_at(sock@, text::opt_text(parent)),
{
    let dir = match parent {
        Some(parent) => {
            let mut dir = parent;
            dir.push('/');
            dir
        },
        None => String::new(),
    };
    RelayDaemon { dir, sock: sock.to_owned(), credential: text::concat(sock, ".credential") }
}

/// The relays at the sockets from index `i` on that are not empty.
pub open spec fn daemons_from(socks: Seq<Seq<char>>, i: int) -> Seq<DaemonModel>
    decreases socks.len() - i,
{
    if i < 0 || i >= socks.len() {
        Seq::empty()
    } else if socks[i].len() == 0 {
        daemons_from(socks, i + 1)
    } else {
        seq![daemon_at(socks[i], path_parent(socks[i]))] + daemons_from(socks, i + 1)
    }
}

/// All relays of a host, from what [`LIST_DAEMONS`] printed.
pub fn discover_all_daemons(stdout: &str) -> (r: Vec<RelayDaemon>)
    ensures
        daemon_models(r@) == daemons_from(text::line_texts(stdout@), 0),
{
    let lines = text::lines(stdout);
    let ghost all = text::texts(lines@);
    let mut out: Vec<RelayDaemon> = Vec::new();
    let mut i: usize = 0;
    assert(daemon_models(out@) + daemons_from(all, 0) == daemons_from(all, 0));
    while i < lines.len()
        invariant
            i <= lines@.len(),
            all == text::texts(lines@),
            daemon_models(out@) + daemons_from(all, i as int) == daemons_from(all, 0),
        decreases lines@.len() - i,
    {
        let ghost before = daemon_models(out@);
        assert(all[i as int] == lines@[i as int]@);
        if !lines[i].as_str().is_empty() {
            let daemon = daemon_in(lines[i].as_str(), parent_of(lines[i].as_str()));
            out.push(daemon);
            assert(daemon_models(out@) == before.push(daemon@));
            assert(before + (seq![daemon@] + daemons_from(all, i + 1)) == daemon_models(out@)
                + daemons_from(all, i + 1));
        }
        i += 1;
    }
    assert(daemon_models(out@) + Seq::<DaemonModel>::empty() == daemon_models(out@));
    out
}

/// The relay that a discovery found, from the lines that it printed, or what is wrong.
pub open spec fn discovered(target: Seq<char>, lines: Seq<Seq<char>>) -> Result<
    DaemonModel,
    Seq<char>,
> {
    if lines.len() == 0 {
        Err("relay discovery on "@ + target + " produced no output"@)
    } else if lines[0] == "NO_RELAY"@ {
        Err("no orca relay is installed on "@ + target)
    } else if lines[0] == "NO_SOCK"@ {
        Err("no live relay daemon socket found on "@ + target)
    } else if lines.len() == 1 {
        Err("relay discovery on "@ + target + " returned no socket"@)
    } else if lines.len() == 2 {
        Err("relay discovery on "@ + target + " returned no credential"@)
    } else {
        Ok(DaemonModel { dir: lines[0], sock: lines[1], credential: lines[2] })
    }
}

fn around(before: &str, middle: &str, after: &str) -> (r: String)
    ensures
        r@ == before@ + middle@ + after@,
{
    let mut out = before.to_owned();
    out.push_str(middle);
    out.push_str(after);
    out
}

/// The relay of a host, from what [`FIND_DAEMON`] printed.
pub fn discover_daemon(target: &str, stdout: &str) -> (r: Result<RelayDaemon, String>)
    ensures
        match discovered(target@, text::line_texts(stdout@)) {
            Ok(daemon) => r matches Ok(d) && d@ == daemon,
            Err(e) => r matches Err(x) && x@ == e,
        },
{
    let lines = text::lines(stdout);
    let ghost all = text::texts(lines@);
    assert(all.len() == lines@.len());
    if lines.len() == 0 {
        return Err(around("relay discovery on ", target, " produced no output"));
    }
    assert(all[0] == lines@[0]@);
    if text::same(lines[0].as_str(), "NO_RELAY") {
        return Err(text::concat("no orca relay is installed on ", target));
    }
    if text::same(lines[0].as_str(), "NO_SOCK") {
        return Err(text::concat("no live relay daemon socket found on ", target));
    }
    if lines.len() == 1 {
        return Err(around("relay discovery on ", target, " returned no socket"));
    }
    if lines.len() == 2 {
        return Err(around("relay discovery on ", target, " returned no credential"));
    }
    assert(all[1] == lines@[1]@ && all[2] == lines@[2]@);
    Ok(
        RelayDaemon {
            dir: lines[0].clone(),
            sock: lines[1].clone(),
            credential: lines[2].clone(),
        },
    )
}

/// The command line that runs a script on a host over ssh, without prompts.
pub open spec fn ssh_command_line(target: Seq<char>, script: Seq<char>) -> CommandModel {
    CommandModel {
        program: "ssh"@,
        args: seq![
            "-oBatchMode=yes"@,
            "-oConnectTimeout=10"@,
            target,
            "sh -c "@ + shell::quoted(script),
        ],
    }
}

/// The command line that runs a script on a host over ssh, without prompts.
pub fn ssh_command(target: &str, script: &str) -> (r: CommandLine)
    ensures
        r@ == ssh_command_line(target@, script@),
{
    let mut args: Vec<String> = Vec::new();
    text::push_text(&mut args, "-oBatchMode=yes");
    text::push_text(&mut args, "-oConnectTimeout=10");
    text::push_text(&mut args, target);
    text::push_text(&mut args, text::concat("sh -c ", shell_quote(script).as_str()).as_str());
    assert(text::texts(args@) == ssh_command_line(target@, script@).args);
    CommandLine { program: "ssh".to_owned(), args }
}

/// The script that connects to a relay: it runs the relay's own client in its directory.
pub open spec fn connect_script_of(daemon: DaemonModel) -> Seq<char> {
    NODE_DISCOVERY@
        + "\n[ -n \"$node_bin\" ] || { echo 'no node runtime on host' >&2; exit 5; }\ncd "@
        + shell::quoted(daemon.dir) + " && exec \"$node_bin\" relay.js --connect --sock-path "@
        + shell::quoted(daemon.sock) + " --credential-file "@ + shell::quoted(daemon.credential)
}

/// The script that connects to a relay.
pub fn connect_script(daemon: &RelayDaemon) -> (r: String)
    ensures
        r@ == connect_script_of(daemon@),
{
    let mut out = NODE_DISCOVERY.to_owned();
    out.push_str("\n[ -n \"$node_bin\" ] || { echo 'no node runtime on host' >&2; exit 5; }\ncd ");
    out.push_str(shell_quote(daemon.dir.as_str()).as_str());
    out.push_str(" && exec \"$node_bin\" relay.js --connect --sock-path ");
    out.push_str(shell_quote(daemon.sock.as_str()).as_str());
    out.push_str(" --credential-file ");
    out.push_str(shell_quote(daemon.credential.as_str()).as_str());
    out
}

/// One shell word that stands for `value`.
pub fn shell_quote(value: &str) -> (r: String)
    ensures
        r@ == shell::quoted(value@),
{
    shell::quote(value)
}

/// The line with which a relay says that frames follow.
pub open spec fn sentinel() -> Seq<u8> {
    seq![
        79u8, 82u8, 67u8, 65u8, 45u8, 82u8, 69u8, 76u8, 65u8, 89u8, 32u8, 118u8, 48u8, 46u8, 49u8,
        46u8, 48u8, 32u8, 82u8, 69u8, 65u8, 68u8, 89u8, 10u8,
    ]
}

/// Whether `data` ends with `tail`.
pub open spec fn ends_with(data: Seq<u8>, tail: Seq<u8>) -> bool {
    tail.len() <= data.len() && data.skip(data.len() - tail.len()) == tail
}

/// Watches a stream for the sentinel, without keeping more of it than it needs.
pub struct SentinelScanner {
    seen: Vec<u8>,
    sentinel: Vec<u8>,
}

impl SentinelScanner {
    /// The end of the stream that is kept.
    pub closed spec fn kept(&self) -> Seq<u8> {
        self.seen@
    }

    /// Whether the scanner looks for the sentinel.
    pub closed spec fn wf(&self) -> bool {
        self.sentinel@ == sentinel()
    }

    /// Whether the scanner has followed the stream: it keeps all of it, or an end that is at least as
    /// long as the sentinel.
    pub open spec fn follows(&self, stream: Seq<u8>) -> bool {
        &&& self.wf()
        &&& ends_with(stream, self.kept())
        &&& self.kept() == stream || self.kept().len() >= sentinel().len()
    }

    /// A scanner at the start of a stream.
    pub fn new() -> (r: SentinelScanner)
        ensures
            r.follows(Seq::empty()),
    {
        let sentinel: Vec<u8> = vec![
            79u8, 82u8, 67u8, 65u8, 45u8, 82u8, 69u8, 76u8, 65u8, 89u8, 32u8, 118u8, 48u8, 46u8,
            49u8, 46u8, 48u8, 32u8, 82u8, 69u8, 65u8, 68u8, 89u8, 10u8,
        ];
        let r = SentinelScanner { seen: Vec::new(), sentinel };
        assert(r.sentinel@ == self::sentinel());
        assert(Seq::<u8>::empty().skip(0) == Seq::<u8>::empty());
        r
    }

    /// What was seen last.
    pub fn seen(&self) -> (r: &[u8])
        ensures
            r@ == self.kept(),
    {
        &self.seen
    }

    /// Takes in the next byte, and says whether the stream now ends with the sentinel.
    pub fn push(&mut self, byte: u8) -> (r: bool)
        requires
            old(self).wf(),
        ensures
            final(self).wf(),
            r == ends_with(old(self).kept().push(byte), sentinel()),
            forall|stream: Seq<u8>| #[trigger]
                old(self).follows(stream) ==> final(self).follows(stream.push(byte)) && r
                    == ends_with(stream.push(byte), sentinel()),
    {
        let n: usize = self.sentinel.len();
        self.seen.push(byte);
        let ghost kept = self.seen@;
        let found = if self.seen.len() >= n {
            let total: usize = self.seen.len();
            let start: usize = total - n;
            let mut i: usize = 0;
            while i < n && self.seen[start + i] == self.sentinel[i]
                invariant
                    i <= n,
                    n == self.sentinel@.len(),
                    start + n == self.seen@.len() == total,
                    self.seen@ == kept,
                    self.sentinel@ == sentinel(),
                    forall|j: int| 0 <= j < i ==> kept[start + j] == sentinel()[j],
                decreases n - i,
            {
                i += 1;
            }
            proof {
                if i == n {
                    assert(kept.skip(start as int) == sentinel());
                } else {
                    assert(kept.skip(start as int)[i as int] != sentinel()[i as int]);
                }
            }
            i == n
        } else {
            false
        };
        if !found && self.seen.len() > n * 4 {
            let drop: usize = self.seen.len() - n;
            let rest = crate::bytes::copy_range(&self.seen, drop, self.seen.len());
            assert(rest@ == kept.skip(drop as int));
            self.seen = rest;
        }
        proof {
            assert forall|stream: Seq<u8>| #[trigger] old(self).follows(stream) implies self.follows(
                stream.push(byte),
            ) && found == ends_with(stream.push(byte), sentinel()) by {
                let longer = stream.push(byte);
                let before = old(self).kept();
                assert(longer.skip(longer.len() - kept.len()) == stream.skip(
                    stream.len() - before.len(),
                ).push(byte));
                assert(ends_with(longer, kept));
                if kept.len() >= sentinel().len() {
                    assert(longer.skip(longer.len() - sentinel().len()) == kept.skip(
                        kept.len() - sentinel().len(),
                    ));
                } else {
                    assert(kept == longer);
                }
                if self.seen@ != kept {
                    assert(longer.skip(longer.len() - self.seen@.len()) == self.seen@);
                }
            }
        }
        found
    }
}

proof fn lemma_daemons_from(socks: Seq<Seq<char>>, i: int)
    requires
        0 <= i <= socks.len(),
    ensures
        daemons_from(socks, i) == lists::picked(
            socks.skip(i),
            |s: Seq<char>|
                if s.len() > 0 {
                    Some(daemon_at(s, path_parent(s)))
                } else {
                    None
                },
        ),
    decreases socks.len() - i,
{
    let f = |s: Seq<char>|
        if s.len() > 0 {
            Some(daemon_at(s, path_parent(s)))
        } else {
            None
        };
    if i < socks.len() {
        lemma_daemons_from(socks, i + 1);
        lists::lemma_picked_front(socks, i, f);
    } else {
        assert(socks.skip(i) =~= Seq::<Seq<char>>::empty());
        lists::lemma_picked_empty(f);
    }
}

/// Each line that names a socket names a daemon, in their order. A daemon runs in the directory of its
/// socket, and its credential lies beside that.
pub proof fn each_socket_is_a_daemon(socks: Seq<Seq<char>>, sock: Seq<char>, parent: Seq<char>)
    ensures
        daemons_from(socks, 0) == lists::picked(
            socks,
            |s: Seq<char>|
                if s.len() > 0 {
                    Some(daemon_at(s, path_parent(s)))
                } else {
                    None
                },
        ),
        daemon_at(sock, Some(parent)).sock == sock,
        daemon_at(sock, Some(parent)).dir == parent + seq!['/'],
        daemon_at(sock, None).dir.len() == 0,
        daemon_at(sock, Some(parent)).credential == sock + ".credential"@,
{
    lemma_daemons_from(socks, 0);
    assert(socks.skip(0) =~= socks);
    assert(parent.push('/') == parent + seq!['/']);
}

/// A host names its daemon in three lines: directory, socket and credential. Anything less is an error,
/// and so is a first line that says that there is none.
pub proof fn discoveries_are_read(
    target: Seq<char>,
    dir: Seq<char>,
    sock: Seq<char>,
    credential: Seq<char>,
    more: Seq<Seq<char>>,
)
    ensures
        dir != "NO_RELAY"@ && dir != "NO_SOCK"@ ==> discovered(
            target,
            seq![dir, sock, credential] + more,
        ) == Ok::<DaemonModel, Seq<char>>(DaemonModel { dir, sock, credential }),
        discovered(target, seq!["NO_RELAY"@] + more) == Err::<DaemonModel, Seq<char>>(
            "no orca relay is installed on "@ + target,
        ),
        discovered(target, seq!["NO_SOCK"@] + more) == Err::<DaemonModel, Seq<char>>(
            "no live relay daemon socket found on "@ + target,
        ),
        discovered(target, seq![dir, sock]) is Err,
        discovered(target, seq![dir]) is Err,
        discovered(target, Seq::empty()) is Err,
{
    reveal_strlit("NO_RELAY");
    reveal_strlit("NO_SOCK");
    assert("NO_RELAY"@.len() != "NO_SOCK"@.len());
    assert((seq!["NO_RELAY"@] + more)[0] == "NO_RELAY"@);
    assert((seq!["NO_SOCK"@] + more)[0] == "NO_SOCK"@);
}

/// The host gets a script as one word for its shell, which reads the script back out of it.
pub proof fn scripts_arrive_whole(target: Seq<char>, script: Seq<char>)
    ensures
        ({
            let line = ssh_command_line(target, script);
            let n = line.args.len();
            &&& line.program == "ssh"@
            &&& n >= 2 && line.args[n - 2] == target
            &&& text::after_prefix(line.args[n - 1], "sh -c "@) matches Some(word)
                && shell::shell_word(word, 0, shell::Reading::Plain) == Some(script)
        }),
{
    text::prefixes_are_taken_off(
        "sh -c "@ + shell::quoted(script),
        "sh -c "@,
        shell::quoted(script),
    );
    shell::quoted_reads_back(script);
}

/// The relay says that it is ready with one line of text, and it has said so where what arrived ends
/// with that line.
pub proof fn the_relay_says_when_it_is_ready(head: Seq<u8>, data: Seq<u8>)
    ensures
        ends_with(head + sentinel(), sentinel()),
        ends_with(data, sentinel()) ==> data == data.take(data.len() - sentinel().len())
            + sentinel(),
        sentinel().len() == "ORCA-RELAY v0.1.0 READY\n"@.len(),
        forall|i: int|
            0 <= i < sentinel().len() ==> #[trigger] sentinel()[i] as u32
                == "ORCA-RELAY v0.1.0 READY\n"@[i] as u32,
{
    reveal_strlit("ORCA-RELAY v0.1.0 READY\n");
    let t = sentinel();
    assert((head + t).skip(head.len() as int) == t);
    if ends_with(data, t) {
        assert(data == data.take(data.len() - t.len()) + data.skip(data.len() - t.len()));
    }
}

/// What a list says, it says item by item: each stands in its place, and none is added or left out.
pub proof fn items_keep_their_places(v: Seq<RelayDaemon>, i: int)
    ensures
        daemon_models(v).len() == v.len(),
        0 <= i < v.len() ==> daemon_models(v)[i] == v[i]@,
{
}

} // verus!
