//! Orca runtimes on remote hosts: the scripts that find, install and start them, and what they print.
use crate::json;
use crate::json::{Json, JsonModel};
use crate::orca_mux::local_runtime;
use crate::orca_mux::local_runtime::join_path;
use crate::orca_mux::relay::transport;
use crate::paseo_client::client;
use crate::paseo_client::envelope;
use crate::shell;
use crate::text;
use vstd::prelude::*;

verus! {

/// The files that orcad consists of, as arguments.
pub const ARTIFACT_NAMES: &'static str = "orcad.js daemon-entry.js parcel-watcher-process-entry.js";

/// A runtime on a remote host: its port there, and the URL that pairs with it.
#[derive(Clone, Debug, PartialEq, Eq)]
pub struct RemoteRuntime {
    pub remote_port: u16,
    pub pairing_url: String,
}

/// One shell word that stands for `value`.
pub fn shell_quote(value: &str) -> (r: String)
    ensures
        r@ == shell::quoted(value@),
{
    shell::quote(value)
}

/// The script that says whether a relay of the host is alive.
pub const LIVE_RELAY: &'static str = "
for s in \"$HOME/.orca-remote/\"relay-*/relay-*.sock; do
  [ -e \"$s\" ] && [ -e \"$s.credential\" ] || continue
  if pgrep -u \"$(id -u)\" -f 'relay.js --detached' >/dev/null 2>&1; then echo yes; exit 0; fi
done
echo no
";

/// The program that pairs with a running orca application, for node: it prints the offer as JSON.
pub const MINT_BRIDGE: &'static str = "
const fs = require(\"fs\");
const net = require(\"net\");
const metaPath = process.argv[1];
const cachePath = process.argv[2];
const refresh = process.argv[3] === \"refresh\";
function fail(message, code) { console.error(message); process.exit(code); }
const meta = JSON.parse(fs.readFileSync(metaPath, \"utf8\"));
const unix = (meta.transports || []).find(function (t) { return t.kind === \"unix\"; });
const ws = (meta.transports || []).find(function (t) { return t.kind === \"websocket\"; });
if (!unix || !meta.authToken) {
  fail(\"runtime metadata lacks a unix transport or auth token\", 3);
}
if (!refresh && ws) {
  try {
    const cached = JSON.parse(fs.readFileSync(cachePath, \"utf8\"))[meta.runtimeId];
    if (cached) {
      console.log(JSON.stringify({ pairingUrl: cached, endpoint: ws.endpoint }));
      process.exit(0);
    }
  } catch (err) {}
}
const socket = net.createConnection(unix.endpoint);
socket.setEncoding(\"utf8\");
let buffer = \"\";
socket.on(\"error\", function (err) { fail(err.message, 4); });
socket.on(\"connect\", function () {
  socket.write(JSON.stringify({
    id: \"wezterm-pairing\",
    method: \"pairing.createOffer\",
    params: { name: \"wezterm\", rotate: refresh },
    authToken: meta.authToken
  }) + \"\\n\");
});
socket.on(\"data\", function (chunk) {
  buffer += chunk;
  let index;
  while ((index = buffer.indexOf(\"\\n\")) >= 0) {
    const line = buffer.slice(0, index);
    buffer = buffer.slice(index + 1);
    if (!line.trim()) continue;
    const frame = JSON.parse(line);
    if (frame._keepalive) continue;
    if (!frame.ok) {
      const code = frame.error && frame.error.code;
      if (code === \"method_not_found\") {
        fail(\"the orca runtime predates pairing.createOffer; update orca on the host\", 6);
      }
      fail((frame.error && frame.error.message) || \"pairing offer request failed\", 4);
    }
    const result = frame.result || {};
    if (!result.available) {
      fail(result.guidance || \"pairing unavailable\", 4);
    }
    let cache = {};
    try { cache = JSON.parse(fs.readFileSync(cachePath, \"utf8\")); } catch (err) {}
    cache[meta.runtimeId] = result.pairingUrl;
    fs.writeFileSync(cachePath, JSON.stringify(cache), { mode: 0o600 });
    console.log(JSON.stringify({ pairingUrl: result.pairingUrl, endpoint: result.endpoint }));
    process.exit(0);
  }
});
setTimeout(function () {
  fail(\"timed out waiting for the runtime socket\", 4);
}, 10000);
";

/// A part of the script that [`probe_script`] writes.
pub const PROBE_HEAD: &'static str = "
alive() {
  [ -n \"$1\" ] || return 1
  kill -0 \"$1\" 2>/dev/null && return 0
  kill -0 \"$1\" 2>&1 | grep -qi \"not permitted\"
}
dead=\"\"
if cd \"$HOME/.orca-remote\" 2>/dev/null; then
  active=$(sed -n 's/.*\"active\": *\"\\([^\"]*\\)\".*/\\1/p' orcad-active.json 2>/dev/null || true)
  if [ -n \"$active\" ] && [ -d \"orcad-$active\" ]; then
    pid=$(cat \"orcad-$active/.orcad-pid\" 2>/dev/null)
    [ -n \"$pid\" ] || pid=$(cat \"orcad-$active/orcad.pid\" 2>/dev/null)
    if alive \"$pid\"; then
      echo orcad
      head -1 \"orcad-$active/.orcad-readiness\"
      exit 0
    fi
    dead=\"$active\"
  fi
fi
for data in ";

/// A part of the script that [`probe_script`] writes.
pub const PROBE_TAIL: &'static str = "; do
  meta=\"$data/orca-runtime.json\"
  [ -f \"$meta\" ] || continue
  pid=$(sed -n 's/.*\"pid\": *\\([0-9][0-9]*\\).*/\\1/p' \"$meta\" | head -1)
  if alive \"$pid\"; then
    echo app
    echo \"$meta\"
    echo \"$dead\"
    exit 0
  fi
done
if [ -n \"$dead\" ]; then
  echo dead
  echo \"$dead\"
  exit 0
fi
echo none
";

/// A part of the script that [`adopt_script`] writes.
pub const ADOPT_RUN: &'static str = "
[ -n \"$node_bin\" ] || { echo \"no node runtime on host\" >&2; exit 5; }
exec \"$node_bin\" -e ";

/// A part of the script that [`native_script`] writes.
pub const NATIVE_BUILD: &'static str = "
[ -n \"$node_bin\" ] || { echo \"no node runtime on host\" >&2; exit 5; }
[ \"$node_major\" -ge 20 ] || { echo \"orcad needs node >= 20; newest on host is $node_major\" >&2; exit 5; }
export PATH=\"$(dirname \"$node_bin\"):$PATH\"
if \"$node_bin\" -e \"require('./node_modules/node-pty')\" 2>/dev/null; then exit 0; fi
rm -rf node_modules/node-pty/build
npm rebuild --ignore-scripts=false node-pty > npm-build.log 2>&1 || {
  tail -20 npm-build.log >&2
  exit 6
}
\"$node_bin\" -e \"require('./node_modules/node-pty')\" || {
  echo \"node-pty still fails to load after rebuild\" >&2
  exit 6
}
find node_modules/node-pty -name spawn-helper -exec chmod +x {} + 2>/dev/null
true
";

/// A part of the script that [`relaunch_script`] writes.
pub const RELAUNCH_CHECK: &'static str = "
[ -n \"$node_bin\" ] || { echo \"no node runtime on host\" >&2; exit 5; }
[ \"$node_major\" -ge 20 ] || { echo \"orcad needs node >= 20; newest on host is $node_major\" >&2; exit 5; }
: > .orcad-readiness
umask 077
ORCA_VERSION='";

/// A part of the script that [`relaunch_script`] writes.
pub const RELAUNCH_START: &'static str = "' ORCA_USER_DATA=\"$HOME/.orca-remote/orcad-data\" \\
  nohup \"$node_bin\" orcad.js --json --bind 127.0.0.1 > .orcad-readiness 2>> orcad.log < /dev/null &
echo $! > .orcad-pid
";

/// A part of the script that [`activation_record`] writes.
pub const RECORD_TAIL: &'static str = "\",\"previous\":null,\"activatedAt\":null,\"snapshot\":null}";

/// A part of the script that [`upload_pipeline`] writes.
pub const UPLOAD_PACK: &'static str = "/usr/bin/tar -c -h --no-xattrs -f - --exclude 'node-pty/build' -C ";

/// A part of the script that [`upload_pipeline`] writes.
pub const UPLOAD_UNPACK: &'static str = " node-pty node-addon-api | ssh -oBatchMode=yes -oConnectTimeout=10 ";

/// A part of the script that [`upload_pipeline`] writes.
pub const UPLOAD_FINISH: &'static str = "/node_modules/node-pty\" -name spawn-helper -exec chmod +x {} + 2>/dev/null || true; }'";

/// A part of the script that [`prebuilds_pipeline`] writes.
pub const PREBUILDS_PACK: &'static str = " prebuilds | ssh -oBatchMode=yes -oConnectTimeout=10 ";

/// The script that reports the orca runtime of a host: a live orcad, a live application, a dead
/// orcad, or none; `candidates` are the directories of applications, as shell words.
pub open spec fn probe_script_of(candidates: Seq<char>) -> Seq<char> {
    PROBE_HEAD@
        + candidates
        + PROBE_TAIL@
}

/// The script that reports the orca runtime of a host: a live orcad, a live application, a dead
/// orcad, or none; `candidates` are the directories of applications, as shell words.
pub fn probe_script(candidates: &str) -> (r: String)
    ensures
        r@ == probe_script_of(candidates@),
{
    let mut out = PROBE_HEAD.to_owned();
    out.push_str(candidates);
    out.push_str(PROBE_TAIL);
    out
}

/// The script that pairs with the orca application whose metadata file is given.
pub open spec fn adopt_script_of(metadata_path: Seq<char>, refresh_pairing: bool) -> Seq<char> {
    "
umask 077
mkdir -p \"$HOME/.orca-remote\"
"@
        + transport::NODE_DISCOVERY@
        + ADOPT_RUN@
        + shell::quoted(MINT_BRIDGE@)
        + " "@
        + shell::quoted(metadata_path)
        + " \"$HOME/.orca-remote/app-pairing.json\" "@
        + (if refresh_pairing {
            "refresh"@
        } else {
            "reuse"@
        })
        + "
"@
}

/// The script that pairs with the orca application whose metadata file is given.
pub fn adopt_script(metadata_path: &str, refresh_pairing: bool) -> (r: String)
    ensures
        r@ == adopt_script_of(metadata_path@, refresh_pairing),
{
    let mut out = "
umask 077
mkdir -p \"$HOME/.orca-remote\"
".to_owned();
    out.push_str(transport::NODE_DISCOVERY);
    out.push_str(ADOPT_RUN);
    out.push_str(shell_quote(MINT_BRIDGE).as_str());
    out.push_str(" ");
    out.push_str(shell_quote(metadata_path).as_str());
    out.push_str(" \"$HOME/.orca-remote/app-pairing.json\" ");
    out.push_str(if refresh_pairing {
        "refresh"
    } else {
        "reuse"
    });
    out.push_str("
");
    out
}

/// The script that builds what a version of orcad needs on the host, where it does not load yet.
pub open spec fn native_script_of(version: Seq<char>) -> Seq<char> {
    "
cd \"$HOME/.orca-remote/orcad-"@
        + version
        + "\" || exit 7
"@
        + transport::NODE_DISCOVERY@
        + NATIVE_BUILD@
}

/// The script that builds what a version of orcad needs on the host, where it does not load yet.
pub fn native_script(version: &str) -> (r: String)
    ensures
        r@ == native_script_of(version@),
{
    let mut out = "
cd \"$HOME/.orca-remote/orcad-".to_owned();
    out.push_str(version);
    out.push_str("\" || exit 7
");
    out.push_str(transport::NODE_DISCOVERY);
    out.push_str(NATIVE_BUILD);
    out
}

/// The script that starts a version of orcad.
pub open spec fn relaunch_script_of(version: Seq<char>) -> Seq<char> {
    "
set -e
cd \"$HOME/.orca-remote/orcad-"@
        + version
        + "\"
"@
        + transport::NODE_DISCOVERY@
        + RELAUNCH_CHECK@
        + version
        + RELAUNCH_START@
}

/// The script that starts a version of orcad.
pub fn relaunch_script(version: &str) -> (r: String)
    ensures
        r@ == relaunch_script_of(version@),
{
    let mut out = "
set -e
cd \"$HOME/.orca-remote/orcad-".to_owned();
    out.push_str(version);
    out.push_str("\"
");
    out.push_str(transport::NODE_DISCOVERY);
    out.push_str(RELAUNCH_CHECK);
    out.push_str(version);
    out.push_str(RELAUNCH_START);
    out
}

/// The script that prints what a version of orcad said once it was ready.
pub open spec fn readiness_script_of(version: Seq<char>) -> Seq<char> {
    "head -1 \"$HOME/.orca-remote/orcad-"@
        + version
        + "/.orcad-readiness\""@
}

/// The script that prints what a version of orcad said once it was ready.
pub fn readiness_script(version: &str) -> (r: String)
    ensures
        r@ == readiness_script_of(version@),
{
    let mut out = "head -1 \"$HOME/.orca-remote/orcad-".to_owned();
    out.push_str(version);
    out.push_str("/.orcad-readiness\"");
    out
}

/// The record that makes a version of orcad the active one.
pub open spec fn activation_record_of(version: Seq<char>) -> Seq<char> {
    "{\"schemaVersion\":1,\"active\":\""@
        + version
        + RECORD_TAIL@
}

/// The record that makes a version of orcad the active one.
pub fn activation_record(version: &str) -> (r: String)
    ensures
        r@ == activation_record_of(version@),
{
    let mut out = "{\"schemaVersion\":1,\"active\":\"".to_owned();
    out.push_str(version);
    out.push_str(RECORD_TAIL);
    out
}

/// The script that makes a version of orcad the active one.
pub open spec fn activate_script_of(version: Seq<char>) -> Seq<char> {
    "mkdir -p \"$HOME/.orca-remote\" && printf '%s' '"@
        + activation_record_of(version)
        + "' > \"$HOME/.orca-remote/orcad-active.json\""@
}

/// The script that makes a version of orcad the active one.
pub fn activate_script(version: &str) -> (r: String)
    ensures
        r@ == activate_script_of(version@),
{
    let mut out = "mkdir -p \"$HOME/.orca-remote\" && printf '%s' '".to_owned();
    out.push_str(activation_record(version).as_str());
    out.push_str("' > \"$HOME/.orca-remote/orcad-active.json\"");
    out
}

/// The pipeline that packs orcad and its terminal library and unpacks them on the host.
pub open spec fn upload_pipeline_of(target: Seq<char>, artifacts: Seq<char>, node_pty_parent: Seq<char>, version: Seq<char>) -> Seq<char> {
    UPLOAD_PACK@
        + shell::quoted(artifacts)
        + " "@
        + ARTIFACT_NAMES@
        + " -C "@
        + shell::quoted(node_pty_parent)
        + UPLOAD_UNPACK@
        + shell::quoted(target)
        + " 'mkdir -p \""@
        + install_dir_of(version)
        + "/node_modules\" && tar xf - -C \""@
        + install_dir_of(version)
        + "\" && rm -rf \""@
        + install_dir_of(version)
        + "/node_modules/node-pty\" \""@
        + install_dir_of(version)
        + "/node_modules/node-addon-api\" && mv \""@
        + install_dir_of(version)
        + "/node-pty\" \""@
        + install_dir_of(version)
        + "/node_modules/node-pty\" && mv \""@
        + install_dir_of(version)
        + "/node-addon-api\" \""@
        + install_dir_of(version)
        + "/node_modules/node-addon-api\" && { find \""@
        + install_dir_of(version)
        + UPLOAD_FINISH@
}

/// The pipeline that packs orcad and its terminal library and unpacks them on the host.
pub fn upload_pipeline(target: &str, artifacts: &str, node_pty_parent: &str, version: &str) -> (r: String)
    ensures
        r@ == upload_pipeline_of(target@, artifacts@, node_pty_parent@, version@),
{
    let dir = install_dir(version);
    let mut out = UPLOAD_PACK.to_owned();
    out.push_str(shell_quote(artifacts).as_str());
    out.push_str(" ");
    out.push_str(ARTIFACT_NAMES);
    out.push_str(" -C ");
    out.push_str(shell_quote(node_pty_parent).as_str());
    out.push_str(UPLOAD_UNPACK);
    out.push_str(shell_quote(target).as_str());
    out.push_str(" 'mkdir -p \"");
    out.push_str(dir.as_str());
    out.push_str("/node_modules\" && tar xf - -C \"");
    out.push_str(dir.as_str());
    out.push_str("\" && rm -rf \"");
    out.push_str(dir.as_str());
    out.push_str("/node_modules/node-pty\" \"");
    out.push_str(dir.as_str());
    out.push_str("/node_modules/node-addon-api\" && mv \"");
    out.push_str(dir.as_str());
    out.push_str("/node-pty\" \"");
    out.push_str(dir.as_str());
    out.push_str("/node_modules/node-pty\" && mv \"");
    out.push_str(dir.as_str());
    out.push_str("/node-addon-api\" \"");
    out.push_str(dir.as_str());
    out.push_str("/node_modules/node-addon-api\" && { find \"");
    out.push_str(dir.as_str());
    out.push_str(UPLOAD_FINISH);
    out
}

/// The pipeline that puts prebuilt parts of the terminal library onto the host.
pub open spec fn prebuilds_pipeline_of(target: Seq<char>, artifacts: Seq<char>, version: Seq<char>) -> Seq<char> {
    "/usr/bin/tar -c -h --no-xattrs -f - -C "@
        + shell::quoted(artifacts)
        + PREBUILDS_PACK@
        + shell::quoted(target)
        + " 'tar xf - -C \""@
        + install_dir_of(version)
        + "/node_modules/node-pty\"'"@
}

/// The pipeline that puts prebuilt parts of the terminal library onto the host.
pub fn prebuilds_pipeline(target: &str, artifacts: &str, version: &str) -> (r: String)
    ensures
        r@ == prebuilds_pipeline_of(target@, artifacts@, version@),
{
    let dir = install_dir(version);
    let mut out = "/usr/bin/tar -c -h --no-xattrs -f - -C ".to_owned();
    out.push_str(shell_quote(artifacts).as_str());
    out.push_str(PREBUILDS_PACK);
    out.push_str(shell_quote(target).as_str());
    out.push_str(" 'tar xf - -C \"");
    out.push_str(dir.as_str());
    out.push_str("/node_modules/node-pty\"'");
    out
}

/// The directory of a version of orcad, for the remote shell.
pub open spec fn install_dir_of(version: Seq<char>) -> Seq<char> {
    "$HOME/.orca-remote/orcad-"@ + version
}

fn install_dir(version: &str) -> (r: String)
    ensures
        r@ == install_dir_of(version@),
{
    text::concat("$HOME/.orca-remote/orcad-", version)
}

/// Whether what [`LIVE_RELAY`] printed says that a relay is alive.
pub fn has_live_relay(stdout: &str) -> (r: bool)
    ensures
        r == (text::first_at(stdout@, "yes"@, 0) is Some),
{
    let cs = text::chars_of(stdout);
    let yes = text::chars_of("yes");
    text::find(&cs, &yes, 0).is_some()
}

/// `a`, `b`, `c` and `d` in one text.
fn four(a: &str, b: &str, c: &str, d: &str) -> (r: String)
    ensures
        r@ == a@ + b@ + c@ + d@,
{
    let mut out = a.to_owned();
    out.push_str(b);
    out.push_str(c);
    out.push_str(d);
    out
}

/// `a`, `b` and `c` in one text.
fn three(a: &str, b: &str, c: &str) -> (r: String)
    ensures
        r@ == a@ + b@ + c@,
{
    let mut out = a.to_owned();
    out.push_str(b);
    out.push_str(c);
    out
}

/// What a failed command over ssh is reported as.
pub fn ssh_failure(target: &str, stderr: &str) -> (r: String)
    ensures
        r@ == "ssh "@ + target@ + " failed: "@ + text::trimmed(stderr@),
{
    four("ssh ", target, " failed: ", text::trim(stderr).as_str())
}

/// What a failed pairing with an application is reported as.
pub fn pairing_failure(target: &str, stderr: &str) -> (r: String)
    ensures
        r@ == "pairing with the orca runtime on "@ + target@ + " failed: "@ + text::trimmed(stderr@),
{
    four("pairing with the orca runtime on ", target, " failed: ", text::trim(stderr).as_str())
}

/// What a failed upload is reported as.
pub fn upload_failure(target: &str, stderr: &str, prebuilds: bool) -> (r: String)
    ensures
        r@ == (if prebuilds {
            "orcad prebuild upload to "@
        } else {
            "orcad upload to "@
        }) + target@ + " failed: "@ + text::trimmed(stderr@),
{
    let what = if prebuilds {
        "orcad prebuild upload to "
    } else {
        "orcad upload to "
    };
    four(what, target, " failed: ", text::trim(stderr).as_str())
}

/// What runs on a host.
#[derive(Clone, Debug, PartialEq, Eq)]
pub enum ProbeResult {
    /// A live orcad, with what it said once it was ready.
    Orcad { readiness: String },
    /// A live application, and the version of orcad that is installed but not alive, if any.
    App { metadata_path: String, dead_version: Option<String> },
    /// An orcad that is not alive.
    Dead { version: String },
    NoInstall,
}

/// What a [`ProbeResult`] says.
#[verifier::ext_equal]
pub enum ProbeModel {
    Orcad { readiness: Seq<char> },
    App { metadata_path: Seq<char>, dead_version: Option<Seq<char>> },
    Dead { version: Seq<char> },
    NoInstall,
}

impl View for ProbeResult {
    type V = ProbeModel;

    open spec fn view(&self) -> ProbeModel {
        match self {
            ProbeResult::Orcad { readiness } => ProbeModel::Orcad { readiness: readiness@ },
            ProbeResult::App { metadata_path, dead_version } => ProbeModel::App {
                metadata_path: metadata_path@,
                dead_version: text::opt_text(*dead_version),
            },
            ProbeResult::Dead { version } => ProbeModel::Dead { version: version@ },
            ProbeResult::NoInstall => ProbeModel::NoInstall,
        }
    }
}

/// Line `i`, where it is there and not empty.
pub open spec fn nonempty_line(lines: Seq<Seq<char>>, i: int) -> Option<Seq<char>> {
    if 0 <= i < lines.len() && lines[i].len() > 0 {
        Some(lines[i])
    } else {
        None
    }
}

/// What a probe printed: what kind of runtime there is, then what belongs to it.
pub open spec fn probed(target: Seq<char>, lines: Seq<Seq<char>>) -> Result<ProbeModel, Seq<char>> {
    if lines.len() == 0 {
        Err("unreadable runtime probe output from "@ + target)
    } else if lines[0] == "orcad"@ {
        match nonempty_line(lines, 1) {
            Some(readiness) => Ok(ProbeModel::Orcad { readiness }),
            None => Err("orcad on "@ + target + " reported no readiness"@),
        }
    } else if lines[0] == "app"@ {
        match nonempty_line(lines, 1) {
            Some(metadata_path) => Ok(
                ProbeModel::App { metadata_path, dead_version: nonempty_line(lines, 2) },
            ),
            None => Err("orca runtime metadata path missing on "@ + target),
        }
    } else if lines[0] == "dead"@ {
        match nonempty_line(lines, 1) {
            Some(version) => Ok(ProbeModel::Dead { version }),
            None => Err("orcad activation on "@ + target + " is unreadable"@),
        }
    } else if lines[0] == "none"@ {
        Ok(ProbeModel::NoInstall)
    } else {
        Err("unreadable runtime probe output from "@ + target)
    }
}

fn line_at(lines: &[String], i: usize) -> (r: Option<String>)
    ensures
        text::opt_text(r) == nonempty_line(text::texts(lines@), i as int),
{
    if i >= lines.len() {
        return None;
    }
    assert(text::texts(lines@)[i as int] == lines@[i as int]@);
    if lines[i].as_str().is_empty() {
        None
    } else {
        Some(lines[i].clone())
    }
}

/// What runs on a host, from what the script of [`probe_script`] printed.
pub fn probe(target: &str, success: bool, stdout: &str, stderr: &str) -> (r: Result<
    ProbeResult,
    String,
>)
    ensures
        if success {
            match probed(target@, text::line_texts(stdout@)) {
                Ok(p) => r matches Ok(x) && x@ == p,
                Err(e) => r matches Err(x) && x@ == e,
            }
        } else {
            r matches Err(x) && x@ == "ssh "@ + target@ + " failed: "@ + text::trimmed(stderr@)
        },
{
    if !success {
        return Err(ssh_failure(target, stderr));
    }
    let lines = text::lines(stdout);
    assert(text::texts(lines@).len() == lines@.len());
    if lines.len() == 0 {
        return Err(text::concat("unreadable runtime probe output from ", target));
    }
    assert(text::texts(lines@)[0] == lines@[0]@);
    let kind = lines[0].as_str();
    if text::same(kind, "orcad") {
        return match line_at(&lines, 1) {
            Some(readiness) => Ok(ProbeResult::Orcad { readiness }),
            None => Err(three("orcad on ", target, " reported no readiness")),
        };
    }
    if text::same(kind, "app") {
        return match line_at(&lines, 1) {
            Some(metadata_path) => Ok(
                ProbeResult::App { metadata_path, dead_version: line_at(&lines, 2) },
            ),
            None => Err(text::concat("orca runtime metadata path missing on ", target)),
        };
    }
    if text::same(kind, "dead") {
        return match line_at(&lines, 1) {
            Some(version) => Ok(ProbeResult::Dead { version }),
            None => Err(three("orcad activation on ", target, " is unreadable")),
        };
    }
    if text::same(kind, "none") {
        return Ok(ProbeResult::NoInstall);
    }
    Err(text::concat("unreadable runtime probe output from ", target))
}

/// One thing that is done on the way to a runtime.
#[derive(Clone, Copy, Debug, PartialEq, Eq, Structural)]
pub enum SetupAction {
    Upload,
    Activate,
    EnsureNative,
    Relaunch,
    AwaitReadiness,
}

/// How a runtime is come by.
#[derive(Clone, Debug, PartialEq, Eq)]
pub enum SetupStep {
    /// It runs: this is what it said.
    Read { readiness: String },
    /// An application runs: pair with it.
    Adopt { metadata_path: String, dead_version: Option<String> },
    /// A version is installed: start it.
    Revive { version: String },
    /// Nothing is there: install it and start it.
    Bootstrap,
}

/// How a runtime is come by where there is no application to adopt: what is installed is started,
/// else it is installed.
pub fn without_application(dead_version: Option<String>) -> (r: SetupStep)
    ensures
        match dead_version {
            Some(version) => r == (SetupStep::Revive { version }),
            None => r is Bootstrap,
        },
{
    match dead_version {
        Some(version) => SetupStep::Revive { version },
        None => SetupStep::Bootstrap,
    }
}

/// How a runtime is come by on a host that was probed.
pub fn ensure_remote_runtime(probe: ProbeResult) -> (r: SetupStep)
    ensures
        match probe {
            ProbeResult::Orcad { readiness } => r == (SetupStep::Read { readiness }),
            ProbeResult::App { metadata_path, dead_version } => r == (SetupStep::Adopt {
                metadata_path,
                dead_version,
            }),
            ProbeResult::Dead { version } => r == (SetupStep::Revive { version }),
            ProbeResult::NoInstall => r is Bootstrap,
        },
{
    match probe {
        ProbeResult::Orcad { readiness } => SetupStep::Read { readiness },
        ProbeResult::App { metadata_path, dead_version } => SetupStep::Adopt {
            metadata_path,
            dead_version,
        },
        ProbeResult::Dead { version } => SetupStep::Revive { version },
        ProbeResult::NoInstall => SetupStep::Bootstrap,
    }
}

/// What is done, in order, to start a runtime that is installed, or to install it first.
pub fn setup_actions(installed: bool) -> (r: Vec<SetupAction>)
    ensures
        r@ == (if installed {
            seq![SetupAction::EnsureNative, SetupAction::Relaunch, SetupAction::AwaitReadiness]
        } else {
            seq![
                SetupAction::Upload,
                SetupAction::Activate,
                SetupAction::EnsureNative,
                SetupAction::Relaunch,
                SetupAction::AwaitReadiness,
            ]
        }),
{
    let mut out: Vec<SetupAction> = Vec::new();
    if !installed {
        out.push(SetupAction::Upload);
        out.push(SetupAction::Activate);
    }
    out.push(SetupAction::EnsureNative);
    out.push(SetupAction::Relaunch);
    out.push(SetupAction::AwaitReadiness);
    out
}

/// A path as a word for the remote shell: `~/` stands for the home directory there.
pub open spec fn remote_word(path: Seq<char>) -> Seq<char> {
    match text::after_prefix(path, "~/"@) {
        Some(rest) => "\"$HOME\"/"@ + shell::quoted(rest),
        None => shell::quoted(path),
    }
}

/// A path as a word for the remote shell.
pub fn remote_quote(path: &str) -> (r: String)
    ensures
        r@ == remote_word(path@),
{
    match text::strip_prefix(path, "~/") {
        Some(rest) => text::concat("\"$HOME\"/", shell_quote(rest.as_str()).as_str()),
        None => shell_quote(path),
    }
}

/// The paths as words for the remote shell, each with a blank behind it.
pub open spec fn remote_words(dirs: Seq<Seq<char>>) -> Seq<char>
    decreases dirs.len(),
{
    if dirs.len() == 0 {
        Seq::empty()
    } else {
        (remote_words(dirs.drop_last()) + remote_word(dirs.last())).push(' ')
    }
}

/// The directories in which an application may keep its data, as words for the remote shell: those that
/// are configured, then those of the systems.
pub fn data_dir_candidates(configured: &[String]) -> (r: String)
    ensures
        r@ == remote_words(text::texts(configured@))
            + "\"$HOME/Library/Application Support/orca\" \"${XDG_CONFIG_HOME:-$HOME/.config}/orca\""@,
{
    let ghost all = text::texts(configured@);
    let mut out = String::new();
    let mut i: usize = 0;
    assert(all.take(0) == Seq::<Seq<char>>::empty());
    while i < configured.len()
        invariant
            i <= configured@.len(),
            all == text::texts(configured@),
            out@ == remote_words(all.take(i as int)),
        decreases configured@.len() - i,
    {
        assert(all.take(i + 1).drop_last() == all.take(i as int));
        assert(all.take(i + 1).last() == configured@[i as int]@);
        out.push_str(remote_quote(configured[i].as_str()).as_str());
        out.push(' ');
        i += 1;
    }
    assert(all.take(i as int) == all);
    out.push_str(
        "\"$HOME/Library/Application Support/orca\" \"${XDG_CONFIG_HOME:-$HOME/.config}/orca\"",
    );
    out
}

/// The port of an endpoint: what follows its last colon.
pub open spec fn port_of(endpoint: Seq<char>) -> Option<nat> {
    let tail = match text::last_at(endpoint, seq![':'], endpoint.len() as int) {
        Some(at) => endpoint.skip(at + 1),
        None => endpoint,
    };
    text::bounded_number(tail, u16::MAX as nat)
}

/// The port of an endpoint.
pub fn endpoint_port(endpoint: &str) -> (r: Option<u16>)
    ensures
        match port_of(endpoint@) {
            Some(port) => r matches Some(p) && p == port,
            None => r is None,
        },
{
    let cs = text::chars_of(endpoint);
    let n: usize = cs.len();
    let colon: Vec<char> = vec![':'];
    assert(colon@ == seq![':']);
    let from: usize = match text::rfind(&cs, &colon) {
        Some(at) => at + 1,
        None => 0,
    };
    let tail = text::string_of(&cs, from, n);
    assert(endpoint@.skip(0) == endpoint@);
    assert(tail@ == endpoint@.skip(from as int));
    match text::parse_number(tail.as_str(), 65535) {
        Some(port) => Some(port as u16),
        None => None,
    }
}

/// What a [`RemoteRuntime`] says.
#[verifier::ext_equal]
pub struct RemoteModel {
    pub remote_port: nat,
    pub pairing_url: Seq<char>,
}

impl View for RemoteRuntime {
    type V = RemoteModel;

    open spec fn view(&self) -> RemoteModel {
        RemoteModel { remote_port: self.remote_port as nat, pairing_url: self.pairing_url@ }
    }
}

/// The runtime in the offer of an application.
pub open spec fn minted(target: Seq<char>, offer: JsonModel) -> Result<RemoteModel, Seq<char>> {
    match json::text_member(offer, "endpoint"@) {
        None => Err("pairing offer from "@ + target + " carries no endpoint"@),
        Some(endpoint) => match port_of(endpoint) {
            None => Err("unparseable orca endpoint "@ + endpoint + " on "@ + target),
            Some(remote_port) => match json::text_member(offer, "pairingUrl"@) {
                None => Err("pairing offer from "@ + target + " carries no pairing URL"@),
                Some(pairing_url) => Ok(RemoteModel { remote_port, pairing_url }),
            },
        },
    }
}

/// The runtime in the offer of an application.
pub fn minted_runtime(target: &str, offer: &Json) -> (r: Result<RemoteRuntime, String>)
    ensures
        match minted(target@, offer@) {
            Ok(m) => r matches Ok(x) && x@ == m,
            Err(e) => r matches Err(x) && x@ == e,
        },
{
    let endpoint = match offer.get_text("endpoint") {
        Some(endpoint) => endpoint,
        None => return Err(three("pairing offer from ", target, " carries no endpoint")),
    };
    let remote_port: u16 = match endpoint_port(endpoint.as_str()) {
        Some(port) => port,
        None => return Err(four("unparseable orca endpoint ", endpoint.as_str(), " on ", target)),
    };
    match offer.get_text("pairingUrl") {
        Some(pairing_url) => Ok(RemoteRuntime { remote_port, pairing_url }),
        None => Err(three("pairing offer from ", target, " carries no pairing URL")),
    }
}

/// The runtime in the offer that the script of [`adopt_script`] printed.
pub fn parse_minted_offer(target: &str, offer: &str) -> (r: Result<RemoteRuntime, String>)
    ensures
        match json::json_parsed(text::trimmed(offer@)) {
            Err(_) => r matches Err(x) && x@
                == "unreadable pairing response from the orca runtime on "@ + target@,
            Ok(value) => match minted(target@, value) {
                Ok(m) => r matches Ok(x) && x@ == m,
                Err(e) => r matches Err(x) && x@ == e,
            },
        },
{
    match Json::read(text::trim(offer).as_str()) {
        Err(_) => Err(
            text::concat("unreadable pairing response from the orca runtime on ", target),
        ),
        Ok(value) => minted_runtime(target, &value),
    }
}

/// The runtime in what an orcad said once it was ready.
pub open spec fn ready(target: Seq<char>, readiness: JsonModel) -> Result<RemoteModel, Seq<char>> {
    match json::text_member(readiness, "boundEndpoint"@) {
        None => Err("orcad on "@ + target + " reported no bound endpoint"@),
        Some(bound) => match port_of(bound) {
            None => Err("unparseable orcad endpoint "@ + bound + " on "@ + target),
            Some(remote_port) => match json::text_in(
                json::member_at(readiness, seq!["pairing"@, "url"@]),
            ) {
                Some(pairing_url) => Ok(RemoteModel { remote_port, pairing_url }),
                None => Err(
                    "orcad on "@ + target + ": "@ + client::text_or(
                        json::text_in(json::member_at(readiness, seq!["pairing"@, "guidance"@])),
                        "pairing unavailable"@,
                    ),
                ),
            },
        },
    }
}

fn nested_text(value: &Json, outer: &str, inner: &str) -> (r: Option<String>)
    ensures
        text::opt_text(r) == json::text_in(json::member_at(value@, seq![outer@, inner@])),
{
    match envelope::nested(value, outer, inner) {
        Some(j) => match j.as_text() {
            Some(s) => Some(s.to_owned()),
            None => None,
        },
        None => None,
    }
}

/// The runtime in what an orcad said once it was ready.
pub fn ready_runtime(target: &str, readiness: &Json) -> (r: Result<RemoteRuntime, String>)
    ensures
        match ready(target@, readiness@) {
            Ok(m) => r matches Ok(x) && x@ == m,
            Err(e) => r matches Err(x) && x@ == e,
        },
{
    let bound = match readiness.get_text("boundEndpoint") {
        Some(bound) => bound,
        None => return Err(three("orcad on ", target, " reported no bound endpoint")),
    };
    let remote_port: u16 = match endpoint_port(bound.as_str()) {
        Some(port) => port,
        None => return Err(four("unparseable orcad endpoint ", bound.as_str(), " on ", target)),
    };
    match nested_text(readiness, "pairing", "url") {
        Some(pairing_url) => Ok(RemoteRuntime { remote_port, pairing_url }),
        None => {
            let guidance = match nested_text(readiness, "pairing", "guidance") {
                Some(guidance) => guidance,
                None => "pairing unavailable".to_owned(),
            };
            Err(four("orcad on ", target, ": ", guidance.as_str()))
        },
    }
}

/// The runtime in the line that an orcad printed once it was ready.
pub fn parse_readiness(target: &str, line: &str) -> (r: Result<RemoteRuntime, String>)
    ensures
        match json::json_parsed(text::trimmed(line@)) {
            Err(_) => r matches Err(x) && x@ == "orcad on "@ + target@
                + " produced unreadable readiness output"@,
            Ok(value) => match ready(target@, value) {
                Ok(m) => r matches Ok(x) && x@ == m,
                Err(e) => r matches Err(x) && x@ == e,
            },
        },
{
    match Json::read(text::trim(line).as_str()) {
        Err(_) => Err(three("orcad on ", target, " produced unreadable readiness output")),
        Ok(value) => ready_runtime(target, &value),
    }
}

/// How often an orcad that was started is asked whether it is ready.
pub const READINESS_ATTEMPTS: u32 = 20;

/// What is done after an orcad was asked whether it is ready.
#[derive(Clone, Debug, PartialEq, Eq)]
pub enum ReadinessStep {
    Ready { line: String },
    AskAgain,
    GiveUp { message: String },
}

/// What is done after an orcad was asked for the `attempt`th time whether it is ready: it is where it
/// printed JSON, and it is asked a limited number of times.
pub fn await_readiness(
    target: &str,
    version: &str,
    attempt: u32,
    success: bool,
    stdout: &str,
) -> (r: ReadinessStep)
    ensures
        if success && text::trimmed(stdout@).len() > 0 && json::json_parsed(
            text::trimmed(stdout@),
        ) is Ok {
            r matches ReadinessStep::Ready { line } && line@ == text::trimmed(stdout@)
        } else if attempt < READINESS_ATTEMPTS {
            r is AskAgain
        } else {
            r matches ReadinessStep::GiveUp { message } && message@ == "orcad on "@ + target@
                + " did not become ready; see ~/.orca-remote/orcad-"@ + version@ + "/orcad.log"@
        },
{
    if success {
        let line = text::trim(stdout);
        if !line.as_str().is_empty() && Json::read(line.as_str()).is_ok() {
            return ReadinessStep::Ready { line };
        }
    }
    if attempt < READINESS_ATTEMPTS {
        return ReadinessStep::AskAgain;
    }
    let mut message = four(
        "orcad on ",
        target,
        " did not become ready; see ~/.orca-remote/orcad-",
        version,
    );
    message.push_str("/orcad.log");
    ReadinessStep::GiveUp { message }
}

/// A path with `~/` as the home directory, where that is known.
pub open spec fn home_expanded(path: Seq<char>, home: Option<Seq<char>>) -> Seq<char> {
    match (text::after_prefix(path, "~/"@), home) {
        (Some(rest), Some(home)) => home.push('/') + rest,
        _ => path,
    }
}

/// A path with `~/` as the home directory, where that is known.
pub fn shellexpand_home(path: &str, home: Option<&str>) -> (r: String)
    ensures
        r@ == home_expanded(path@, local_runtime::opt_str(home)),
{
    match text::strip_prefix(path, "~/") {
        Some(rest) => match home {
            Some(home) => {
                let mut out = home.to_owned();
                out.push('/');
                out.push_str(rest.as_str());
                out
            },
            None => path.to_owned(),
        },
        None => path.to_owned(),
    }
}

/// The directory that orcad is installed from, where one is configured.
pub fn artifact_dir(configured: Option<&str>, home: Option<&str>) -> (r: Result<String, String>)
    ensures
        match configured {
            Some(dir) => if dir@.len() > 0 {
                r matches Ok(d) && d@ == home_expanded(dir@, local_runtime::opt_str(home))
            } else {
                r is Err
            },
            None => r is Err,
        },
        r matches Err(e) ==> e@
            == "no orcad install on the host and no artifact source configured; set orca_orcad_dir to a directory containing orcad.js (e.g. an orca checkout's out/orcad)"@,
{
    if let Some(dir) = configured {
        if !dir.is_empty() {
            return Ok(shellexpand_home(dir, home));
        }
    }
    Err(
        "no orcad install on the host and no artifact source configured; set orca_orcad_dir to a directory containing orcad.js (e.g. an orca checkout's out/orcad)".to_owned(),
    )
}

/// The names of the files that orcad consists of.
pub open spec fn artifact_names() -> Seq<Seq<char>> {
    seq!["orcad.js"@, "daemon-entry.js"@, "parcel-watcher-process-entry.js"@]
}

/// The files that orcad consists of, in the directory.
pub fn artifact_paths(dir: &str) -> (r: Vec<String>)
    ensures
        text::texts(r@) == seq![
            local_runtime::joined(dir@, artifact_names()[0]),
            local_runtime::joined(dir@, artifact_names()[1]),
            local_runtime::joined(dir@, artifact_names()[2]),
        ],
{
    let mut out: Vec<String> = Vec::new();
    text::push_text(&mut out, join_path(dir, "orcad.js").as_str());
    text::push_text(&mut out, join_path(dir, "daemon-entry.js").as_str());
    text::push_text(&mut out, join_path(dir, "parcel-watcher-process-entry.js").as_str());
    assert(text::texts(out@) == seq![
        local_runtime::joined(dir@, artifact_names()[0]),
        local_runtime::joined(dir@, artifact_names()[1]),
        local_runtime::joined(dir@, artifact_names()[2]),
    ]);
    out
}

/// The directory that orcad is installed from, when each of its files is there or not as `present` says;
/// the first that is missing is the error.
pub fn resolve_artifacts(dir: &str, present: [bool; 3]) -> (r: Result<String, String>)
    ensures
        if !present[0] {
            r matches Err(e) && e@ == "orca_orcad_dir "@ + dir@ + " is missing "@
                + artifact_names()[0]
        } else if !present[1] {
            r matches Err(e) && e@ == "orca_orcad_dir "@ + dir@ + " is missing "@
                + artifact_names()[1]
        } else if !present[2] {
            r matches Err(e) && e@ == "orca_orcad_dir "@ + dir@ + " is missing "@
                + artifact_names()[2]
        } else {
            r matches Ok(d) && d@ == dir@
        },
{
    if !present[0] {
        return Err(four("orca_orcad_dir ", dir, " is missing ", "orcad.js"));
    }
    if !present[1] {
        return Err(four("orca_orcad_dir ", dir, " is missing ", "daemon-entry.js"));
    }
    if !present[2] {
        return Err(four("orca_orcad_dir ", dir, " is missing ", "parcel-watcher-process-entry.js"));
    }
    Ok(dir.to_owned())
}

/// The places where the terminal library of orcad may be.
pub fn node_pty_candidates(artifacts: &str) -> (r: (String, String))
    ensures
        r.0@ == local_runtime::joined(artifacts@, "node_modules/node-pty"@),
        r.1@ == local_runtime::joined(artifacts@, "../../node_modules/node-pty"@),
{
    (
        join_path(artifacts, "node_modules/node-pty"),
        join_path(artifacts, "../../node_modules/node-pty"),
    )
}

/// The terminal library of orcad: the first of its places that has it.
pub fn resolve_node_pty(artifacts: &str, inside: bool, beside: bool) -> (r: Result<String, String>)
    ensures
        if inside {
            r matches Ok(d) && d@ == local_runtime::joined(artifacts@, "node_modules/node-pty"@)
        } else if beside {
            r matches Ok(d) && d@ == local_runtime::joined(
                artifacts@,
                "../../node_modules/node-pty"@,
            )
        } else {
            r matches Err(e) && e@ == "node-pty package not found near "@ + artifacts@
                + "; orcad needs it for remote PTYs"@
        },
{
    let (first, second) = node_pty_candidates(artifacts);
    if inside {
        return Ok(first);
    }
    if beside {
        return Ok(second);
    }
    Err(
        three(
            "node-pty package not found near ",
            artifacts,
            "; orcad needs it for remote PTYs",
        ),
    )
}

/// The directory that the terminal library is packed from, where its path has a parent.
pub fn packing_directory(parent: Option<String>) -> (r: Result<String, String>)
    ensures
        match text::opt_text(parent) {
            Some(dir) => r matches Ok(d) && d@ == dir,
            None => r matches Err(e) && e@ == "node-pty path has no parent"@,
        },
{
    match parent {
        Some(dir) => Ok(dir),
        None => Err("node-pty path has no parent".to_owned()),
    }
}

/// The directory that the terminal library at a path is packed from.
pub fn node_pty_parent(node_pty: &str) -> (r: Result<String, String>)
    ensures
        match transport::path_parent(node_pty@) {
            Some(dir) => r matches Ok(d) && d@ == dir,
            None => r matches Err(e) && e@ == "node-pty path has no parent"@,
        },
{
    packing_directory(transport::parent_path(node_pty))
}

/// The SHA-256 digest that `sha2` computes.
pub uninterp spec fn sha256(data: Seq<u8>) -> Seq<u8>;

/// `sha2::Sha256::digest`, which is 32 bytes long.
#[verifier::external_body]
fn sha256_digest(data: &[u8]) -> (r: Vec<u8>)
    ensures
        r@ == sha256(data@),
        r@.len() == 32,
{
    <sha2::Sha256 as sha2::Digest>::digest(data).to_vec()
}

/// A number below 16 as a hexadecimal digit.
pub open spec fn hex_digit(n: u8) -> char {
    if n < 10 {
        (48 + n) as char
    } else {
        (87 + n) as char
    }
}

/// The first `n` bytes in hexadecimal.
pub open spec fn hex_of(data: Seq<u8>, n: int) -> Seq<char>
    decreases n,
{
    if n <= 0 {
        Seq::empty()
    } else {
        hex_of(data, n - 1).push(hex_digit((data[n - 1] / 16) as u8)).push(
            hex_digit((data[n - 1] % 16) as u8),
        )
    }
}

fn hex_char(n: u8) -> (r: char)
    requires
        n < 16,
    ensures
        r == hex_digit(n),
{
    if n < 10 {
        (48 + n) as char
    } else {
        (87 + n) as char
    }
}

/// The version of an orcad with the given digest: the first six bytes in hexadecimal.
pub fn version_of_digest(digest: &[u8]) -> (r: String)
    requires
        digest@.len() >= 6,
    ensures
        r@ == "0.0.0+"@ + hex_of(digest@, 6),
{
    let mut out = "0.0.0+".to_owned();
    let ghost head = out@;
    let mut i: usize = 0;
    assert(head + hex_of(digest@, 0) == head);
    while i < 6
        invariant
            i <= 6,
            digest@.len() >= 6,
            out@ == head + hex_of(digest@, i as int),
        decreases 6 - i,
    {
        let byte: u8 = digest[i];
        let ghost before = out@;
        out.push(hex_char(byte / 16));
        out.push(hex_char(byte % 16));
        assert(out@ == head + hex_of(digest@, i + 1));
        i += 1;
    }
    out
}

/// The version of an orcad, from the bytes of its main file.
pub fn artifact_version(bundle: &[u8]) -> (r: String)
    ensures
        r@ == "0.0.0+"@ + hex_of(sha256(bundle@), 6),
{
    let digest = sha256_digest(bundle);
    version_of_digest(&digest)
}

/// What a probe of a host prints is read by its first line: a runtime with what it reports, an
/// application with the path of its metadata and the version of a dead runtime beside it, a dead
/// runtime with its version, or nothing.
pub proof fn probes_are_read(target: Seq<char>, first: Seq<char>, more: Seq<Seq<char>>)
    requires
        first.len() > 0,
    ensures
        probed(target, seq!["orcad"@, first] + more) == Ok::<ProbeModel, Seq<char>>(
            ProbeModel::Orcad { readiness: first },
        ),
        probed(target, seq!["app"@, first] + more) == Ok::<ProbeModel, Seq<char>>(
            ProbeModel::App {
                metadata_path: first,
                dead_version: if more.len() > 0 && more[0].len() > 0 {
                    Some(more[0])
                } else {
                    None
                },
            },
        ),
        probed(target, seq!["dead"@, first] + more) == Ok::<ProbeModel, Seq<char>>(
            ProbeModel::Dead { version: first },
        ),
        probed(target, seq!["none"@] + more) == Ok::<ProbeModel, Seq<char>>(ProbeModel::NoInstall),
        first != "orcad"@ && first != "app"@ && first != "dead"@ && first != "none"@ ==> probed(
            target,
            seq![first] + more,
        ) is Err,
        probed(target, Seq::empty()) is Err,
        probed(target, seq!["orcad"@]) is Err && probed(target, seq!["app"@]) is Err && probed(
            target,
            seq!["dead"@],
        ) is Err,
{
    reveal_strlit("orcad");
    reveal_strlit("app");
    reveal_strlit("dead");
    reveal_strlit("none");
    assert("dead"@[0] == 'd' && "none"@[0] == 'n');
    assert("orcad"@.len() == 5 && "app"@.len() == 3 && "dead"@.len() == 4 && "none"@.len() == 4);
    assert((seq!["app"@, first] + more).len() == 2 + more.len());
    if more.len() > 0 {
        assert((seq!["app"@, first] + more)[2] == more[0]);
    }
    assert((seq!["none"@] + more)[0] == "none"@);
    assert((seq![first] + more)[0] == first);
}

/// A path below the home directory is written so that the host puts its home directory there, and
/// otherwise as it is; either way the rest of it is quoted.
pub proof fn remote_paths_are_quoted(path: Seq<char>, rest: Seq<char>)
    ensures
        remote_word("~/"@ + rest) == "\"$HOME\"/"@ + shell::quoted(rest),
        !text::is_prefix(path, "~/"@) ==> remote_word(path) == shell::quoted(path),
{
    text::prefixes_are_taken_off("~/"@ + rest, "~/"@, rest);
}

/// Directories are listed one after the other, each with a blank behind it.
pub proof fn remote_directories_are_listed(a: Seq<Seq<char>>, b: Seq<Seq<char>>, dir: Seq<char>)
    ensures
        remote_words(a + b) == remote_words(a) + remote_words(b),
        remote_words(seq![dir]) == remote_word(dir) + seq![' '],
    decreases b.len(),
{
    assert(seq![dir].drop_last() == Seq::<Seq<char>>::empty());
    reveal_with_fuel(remote_words, 2);
    assert(Seq::<char>::empty() + remote_word(dir) == remote_word(dir));
    assert(remote_word(dir).push(' ') == remote_word(dir) + seq![' ']);
    if b.len() == 0 {
        assert(a + b == a);
        assert(remote_words(a) + Seq::<char>::empty() == remote_words(a));
    } else {
        remote_directories_are_listed(a, b.drop_last(), dir);
        assert((a + b).drop_last() == a + b.drop_last());
        assert((a + b).last() == b.last());
        let w = remote_word(b.last());
        assert(remote_words(a) + (remote_words(b.drop_last()) + w).push(' ') == (remote_words(a)
            + remote_words(b.drop_last()) + w).push(' '));
    }
}

/// The port of an endpoint is the number behind its last colon, where it is one of sixteen bits.
pub proof fn ports_stand_behind_the_last_colon(head: Seq<char>, tail: Seq<char>, port: u16, big: nat)
    requires
        !tail.contains(':'),
        big > 0xffff,
    ensures
        port_of(head + seq![':'] + tail) == text::bounded_number(tail, 0xffff),
        port_of(head + seq![':'] + text::decimal(port as nat)) == Some(port as nat),
        port_of(head + seq![':'] + text::decimal(big)) is None,
{
    lemma_port_of(head, tail);
    text::decimal_reads_back(port as nat);
    text::decimal_reads_back(big);
    let a = text::decimal(port as nat);
    let b = text::decimal(big);
    assert(!a.contains(':')) by {
        if a.contains(':') {
            let i = choose|i: int| 0 <= i < a.len() && a[i] == ':';
            assert(text::is_digit(a[i]));
        }
    }
    assert(!b.contains(':')) by {
        if b.contains(':') {
            let i = choose|i: int| 0 <= i < b.len() && b[i] == ':';
            assert(text::is_digit(b[i]));
        }
    }
    lemma_port_of(head, a);
    lemma_port_of(head, b);
}

proof fn lemma_port_of(head: Seq<char>, tail: Seq<char>)
    requires
        !tail.contains(':'),
    ensures
        port_of(head + seq![':'] + tail) == text::bounded_number(tail, 0xffff),
{
    let whole = head + seq![':'] + tail;
    let at = head.len() as int;
    assert(text::is_at(whole, seq![':'], at)) by {
        assert(whole.subrange(at, at + 1) == seq![':']);
    }
    assert forall|j: int| at < j implies !text::is_at(whole, seq![':'], j) by {
        if text::is_at(whole, seq![':'], j) {
            assert(whole.subrange(j, j + 1)[0] == whole[j]);
            assert(whole[j] == tail[j - at - 1]);
            assert(tail.contains(':'));
        }
    }
    lemma_last_is(whole, seq![':'], whole.len() as int, at);
    assert(whole.skip(at + 1) == tail);
}

proof fn lemma_last_is(s: Seq<char>, p: Seq<char>, from: int, at: int)
    requires
        0 <= at <= from,
        text::is_at(s, p, at),
        forall|j: int| at < j ==> !text::is_at(s, p, j),
    ensures
        text::last_at(s, p, from) == Some(at),
    decreases from - at,
{
    if from > at {
        assert(!text::is_at(s, p, from));
        lemma_last_is(s, p, from - 1, at);
    }
}

/// An offer gives the port of its endpoint and its pairing link, and is refused where one of them is
/// missing.
pub proof fn offers_are_read(
    target: Seq<char>,
    offer: JsonModel,
    endpoint: Seq<char>,
    link: Seq<char>,
    port: nat,
)
    ensures
        json::member(offer, "endpoint"@) == Some(JsonModel::Text(endpoint)) && port_of(endpoint)
            == Some(port) && json::member(offer, "pairingUrl"@) == Some(JsonModel::Text(link))
            ==> minted(target, offer) == Ok::<RemoteModel, Seq<char>>(
            RemoteModel { remote_port: port, pairing_url: link },
        ),
        !(json::member(offer, "endpoint"@) matches Some(JsonModel::Text(_))) ==> minted(
            target,
            offer,
        ) is Err,
        json::member(offer, "endpoint"@) == Some(JsonModel::Text(endpoint)) && port_of(endpoint)
            is None ==> minted(target, offer) is Err,
        !(json::member(offer, "pairingUrl"@) matches Some(JsonModel::Text(_))) ==> minted(
            target,
            offer,
        ) is Err,
{
}

/// A runtime that is ready gives the port that it is bound to and its pairing link. Without a link it
/// is refused with the guidance that it gives.
pub proof fn readiness_is_read(
    target: Seq<char>,
    readiness: JsonModel,
    bound: Seq<char>,
    pairing: JsonModel,
    said: Seq<char>,
    port: nat,
)
    requires
        json::member(readiness, "boundEndpoint"@) == Some(JsonModel::Text(bound)),
        port_of(bound) == Some(port),
        json::member(readiness, "pairing"@) == Some(pairing),
    ensures
        json::member(pairing, "url"@) == Some(JsonModel::Text(said)) ==> ready(target, readiness)
            == Ok::<RemoteModel, Seq<char>>(RemoteModel { remote_port: port, pairing_url: said }),
        !(json::member(pairing, "url"@) matches Some(JsonModel::Text(_))) && json::member(
            pairing,
            "guidance"@,
        ) == Some(JsonModel::Text(said)) ==> ready(target, readiness) == Err::<
            RemoteModel,
            Seq<char>,
        >("orcad on "@ + target + ": "@ + said),
        !(json::member(pairing, "url"@) matches Some(JsonModel::Text(_))) && !(json::member(
            pairing,
            "guidance"@,
        ) matches Some(JsonModel::Text(_))) ==> ready(target, readiness) == Err::<
            RemoteModel,
            Seq<char>,
        >("orcad on "@ + target + ": "@ + "pairing unavailable"@),
{
    let one = seq!["pairing"@, "url"@];
    let two = seq!["pairing"@, "guidance"@];
    assert(one.drop_last() == seq!["pairing"@]);
    assert(two.drop_last() == seq!["pairing"@]);
    assert(seq!["pairing"@].drop_last() == Seq::<Seq<char>>::empty());
    reveal_with_fuel(json::member_at, 3);
}

/// A path below the home directory goes on from that directory, where it is known; any other path is
/// left as it is.
pub proof fn home_is_expanded(path: Seq<char>, rest: Seq<char>, home: Seq<char>)
    ensures
        home_expanded("~/"@ + rest, Some(home)) == home + seq!['/'] + rest,
        home_expanded(path, None) == path,
        !text::is_prefix(path, "~/"@) ==> home_expanded(path, Some(home)) == path,
{
    text::prefixes_are_taken_off("~/"@ + rest, "~/"@, rest);
    assert(home.push('/') == home + seq!['/']);
}

/// The number that a hexadecimal digit stands for.
pub open spec fn hex_value(c: char) -> int {
    if '0' <= c <= '9' {
        c as int - '0' as int
    } else {
        c as int - 'a' as int + 10
    }
}

/// Bytes are written as two hexadecimal digits each, the greater one first, in lower case.
pub proof fn bytes_are_written_in_hex(data: Seq<u8>, n: int, i: int)
    requires
        0 <= i < n <= data.len(),
    ensures
        hex_of(data, n).len() == 2 * n,
        ({
            let a = hex_of(data, n)[2 * i];
            let b = hex_of(data, n)[2 * i + 1];
            &&& hex_value(a) * 16 + hex_value(b) == data[i]
            &&& ('0' <= a <= '9' || 'a' <= a <= 'f') && ('0' <= b <= '9' || 'a' <= b <= 'f')
        }),
    decreases n,
{
    lemma_hex_len(data, n);
    lemma_hex_len(data, n - 1);
    if i < n - 1 {
        bytes_are_written_in_hex(data, n - 1, i);
    } else {
        let x = data[n - 1];
        assert(x / 16 < 16 && x % 16 < 16);
    }
}

proof fn lemma_hex_len(data: Seq<u8>, n: int)
    requires
        0 <= n,
    ensures
        hex_of(data, n).len() == 2 * n,
    decreases n,
{
    if n > 0 {
        lemma_hex_len(data, n - 1);
    }
}

/// A runtime that is bound nowhere, or to no port, is refused, and so is one that says nothing of
/// pairing.
pub proof fn unbound_runtimes_are_refused(
    target: Seq<char>,
    readiness: JsonModel,
    bound: Seq<char>,
)
    ensures
        !(json::member(readiness, "boundEndpoint"@) matches Some(JsonModel::Text(_))) ==> ready(
            target,
            readiness,
        ) is Err,
        json::member(readiness, "boundEndpoint"@) == Some(JsonModel::Text(bound)) && port_of(bound)
            is None ==> ready(target, readiness) is Err,
        json::member(readiness, "pairing"@) is None ==> ready(target, readiness) is Err,
{
    let one = seq!["pairing"@, "url"@];
    assert(one.drop_last() == seq!["pairing"@]);
    assert(seq!["pairing"@].drop_last() == Seq::<Seq<char>>::empty());
    reveal_with_fuel(json::member_at, 3);
}

/// An endpoint without a colon is a port where it is a number of sixteen bits.
pub proof fn ports_may_stand_alone(s: Seq<char>)
    requires
        !s.contains(':'),
    ensures
        port_of(s) == text::bounded_number(s, 0xffff),
{
    assert forall|j: int| !text::is_at(s, seq![':'], j) by {
        if text::is_at(s, seq![':'], j) {
            assert(s.subrange(j, j + 1)[0] == s[j]);
            assert(s.contains(':'));
        }
    }
    lemma_never_at(s, seq![':'], s.len() as int);
}

proof fn lemma_never_at(s: Seq<char>, p: Seq<char>, from: int)
    requires
        forall|j: int| !text::is_at(s, p, j),
    ensures
        text::last_at(s, p, from) is None,
    decreases from + 1,
{
    if from >= 0 {
        lemma_never_at(s, p, from - 1);
    }
}

/// A probe that names nothing behind its first line is not understood.
pub proof fn empty_probes_are_refused(target: Seq<char>, more: Seq<Seq<char>>)
    ensures
        probed(target, seq!["orcad"@, Seq::empty()] + more) is Err,
        probed(target, seq!["app"@, Seq::empty()] + more) is Err,
        probed(target, seq!["dead"@, Seq::empty()] + more) is Err,
{
    reveal_strlit("orcad");
    reveal_strlit("app");
    reveal_strlit("dead");
    reveal_strlit("none");
    assert("dead"@[0] == 'd' && "none"@[0] == 'n');
    assert("orcad"@.len() == 5 && "app"@.len() == 3 && "dead"@.len() == 4 && "none"@.len() == 4);
    let none = Seq::<char>::empty();
    assert((seq!["orcad"@, none] + more)[1] == none && (seq!["orcad"@, none] + more)[0] == "orcad"@);
    assert((seq!["app"@, none] + more)[1] == none && (seq!["app"@, none] + more)[0] == "app"@);
    assert((seq!["dead"@, none] + more)[1] == none && (seq!["dead"@, none] + more)[0] == "dead"@);
}

} // verus!
