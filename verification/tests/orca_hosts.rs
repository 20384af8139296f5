use agent_mux::json::Json;
use agent_mux::orca_mux::local_runtime::{
    agents_in, answer_of, runtime_metadata_path, ssh_state_in, ssh_targets_in, worktrees_in,
    LocalRuntime, Reply, ReplyReader,
};
use agent_mux::orca_mux::pane::{
    find_handle, DeadAction, OrcaTerminalPane, PaneAction, TerminalBinding, TerminalStreamEvent,
    TerminalSummary,
};
use agent_mux::orca_mux::relay::frame::{Frame, FrameType};
use agent_mux::orca_mux::relay::protocol::{
    ack_data, open_client_params, processes, pty_size, result_of, spawn_params, spawned_id,
    Notification, RelayAction, RelayConnection, DEFAULT_WINDOW_SU,
};
use agent_mux::orca_mux::relay::transport::{
    connect_script, discover_all_daemons, discover_daemon, parent_path, ssh_command,
    SentinelScanner,
};
use agent_mux::orca_mux::relay_backend::{attached_size, split_cwd, RelayBackend};
use agent_mux::orca_mux::relay_pane::{current_directory, EndAction, OutputAction, RelayPane};
use agent_mux::orca_mux::ssh::{
    activate_script, activation_record, adopt_script, artifact_dir, artifact_paths,
    artifact_version, await_readiness, data_dir_candidates, endpoint_port, ensure_remote_runtime,
    has_live_relay, node_pty_candidates, node_pty_parent, packing_directory, pairing_failure,
    parse_minted_offer, parse_readiness, prebuilds_pipeline, probe, probe_script, readiness_script,
    relaunch_script, remote_quote, resolve_artifacts, resolve_node_pty, setup_actions,
    shellexpand_home, ssh_failure, upload_failure, upload_pipeline, without_application,
    ProbeResult, ReadinessStep, SetupAction, SetupStep,
};
use agent_mux::order::{comes_before, sorted_order};
use agent_mux::shell::command_line;

fn json(text: &str) -> Json {
    Json::read(text).expect("valid JSON")
}

fn words(items: &[&str]) -> Vec<String> {
    items.iter().map(|s| s.to_string()).collect()
}

#[test]
fn requests_carry_numbers_and_acknowledgements() {
    let mut connection = RelayConnection::new();
    let frame = connection.request("pty.attach", json(r#"{"id":"p"}"#));
    assert_eq!(frame.kind, FrameType::Regular);
    assert_eq!((frame.id, frame.ack), (1, 0));
    let sent = Json::read_bytes(&frame.payload).unwrap();
    assert_eq!(sent.get_text("method").unwrap(), "pty.attach");
    assert_eq!(sent.get_text("jsonrpc").unwrap(), "2.0");
    assert_eq!(sent.get("id").unwrap().as_count(), Some(1));

    let keepalive = connection.keepalive();
    assert_eq!(keepalive.kind, FrameType::KeepAlive);
    assert_eq!((keepalive.id, keepalive.ack), (2, 0));

    let answer = Frame::new(FrameType::Regular, 9, 0, br#"{"id":1,"result":{"x":1}}"#.to_vec());
    match connection.receive(&answer) {
        RelayAction::Respond { id, response } => {
            assert_eq!(id, 1);
            assert_eq!(
                result_of("pty.attach", &response).unwrap(),
                json(r#"{"x":1}"#)
            );
        }
        _ => panic!("expected an answer"),
    }
    assert!(matches!(connection.receive(&answer), RelayAction::Nothing));
    assert_eq!(connection.notify("pty.data", json("{}")).ack, 9);
}

#[test]
fn notifications_find_their_pane() {
    let mut connection = RelayConnection::new();
    let data = Frame::new(
        FrameType::Regular,
        1,
        0,
        br#"{"method":"pty.data","params":{"id":"p","data":"x"}}"#.to_vec(),
    );
    assert!(matches!(connection.receive(&data), RelayAction::Notify { .. }));
    connection.route_pty("p");
    match connection.receive(&data) {
        RelayAction::Route { pty_id, notification } => {
            assert_eq!(pty_id, "p");
            assert_eq!(notification.method, "pty.data");
        }
        _ => panic!("expected a route"),
    }
    connection.unroute_pty("p");
    assert!(matches!(connection.receive(&data), RelayAction::Notify { .. }));
    assert!(!connection.is_closed());
    connection.close();
    assert!(connection.is_closed());
}

#[test]
fn relay_answers_are_read() {
    let failed = result_of("pty.spawn", &json(r#"{"error":{"code":1}}"#)).unwrap_err();
    assert_eq!(failed, r#"relay pty.spawn failed: {"code":1}"#);
    assert_eq!(result_of("m", &json("{}")).unwrap(), Json::Null);
    assert_eq!(spawned_id(&json(r#"{"id":"pty-3"}"#)).unwrap(), "pty-3");
    assert_eq!(
        spawned_id(&json("{}")).unwrap_err(),
        "pty.spawn returned no id"
    );
    assert_eq!(pty_size(&json(r#"{"cols":80,"rows":24}"#)), Some((80, 24)));
    assert_eq!(pty_size(&json(r#"{"cols":65537,"rows":24}"#)), Some((1, 24)));
    assert_eq!(pty_size(&json(r#"{"cols":80}"#)), None);
    assert_eq!(processes(&json(r#"[{"id":"a"}]"#)).len(), 1);
    assert!(processes(&json("{}")).is_empty());
    let open = open_client_params("subscriber", DEFAULT_WINDOW_SU);
    assert_eq!(open.get_text("requestedRole").unwrap(), "subscriber");
    assert_eq!(
        spawn_params(80, 24, Some("/w")).get_text("cwd"),
        Some("/w".to_string())
    );
    assert_eq!(spawn_params(80, 24, None).get_text("cwd"), None);
    let ack = ack_data("p", &json(r#"{"sourceEndSu":7,"deliveryToken":"t"}"#)).unwrap();
    assert_eq!(ack.get("creditedEndSu").unwrap().as_count(), Some(7));
    assert_eq!(ack.get_text("deliveryToken").unwrap(), "t");
    assert_eq!(ack.get("ownerGeneration"), Some(&Json::Null));
    assert!(ack_data("p", &json("{}")).is_none());
}

#[test]
fn relays_are_discovered() {
    let daemons = discover_all_daemons("/h/.orca-remote/relay-1/relay-a.sock\n\n/b.sock\n");
    assert_eq!(daemons.len(), 2);
    assert_eq!(daemons[0].dir, "/h/.orca-remote/relay-1/");
    assert_eq!(daemons[0].sock, "/h/.orca-remote/relay-1/relay-a.sock");
    assert_eq!(
        daemons[0].credential,
        "/h/.orca-remote/relay-1/relay-a.sock.credential"
    );
    assert_eq!(daemons[1].dir, "//");

    let daemon = discover_daemon("box", "/d/\n/d/s.sock\n/d/s.sock.credential\n").unwrap();
    assert_eq!(daemon.dir, "/d/");
    assert!(connect_script(&daemon).ends_with(
        "cd '/d/' && exec \"$node_bin\" relay.js --connect --sock-path '/d/s.sock' --credential-file '/d/s.sock.credential'"
    ));
    assert_eq!(
        discover_daemon("box", "NO_RELAY\n").err().unwrap(),
        "no orca relay is installed on box"
    );
    assert_eq!(
        discover_daemon("box", "NO_SOCK\n").err().unwrap(),
        "no live relay daemon socket found on box"
    );
    assert_eq!(
        discover_daemon("box", "").err().unwrap(),
        "relay discovery on box produced no output"
    );
    assert_eq!(
        discover_daemon("box", "/d/\n").err().unwrap(),
        "relay discovery on box returned no socket"
    );
    assert_eq!(
        discover_daemon("box", "/d/\n/s\n").err().unwrap(),
        "relay discovery on box returned no credential"
    );
    let command = ssh_command("box", "echo 'hi'");
    assert_eq!(command.program, "ssh");
    assert_eq!(
        command.args,
        vec![
            "-oBatchMode=yes",
            "-oConnectTimeout=10",
            "box",
            r"sh -c 'echo '\''hi'\'''"
        ]
    );
}

#[test]
fn the_sentinel_is_found_behind_noise() {
    let mut scanner = SentinelScanner::new();
    let mut found = 0;
    for byte in b"motd: ORCA-RELAY v0.1.0 ORCA-RELAY v0.1.0 READY\n" {
        if scanner.push(*byte) {
            found += 1;
        }
    }
    assert_eq!(found, 1);
    let mut other = SentinelScanner::new();
    let mut hits = 0;
    for _ in 0..200 {
        if other.push(b'x') {
            hits += 1;
        }
    }
    for byte in b"ORCA-RELAY v0.1.0 READY\n" {
        if other.push(*byte) {
            hits += 1;
        }
    }
    assert_eq!(hits, 1);
}

#[test]
fn the_local_runtime_is_discovered() {
    let metadata = br#"{"authToken":"secret","runtimeId":"r1","transports":[{"kind":"websocket","endpoint":"ws://x"},{"kind":"unix","endpoint":"/tmp/orca.sock"}]}"#;
    let runtime = LocalRuntime::discover(metadata).unwrap();
    assert_eq!(runtime.endpoint(), "/tmp/orca.sock");
    assert_eq!(runtime.runtime_id(), "r1");
    let line = runtime.request_line(runtime.create_terminal("w"));
    assert!(line.ends_with('\n'));
    let sent = json(line.trim_end());
    assert_eq!(sent.get_text("id").unwrap(), "wezterm");
    assert_eq!(sent.get_text("method").unwrap(), "session.tabs.createTerminal");
    assert_eq!(sent.get_text("authToken").unwrap(), "secret");
    assert_eq!(
        sent.get("params").unwrap().get_text("worktree").unwrap(),
        "w"
    );
    assert!(LocalRuntime::discover(b"{}").is_none());
    assert!(LocalRuntime::discover(b"nonsense").is_none());
    assert!(LocalRuntime::discover(br#"{"authToken":"s","transports":[]}"#).is_none());
}

#[test]
fn runtime_replies_arrive_in_pieces() {
    let mut reader = ReplyReader::new();
    reader.feed(b"\n{\"_keepalive\":true}\n{\"ok\":tr");
    assert!(matches!(reader.next_reply("m"), Reply::Pending));
    reader.feed(b"ue,\"result\":5}\nrest");
    match reader.next_reply("m") {
        Reply::Done(value) => assert_eq!(value.as_count(), Some(5)),
        _ => panic!("expected a reply"),
    }
    assert!(matches!(reader.next_reply("m"), Reply::Pending));
}

#[test]
fn runtime_failures_are_named() {
    match answer_of("m", &json(r#"{"ok":false,"error":{"message":"no"}}"#)) {
        Reply::Failed(message) => assert_eq!(message, "orca runtime m: no"),
        _ => panic!("expected a failure"),
    }
    match answer_of("m", &json("{}")) {
        Reply::Failed(message) => assert_eq!(message, "orca runtime m: local runtime call failed"),
        _ => panic!("expected a failure"),
    }
    assert!(ssh_state_in(&json(r#"{"state":null}"#)).is_none());
    assert!(ssh_state_in(&json(r#"{"state":{"a":1}}"#)).is_some());
}

#[test]
fn the_metadata_file_is_found() {
    let join = |explicit, home, config, macos| runtime_metadata_path(explicit, home, config, macos);
    assert_eq!(
        join(Some("/data"), None, None, false),
        Some("/data/orca-runtime.json".to_string())
    );
    assert_eq!(
        join(None, Some("/home/u"), None, false),
        Some("/home/u/.config/orca/orca-runtime.json".to_string())
    );
    assert_eq!(
        join(None, Some("/home/u"), Some("/cfg"), false),
        Some("/cfg/orca/orca-runtime.json".to_string())
    );
    assert_eq!(
        join(None, Some("/Users/u"), Some("/cfg"), true),
        Some("/Users/u/Library/Application Support/orca/orca-runtime.json".to_string())
    );
    assert_eq!(join(None, None, Some("/cfg"), false), None);
}

#[test]
fn hosts_are_probed() {
    assert_eq!(
        probe("box", true, "orcad\n{\"x\":1}\n", "").unwrap(),
        ProbeResult::Orcad { readiness: "{\"x\":1}".to_string() }
    );
    assert_eq!(
        probe("box", true, "app\n/m.json\n\n", "").unwrap(),
        ProbeResult::App { metadata_path: "/m.json".to_string(), dead_version: None }
    );
    assert_eq!(
        probe("box", true, "app\n/m.json\n0.0.0+ab\n", "").unwrap(),
        ProbeResult::App {
            metadata_path: "/m.json".to_string(),
            dead_version: Some("0.0.0+ab".to_string())
        }
    );
    assert_eq!(
        probe("box", true, "dead\nv1\n", "").unwrap(),
        ProbeResult::Dead { version: "v1".to_string() }
    );
    assert_eq!(probe("box", true, "none\n", "").unwrap(), ProbeResult::NoInstall);
    assert_eq!(
        probe("box", true, "orcad\n", "").unwrap_err(),
        "orcad on box reported no readiness"
    );
    assert_eq!(
        probe("box", true, "app\n", "").unwrap_err(),
        "orca runtime metadata path missing on box"
    );
    assert_eq!(
        probe("box", true, "dead\n", "").unwrap_err(),
        "orcad activation on box is unreadable"
    );
    assert_eq!(
        probe("box", true, "what", "").unwrap_err(),
        "unreadable runtime probe output from box"
    );
    assert_eq!(
        probe("box", false, "", " denied \n").unwrap_err(),
        "ssh box failed: denied"
    );
    assert!(probe_script("'/d'").contains("for data in '/d'; do"));
}

#[test]
fn runtimes_are_come_by_in_turn() {
    assert_eq!(
        ensure_remote_runtime(ProbeResult::NoInstall),
        SetupStep::Bootstrap
    );
    assert_eq!(
        ensure_remote_runtime(ProbeResult::Dead { version: "v".to_string() }),
        SetupStep::Revive { version: "v".to_string() }
    );
    assert_eq!(
        without_application(Some("v".to_string())),
        SetupStep::Revive { version: "v".to_string() }
    );
    assert_eq!(without_application(None), SetupStep::Bootstrap);
    assert_eq!(
        setup_actions(true),
        vec![
            SetupAction::EnsureNative,
            SetupAction::Relaunch,
            SetupAction::AwaitReadiness
        ]
    );
    assert_eq!(
        setup_actions(false),
        vec![
            SetupAction::Upload,
            SetupAction::Activate,
            SetupAction::EnsureNative,
            SetupAction::Relaunch,
            SetupAction::AwaitReadiness
        ]
    );
}

#[test]
fn remote_paths_are_quoted() {
    assert_eq!(remote_quote("~/it's"), r#""$HOME"/'it'\''s'"#);
    assert_eq!(remote_quote("/a b"), "'/a b'");
    assert_eq!(
        data_dir_candidates(&words(&["~/x"])),
        r#""$HOME"/'x' "$HOME/Library/Application Support/orca" "${XDG_CONFIG_HOME:-$HOME/.config}/orca""#
    );
    assert_eq!(shellexpand_home("~/x", Some("/h")), "/h/x");
    assert_eq!(shellexpand_home("~/x", None), "~/x");
    assert_eq!(shellexpand_home("/x", Some("/h")), "/x");
}

#[test]
fn readiness_is_read() {
    let ready = parse_readiness(
        "box",
        r#" {"boundEndpoint":"ws://127.0.0.1:6768","pairing":{"url":"orca://p"}} "#,
    )
    .unwrap();
    assert_eq!(ready.remote_port, 6768);
    assert_eq!(ready.pairing_url, "orca://p");
    assert_eq!(
        parse_readiness("box", "{").unwrap_err(),
        "orcad on box produced unreadable readiness output"
    );
    assert_eq!(
        parse_readiness("box", "{}").unwrap_err(),
        "orcad on box reported no bound endpoint"
    );
    assert_eq!(
        parse_readiness("box", r#"{"boundEndpoint":"x"}"#).unwrap_err(),
        "unparseable orcad endpoint x on box"
    );
    assert_eq!(
        parse_readiness("box", r#"{"boundEndpoint":"h:1","pairing":{"guidance":"wait"}}"#)
            .unwrap_err(),
        "orcad on box: wait"
    );
    assert_eq!(
        parse_readiness("box", r#"{"boundEndpoint":"h:1"}"#).unwrap_err(),
        "orcad on box: pairing unavailable"
    );
    assert_eq!(endpoint_port("ws://h:80"), Some(80));
    assert_eq!(endpoint_port("ws://h:65536"), None);
    assert_eq!(endpoint_port("80"), Some(80));
}

#[test]
fn minted_offers_are_read() {
    let runtime =
        parse_minted_offer("box", r#"{"endpoint":"ws://h:7","pairingUrl":"u"}"#).unwrap();
    assert_eq!((runtime.remote_port, runtime.pairing_url.as_str()), (7, "u"));
    assert_eq!(
        parse_minted_offer("box", "").unwrap_err(),
        "unreadable pairing response from the orca runtime on box"
    );
    assert_eq!(
        parse_minted_offer("box", "{}").unwrap_err(),
        "pairing offer from box carries no endpoint"
    );
    assert_eq!(
        parse_minted_offer("box", r#"{"endpoint":"h"}"#).unwrap_err(),
        "unparseable orca endpoint h on box"
    );
    assert_eq!(
        parse_minted_offer("box", r#"{"endpoint":"h:7"}"#).unwrap_err(),
        "pairing offer from box carries no pairing URL"
    );
    assert_eq!(
        pairing_failure("box", "no\n"),
        "pairing with the orca runtime on box failed: no"
    );
}

#[test]
fn readiness_is_awaited() {
    assert_eq!(
        await_readiness("box", "v", 1, true, "{\"a\":1}\n"),
        ReadinessStep::Ready { line: "{\"a\":1}".to_string() }
    );
    assert_eq!(await_readiness("box", "v", 1, false, "{}"), ReadinessStep::AskAgain);
    assert_eq!(await_readiness("box", "v", 1, true, ""), ReadinessStep::AskAgain);
    assert_eq!(
        await_readiness("box", "v", 20, true, "not json"),
        ReadinessStep::GiveUp {
            message: "orcad on box did not become ready; see ~/.orca-remote/orcad-v/orcad.log"
                .to_string()
        }
    );
}

#[test]
fn versions_come_from_the_bundle() {
    assert_eq!(artifact_version(b"abc"), "0.0.0+ba7816bf8f01");
    assert_eq!(artifact_version(b""), "0.0.0+e3b0c44298fc");
}

#[test]
fn artifacts_are_resolved() {
    assert_eq!(
        artifact_dir(Some("~/out"), Some("/h")).unwrap(),
        "/h/out"
    );
    assert!(artifact_dir(Some(""), None).is_err());
    assert!(artifact_dir(None, None)
        .unwrap_err()
        .starts_with("no orcad install on the host"));
    assert_eq!(
        artifact_paths("/o"),
        vec![
            "/o/orcad.js",
            "/o/daemon-entry.js",
            "/o/parcel-watcher-process-entry.js"
        ]
    );
    assert_eq!(resolve_artifacts("/o", [true, true, true]).unwrap(), "/o");
    assert_eq!(
        resolve_artifacts("/o", [true, false, true]).unwrap_err(),
        "orca_orcad_dir /o is missing daemon-entry.js"
    );
    let (inside, beside) = node_pty_candidates("/o");
    assert_eq!(inside, "/o/node_modules/node-pty");
    assert_eq!(beside, "/o/../../node_modules/node-pty");
    assert_eq!(resolve_node_pty("/o", true, true).unwrap(), inside);
    assert_eq!(resolve_node_pty("/o", false, true).unwrap(), beside);
    assert_eq!(
        resolve_node_pty("/o", false, false).unwrap_err(),
        "node-pty package not found near /o; orcad needs it for remote PTYs"
    );
}

#[test]
fn scripts_name_their_version() {
    assert_eq!(
        activation_record("v1"),
        r#"{"schemaVersion":1,"active":"v1","previous":null,"activatedAt":null,"snapshot":null}"#
    );
    assert!(activate_script("v1").contains(&activation_record("v1")));
    assert_eq!(
        readiness_script("v1"),
        r#"head -1 "$HOME/.orca-remote/orcad-v1/.orcad-readiness""#
    );
    assert!(relaunch_script("v1").contains("ORCA_VERSION='v1'"));
    assert!(adopt_script("/m", true).contains(" '/m' \"$HOME/.orca-remote/app-pairing.json\" refresh"));
    assert!(adopt_script("/m", false).contains("app-pairing.json\" reuse"));
    assert!(upload_pipeline("box", "/o", "/n", "v1").contains("-C '/o' orcad.js daemon-entry.js"));
    assert!(prebuilds_pipeline("box", "/o", "v1").contains("prebuilds | ssh"));
    assert!(has_live_relay("yes\n"));
    assert!(!has_live_relay("no\n"));
    assert_eq!(ssh_failure("box", " bad "), "ssh box failed: bad");
    assert_eq!(
        upload_failure("box", "x", false),
        "orcad upload to box failed: x"
    );
    assert_eq!(
        upload_failure("box", "x", true),
        "orcad prebuild upload to box failed: x"
    );
}

#[test]
fn texts_are_ordered_by_their_characters() {
    assert!(comes_before("a", "b"));
    assert!(comes_before("a", "ab"));
    assert!(!comes_before("b", "ab"));
    assert!(!comes_before("a", "a"));
    assert!(comes_before("z", "é"));
    let keys = vec![
        ("b".to_string(), "1".to_string()),
        ("a".to_string(), "2".to_string()),
        ("b".to_string(), "0".to_string()),
        ("a".to_string(), "2".to_string()),
    ];
    assert_eq!(sorted_order(&keys), vec![1, 3, 2, 0]);
}

#[test]
fn command_lines_are_quoted_where_they_need_to_be() {
    assert_eq!(command_line(&words(&["ls", "-l", "a b"])), "ls -l 'a b'");
    assert_eq!(command_line(&words(&["it's", ""])), r"'it'\''s' ''");
    assert_eq!(command_line(&words(&["a\nb", "x=1"])), "'a\nb' 'x=1'");
    assert_eq!(command_line(&[]), "");
}

#[test]
fn a_relay_host_shows_what_its_relay_lists() {
    let mut backend = RelayBackend::new();
    backend.pty_spawned("mine");
    let listed = vec![
        json(r#"{"id":"p2","cwd":"/b","worktreeId":"w"}"#),
        json(r#"{"id":"p1","cwd":"/b","terminalHandle":"t"}"#),
        json(r#"{"id":"mine","cwd":"/a"}"#),
        json(r#"{"id":"foreign","cwd":"/a"}"#),
        json(r#"{"worktreeId":"w"}"#),
    ];
    assert!(backend.is_shown(&listed[0]));
    assert!(!backend.is_shown(&listed[3]));
    let first = backend.reconcile(&listed);
    assert!(first.gone.is_empty());
    let ids: Vec<&str> = first.live.iter().map(|p| p.id.as_str()).collect();
    assert_eq!(ids, vec!["mine", "p1", "p2"]);
    assert_eq!(backend.needs_pane("mine", false), Some(true));
    assert_eq!(backend.needs_pane("p1", false), Some(false));
    for id in &ids {
        backend.pane_made(id);
    }
    assert_eq!(backend.needs_pane("p1", true), None);
    assert_eq!(backend.needs_pane("p1", false), Some(false));
    let second = backend.reconcile(&listed[..1]);
    let mut gone = second.gone.clone();
    gone.sort();
    assert_eq!(gone, vec!["mine", "p1"]);
    assert_eq!(backend.needs_pane("mine", true), Some(false));
    assert!(backend.reconcile(&listed[..1]).gone.is_empty());
}

#[test]
fn a_relay_host_is_supervised_once() {
    let mut backend = RelayBackend::new();
    assert!(backend.connected());
    assert!(!backend.connected());
    assert!(backend.poller_goes_on());
    backend.pane_made("p");
    backend.reconnected();
    assert_eq!(backend.needs_pane("p", true), Some(false));
    backend.detach();
    assert!(!backend.poller_goes_on());
    assert!(backend.connected());
    assert_eq!(attached_size(true, (80, 24), Some((10, 5))), (80, 24));
    assert_eq!(attached_size(false, (80, 24), Some((10, 5))), (10, 5));
    assert_eq!(attached_size(false, (80, 24), None), (80, 24));
    assert_eq!(split_cwd(Some(String::new())), None);
    assert_eq!(split_cwd(Some("/w".to_string())), Some("/w".to_string()));
}

fn note(method: &str, params: &str) -> Notification {
    Notification { method: method.to_string(), params: json(params) }
}

#[test]
fn a_relay_pane_follows_its_stream() {
    let mut pane = RelayPane::new("p".to_string(), "/w".to_string(), "t".to_string(), true);
    assert_eq!((pane.pty_id(), pane.cwd(), pane.parent_tab_id()), ("p", "/w", "t"));
    let first = pane.start_io();
    match pane.on_notification(first, &note("pty.data", r#"{"data":"hi"}"#)) {
        OutputAction::Show { data, ack } => {
            assert_eq!(data, Some("hi".to_string()));
            assert!(ack);
        }
        _ => panic!("expected output"),
    }
    assert!(matches!(
        pane.on_notification(first, &note("pty.replay", "{}")),
        OutputAction::Show { data: None, ack: false }
    ));
    assert!(matches!(
        pane.on_notification(first, &note("other", "{}")),
        OutputAction::Ignore
    ));
    assert!(matches!(
        pane.on_notification(first, &note("pty.exit", "{}")),
        OutputAction::Exit
    ));
    let second = pane.start_io();
    assert!(matches!(
        pane.on_notification(first, &note("pty.data", "{}")),
        OutputAction::Stop
    ));
    assert_eq!(pane.on_end(first, true), EndAction::Nothing);
    assert_eq!(pane.on_end(second, false), EndAction::Held);
    assert_eq!(pane.get_title("sh"), "⌁ sh");
    assert_eq!(pane.on_end(second, true), EndAction::Dead);
    assert_eq!(pane.on_end(second, true), EndAction::Nothing);
    assert!(pane.is_dead());
    assert_eq!(pane.get_title("sh"), "sh");
}

#[test]
fn only_owned_terminals_are_resized_and_ended() {
    let mut own = RelayPane::new("p".to_string(), String::new(), String::new(), true);
    let mut other = RelayPane::new("q".to_string(), String::new(), String::new(), false);
    assert_eq!(own.resize(80, 24), Some((80, 24)));
    assert_eq!(own.resize(65536 + 3, 24), Some((3, 24)));
    assert_eq!(other.resize(80, 24), None);
    assert!(!other.kill(false));
    assert!(own.kill(false));
    assert!(!own.kill(false));
    let mut detached = RelayPane::new("r".to_string(), String::new(), String::new(), true);
    assert!(!detached.kill(true));
    assert!(detached.is_dead());
    assert!(detached.kill(false));
}

fn summary(handle: &str, tab: &str, leaf: &str) -> TerminalSummary {
    TerminalSummary {
        handle: handle.to_string(),
        worktree_id: "w".to_string(),
        worktree_path: "/w".to_string(),
        tab_id: tab.to_string(),
        leaf_id: leaf.to_string(),
        title: None,
        preview: String::new(),
        agent_identity: None,
        pty_id: Some("p".to_string()),
        connected: true,
        orphaned: false,
    }
}

#[test]
fn bindings_name_their_tab() {
    let binding = TerminalBinding::from_summary(&summary("h", "t", "l"), "id:w");
    assert_eq!(binding.terminal, "h");
    assert_eq!(binding.worktree_selector, "id:w");
    assert_eq!(binding.session_tab_id(), "t::l");
    let list = vec![summary("a", "t1", "l1"), summary("b", "t2", "l2")];
    assert_eq!(find_handle(&list, "b"), Some(1));
    let split = binding.split_binding("b", &list);
    assert_eq!(split.session_tab_id(), "t2::l2");
    assert_eq!(split.worktree_selector, "id:w");
    assert_eq!(binding.split_binding("z", &list).session_tab_id(), "::");
    assert!(list[0].is_attachable());
}

#[test]
fn a_hub_pane_follows_its_stream() {
    let binding = TerminalBinding::from_summary(&summary("h", "t", "l"), "id:w");
    let mut pane = OrcaTerminalPane::new(binding);
    let first = pane.start_io();
    assert!(matches!(
        pane.on_event(first, TerminalStreamEvent::SnapshotStart),
        PaneAction::Advance { bytes, notify: false } if bytes == b"\x1bc"
    ));
    assert!(matches!(
        pane.on_event(first, TerminalStreamEvent::Output(b"x".to_vec())),
        PaneAction::Advance { bytes, notify: true } if bytes == b"x"
    ));
    assert!(matches!(
        pane.on_event(first, TerminalStreamEvent::SnapshotEnd),
        PaneAction::Notify
    ));
    assert!(matches!(
        pane.on_event(first, TerminalStreamEvent::Error("e".to_string())),
        PaneAction::Warn { message } if message == "e"
    ));
    assert!(matches!(
        pane.on_event(first, TerminalStreamEvent::End),
        PaneAction::Ended
    ));
    assert!(pane.on_disconnected(first));
    assert!(pane.is_held());
    assert_eq!(pane.get_title("sh"), "⌁ sh");
    let second = pane.resume();
    assert!(!pane.is_held());
    assert!(!pane.on_disconnected(first));
    assert!(pane.on_ended(first, false).is_none());
    assert_eq!(
        pane.on_ended(second, false),
        Some(DeadAction { kill_remote: true, remove: true })
    );
    assert!(pane.is_dead());
    assert!(!pane.kill(false));
    assert_eq!(pane.binding().terminal, "h");
}

#[test]
fn titles_show_the_agent() {
    let mut pane = OrcaTerminalPane::new(TerminalBinding::from_summary(&summary("h", "t", "l"), ""));
    assert_eq!(pane.get_title("sh"), "sh");
    assert!(pane.set_agent_state(Some("working".to_string())));
    assert!(!pane.set_agent_state(Some("working".to_string())));
    assert_eq!(pane.get_title("sh"), "● sh");
    pane.set_agent_state(Some("blocked".to_string()));
    assert_eq!(pane.get_title("sh"), "⚠ sh");
    pane.set_agent_state(Some("waiting".to_string()));
    assert_eq!(pane.get_title("sh"), "⚠ sh");
    pane.set_agent_state(Some("done".to_string()));
    assert_eq!(pane.get_title("sh"), "✓ sh");
    pane.set_agent_state(Some("else".to_string()));
    assert_eq!(pane.get_title("sh"), "sh");
    assert_eq!(
        pane.declare_dead(true),
        DeadAction { kill_remote: false, remove: false }
    );
}

#[test]
fn lists_are_picked_out_of_answers() {
    let answer = json(r#"{"targets":[{"id":"a"}],"worktrees":[1]}"#);
    assert_eq!(ssh_targets_in(&answer), json(r#"[{"id":"a"}]"#));
    assert_eq!(worktrees_in(&answer), json("[1]"));
    assert_eq!(ssh_targets_in(&json("{}")), Json::Null);
    assert_eq!(worktrees_in(&json("[]")), Json::Null);
    assert_eq!(agents_in(&json(r#"["first","second"]"#)), words(&["first", "second"]));
    assert!(agents_in(&json("[]")).is_empty());
    assert!(agents_in(&json(r#"["first",1]"#)).is_empty());
    assert!(agents_in(&json(r#"{"agents":["first"]}"#)).is_empty());
    assert!(agents_in(&Json::Null).is_empty());
}

#[test]
fn the_terminal_library_is_packed_from_its_parent() {
    assert_eq!(parent_path("/a/b/node-pty"), Some("/a/b".to_string()));
    assert_eq!(parent_path("/"), None);
    assert_eq!(node_pty_parent("/a/node_modules/node-pty").unwrap(), "/a/node_modules");
    assert_eq!(node_pty_parent("/").unwrap_err(), "node-pty path has no parent");
    assert_eq!(packing_directory(Some("/d".to_string())).unwrap(), "/d");
    assert!(packing_directory(None).is_err());
}

#[test]
fn a_pane_falls_back_to_its_own_directory() {
    let reported = || Some("file://box/tmp".to_string());
    let pane = RelayPane::new("p".into(), "/work/a b".into(), "t".into(), true);
    assert_eq!(pane.get_current_working_dir(reported()), reported());
    assert_eq!(
        pane.get_current_working_dir(None),
        Some("file:///work/a%20b".to_string())
    );
    let lost = RelayPane::new("p".into(), String::new(), "t".into(), true);
    assert_eq!(lost.get_current_working_dir(None), None);
    let relative = RelayPane::new("p".into(), "work".into(), "t".into(), true);
    assert_eq!(relative.get_current_working_dir(None), None);

    let mut listed = summary("h", "t", "l");
    listed.worktree_path = "/w".to_string();
    let pane = OrcaTerminalPane::new(TerminalBinding::from_summary(&listed, ""));
    assert_eq!(pane.get_current_working_dir(reported()), reported());
    assert_eq!(pane.get_current_working_dir(None), Some("file:///w".to_string()));

    assert_eq!(current_directory(None, None), None);
    assert_eq!(current_directory(None, reported()), reported());
}
