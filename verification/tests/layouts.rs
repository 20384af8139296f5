use agent_mux::collections::{TextMap, TextSet};
use agent_mux::json::{Json, Number};
use agent_mux::orca_mux::layout::{orca_direction, LayoutNode, SplitDirection};
use agent_mux::orca_mux::runtime_backend::{
    begin_split, best_relay, created_terminal, file_name_of, innermost, keeps_relay, looks_again,
    split_result,
    RuntimeBackend, RuntimeError, TabChange,
};
use agent_mux::orca_mux::session::{
    find_last_tab, find_tab, handle_for_raw, overlap, parse_tabs, pty_prefix, tab_layout,
    tab_raw_ptys, tab_signature, target_id_for, wanted_ptys, worktree_path,
};
use agent_mux::orca_mux::tab_builder::TabBuilder;

fn json(text: &str) -> Json {
    Json::read(text).expect("valid JSON")
}

fn split_of(direction: &str, ratio: f64) -> LayoutNode {
    let text = format!(
        r#"{{"type":"split","direction":"{}","ratio":{},"first":{{"type":"leaf","leafId":"a"}},"second":{{"type":"leaf","leafId":"b"}}}}"#,
        direction, ratio
    );
    LayoutNode::parse(&json(&text)).expect("valid split")
}

fn ptys(pairs: &[(&str, &str)]) -> TextMap<String> {
    let mut map = TextMap::new();
    for (leaf, pty) in pairs {
        map.insert(leaf, pty.to_string());
    }
    map
}

fn names(items: &[&str]) -> TextSet {
    let mut set = TextSet::new();
    for item in items {
        set.insert(item);
    }
    set
}

fn sorted(set: &TextSet) -> Vec<String> {
    let mut items = set.items();
    items.sort();
    items
}

#[test]
fn orca_direction_maps_to_flipped_wezterm_axis() {
    let LayoutNode::Split { direction, .. } = split_of("vertical", 0.5) else {
        panic!("expected split");
    };
    assert_eq!(direction, SplitDirection::Horizontal);

    let LayoutNode::Split { direction, .. } = split_of("horizontal", 0.5) else {
        panic!("expected split");
    };
    assert_eq!(direction, SplitDirection::Vertical);
}

#[test]
fn ratio_defaults_to_half_when_absent() {
    let node = LayoutNode::parse(&json(
        r#"{"type":"split","direction":"vertical","first":{"type":"leaf","leafId":"a"},"second":{"type":"leaf","leafId":"b"}}"#,
    ))
    .expect("valid split");
    let LayoutNode::Split { ratio, .. } = node else {
        panic!("expected split");
    };
    let Number::Float(text) = ratio else {
        panic!("expected a fraction");
    };
    assert_eq!(text.parse::<f64>().unwrap(), 0.5);
}

#[test]
fn orca_direction_inverts_the_layout_axis() {
    assert_eq!(orca_direction(SplitDirection::Horizontal), "vertical");
    assert_eq!(orca_direction(SplitDirection::Vertical), "horizontal");
}

#[test]
fn leftmost_leaf_descends_first_children() {
    let node = LayoutNode::parse(&json(
        r#"{
            "type": "split",
            "direction": "vertical",
            "ratio": 0.5,
            "first": {
                "type": "split",
                "direction": "horizontal",
                "ratio": 0.5,
                "first": { "type": "leaf", "leafId": "deep" },
                "second": { "type": "leaf", "leafId": "b" }
            },
            "second": { "type": "leaf", "leafId": "c" }
        }"#,
    ))
    .expect("valid split");
    assert_eq!(node.leftmost_leaf(), "deep");
}

#[test]
fn signature_tracks_structure_not_ratio() {
    let ptys = ptys(&[("a", "pty-1"), ("b", "pty-2")]);
    let wide = split_of("vertical", 0.7).signature(&ptys);
    let narrow = split_of("vertical", 0.3).signature(&ptys);
    assert_eq!(wide, narrow);

    let stacked = split_of("horizontal", 0.7).signature(&ptys);
    assert_ne!(wide, stacked);
    assert_eq!(wide, "h(pty-1,pty-2)");
    assert_eq!(stacked, "v(pty-1,pty-2)");
}

#[test]
fn prune_collapses_splits_that_lose_a_child() {
    let node = split_of("vertical", 0.5);
    let only_b = node.pruned(&names(&["b"])).expect("survives");
    assert!(matches!(only_b, LayoutNode::Leaf { leaf_id } if leaf_id == "b"));

    assert!(node.pruned(&names(&[])).is_none());
}

#[test]
fn pruning_twice_changes_nothing_more() {
    let node = split_of("vertical", 0.5);
    let live = names(&["a", "b"]);
    let once = node.pruned(&live).unwrap();
    let twice = once.pruned(&live).unwrap();
    let none = ptys(&[("a", "1"), ("b", "2")]);
    assert_eq!(once.signature(&none), twice.signature(&none));
    assert_eq!(once.signature(&none), "h(1,2)");
}

#[test]
fn layouts_without_their_members_are_refused() {
    assert!(LayoutNode::parse(&json(r#"{"type":"leaf"}"#)).is_none());
    assert!(LayoutNode::parse(&json(r#"{"type":"other","leafId":"a"}"#)).is_none());
    assert!(LayoutNode::parse(&json(r#"{"leafId":"a"}"#)).is_none());
    assert!(LayoutNode::parse(&json(
        r#"{"type":"split","first":{"type":"leaf","leafId":"a"},"second":{"type":"leaf","leafId":"b"}}"#
    ))
    .is_none());
    assert!(LayoutNode::parse(&json(
        r#"{"type":"split","direction":"vertical","first":{"type":"leaf","leafId":"a"}}"#
    ))
    .is_none());
}

fn four_panes() -> LayoutNode {
    LayoutNode::parse(&json(
        r#"{
            "type": "split", "direction": "vertical", "ratio": 0.25,
            "first": {
                "type": "split", "direction": "horizontal",
                "first": { "type": "leaf", "leafId": "a" },
                "second": { "type": "leaf", "leafId": "b" }
            },
            "second": {
                "type": "split", "direction": "vertical", "ratio": 1,
                "first": { "type": "leaf", "leafId": "c" },
                "second": { "type": "leaf", "leafId": "d" }
            }
        }"#,
    ))
    .unwrap()
}

#[test]
fn a_tab_is_built_split_by_split() {
    let mut builder = TabBuilder::new(&four_panes());
    let mut steps = Vec::new();
    while let Some(step) = builder.next_step() {
        steps.push((step.seed_leaf.clone(), step.new_leaf.clone(), step.direction));
        builder.finish_step(true);
    }
    assert_eq!(
        steps,
        vec![
            ("a".to_string(), "c".to_string(), SplitDirection::Horizontal),
            ("c".to_string(), "d".to_string(), SplitDirection::Horizontal),
            ("a".to_string(), "b".to_string(), SplitDirection::Vertical),
        ]
    );
}

#[test]
fn what_is_below_a_failed_split_is_left_out() {
    let mut builder = TabBuilder::new(&four_panes());
    let first = builder.next_step().unwrap();
    assert_eq!(first.new_leaf, "c");
    builder.finish_step(false);
    assert!(builder.next_step().is_none());
}

fn session() -> Json {
    json(
        r#"{
            "snapshots": [
                {
                    "worktree": "w1::/work/one",
                    "tabs": [
                        { "ptyId": "ssh:h1@@pty-1", "parentTabId": "t1", "leafId": "a", "type": "terminal", "terminal": "handle-1",
                          "parentLayout": {
                            "ptyIdsByLeafId": { "a": "ssh:h1@@pty-1", "b": "ssh:h1@@pty-2", "x": "ssh:h2@@pty-9", "n": 3 },
                            "root": { "type": "split", "direction": "vertical", "ratio": 0.5,
                                      "first": { "type": "leaf", "leafId": "a" },
                                      "second": { "type": "leaf", "leafId": "b" } } } },
                        { "ptyId": "ssh:h1@@pty-2", "parentTabId": "t1", "leafId": "b" },
                        { "ptyId": "ssh:h2@@pty-3", "parentTabId": "t2", "leafId": "c" },
                        { "parentTabId": "t3" }
                    ]
                },
                {
                    "worktree": "/work/two",
                    "tabs": [ { "ptyId": "ssh:h1@@pty-4", "parentTabId": "t4", "leafId": "d" } ]
                },
                { "worktree": "w3::/work/three" }
            ]
        }"#,
    )
}

#[test]
fn the_tabs_of_one_host_are_listed_once() {
    let tabs = parse_tabs(&session(), "h1");
    assert_eq!(tabs.len(), 2);
    assert_eq!(tabs[0].parent_tab_id, "t1");
    assert_eq!(tabs[0].worktree_key, "w1::/work/one");
    assert_eq!(tabs[0].worktree_path, "/work/one");
    assert_eq!(tabs[0].signature(), "/work/one|h(pty-1,pty-2)");
    assert_eq!(tabs[1].parent_tab_id, "t4");
    assert_eq!(tabs[1].worktree_path, "/work/two");
    assert_eq!(tabs[1].signature(), "/work/two|pty-4");
    assert!(parse_tabs(&json("{}"), "h1").is_empty());
    assert_eq!(find_tab(&tabs, "t4"), Some(1));
    assert_eq!(find_tab(&tabs, "t9"), None);
    assert_eq!(find_last_tab(&tabs, "t1"), Some(0));
}

#[test]
fn a_tab_without_a_layout_is_its_own_pane() {
    let tab = json(r#"{"ptyId":"ssh:h1@@pty-4","leafId":"d","parentLayout":{"ptyIdsByLeafId":{"d":"ssh:h2@@z"}}}"#);
    let (node, panes) = tab_layout(&tab, &pty_prefix("h1")).unwrap();
    assert_eq!(node.leftmost_leaf(), "d");
    assert_eq!(panes.get("d").unwrap(), "pty-4");
    assert!(tab_layout(&json(r#"{"leafId":"d"}"#), "ssh:h1@@").is_none());
}

#[test]
fn session_lookups() {
    let session = session();
    assert_eq!(pty_prefix("h1"), "ssh:h1@@");
    assert_eq!(worktree_path("w::/a"), "/a");
    assert_eq!(worktree_path("/a"), "/a");
    assert_eq!(
        sorted(&wanted_ptys(&session, "h1")),
        vec!["pty-1", "pty-2", "pty-4"]
    );
    assert_eq!(sorted(&tab_raw_ptys(&session, "h1", "t1")), vec!["pty-1", "pty-2"]);
    assert!(tab_raw_ptys(&session, "h1", "t9").is_empty());
    assert_eq!(
        tab_signature(&session, "h1", "t4"),
        Some("/work/two|pty-4".to_string())
    );
    assert_eq!(handle_for_raw(&session, "pty-1"), Some("handle-1".to_string()));
    assert_eq!(handle_for_raw(&session, "pty-2"), None);
    let processes = vec![json(r#"{"id":"pty-1"}"#), json(r#"{"id":"other"}"#), json("{}")];
    assert_eq!(overlap(&processes, &wanted_ptys(&session, "h1")), 1);
}

#[test]
fn a_host_is_found_by_its_label() {
    let targets = json(r#"{"targets":[{"label":"x","id":"1"},{"label":"y","id":"2"},{"label":"y","id":"3"}]}"#);
    assert_eq!(target_id_for(&targets, "y"), Some("2".to_string()));
    assert_eq!(target_id_for(&targets, "z"), None);
    assert_eq!(target_id_for(&json("[]"), "y"), None);
}

#[test]
fn only_changed_tabs_are_built_again() {
    let mut backend = RuntimeBackend::new("h1");
    backend.tab_built("t1", "/work/one|h(pty-1,pty-2)", 0);
    backend.tab_built("t4", "/work/two|other", 0);
    backend.tab_built("gone", "x", 0);
    let (tabs, changes) = backend.apply(&session());
    assert_eq!(tabs.len(), 2);
    assert_eq!(changes.len(), 2);
    let mut removed = Vec::new();
    let mut rebuilt = Vec::new();
    for change in &changes {
        match change {
            TabChange::Remove { parent } => removed.push(parent.clone()),
            TabChange::Rebuild { parent, tab, signature } => {
                rebuilt.push((parent.clone(), *tab, signature.clone()))
            }
        }
    }
    assert_eq!(removed, vec!["gone"]);
    assert_eq!(
        rebuilt,
        vec![("t4".to_string(), 1, "/work/two|pty-4".to_string())]
    );
    assert_eq!(backend.worktree_for(None), "w1::/work/one");
    assert_eq!(backend.worktree_for(Some("/work/three/src")), "w3::/work/three");
    assert_eq!(backend.worktree_for(Some("/work/threesome")), "w1::/work/one");
}

#[test]
fn a_new_relay_builds_every_tab_again() {
    let mut backend = RuntimeBackend::new("h1");
    backend.tab_built("t1", "/work/one|h(pty-1,pty-2)", 0);
    assert_eq!(backend.relay_bound(), 1);
    let (_, changes) = backend.apply(&session());
    assert!(matches!(&changes[0], TabChange::Rebuild { parent, .. } if parent == "t1"));
    backend.tab_built("t1", "/work/one|h(pty-1,pty-2)", 1);
    let (_, changes) = backend.apply(&session());
    assert!(changes.is_empty());
}

#[test]
fn projects_are_named_by_their_directory() {
    let mut backend = RuntimeBackend::new("h1");
    backend.refresh_worktrees(&session());
    assert_eq!(backend.project_for_cwd("/work/one"), Some("one".to_string()));
    assert_eq!(
        backend.project_for_cwd("/work/one/deep/er"),
        Some("one".to_string())
    );
    assert_eq!(backend.project_for_cwd("/work/two"), None);
    assert_eq!(backend.worktree_key_for_cwd("/elsewhere"), None);
    let root = json(r#"{"snapshots":[{"worktree":"r::/"}]}"#);
    let mut other = RuntimeBackend::new("h1");
    other.refresh_worktrees(&root);
    assert_eq!(other.project_for_cwd("/"), Some("/".to_string()));
}

#[test]
fn a_path_ends_in_the_name_that_std_finds() {
    let paths = [
        "", "/", ".", "..", "a", "a/", "/a", "/a/b", "/a/b//", "a/.", "a/./.", "./", "./a", "a/..",
        "a/../", "/..", "../b", "...", "/a/.b", "//", "/.", "\u{e9}/\u{fc}", "a b/c d",
    ];
    for path in paths {
        let expected = std::path::Path::new(path)
            .file_name()
            .map(|name| name.to_string_lossy().into_owned());
        assert_eq!(file_name_of(path), expected, "{}", path);
    }
}

#[test]
fn the_innermost_directory_wins() {
    let paths = vec!["/a".to_string(), "/a/b".to_string(), "/a/bc".to_string()];
    assert_eq!(innermost(&paths, "/a/b/c"), Some(1));
    assert_eq!(innermost(&paths, "/a/bcd"), Some(0));
    assert_eq!(innermost(&paths, "/b"), None);
}

#[test]
fn created_terminals_are_read() {
    let created = json(r#"{"tab":{"id":"t7::leaf","ptyId":"ssh:h1@@pty-7"}}"#);
    let made = created_terminal(&created, "w1::/work/one").unwrap();
    assert_eq!(made.parent, "t7");
    assert_eq!(made.raw, "pty-7");
    assert_eq!(made.cwd, "/work/one");
    assert_eq!(made.signature, "/work/one|pty-7");
    let failed = created_terminal(&json(r#"{"tab":{"id":"t7"}}"#), "w1::/work/one");
    assert_eq!(failed.unwrap_err().message(), "createTerminal returned no ptyId");
}

#[test]
fn a_terminal_that_was_just_made_is_left_alone() {
    let created = json(r#"{"tab":{"id":"t4::d","ptyId":"ssh:h1@@pty-4"}}"#);
    let made = created_terminal(&created, "w2::/work/two").unwrap();
    let mut backend = RuntimeBackend::new("h1");
    backend.tab_built(&made.parent, &made.signature, 0);
    let shown = json(
        r#"{"snapshots":[{"worktree":"w2::/work/two","tabs":[{"ptyId":"ssh:h1@@pty-4","parentTabId":"t4","leafId":"d"}]}]}"#,
    );
    let (_, changes) = backend.apply(&shown);
    assert!(changes.is_empty());
}

#[test]
fn no_worktree_no_pane() {
    let backend = RuntimeBackend::new("h1");
    let refused = backend.worktree_to_use(None).unwrap_err();
    assert_eq!(
        refused.message(),
        "no active orca worktree yet; the session is still attaching"
    );
    let mut attached = RuntimeBackend::new("h1");
    attached.apply(&session());
    assert_eq!(attached.worktree_to_use(None).unwrap(), "w1::/work/one");
}

#[test]
fn a_split_is_found_in_the_session() {
    let start = begin_split(&session(), "h1", "pty-1", "t1").unwrap();
    assert_eq!(start.handle, "handle-1");
    assert_eq!(start.worktree_path, "/work/one");
    assert!(begin_split(&session(), "h1", "pty-2", "t1").is_none());
    assert!(split_result(&session(), "h1", "t1", &start.before).is_none());
    let (raw, signature) = split_result(&session(), "h1", "t1", &names(&["pty-1"])).unwrap();
    assert_eq!(raw, "pty-2");
    assert_eq!(signature, Some("/work/one|h(pty-1,pty-2)".to_string()));
    assert!(looks_again(4).is_ok());
    assert_eq!(
        looks_again(5).unwrap_err().message(),
        "orca accepted the split but the new pane never appeared"
    );
}

#[test]
fn a_split_is_noted() {
    let mut backend = RuntimeBackend::new("h1");
    backend.tab_split("t1", None);
    assert!(backend.has_tab("t1"));
    backend.tab_split("t1", Some("/work/one|h(pty-1,pty-2)".to_string()));
    backend.tab_split("t1", None);
    let (_, changes) = backend.apply(&session());
    assert!(changes.is_empty());
    assert!(backend.close_tab("t1"));
    assert!(!backend.close_tab("t1"));
}

#[test]
fn a_tab_is_opened_from_the_session() {
    let mut backend = RuntimeBackend::new("h1");
    backend.tab_built("t1", "old", 0);
    let (tab, signature) = backend.open_tab(&session(), "t1").unwrap();
    assert_eq!(tab.worktree_path, "/work/one");
    assert_eq!(signature, "/work/one|h(pty-1,pty-2)");
    assert!(!backend.has_tab("t1"));
    assert!(backend.open_tab(&session(), "t9").is_none());
}

#[test]
fn relays_are_chosen_by_what_they_serve() {
    assert_eq!(best_relay(&[None, Some(1), Some(3), Some(3)]), Some(2));
    assert_eq!(best_relay(&[Some(0), None]), Some(0));
    assert_eq!(best_relay(&[None, None]), None);
    assert!(keeps_relay(false, &names(&[]), 0));
    assert!(!keeps_relay(false, &names(&["a"]), 0));
    assert!(keeps_relay(false, &names(&["a"]), 1));
    assert!(!keeps_relay(true, &names(&["a"]), 1));
    let none = RuntimeError::NoRelay { target: "box".to_string() };
    assert_eq!(none.message(), "no live relay daemon on box");
}

#[test]
fn a_detached_host_polls_no_more() {
    let mut backend = RuntimeBackend::new("h1");
    assert!(backend.start_poller());
    assert!(!backend.start_poller());
    assert!(!backend.has_tabs());
    backend.tab_built("t1", "s", 0);
    assert!(backend.has_tabs());
    assert!(backend.poller_goes_on());
    backend.detach();
    assert!(!backend.has_tabs());
    assert!(!backend.poller_goes_on());
    assert!(backend.start_poller());
    assert_eq!(backend.target_id(), "h1");
    assert_eq!(backend.relay_generation(), 0);
}
