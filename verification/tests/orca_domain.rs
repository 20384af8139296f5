use agent_mux::collections::{TextMap, TextSet};
use agent_mux::config::{
    default_attention_colors, default_attention_var, default_fade_in_ms, default_fade_out_ms,
    OrcaRuntime, PaseoDaemon, Rgb, TabAttention,
};
use agent_mux::json::{Json, Number};
use agent_mux::orca_mux::domain::attach::{AttachTab, AttachTabs};
use agent_mux::orca_mux::domain::commands::{
    asks_fresh_offer, made_terminal, may_split, spawn_step, split_directory, split_index,
    split_room, tries_tunnel_again, tunnel_command, tunnel_endpoint, DomainError, SpawnStep,
};
use agent_mux::orca_mux::domain::hub::{
    collect_agent_statuses, hub_list_terminals, hub_terminals_from_session, layout_of_tab,
    worktree_ratios, HubTerminal, SessionTab,
};
use agent_mux::orca_mux::domain::panes::{
    any_held, live_panes, pane_of_parent, panes_of_domain, panes_of_group, ScreenPane,
};
use agent_mux::orca_mux::domain::publish::{
    layout_matches_target, measure_layout_ratios, places_fit, publish_target, rects_of_places,
    split_delta, split_extent, split_fits, tab_orca_identity, tab_structure_matches, HubPane,
    PanePlace, PaneRect, SplitExtent,
};
use agent_mux::orca_mux::domain::realise::{
    first_pane_source, layout_order, leftover_handles, normal_step, normal_tab, pane_source,
    plan_visual_tab, rebuild_plan, summaries_by_handle, NormalStep, PaneSource, Realiser, TabPlan,
};
use agent_mux::orca_mux::domain::state::{
    next_delay, AttachAction, AttachEvent, DetachAction, DomainState, OrcaDomain, PublishStep,
    Route, ScreenChange, WorktreeEntry,
};
use agent_mux::orca_mux::domain::tab_order::{order_by_worktree, reorder, TabGroup};
use agent_mux::orca_mux::domain::visual::{PaneLayout, VisualPaneNode};
use agent_mux::orca_mux::domain::window::{desired_tabs, majority_tab, sync_tab_order};
use agent_mux::orca_mux::layout::SplitDirection;
use agent_mux::orca_mux::pane::{TerminalBinding, TerminalSummary};
use agent_mux::orca_mux::runtime_backend::RuntimeBackend;
use agent_mux::paseo_client::events::TerminalStreamEvent;
use agent_mux::paseo_client::protocol::workspaces::Workspace;
use agent_mux::paseo_mux::domain::{spawn_directory, spawn_options, ConnectTarget, PaseoDomain};
use agent_mux::paseo_mux::pane::PaseoTerminalPane;

fn json(text: &str) -> Json {
    Json::read(text).expect("valid JSON")
}

fn words(items: &[&str]) -> Vec<String> {
    items.iter().map(|s| s.to_string()).collect()
}

fn set(items: &[&str]) -> TextSet {
    let mut set = TextSet::new();
    for item in items {
        set.insert(item);
    }
    set
}

fn map(items: &[(&str, usize)]) -> TextMap<usize> {
    let mut map = TextMap::new();
    for (name, id) in items {
        map.insert(name, *id);
    }
    map
}

fn terminal(handle: &str) -> Box<VisualPaneNode> {
    Box::new(VisualPaneNode::Terminal { handle: handle.to_string() })
}

fn visual_split(
    direction: &str,
    first: Box<VisualPaneNode>,
    second: Box<VisualPaneNode>,
) -> Box<VisualPaneNode> {
    Box::new(VisualPaneNode::PaneSplit { direction: direction.to_string(), first, second })
}

fn visual_tab() -> Box<VisualPaneNode> {
    visual_split(
        "horizontal",
        visual_split("vertical", terminal("a"), terminal("b")),
        terminal("c"),
    )
}

fn leaf(id: &str) -> Box<PaneLayout> {
    Box::new(PaneLayout::Leaf { leaf_id: id.to_string() })
}

fn layout_split(
    direction: &str,
    ratio: Option<&str>,
    first: Box<PaneLayout>,
    second: Box<PaneLayout>,
) -> Box<PaneLayout> {
    Box::new(PaneLayout::Split {
        direction: direction.to_string(),
        ratio: ratio.map(|r| Number::Float(r.to_string())),
        first,
        second,
    })
}

fn layout() -> Box<PaneLayout> {
    layout_split(
        "horizontal",
        Some("0.4"),
        layout_split("vertical", None, leaf("la"), leaf("lb")),
        leaf("lc"),
    )
}

fn summary(handle: &str, path: &str, leaf: &str) -> TerminalSummary {
    TerminalSummary {
        handle: handle.to_string(),
        worktree_id: "w".to_string(),
        worktree_path: path.to_string(),
        tab_id: "t".to_string(),
        leaf_id: leaf.to_string(),
        title: None,
        preview: "  first line \nsecond".to_string(),
        agent_identity: None,
        pty_id: Some("p".to_string()),
        connected: true,
        orphaned: false,
    }
}

#[test]
fn splits_are_planned_from_the_outside_in() {
    let tab = visual_tab();
    assert_eq!(tab.leftmost_terminal(), "a");
    assert_eq!(tab.pane_tree_handles(), vec!["a", "b", "c"]);
    let ops = tab.plan_splits();
    assert_eq!(ops.len(), 2);
    assert_eq!((ops[0].split_from.as_str(), ops[0].insert.as_str()), ("a", "c"));
    assert_eq!(ops[0].direction, SplitDirection::Horizontal);
    assert_eq!(ops[0].first_handles, vec!["a", "b"]);
    assert_eq!(ops[0].second_handles, vec!["c"]);
    assert_eq!((ops[1].split_from.as_str(), ops[1].insert.as_str()), ("a", "b"));
    assert_eq!(ops[1].direction, SplitDirection::Vertical);
}

#[test]
fn layouts_give_leaves_directions_and_ratios() {
    let root = layout();
    assert_eq!(root.layout_leaf_ids(), vec!["la", "lb", "lc"]);
    assert_eq!(
        root.split_directions(),
        vec![SplitDirection::Horizontal, SplitDirection::Vertical]
    );
    assert_eq!(root.leftmost_layout_leaf(), Some("la"));
    assert_eq!(leaf("").leftmost_layout_leaf(), None);
    let mut ratios = TextMap::new();
    root.collect_layout_ratios(&mut ratios);
    assert_eq!(ratios.get("lc"), Some(&Number::Float("0.4".to_string())));
    assert_eq!(ratios.get("lb"), Some(&Number::Float("0.5".to_string())));
    assert_eq!(ratios.get("la"), None);
}

fn place(pane_id: usize, leaf: &str, rect: (usize, usize, usize, usize)) -> PanePlace {
    PanePlace {
        domain_id: 1,
        pane_id,
        hub: Some(HubPane {
            held: false,
            binding: TerminalBinding {
                terminal: String::new(),
                worktree_selector: "id:w".to_string(),
                worktree_path: "/w".to_string(),
                parent_tab_id: "t".to_string(),
                leaf_id: leaf.to_string(),
            },
        }),
        rect: PaneRect { left: rect.0, top: rect.1, width: rect.2, height: rect.3 },
    }
}

fn places() -> Vec<PanePlace> {
    vec![
        place(10, "la", (0, 0, 40, 10)),
        place(11, "lb", (0, 11, 40, 13)),
        place(12, "lc", (41, 0, 39, 24)),
    ]
}

fn directions() -> Vec<SplitDirection> {
    vec![SplitDirection::Horizontal, SplitDirection::Vertical]
}

#[test]
fn a_tab_that_shows_one_visual_tab_is_published() {
    let target = publish_target(&places(), directions(), 1).unwrap();
    assert_eq!(target.worktree, "id:w");
    assert_eq!(target.parent_tab_id, "t");
    assert_eq!(target.pane_order, vec![10, 11, 12]);
    assert_eq!(target.leaf_panes.get("lb"), Some(&11));
    assert!(places_fit(&places()));
    assert_eq!(rects_of_places(&places()), target.rects);
    let endless = [place(10, "la", (usize::MAX, 0, 1, 1))];
    assert!(!places_fit(&endless));
    assert!(layout_matches_target(&layout(), &target));
    let turned = layout_split("vertical", None, leaf("la"), leaf("lb"));
    assert!(!layout_matches_target(&turned, &target));
    assert_eq!(
        measure_layout_ratios(&layout(), &target),
        vec![Some((40, 39)), Some((10, 13))]
    );
    assert!(publish_target(&places()[..1], vec![], 1).is_none());
    assert!(publish_target(&places(), directions(), 2).is_none());
    let mut held = places();
    held[1].hub.as_mut().unwrap().held = true;
    assert!(publish_target(&held, directions(), 1).is_none());
    assert_eq!(
        tab_orca_identity(&held, 1),
        Some(("id:w".to_string(), "t".to_string()))
    );
    let mut mixed = places();
    mixed[2].hub.as_mut().unwrap().binding.parent_tab_id = "other".to_string();
    assert_eq!(tab_orca_identity(&mixed, 1), None);
    assert_eq!(tab_orca_identity(&[], 1), None);
}

#[test]
fn panes_without_a_place_are_not_measured() {
    let target = publish_target(&places(), directions(), 1).unwrap();
    let root = layout_split("horizontal", None, leaf("la"), leaf("missing"));
    assert_eq!(measure_layout_ratios(&root, &target), vec![None]);
}

#[test]
fn the_structure_of_a_tab_is_recognised() {
    let panes = map(&[("a", 10), ("b", 11), ("c", 12)]);
    let tab = visual_tab();
    assert!(tab_structure_matches(&[10, 11, 12], &directions(), &tab, &panes));
    assert!(!tab_structure_matches(&[10, 12, 11], &directions(), &tab, &panes));
    assert!(!tab_structure_matches(
        &[10, 11, 12],
        &[SplitDirection::Vertical, SplitDirection::Vertical],
        &tab,
        &panes
    ));
    assert_eq!(
        normal_step(&[10, 11, 12], &directions(), &tab, &panes),
        NormalStep::Keep
    );
    assert_eq!(
        normal_step(&[10, 12, 11], &directions(), &tab, &panes),
        NormalStep::Rebuild
    );
    assert_eq!(normal_step(&[10, 11], &[], &tab, &panes), NormalStep::Leave);
}

#[test]
fn splits_are_moved_within_their_bounds() {
    let target = publish_target(&places(), directions(), 1).unwrap();
    let panes = map(&[("a", 10), ("b", 11), ("c", 12)]);
    let ops = visual_tab().plan_splits();
    let extent = split_extent(&ops[0], &panes, &target.rects).unwrap();
    assert_eq!(extent, SplitExtent { first: 40, node: 80 });
    assert!(split_fits(&ops[0], &panes, &target.rects));
    let mut wide = target.rects.clone();
    for rect in wide.values_mut() {
        rect.left = 0;
        rect.width = usize::MAX;
    }
    assert!(!split_fits(&ops[0], &panes, &wide));
    assert_eq!(split_delta(extent, 30), Some(-10));
    assert_eq!(split_delta(extent, 40), None);
    assert_eq!(split_delta(extent, -5), Some(-39));
    assert_eq!(split_delta(extent, 500), Some(38));
    let inner = split_extent(&ops[1], &panes, &target.rects).unwrap();
    assert_eq!(inner, SplitExtent { first: 10, node: 24 });
    assert_eq!(split_extent(&ops[0], &map(&[("a", 10)]), &target.rects), None);
}

#[test]
fn tabs_are_ordered_by_worktree() {
    let tabs = vec![
        ("w1".to_string(), "a".to_string()),
        ("w2".to_string(), "x".to_string()),
        ("w1".to_string(), "b".to_string()),
        ("w1".to_string(), "a".to_string()),
    ];
    let orders = order_by_worktree(&tabs);
    assert_eq!(orders.len(), 2);
    assert_eq!(orders[0].worktree, "w1");
    assert_eq!(orders[0].tabs, vec!["a", "b"]);
    assert_eq!(orders[1].tabs, vec!["x"]);
}

#[test]
fn groups_follow_the_order_of_the_screen() {
    let groups = vec![
        TabGroup { id: "g1".to_string(), tab_order: words(&["q"]) },
        TabGroup { id: "g2".to_string(), tab_order: words(&["a", "z", "b", "c"]) },
    ];
    let next = reorder(&groups, &words(&["c", "a", "b"])).unwrap();
    assert_eq!(next.group_id, "g2");
    assert_eq!(next.next, vec!["c", "z", "a", "b"]);
    assert_eq!(next.moved, "c");
    assert!(reorder(&groups, &words(&["a", "b"])).is_none());
    assert!(reorder(&groups, &words(&["a"])).is_none());
    assert!(reorder(&groups, &words(&["m", "n"])).is_none());
}

#[test]
fn windows_follow_the_order_of_the_hub() {
    let arranged = sync_tab_order(&[1, 9, 2, 3], &[3, 7, 1, 2]);
    assert_eq!(arranged.window, vec![3, 1, 9, 2]);
    let mut window = vec![1, 9, 2, 3];
    for (from, to) in &arranged.moves {
        assert!(*from < window.len() && *to < window.len());
        let tab = window.remove(*from);
        window.insert(*to, tab);
    }
    assert_eq!(window, arranged.window);
    assert!(arranged.arranged);
    let left = sync_tab_order(&[2, 1], &[1]);
    assert_eq!(left.window, vec![2, 1]);
    assert!(!left.arranged);
    let settled = sync_tab_order(&[1, 2], &[1, 2]);
    assert!(settled.moves.is_empty());
    assert!(settled.arranged);
}

#[test]
fn the_majority_decides_the_tab() {
    assert_eq!(majority_tab(&[5, 7, 7]), Some(7));
    assert_eq!(majority_tab(&[5, 7]), Some(5));
    assert_eq!(majority_tab(&[]), None);
    let visual = vec![vec![None, Some(4)], vec![Some(4)], vec![], vec![Some(2), Some(9)]];
    assert_eq!(desired_tabs(&visual), vec![4, 2]);
}

#[test]
fn panes_come_from_where_they_are() {
    let summaries = summaries_by_handle(vec![summary("n", "/w", "l")]);
    let live = map(&[("l", 3)]);
    let none = set(&[]);
    assert_eq!(
        pane_source("p", &set(&["p"]), &live, &summaries, &none),
        PaneSource::Pooled
    );
    assert_eq!(pane_source("l", &none, &live, &summaries, &none), PaneSource::Live(3));
    assert_eq!(pane_source("n", &none, &live, &summaries, &none), PaneSource::Attach);
    assert_eq!(
        pane_source("n", &none, &live, &summaries, &set(&["n"])),
        PaneSource::Missing
    );
    assert_eq!(pane_source("x", &none, &live, &summaries, &none), PaneSource::Missing);
    let mut ended = summary("e", "/w", "l");
    ended.pty_id = None;
    let ended = summaries_by_handle(vec![ended]);
    assert_eq!(pane_source("e", &none, &live, &ended, &none), PaneSource::Missing);
    assert_eq!(first_pane_source("e", &live, &ended, &none), PaneSource::Attach);
    assert_eq!(first_pane_source("l", &live, &ended, &none), PaneSource::Live(3));
    assert_eq!(
        first_pane_source("e", &live, &ended, &set(&["e"])),
        PaneSource::Missing
    );
}

#[test]
fn every_terminal_of_a_tab_is_placed() {
    let mut realiser = Realiser::new(&visual_tab(), map(&[("a", 1)]));
    let mut made = Vec::new();
    while let Some((index, from)) = realiser.next_split() {
        let insert = realiser.op(index).insert.clone();
        made.push((from, insert.clone()));
        realiser.placed(&insert, 10 + made.len());
    }
    assert_eq!(made, vec![(1, "c".to_string()), (1, "b".to_string())]);
    assert!(realiser.is_placed("b"));
    let panes = realiser.into_panes();
    assert_eq!(panes.get("c"), Some(&11));
}

#[test]
fn splits_without_their_source_are_skipped() {
    let mut realiser = Realiser::new(&visual_tab(), map(&[("b", 1)]));
    assert!(realiser.next_split().is_none());
    let mut done = Realiser::new(&visual_tab(), map(&[("a", 1), ("c", 2)]));
    let (index, from) = done.next_split().unwrap();
    assert_eq!((index, from), (1, 1));
    assert!(done.next_split().is_none());
}

#[test]
fn visual_tabs_are_planned() {
    let handles = words(&["a", "b", "n"]);
    let live = map(&[("a", 1), ("b", 2)]);
    let summaries = summaries_by_handle(vec![summary("n", "/w", "l")]);
    match plan_visual_tab(&handles, &live, &[Some(5), Some(5), None], &summaries, &set(&[])) {
        TabPlan::Show { tab, panes, incomplete } => {
            assert_eq!(tab, 5);
            assert_eq!(panes.get("a"), Some(&1));
            assert_eq!(panes.get("n"), None);
            assert!(incomplete);
        }
        _ => panic!("expected a tab"),
    }
    match plan_visual_tab(&handles, &live, &[Some(5), Some(6), None], &summaries, &set(&["n"])) {
        TabPlan::Show { tab, incomplete, .. } => {
            assert_eq!(tab, 5);
            assert!(incomplete);
        }
        _ => panic!("expected a tab"),
    }
    match plan_visual_tab(&handles, &live, &[Some(5), Some(5), None], &summaries, &set(&["n"])) {
        TabPlan::Show { incomplete, .. } => assert!(!incomplete),
        _ => panic!("expected a tab"),
    }
    let none = map(&[]);
    assert!(matches!(
        plan_visual_tab(&handles, &none, &[None, None, None], &summaries, &set(&[])),
        TabPlan::Materialise
    ));
    assert!(matches!(
        plan_visual_tab(&handles, &none, &[None, None, None], &summaries, &set(&["n"])),
        TabPlan::Leave
    ));
}

#[test]
fn a_tab_that_shows_all_is_brought_into_shape() {
    let handles = words(&["a", "b"]);
    let live = map(&[("a", 1), ("b", 2)]);
    let (tab, panes) = normal_tab(&handles, &live, &[Some(5), Some(5)]).unwrap();
    assert_eq!(tab, 5);
    assert_eq!(panes.get("b"), Some(&2));
    assert!(normal_tab(&handles, &live, &[Some(5), Some(6)]).is_none());
    assert!(normal_tab(&handles, &live, &[None, Some(5)]).is_none());
    assert!(normal_tab(&handles, &map(&[("a", 1)]), &[Some(5), Some(5)]).is_none());
    let plan = rebuild_plan(&visual_tab(), &map(&[("a", 1), ("c", 3)]));
    assert_eq!(plan.take_out, vec![("c".to_string(), 3)]);
    assert_eq!(plan.keep.get("a"), Some(&1));
    assert_eq!(plan.keep.get("c"), None);
}

#[test]
fn attaching_shows_whole_tabs_then_single_terminals() {
    let mut ended = summary("dead", "/a", "l");
    ended.orphaned = true;
    let summaries = summaries_by_handle(vec![
        summary("a", "/b", "l"),
        summary("b", "/b", "l"),
        summary("s2", "/b", "l"),
        summary("s1", "/b", "l"),
        summary("s0", "/a", "l"),
        ended,
    ]);
    let tabs = vec![words(&["a", "missing"]), words(&["a", "b"]), words(&["b"]), words(&[])];
    let mut attach = AttachTabs::new(tabs, summaries);
    let mut attached = set(&[]);
    assert!(matches!(attach.step(&attached), AttachTab::Visual(1)));
    assert!(attach.summaries().contains_key("a"));
    attached.insert("a");
    attached.insert("b");
    let mut singles = Vec::new();
    loop {
        match attach.step(&attached) {
            AttachTab::Single(handle) => {
                attached.insert(&handle);
                singles.push(handle);
            }
            AttachTab::Visual(_) => panic!("no tab is left"),
            AttachTab::Finished => break,
        }
    }
    assert_eq!(singles, vec!["s0", "s1", "s2"]);
    assert!(!attach.summaries().contains_key("a"));
}

#[test]
fn leftovers_and_layouts_are_sorted() {
    let summaries = summaries_by_handle(vec![summary("b", "/x", "l"), summary("a", "/y", "l")]);
    assert_eq!(leftover_handles(&summaries), vec!["b", "a"]);
    assert_eq!(layout_order(&words(&["/b", "/a", "/b"])), vec![1, 0, 2]);
}

#[test]
fn running_terminals_are_listed_with_their_title() {
    let mut titled = summary("h1", "/w", "l1");
    titled.title = Some("editor".to_string());
    let mut stopped = summary("h2", "/w", "l2");
    stopped.pty_id = None;
    let mut blank = summary("h3", "/w", "l3");
    blank.title = Some(String::new());
    let mut silent = summary("h4", "/w", "l4");
    silent.preview = String::new();
    let list = hub_list_terminals(&[titled, stopped, blank, silent]);
    let titles: Vec<&str> = list.iter().map(|t| t.title.as_str()).collect();
    assert_eq!(titles, vec!["editor", "first line", "h4"]);
    assert_eq!(list[1].leaf_id, "l3");
    let none = HubTerminal::default();
    assert_eq!(none.handle, "");
    assert!(!none.connected);
}

#[test]
fn a_process_backs_one_terminal_of_a_session() {
    let session = json(
        r#"{"snapshots":[
            {"worktree":"w::/w","tabs":[
                {"ptyId":"p1","leafId":"l1","parentTabId":"t1","title":"one"},
                {"ptyId":"p1","leafId":"l2"},
                {"leafId":"l3"}]},
            {"worktree":"/plain","tabs":[{"ptyId":"p1"},{"ptyId":"p2","title":""}]}]}"#,
    );
    let list = hub_terminals_from_session(&session);
    assert_eq!(list.len(), 2);
    assert_eq!(list[0].handle, "l1");
    assert_eq!(list[0].worktree_id, "w");
    assert_eq!(list[0].worktree_path, "/w");
    assert_eq!(list[0].title, "one");
    assert!(list[0].connected);
    assert_eq!(list[1].worktree_id, "");
    assert_eq!(list[1].worktree_path, "/plain");
    assert_eq!(list[1].title, "terminal");
    assert!(hub_terminals_from_session(&json("{}")).is_empty());
}

fn session_tab(kind: &str, parent: &str, terminal: Option<&str>, state: Option<&str>) -> SessionTab {
    SessionTab {
        kind: kind.to_string(),
        parent_tab_id: parent.to_string(),
        root: Some(*layout()),
        terminal: terminal.map(|t| t.to_string()),
        agent_state: state.map(|s| s.to_string()),
    }
}

#[test]
fn agents_are_known_by_their_terminal() {
    let tabs = vec![
        session_tab("terminal", "t", Some("h1"), Some("working")),
        session_tab("browser", "t", Some("h2"), Some("working")),
        session_tab("terminal", "t", None, Some("done")),
        session_tab("terminal", "t", Some("h3"), None),
    ];
    let mut statuses = TextMap::new();
    collect_agent_statuses(&tabs, &mut statuses);
    assert_eq!(statuses.get("h1"), Some(&Some("working".to_string())));
    assert_eq!(statuses.get("h2"), None);
    assert_eq!(statuses.get("h3"), Some(&None));
}

#[test]
fn ratios_are_known_by_their_terminal() {
    let tabs = vec![session_tab("terminal", "t", None, None)];
    let list = summaries_by_handle(vec![summary("hb", "/w", "lb"), summary("hc", "/w", "lc")]);
    let ratios = worktree_ratios(&tabs, &list, "w");
    assert_eq!(ratios.get("hc"), Some(&Number::Float("0.4".to_string())));
    assert_eq!(ratios.get("hb"), Some(&Number::Float("0.5".to_string())));
    assert!(worktree_ratios(&tabs, &list, "other").is_empty());
    let browser = vec![session_tab("browser", "t", None, None)];
    assert!(worktree_ratios(&browser, &list, "w").is_empty());
}

#[test]
fn of_two_entries_with_one_handle_the_later_has_the_ratio() {
    let tabs = vec![session_tab("terminal", "t", None, None)];
    let list = summaries_by_handle(vec![summary("h", "/w", "lb"), summary("h", "/w", "elsewhere")]);
    assert!(worktree_ratios(&tabs, &list, "w").is_empty());
    let list = summaries_by_handle(vec![summary("h", "/w", "elsewhere"), summary("h", "/w", "lc")]);
    let ratios = worktree_ratios(&tabs, &list, "w");
    assert_eq!(ratios.keys(), words(&["h"]));
    assert_eq!(ratios.get("h"), Some(&Number::Float("0.4".to_string())));
}

#[test]
fn a_visual_tab_has_the_first_layout_of_its_tabs() {
    let bare = |parent: &str| SessionTab {
        root: None,
        ..session_tab("terminal", parent, None, None)
    };
    let leaf = |name: &str, parent: &str| SessionTab {
        root: Some(PaneLayout::Leaf { leaf_id: name.to_string() }),
        ..bare(parent)
    };
    let tabs = vec![leaf("o", "other"), bare("t"), leaf("a", "t"), leaf("b", "t")];
    match layout_of_tab(tabs, "t") {
        Some(PaneLayout::Leaf { leaf_id }) => assert_eq!(leaf_id, "a"),
        other => panic!("{other:?}"),
    }
    assert!(layout_of_tab(vec![bare("t"), leaf("o", "other")], "t").is_none());
}

fn screen(domain_id: usize, pane_id: usize, parent: &str, terminal: &str, held: bool) -> ScreenPane {
    ScreenPane {
        domain_id,
        pane_id,
        parent_tab_id: Some(parent.to_string()),
        terminal: Some(terminal.to_string()),
        held,
    }
}

#[test]
fn the_panes_of_a_domain_are_found() {
    let panes = vec![
        screen(2, 1, "t", "h0", true),
        screen(1, 2, "t", "h1", false),
        screen(1, 3, "u", "h2", false),
        screen(1, 4, "t", "h1", false),
    ];
    assert_eq!(pane_of_parent(&panes, 1, "t"), Some(2));
    assert_eq!(pane_of_parent(&panes, 1, "v"), None);
    assert_eq!(panes_of_domain(&panes, 1), vec![2, 3, 4]);
    assert_eq!(panes_of_group(&panes, 1, &words(&["t"])), vec![2, 4]);
    let live = live_panes(&panes, 1);
    assert_eq!(live.get("h1"), Some(&4));
    assert_eq!(live.get("h0"), None);
    assert!(any_held(&panes, 2));
    assert!(!any_held(&panes, 1));
}

#[test]
fn attaching_falls_back_in_turn() {
    let mut domain = OrcaDomain::new_ssh("d", "box");
    assert_eq!(domain.attach_step(AttachEvent::Started), AttachAction::DiscoverRuntime);
    assert_eq!(domain.attach_step(AttachEvent::Started), AttachAction::Finish);
    assert_eq!(
        domain.attach_step(AttachEvent::RuntimeDiscovered(true)),
        AttachAction::AttachRuntime
    );
    assert_eq!(
        domain.attach_step(AttachEvent::RuntimeAttached { done: false, window: None }),
        AttachAction::CheckRelay
    );
    assert_eq!(
        domain.attach_step(AttachEvent::RelayChecked(true)),
        AttachAction::AttachRelay
    );
    assert_eq!(domain.route(true), Route::Relay);
    assert_eq!(
        domain.attach_step(AttachEvent::RelayAttached { done: false, window: None }),
        AttachAction::LeaveRelay
    );
    assert_eq!(domain.route(true), Route::Client);
    assert_eq!(
        domain.attach_step(AttachEvent::RelayChecked(false)),
        AttachAction::ConnectClient
    );
    let mut direct = OrcaDomain::new("d");
    assert_eq!(direct.attach_step(AttachEvent::Started), AttachAction::ConnectClient);
}

#[test]
fn detaching_takes_down_what_was_attached() {
    let mut domain = OrcaDomain::new_ssh("d", "box");
    domain.attach_step(AttachEvent::Started);
    domain.attach_step(AttachEvent::RuntimeAttached { done: true, window: Some(3) });
    assert_eq!(domain.state(), DomainState::Attached);
    assert_eq!(domain.attach_window(), Some(3));
    assert!(domain.is_runtime_mode());
    assert_eq!(domain.route(true), Route::Runtime);
    assert_eq!(domain.route(false), Route::Client);
    assert_eq!(domain.hub_route(true), Route::Runtime);
    assert_eq!(domain.detach(), DetachAction::Runtime);
    assert_eq!(domain.state(), DomainState::Detached);
    assert_eq!(domain.attach_window(), None);
    domain.attach_step(AttachEvent::RelayChecked(true));
    domain.attach_step(AttachEvent::RelayAttached { done: true, window: Some(4) });
    assert_eq!(domain.detach(), DetachAction::Relay);
    domain.attach_terminal("h");
    assert_eq!(domain.detach(), DetachAction::Client);
    assert!(!domain.attached_terminals().contains("h"));
    assert_eq!(domain.attach_step(AttachEvent::Started), AttachAction::DiscoverRuntime);
}

#[test]
fn connections_are_told_apart() {
    let mut domain = OrcaDomain::new("d");
    let first = domain.client_connected();
    assert!(domain.is_connected());
    domain.reset_client();
    assert!(!domain.client_ended(first));
    let second = domain.client_connected();
    assert!(!domain.reconnects(true));
    assert!(domain.client_ended(second));
    assert!(!domain.is_connected());
    assert!(!domain.reconnects(false));
    assert!(domain.reconnects(true));
    domain.shown_in(1);
    assert!(domain.reconnects(false));
    domain.attached();
    assert_eq!(domain.state(), DomainState::Attached);
    assert_eq!(next_delay(1000), 2000);
    assert_eq!(next_delay(16000), 30000);
    assert_eq!(next_delay(30000), 30000);
}

#[test]
fn a_terminal_has_one_pane() {
    let mut domain = OrcaDomain::new("d");
    assert!(domain.attach_terminal("h"));
    assert!(!domain.attach_terminal("h"));
    domain.forget_terminal("h");
    assert!(domain.attach_terminal("h"));
}

#[test]
fn changes_of_the_screen_are_published_once() {
    let mut domain = OrcaDomain::new("d");
    assert!(domain.ensure_layout_publisher());
    assert!(!domain.ensure_layout_publisher());
    assert!(!domain.on_change(ScreenChange::Other));
    domain.begin_apply();
    assert!(!domain.on_change(ScreenChange::TabResized(1)));
    domain.end_apply();
    assert!(domain.on_change(ScreenChange::TabResized(1)));
    assert!(!domain.on_change(ScreenChange::TabResized(1)));
    assert!(!domain.on_change(ScreenChange::WindowChanged));
    match domain.publish_step() {
        PublishStep::Publish { tabs, order } => {
            assert_eq!(tabs, vec![1]);
            assert!(order);
        }
        PublishStep::Stop => panic!("there was something to publish"),
    }
    assert!(matches!(domain.publish_step(), PublishStep::Stop));
    assert!(domain.on_change(ScreenChange::WindowChanged));
}

fn entry(path: &str, name: &str) -> WorktreeEntry {
    WorktreeEntry {
        selector: format!("id:{}", name),
        display_name: name.to_string(),
        path: path.to_string(),
    }
}

#[test]
fn worktrees_are_found_by_directory() {
    let mut domain = OrcaDomain::new("d");
    domain.refresh_worktrees(vec![entry("/w", "outer"), entry("/w/in", "inner")]);
    assert_eq!(
        domain.worktree_selector_for_cwd("/w/in/src"),
        Some("id:inner".to_string())
    );
    assert_eq!(domain.project_for_cwd(None, "/w/inside"), Some("outer".to_string()));
    assert_eq!(domain.project_for_cwd(None, "/x"), None);
    assert_eq!(domain.worktree_for_cwd("/w").unwrap().path, "/w");
    domain.attach_step(AttachEvent::RuntimeAttached { done: true, window: None });
    let mut runtime = RuntimeBackend::new("h");
    runtime.refresh_worktrees(&json(r#"{"snapshots":[{"worktree":"r::/x/proj"}]}"#));
    assert_eq!(
        domain.project_for_cwd(Some(&runtime), "/x/proj/a"),
        Some("proj".to_string())
    );
    assert_eq!(domain.project_for_cwd(Some(&runtime), "/w"), None);
}

#[test]
fn terminals_start_in_a_worktree() {
    let mut domain = OrcaDomain::new("d");
    assert_eq!(
        spawn_step(&domain, None, false).unwrap_err().message(),
        "orca domain d needs a working directory"
    );
    assert!(matches!(
        spawn_step(&domain, Some("/w"), false),
        Ok(SpawnStep::Refresh)
    ));
    assert_eq!(
        spawn_step(&domain, Some("/w"), true).unwrap_err().message(),
        "no orca worktree contains /w; add it in orca first"
    );
    domain.refresh_worktrees(vec![entry("/w", "one")]);
    match spawn_step(&domain, Some("/w/a"), false) {
        Ok(SpawnStep::In { selector, path }) => {
            assert_eq!((selector.as_str(), path.as_str()), ("id:one", "/w"))
        }
        _ => panic!("expected a worktree"),
    }
    assert_eq!(made_terminal(Some("h".to_string()), false).unwrap(), "h");
    assert_eq!(
        made_terminal(None, false).unwrap_err().message(),
        "orca terminal is still provisioning; try again shortly"
    );
    assert_eq!(
        made_terminal(None, true).unwrap_err().message(),
        "orca terminal is still provisioning; refresh and open it"
    );
}

#[test]
fn tunnels_are_tried_a_while() {
    let command = tunnel_command("box", 4000, 6768);
    assert_eq!(command.program, "ssh");
    assert_eq!(
        command.args,
        vec![
            "-N",
            "-oBatchMode=yes",
            "-oConnectTimeout=10",
            "-oExitOnForwardFailure=yes",
            "-L",
            "127.0.0.1:4000:127.0.0.1:6768",
            "box"
        ]
    );
    assert_eq!(tunnel_endpoint(4000), "ws://127.0.0.1:4000");
    assert!(tries_tunnel_again(4000, 24).is_ok());
    assert_eq!(
        tries_tunnel_again(4000, 25).unwrap_err().message(),
        "ssh tunnel on 127.0.0.1:4000 did not come up"
    );
    assert!(asks_fresh_offer(&OrcaDomain::new_ssh("d", "box"), 1));
    assert!(!asks_fresh_offer(&OrcaDomain::new_ssh("d", "box"), 2));
    assert!(!asks_fresh_offer(&OrcaDomain::new("d"), 1));
}

#[test]
fn domain_errors_are_named() {
    let cases = vec![
        (
            DomainError::AlreadyAttached { terminal: "h".to_string() },
            "terminal h is already attached",
        ),
        (DomainError::InvalidTab { id: 3 }, "invalid tab id 3"),
        (DomainError::InvalidPane { id: 12 }, "invalid pane id 12"),
        (DomainError::InvalidPaneIndex { index: 0 }, "invalid pane index 0"),
        (
            DomainError::MovesIntoDomain,
            "moving panes into an orca domain is not supported",
        ),
        (
            DomainError::MovesIntoRelay,
            "moving panes into a relay host is not supported",
        ),
        (DomainError::Moves, "moving panes is not supported"),
    ];
    for (error, message) in cases {
        assert_eq!(error.message(), message);
    }
}

#[test]
fn a_split_works_beside_its_source() {
    let file = Some(("file".to_string(), "/w".to_string()));
    assert_eq!(split_directory(None, file), Some("/w".to_string()));
    let web = Some(("http".to_string(), "/w".to_string()));
    assert_eq!(split_directory(None, web), None);
    assert_eq!(
        split_directory(Some("/x".to_string()), None),
        Some("/x".to_string())
    );
}

#[test]
fn settings_have_defaults() {
    assert_eq!(default_attention_var(), "claude_status");
    assert_eq!((default_fade_in_ms(), default_fade_out_ms()), (400, 400));
    let colors = default_attention_colors();
    assert_eq!(
        colors.get("waiting"),
        Some(&Rgb { red: 240, green: 223, blue: 175 })
    );
    assert_eq!(
        colors.get("approval"),
        Some(&Rgb { red: 204, green: 147, blue: 147 })
    );
    let attention = TabAttention::default();
    assert_eq!(attention.var, "claude_status");
    assert_eq!(attention.fade_in_duration_ms, 400);
    assert_eq!(OrcaRuntime::named("n".to_string()).ssh, "");
    assert!(!PaseoDaemon::named("n".to_string()).use_tls);
}

fn workspace(dir: Option<&str>, root: &str, name: &str) -> Workspace {
    Workspace {
        id: "i".to_string(),
        project_id: "p".to_string(),
        project_display_name: name.to_string(),
        project_root_path: root.to_string(),
        workspace_directory: dir.map(|d| d.to_string()),
        workspace_kind: "k".to_string(),
        name: "n".to_string(),
        git_runtime: None,
    }
}

#[test]
fn a_daemon_domain_keeps_its_projects() {
    let target = ConnectTarget::Local {
        host_port: "h:1".to_string(),
        use_tls: false,
        password: None,
    };
    let mut domain = PaseoDomain::new("box", target);
    assert_eq!(domain.client_id(), "wezterm-paseo-box");
    assert_eq!(domain.domain_name(), "box");
    assert!(matches!(domain.target(), ConnectTarget::Local { use_tls: false, .. }));
    domain.take_projects(&[
        workspace(Some("/w"), "/r", "one"),
        workspace(Some(""), "/r", "two"),
        workspace(None, "/s", ""),
    ]);
    assert_eq!(domain.project_for_cwd("/w"), Some("one".to_string()));
    assert_eq!(domain.project_for_cwd("/r"), Some("two".to_string()));
    assert_eq!(domain.project_for_cwd("/s"), None);
    domain.client_connected();
    assert!(domain.is_connected());
    assert!(domain.claim_terminal("t"));
    assert!(!domain.claim_terminal("t"));
    domain.attached();
    domain.detach();
    assert!(!domain.is_connected());
    assert_eq!(domain.state(), DomainState::Detached);
    assert!(domain.claim_terminal("t"));
}

#[test]
fn daemon_terminals_run_a_command_or_a_shell() {
    let argv = words(&["vim", "-R", "x"]);
    let opts = spawn_options(Some(&argv), "ws".to_string(), 24, 80);
    assert_eq!(opts.command, Some("vim".to_string()));
    assert_eq!(opts.args, Some(words(&["-R", "x"])));
    assert_eq!(opts.workspace_id, Some("ws".to_string()));
    assert_eq!((opts.rows, opts.cols), (24, 80));
    let shell = spawn_options(Some(&[]), "ws".to_string(), 24, 80);
    assert_eq!((shell.command, shell.args), (None, None));
    assert_eq!(spawn_directory(None), "/tmp");
    assert_eq!(spawn_directory(Some("/w".to_string())), "/w");
}

#[test]
fn a_daemon_pane_dies_with_its_stream() {
    let mut pane = PaseoTerminalPane::new("t1".to_string());
    assert_eq!(pane.remote_terminal_id(), "t1");
    assert_eq!(
        PaseoTerminalPane::shown_bytes(TerminalStreamEvent::Restore(vec![1])),
        Some(vec![1])
    );
    assert_eq!(
        PaseoTerminalPane::shown_bytes(TerminalStreamEvent::Snapshot(Json::Null)),
        None
    );
    assert!(!pane.is_dead());
    assert!(pane.on_end(false));
    assert!(!pane.on_end(true));
    assert!(pane.is_dead());
}

#[test]
fn splits_are_refused_in_turn() {
    let refused = |route: Route, tab: bool, pane: bool, moves: bool| {
        may_split(route, (4, tab), (5, pane), moves).map_err(|e| e.message())
    };
    for route in [Route::Client, Route::Relay, Route::Runtime] {
        assert_eq!(refused(route, false, false, true).unwrap_err(), "invalid tab id 4");
        assert_eq!(refused(route, true, true, false), Ok(()));
    }
    assert_eq!(
        refused(Route::Client, true, false, true).unwrap_err(),
        "invalid pane id 5"
    );
    assert_eq!(
        refused(Route::Client, true, true, true).unwrap_err(),
        "moving panes into an orca domain is not supported"
    );
    assert_eq!(
        refused(Route::Relay, true, false, true).unwrap_err(),
        "moving panes into a relay host is not supported"
    );
    assert_eq!(refused(Route::Relay, true, false, false), Ok(()));
    assert_eq!(
        refused(Route::Runtime, true, false, true).unwrap_err(),
        "moving panes is not supported"
    );
    assert_eq!(
        refused(Route::Runtime, true, false, false).unwrap_err(),
        "invalid pane id 5"
    );
    assert_eq!(split_index(5, Some(1)).unwrap(), 1);
    assert_eq!(split_index(5, None).unwrap_err().message(), "invalid pane id 5");
    assert!(split_room(1, true).is_ok());
    assert_eq!(split_room(1, false).unwrap_err().message(), "invalid pane index 1");
}
