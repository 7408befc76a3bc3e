use wincrust::lease::{LeaseError, Scope, DEFAULT_TTL_SECS};
use wincrust::text::MatchTier;
use wincrust::uia::act::{
    Act, ActArgs, ActResult, Ask, Call, Event, Pattern, ResolvedBy, Status,
};
use wincrust::uia::retry::{is_transient, Attempts, Verdict};
use wincrust::uia::tree::{
    actions_of, collect_matches, discover, resolve, survey, target_window, to_entity, Cap, Node,
    Patterns, TargetError,
};
use wincrust::uia::{
    control_type_name, entity_matches, fresh_scope, generation_of, list_windows, Bounds,
    DiscoverArgs, Filter, RawWindow, Rect, Selector, WindowInfo,
};

const KEY: &[u8] = b"the key";

fn read(data: &[u8]) -> Result<Scope, String> {
    let v: serde_json::Value = serde_json::from_slice(data).map_err(|e| e.to_string())?;
    Ok(Scope {
        hwnd: v["h"].as_i64().ok_or("h")? as isize,
        generation: v["g"].as_u64().ok_or("g")?,
        exp: v["e"].as_u64().ok_or("e")?,
    })
}

fn rect(left: i32, top: i32, right: i32, bottom: i32) -> Rect {
    Rect { left, top, right, bottom }
}

fn no_patterns() -> Patterns {
    Patterns {
        invoke: false,
        value: false,
        toggle: false,
        expand: false,
        select: false,
        scroll: false,
    }
}

fn button(name: &str) -> Node {
    Node {
        name: name.to_string(),
        automation_id: String::new(),
        control_type: 50000,
        rect: rect(10, 20, 31, 30),
        enabled: true,
        offscreen: false,
        patterns: Patterns { invoke: true, ..no_patterns() },
        children: vec![],
    }
}

fn pane(children: Vec<Node>) -> Node {
    Node {
        name: String::new(),
        automation_id: String::new(),
        control_type: 50033,
        rect: rect(0, 0, 100, 100),
        enabled: true,
        offscreen: false,
        patterns: no_patterns(),
        children,
    }
}

fn tree() -> Node {
    pane(vec![
        button("Open"),
        pane(vec![button("Save"), button("SAVE"), Node { offscreen: true, ..button("Hidden") }]),
        button("Close"),
    ])
}

fn raw(name: &str) -> RawWindow {
    RawWindow {
        name: name.to_string(),
        class_name: "Notepad".to_string(),
        control_type: 50032,
        hwnd: 77,
        pid: 4242,
        rect: rect(5, 6, 805, 606),
    }
}

fn args() -> DiscoverArgs {
    DiscoverArgs {
        hwnd: Some(77),
        max_depth: 24,
        max_elements: 400,
        ttl_secs: 60,
        filter: Filter::Actionable,
        verbose: false,
    }
}

fn name(n: &str) -> Selector {
    Selector { name: Some(n.to_string()), automation_id: None, control_type: None }
}

// --- descriptions ---

#[test]
fn control_types_have_names() {
    let named = [
        (50000, "button"),
        (50002, "checkbox"),
        (50003, "combobox"),
        (50004, "edit"),
        (50005, "link"),
        (50006, "image"),
        (50007, "list item"),
        (50008, "list"),
        (50010, "menu bar"),
        (50011, "menu item"),
        (50013, "radio"),
        (50017, "status bar"),
        (50018, "tab"),
        (50019, "tab item"),
        (50020, "text"),
        (50021, "tool bar"),
        (50023, "tree"),
        (50024, "tree item"),
        (50025, "custom"),
        (50026, "group"),
        (50030, "document"),
        (50031, "split button"),
        (50032, "window"),
        (50033, "pane"),
        (50037, "title bar"),
    ];
    for (id, label) in named {
        assert_eq!(control_type_name(id), label);
    }
    assert_eq!(control_type_name(50040), "type#50040");
    assert_eq!(control_type_name(-1), "type#-1");
}

#[test]
fn windows_are_described_in_order() {
    let ws = list_windows(&[raw("a"), raw("b")]);
    assert_eq!(ws.len(), 2);
    assert_eq!(ws[1].name, "b");
    assert_eq!(ws[0].control_type, "window");
    assert_eq!((ws[0].hwnd, ws[0].pid), (77, 4242));
    assert_eq!(ws[0].bounds, Bounds { x: 5, y: 6, w: 800, h: 600 });
    let copy = ws[0].clone();
    assert_eq!((copy.name, copy.class_name), ("a".to_string(), "Notepad".to_string()));
}

#[test]
fn a_rectangle_too_wide_for_its_size_is_noticed() {
    assert!(rect(0, 0, 5, 5).has_size());
    assert!(rect(5, 5, 0, 0).has_size());
    assert!(!rect(i32::MIN, 0, 1, 5).has_size());
    assert!(tree().is_wf());
    let bad = pane(vec![Node { rect: rect(i32::MIN, 0, 1, 5), ..button("x") }]);
    assert!(!bad.is_wf());
}

#[test]
fn filters_have_names() {
    assert_eq!("actionable".parse::<Filter>(), Ok(Filter::Actionable));
    assert_eq!("all".parse::<Filter>(), Ok(Filter::All));
    assert_eq!(
        "none".parse::<Filter>(),
        Err("unknown filter 'none' (actionable|all)".to_string())
    );
}

#[test]
fn a_selector_describes_itself() {
    assert!(Selector { name: None, automation_id: None, control_type: None }.is_empty());
    let s = Selector {
        name: Some("Sa\"ve".to_string()),
        automation_id: Some("btn".to_string()),
        control_type: Some("button".to_string()),
    };
    assert!(!s.is_empty());
    assert_eq!(
        s.describe(),
        r#"name="Sa\"ve", automation_id="btn", control_type="button""#
    );
    let t = Selector { name: None, ..s };
    assert_eq!(t.describe(), r#"automation_id="btn", control_type="button""#);
}

#[test]
fn a_selector_matches_by_name_identifier_and_type() {
    let s = Selector {
        name: Some("save".to_string()),
        automation_id: Some("Btn".to_string()),
        control_type: Some("BUTTON".to_string()),
    };
    assert_eq!(s.matches("Save", "Btn", "button"), Some(MatchTier::Case));
    assert_eq!(s.matches("Save", "btn", "button"), None);
    assert_eq!(s.matches("Save", "Btn", "edit"), None);
    assert_eq!(s.matches("Open", "Btn", "button"), None);
    let any = Selector { name: None, automation_id: None, control_type: None };
    assert_eq!(any.matches("x", "", ""), Some(MatchTier::Exact));
}

// --- one element ---

#[test]
fn actions_follow_from_patterns() {
    let every = Patterns {
        invoke: true,
        value: true,
        toggle: true,
        expand: true,
        select: true,
        scroll: true,
    };
    assert_eq!(
        actions_of(every, Filter::All),
        vec!["click", "type", "toggle", "expand", "select", "scroll_into_view"]
    );
    assert_eq!(
        actions_of(every, Filter::Actionable),
        vec!["click", "type", "toggle", "expand", "select"]
    );
}

#[test]
fn an_entity_tells_where_to_click() {
    let e = to_entity(&button("Save"), &[1, 0], &args()).unwrap();
    assert_eq!(e.name, "Save");
    assert_eq!(e.control_type, "button");
    assert_eq!(e.click_at, (20, 25));
    assert_eq!(e.bounds, None);
    assert_eq!(e.path, vec![1, 0]);
    assert!(e.enabled);
    let verbose = DiscoverArgs { verbose: true, ..args() };
    let e = to_entity(&button("Save"), &[], &verbose).unwrap();
    assert_eq!(e.bounds, Some(Bounds { x: 10, y: 20, w: 21, h: 10 }));
    let copy = e.clone();
    assert_eq!((copy.name, copy.actions, copy.path), (e.name, e.actions, e.path));
}

#[test]
fn decoration_is_not_told() {
    let all = DiscoverArgs { filter: Filter::All, ..args() };
    let bare = Node { patterns: no_patterns(), ..button("x") };
    assert!(to_entity(&bare, &[], &args()).is_none());
    assert!(to_entity(&bare, &[], &all).is_none());

    let flat = Node { rect: rect(3, 4, 3, 13), ..button("x") };
    assert!(to_entity(&flat, &[], &args()).is_none());
    let told = to_entity(&flat, &[], &all).unwrap();
    assert_eq!((told.click_at, told.actions), ((3, 8), vec!["click".to_string()]));
    let inverted = Node { rect: rect(10, 0, 5, -3), ..button("x") };
    assert!(to_entity(&inverted, &[], &args()).is_none());
    assert_eq!(to_entity(&inverted, &[], &all).unwrap().click_at, (8, -1));

    let nameless = button(" \u{a0}");
    assert!(to_entity(&nameless, &[], &args()).is_none());
    assert!(to_entity(&nameless, &[], &all).is_some());
    let identified = Node { automation_id: "id".to_string(), ..button("") };
    assert!(to_entity(&identified, &[], &args()).is_some());
}

#[test]
fn a_layout_container_is_told_only_when_everything_is() {
    let all = DiscoverArgs { filter: Filter::All, ..args() };
    for control_type in [50026, 50033, 50025] {
        let group = Node {
            control_type,
            patterns: Patterns { expand: true, ..no_patterns() },
            ..button("Group")
        };
        assert!(to_entity(&group, &[], &args()).is_none());
        assert!(to_entity(&group, &[], &all).is_some());
        let clickable = Node { control_type, ..button("Group") };
        assert!(to_entity(&clickable, &[], &args()).is_some());
    }
    let row = Node { patterns: Patterns { scroll: true, ..no_patterns() }, ..button("Row") };
    assert!(to_entity(&row, &[], &args()).is_none());
    assert!(to_entity(&row, &[], &all).is_some());
}

// --- the walk ---

fn names(root: &Node, args: &DiscoverArgs) -> (Vec<String>, Option<Cap>) {
    let (es, cap) = survey(root, args);
    (es.iter().map(|e| e.name.clone()).collect(), cap)
}

#[test]
fn a_survey_lists_parents_before_children_and_skips_what_is_offscreen() {
    let (es, cap) = survey(&tree(), &args());
    let seen: Vec<(&str, Vec<u32>)> =
        es.iter().map(|e| (e.name.as_str(), e.path.clone())).collect();
    assert_eq!(
        seen,
        vec![
            ("Open", vec![0]),
            ("Save", vec![1, 0]),
            ("SAVE", vec![1, 1]),
            ("Close", vec![2]),
        ]
    );
    assert_eq!(cap, None);
}

#[test]
fn the_root_itself_is_not_told() {
    assert_eq!(names(&button("Root"), &args()), (vec![], None));
}

#[test]
fn a_survey_stops_at_its_caps_and_says_so() {
    let few = DiscoverArgs { max_elements: 2, ..args() };
    let (seen, cap) = names(&tree(), &few);
    assert_eq!(seen, vec!["Open", "Save"]);
    assert_eq!(cap, Some(Cap::Elements));
    assert_eq!(Cap::Elements.message(&few), "element cap 2 reached");

    let shallow = DiscoverArgs { max_depth: 1, ..args() };
    let (seen, cap) = names(&tree(), &shallow);
    assert_eq!(seen, vec!["Open", "Close"]);
    assert_eq!(cap, Some(Cap::Depth));
    assert_eq!(Cap::Depth.message(&shallow), "depth cap 1 reached");

    let both = DiscoverArgs { max_depth: 1, max_elements: 1, ..args() };
    assert_eq!(names(&tree(), &both), (vec!["Open".to_string()], Some(Cap::Elements)));
}

#[test]
fn a_path_leads_back_to_its_element() {
    let root = tree();
    for e in survey(&root, &args()).0 {
        let mut node = &root;
        for i in &e.path {
            node = &node.children[*i as usize];
        }
        assert_eq!(node.name, e.name);
    }
}

#[test]
fn a_discovery_carries_a_scope_for_its_window() {
    let d = discover(&raw("Untitled"), &tree(), &args(), 1000, KEY).unwrap();
    assert_eq!(d.window.name, "Untitled");
    assert_eq!(d.generation, generation_of(&d.window));
    assert_eq!(d.entities.len(), 4);
    assert_eq!(d.truncated, None);
    let scope = Scope::decode_at(&d.scope, KEY, 1000, read).unwrap();
    assert_eq!(scope, Scope { hwnd: 77, generation: d.generation, exp: 1060 });

    let few = DiscoverArgs { max_elements: 1, ..args() };
    let d = discover(&raw("Untitled"), &tree(), &few, 1000, KEY).unwrap();
    assert_eq!(d.truncated, Some("element cap 1 reached".to_string()));
}

#[test]
fn the_target_is_the_window_named_or_the_foreground() {
    assert_eq!(target_window(Some(5), 9), Ok(5));
    assert_eq!(target_window(None, 9), Ok(9));
    assert_eq!(target_window(None, 0), Err(TargetError::NoWindow));
    assert_eq!(target_window(Some(0), 9), Err(TargetError::NoWindow));
    assert_eq!(TargetError::NoWindow.message(), "no target window (nothing focused?)");
}

// --- the generation ---

fn info() -> WindowInfo {
    raw("Untitled").info()
}

#[test]
fn moving_a_window_keeps_its_generation() {
    let mut w = info();
    let g = generation_of(&w);
    w.bounds.x = -300;
    w.bounds.y = 12;
    assert_eq!(generation_of(&w), g);
}

#[test]
fn whatever_else_changes_a_window_changes_its_generation() {
    let g = generation_of(&info());
    assert_ne!(generation_of(&WindowInfo { hwnd: 78, ..info() }), g);
    assert_ne!(generation_of(&WindowInfo { pid: 1, ..info() }), g);
    assert_ne!(generation_of(&WindowInfo { name: "*Untitled".to_string(), ..info() }), g);
    assert_ne!(generation_of(&WindowInfo { class_name: "X".to_string(), ..info() }), g);
    let mut w = info();
    w.bounds.w += 1;
    assert_ne!(generation_of(&w), g);
    let mut w = info();
    w.bounds.h -= 1;
    assert_ne!(generation_of(&w), g);
}

#[test]
fn a_fresh_scope_is_for_the_window_as_it_is() {
    let token = fresh_scope(&info(), 50, 10, KEY).unwrap();
    let scope = Scope::decode_at(&token, KEY, 60, read).unwrap();
    assert_eq!(scope, Scope { hwnd: 77, generation: generation_of(&info()), exp: 60 });
}

// --- search ---

#[test]
fn a_search_collects_every_match_and_keeps_the_tightest() {
    let all = collect_matches(&tree(), &name("save"));
    assert_eq!(all.len(), 2);
    assert_eq!(all[0].path, vec![1, 0]);
    let best = resolve(&tree(), &name("Save"));
    assert_eq!(best.len(), 1);
    assert_eq!((best[0].name.as_str(), best[0].tier), ("Save", MatchTier::Exact));
    let both = resolve(&tree(), &name("save"));
    assert_eq!(both.len(), 2);
    assert!(resolve(&tree(), &name("Quit")).is_empty());
}

#[test]
fn a_runaway_search_is_cut_off() {
    let root = pane((0..100).map(|_| button("Row")).collect());
    assert_eq!(collect_matches(&root, &name("Row")).len(), 64);
}

#[test]
fn an_entity_is_matched_as_its_element() {
    let e = to_entity(&button("Save"), &[1], &args()).unwrap();
    for n in ["Save", "SAVE", "&Save...", "Open"] {
        let hits = collect_matches(&button("Save"), &name(n));
        assert_eq!(entity_matches(&e, &name(n)), hits.first().map(|h| h.tier));
    }
}

// --- acting ---

struct Stage {
    window: Option<RawWindow>,
    tree: Node,
    focus: Result<(), String>,
    typing: Result<(), String>,
    call: fn() -> Call,
    /// What was asked of the control.
    touched: Vec<String>,
}

fn stage() -> Stage {
    Stage {
        window: Some(raw("Untitled")),
        tree: tree(),
        focus: Ok(()),
        typing: Ok(()),
        call: || Call::Done,
        touched: vec![],
    }
}

fn token() -> String {
    let info = raw("Untitled").info();
    fresh_scope(&info, 1000, 60, KEY).unwrap()
}

fn act_args(action: &str, path: &[u32], select: Option<Selector>, value: Option<&str>) -> ActArgs {
    ActArgs {
        scope: token(),
        path: path.to_vec(),
        select,
        action: action.to_string(),
        value: value.map(|v| v.to_string()),
    }
}

fn clone_node(n: &Node) -> Node {
    Node {
        name: n.name.clone(),
        automation_id: n.automation_id.clone(),
        control_type: n.control_type,
        rect: n.rect,
        enabled: n.enabled,
        offscreen: n.offscreen,
        patterns: n.patterns,
        children: n.children.iter().map(clone_node).collect(),
    }
}

fn clone_window(w: &RawWindow) -> RawWindow {
    RawWindow {
        name: w.name.clone(),
        class_name: w.class_name.clone(),
        control_type: w.control_type,
        hwnd: w.hwnd,
        pid: w.pid,
        rect: w.rect,
    }
}

/// Plays the platform until the action is done.
fn perform(args: ActArgs, s: &mut Stage) -> ActResult {
    attempt(args, s).unwrap()
}

/// Plays the platform until the action is done or breaks off.
fn attempt(args: ActArgs, s: &mut Stage) -> Result<ActResult, String> {
    let (mut act, mut ask) = Act::start(args, KEY, 1000, read).unwrap();
    let mut here: Vec<u32> = vec![];
    loop {
        let event = {
            let mut node = &s.tree;
            for i in &here {
                node = &node.children[*i as usize];
            }
            match ask {
                Ask::Exists { hwnd } => {
                    assert_eq!(hwnd, 77);
                    Event::Exists { alive: s.window.is_some() }
                }
                Ask::Window { .. } => Event::Window {
                    raw: clone_window(s.window.as_ref().unwrap()),
                    tree: clone_node(&s.tree),
                },
                Ask::Children => Event::Children {
                    count: if node.children.is_empty() {
                        None
                    } else {
                        Some(node.children.len() as u32)
                    },
                },
                Ask::Child { index, .. } => {
                    here.push(index);
                    Event::Moved
                }
                Ask::Element { path } => {
                    here = path;
                    Event::Moved
                }
                Ask::State => Event::State {
                    name: node.name.clone(),
                    enabled: node.enabled,
                    offscreen: node.offscreen,
                },
                Ask::Focus => {
                    s.touched.push("focus".to_string());
                    Event::Focused { focus: s.focus.clone() }
                }
                Ask::Keys { events } => {
                    s.touched.push(format!("{} key events", events.len()));
                    Event::Typed { typing: s.typing.clone() }
                }
                Ask::Pattern { pattern, value } => {
                    s.touched.push(format!("{pattern:?} {value}"));
                    Event::Called { call: (s.call)() }
                }
                Ask::Rescope { .. } => {
                    Event::Rescoped { window: s.window.as_ref().map(clone_window) }
                }
                Ask::Done { result } => return Ok(result),
                Ask::Failed { error } => return Err(error),
            }
        };
        let (a, next) = act.step(event, 1001, KEY);
        act = a;
        ask = next.unwrap();
    }
}

#[test]
fn a_path_is_walked_and_its_control_invoked_once() {
    let mut s = stage();
    let r = perform(act_args("click", &[1, 0], None, None), &mut s);
    assert!(r.ok);
    assert_eq!(r.status, Status::Acted);
    assert_eq!(r.status.as_str(), "ok");
    assert_eq!(r.target, "Save");
    assert_eq!(r.resolved_by, ResolvedBy::Path);
    assert_eq!(r.matched_by, None);
    assert_eq!(r.detail.as_deref(), Some("invoked"));
    assert_eq!(s.touched, vec!["Invoke "]);
}

#[test]
fn the_scope_that_comes_back_can_be_acted_on() {
    let mut s = stage();
    let r = perform(act_args("click", &[0], None, None), &mut s);
    let scope = Scope::decode_at(&r.next_scope.unwrap(), KEY, 1001, read).unwrap();
    assert_eq!(scope.generation, generation_of(&raw("Untitled").info()));
    assert_eq!(scope.exp, 1001 + DEFAULT_TTL_SECS);
}

#[test]
fn every_action_has_its_pattern() {
    let cases = [
        ("click", "Invoke ", "invoked"),
        ("type", "Value häy", "set 4 chars"),
        ("toggle", "Toggle ", "toggled"),
        ("expand", "ExpandCollapse ", "expanded"),
        ("select", "SelectionItem ", "selected"),
    ];
    for (action, touched, detail) in cases {
        let value = if action == "type" { Some("häy") } else { None };
        let mut s = stage();
        let r = perform(act_args(action, &[0], None, value), &mut s);
        assert_eq!(s.touched, vec![touched.to_string()]);
        assert_eq!(r.detail.as_deref(), Some(detail));
        assert_eq!(r.action, action);
    }
    assert_ne!(Pattern::Invoke, Pattern::Value);
}

#[test]
fn a_selector_resolves_to_the_tightest_match() {
    let mut s = stage();
    let r = perform(act_args("click", &[], Some(name("Save")), None), &mut s);
    assert!(r.ok);
    assert_eq!(r.target, "Save");
    assert_eq!(r.resolved_by, ResolvedBy::Selector);
    assert_eq!(r.resolved_by.as_str(), "selector");
    assert_eq!(r.matched_by, Some(MatchTier::Exact));
}

#[test]
fn several_matches_are_never_guessed_among() {
    let mut s = stage();
    let r = perform(act_args("click", &[], Some(name("save")), None), &mut s);
    assert!(!r.ok);
    assert_eq!(r.status, Status::Ambiguous);
    assert_eq!(r.status.as_str(), "ambiguous");
    assert_eq!(r.target, "Untitled");
    assert_eq!(
        r.detail.as_deref(),
        Some(
            "2 elements match name=\"save\" at the case tier (Save, SAVE). \
             Add automation_id or control_type."
        )
    );
    assert!(s.touched.is_empty());
}

#[test]
fn an_absent_target_is_not_found() {
    let mut s = stage();
    let r = perform(act_args("click", &[], Some(name("Quit")), None), &mut s);
    assert_eq!(r.status, Status::NotFound);
    assert_eq!(
        r.detail.as_deref(),
        Some("nothing in this window matches name=\"Quit\"")
    );
    let r = perform(act_args("click", &[7], None, None), &mut s);
    assert_eq!(r.status, Status::NotFound);
    assert_eq!(r.detail.as_deref(), Some("path index 7 out of range at depth 0"));
    let r = perform(act_args("click", &[0, 1], None, None), &mut s);
    assert_eq!(r.detail.as_deref(), Some("path ran out of children at depth 1"));
    assert!(s.touched.is_empty());
}

#[test]
fn a_changed_window_is_noticed_before_anything_happens() {
    let mut s = Stage { window: None, ..stage() };
    let r = perform(act_args("click", &[0], None, None), &mut s);
    assert_eq!(r.status, Status::IdentityChanged);
    assert_eq!(r.target, "");
    assert_eq!(r.detail.as_deref(), Some("the window no longer exists"));

    let mut s = Stage { window: Some(raw("*Untitled")), ..stage() };
    let r = perform(act_args("click", &[0], None, None), &mut s);
    assert_eq!(r.status, Status::IdentityChanged);
    assert_eq!(r.target, "*Untitled");
    assert_eq!(
        r.detail.as_deref(),
        Some("window was replaced, retitled or resized since discovery - re-discover")
    );
    assert!(s.touched.is_empty());
}

#[test]
fn a_control_that_cannot_be_used_is_left_alone() {
    let root = pane(vec![
        Node { enabled: false, ..button("Grey") },
        Node { offscreen: true, ..button("Away") },
    ]);
    let mut s = Stage { tree: root, ..stage() };
    let r = perform(act_args("click", &[], Some(name("grey")), None), &mut s);
    assert_eq!((r.status, r.matched_by), (Status::Disabled, Some(MatchTier::Case)));
    assert_eq!(r.detail.as_deref(), Some("control is disabled"));
    let r = perform(act_args("click", &[1], None, None), &mut s);
    assert_eq!((r.status, r.target.as_str()), (Status::Moved, "Away"));
    assert_eq!(r.detail.as_deref(), Some("control is offscreen"));
    assert!(s.touched.is_empty());
}

#[test]
fn a_missing_pattern_is_reported_with_its_tier() {
    let mut s = Stage { call: || Call::Absent, ..stage() };
    let r = perform(act_args("toggle", &[], Some(name("Open")), None), &mut s);
    assert_eq!((r.status, r.matched_by), (Status::PatternGone, Some(MatchTier::Exact)));
    assert_eq!(r.detail.as_deref(), Some("control no longer supports 'toggle'"));

    let mut s = Stage { call: || Call::Failed("busy".to_string()), ..stage() };
    let r = perform(act_args("click", &[0], None, None), &mut s);
    assert_eq!(r.detail.as_deref(), Some("pattern call failed: busy"));

    let mut s = stage();
    let r = perform(act_args("fly", &[0], None, None), &mut s);
    assert_eq!(r.status, Status::PatternGone);
    assert_eq!(r.detail.as_deref(), Some("unknown action 'fly'"));
    assert!(s.touched.is_empty());
}

#[test]
fn keys_take_the_focus_first() {
    let mut s = stage();
    let r = perform(act_args("key", &[0], None, Some("Ctrl+S Enter")), &mut s);
    assert!(r.ok);
    assert_eq!(s.touched, vec!["focus", "6 key events"]);
    assert_eq!(
        r.detail.as_deref(),
        Some(
            "focused the control and sent 2 keystroke(s): \"Ctrl+S Enter\". Keyboard input goes \
             to whatever holds focus, so this reports that the keys were sent, not that \
             the control consumed them - and taking focus is a visible side effect."
        )
    );
}

#[test]
fn keys_that_cannot_be_sent_are_reported() {
    let mut s = stage();
    let r = perform(act_args("key", &[0], None, Some("Banana")), &mut s);
    assert_eq!(r.status, Status::PatternGone);
    assert_eq!(r.detail.as_deref(), Some("unrecognised key 'Banana'"));
    assert!(s.touched.is_empty());
    let r = perform(act_args("key", &[0], None, None), &mut s);
    assert_eq!(r.detail.as_deref(), Some("no keys to send"));

    let mut s = Stage { focus: Err("gone".to_string()), ..stage() };
    let r = perform(act_args("key", &[0], None, Some("Enter")), &mut s);
    assert_eq!(
        r.detail.as_deref(),
        Some("could not focus the control to type into it: gone")
    );
    assert!(!r.ok);
}

/// A result other than success says that nothing happened, and taking the focus
/// has happened by now.
#[test]
fn keystrokes_that_fail_after_the_focus_was_taken_are_no_refusal() {
    let mut s = Stage { typing: Err("blocked".to_string()), ..stage() };
    let r = attempt(act_args("key", &[0], None, Some("Enter")), &mut s);
    assert_eq!(r.unwrap_err(), "focus was taken but the keystrokes failed: blocked");
    assert_eq!(s.touched, vec!["focus", "2 key events"]);
}

#[test]
fn a_bad_scope_starts_nothing() {
    let mut a = act_args("click", &[0], None, None);
    a.scope = "nodot".to_string();
    assert_eq!(Act::start(a, KEY, 1000, read).unwrap_err(), LeaseError::Malformed);
    let a = act_args("click", &[0], None, None);
    assert_eq!(
        Act::start(a, KEY, 1061, read).unwrap_err(),
        LeaseError::Expired { ago: 1 }
    );
}

#[test]
fn an_event_out_of_turn_leads_to_nothing() {
    let (act, _) = Act::start(act_args("click", &[0], None, None), KEY, 1000, read).unwrap();
    let (act, ask) = act.step(Event::Moved, 1000, KEY);
    assert!(ask.is_none());
    let (_, ask) = act.step(Event::Exists { alive: true }, 1000, KEY);
    assert!(matches!(ask, Some(Ask::Window { hwnd: 77, subtree: false })));
}

#[test]
fn every_status_has_a_name() {
    let all = [
        (Status::Acted, "ok"),
        (Status::IdentityChanged, "identity_changed"),
        (Status::NotFound, "not_found"),
        (Status::Ambiguous, "ambiguous"),
        (Status::Disabled, "disabled"),
        (Status::Moved, "moved"),
        (Status::PatternGone, "pattern_gone"),
        (Status::Stopped, "stopped"),
        (Status::Error, "error"),
    ];
    for (status, label) in all {
        assert_eq!(status.as_str(), label);
    }
    assert_eq!(ResolvedBy::Ocr.as_str(), "ocr");
    assert_eq!(ResolvedBy::Path.as_str(), "path");
}

// --- retrying ---

#[test]
fn a_transient_failure_is_tried_three_times() {
    let mut a = Attempts::new();
    assert_eq!(a.fail(Some(0x8004_0201)), Verdict::Again { pause_ms: 120 });
    assert_eq!(a.fail(Some(0x8001_010a)), Verdict::Again { pause_ms: 120 });
    assert!(a.is_open());
    assert_eq!(a.fail(Some(0x8001_0001)), Verdict::Report);
    assert!(!a.is_open());
}

#[test]
fn a_real_fault_is_reported_at_once() {
    assert_eq!(Attempts::new().fail(Some(0x8000_4005)), Verdict::Report);
    assert_eq!(Attempts::new().fail(None), Verdict::Report);
    assert!(is_transient(0x8004_0200));
    assert!(!is_transient(0));
}
