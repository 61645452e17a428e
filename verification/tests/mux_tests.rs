use neuterm::mux::{FocusDir, Mux, MuxError, PaneKind, PaneNode, PaneRect, PumpResult, SplitDirection, collect_leaves, replace_leaf_with_split, PaneId};
use neuterm::schema::{Config, ScrollbackLines};
use neuterm::vt::PtyEvent;

fn mux_with_tabs(n: usize) -> Mux<String> {
    let cfg = Config::default();
    let mut m: Mux<String> = Mux::new(&cfg);
    for i in 0..n {
        m.new_tab(format!("session {i}"));
    }
    m
}

fn active_leaves(m: &Mux<String>) -> Vec<PaneId> {
    collect_leaves(&m.active_tab().unwrap().tree)
}

#[test]
fn new_tab_activates_it() {
    let m = mux_with_tabs(3);
    assert_eq!(m.tabs().len(), 3);
    assert_eq!(m.active_index(), 2);
    assert_eq!(m.panes().len(), 3);
    let t = m.active_tab().unwrap();
    assert!(matches!(t.tree, PaneNode::Leaf(id) if id == t.active_pane));
}

#[test]
fn tab_next_then_prev_returns() {
    let mut m = mux_with_tabs(3);
    m.activate_tab(2);
    m.tab_next();
    assert_eq!(m.active_index(), 0);
    m.tab_prev();
    assert_eq!(m.active_index(), 2);
    m.tab_prev();
    assert_eq!(m.active_index(), 1);
}

#[test]
fn activate_out_of_range_is_ignored() {
    let mut m = mux_with_tabs(2);
    m.activate_tab(7);
    assert_eq!(m.active_index(), 1);
}

#[test]
fn move_left_then_right_restores_order() {
    let mut m = mux_with_tabs(3);
    let ids: Vec<_> = m.tabs().iter().map(|t| t.id).collect();
    m.activate_tab(1);
    m.tab_move_left();
    assert_eq!(m.active_index(), 0);
    assert_eq!(m.tabs()[0].id, ids[1]);
    assert_eq!(m.tabs()[1].id, ids[0]);
    m.tab_move_right();
    assert_eq!(m.active_index(), 1);
    let after: Vec<_> = m.tabs().iter().map(|t| t.id).collect();
    assert_eq!(after, ids);
}

#[test]
fn move_at_edges_does_nothing() {
    let mut m = mux_with_tabs(2);
    m.tab_move_right();
    assert_eq!(m.active_index(), 1);
    m.activate_tab(0);
    m.tab_move_left();
    assert_eq!(m.active_index(), 0);
}

#[test]
fn split_inserts_new_pane_after_active() {
    let mut m = mux_with_tabs(1);
    let first = m.active_tab().unwrap().active_pane;
    assert!(m.split_active(SplitDirection::Horizontal, "second".to_string()).is_ok());
    let second = m.active_tab().unwrap().active_pane;
    assert_ne!(first, second);
    assert_eq!(active_leaves(&m), vec![first, second]);
    assert_eq!(m.panes().len(), 2);
    assert_eq!(m.panes()[&second.0].kind, PaneKind::Terminal);
}

fn rect(pane: PaneId, x: u32, y: u32, w: u32, h: u32) -> PaneRect {
    PaneRect { pane, x, y, w, h }
}

fn active_pane(m: &Mux<String>) -> PaneId {
    m.active_tab().unwrap().active_pane
}

#[test]
fn focus_follows_geometry() {
    let mut m = mux_with_tabs(1);
    let a = active_pane(&m);
    m.split_active(SplitDirection::Vertical, "b".to_string()).unwrap();
    let b = active_pane(&m);
    // a above b.
    let rects = vec![rect(a, 0, 0, 100, 50), rect(b, 0, 50, 100, 50)];
    m.focus_direction(FocusDir::Left, &rects);
    assert_eq!(active_pane(&m), b);
    m.focus_direction(FocusDir::Right, &rects);
    assert_eq!(active_pane(&m), b);
    m.focus_direction(FocusDir::Down, &rects);
    assert_eq!(active_pane(&m), b);
    m.focus_direction(FocusDir::Up, &rects);
    assert_eq!(active_pane(&m), a);
    m.focus_direction(FocusDir::Up, &rects);
    assert_eq!(active_pane(&m), a);
    m.focus_direction(FocusDir::Down, &rects);
    assert_eq!(active_pane(&m), b);

    // b split into b | c below a.
    m.split_active(SplitDirection::Horizontal, "c".to_string()).unwrap();
    let c = active_pane(&m);
    let rects = vec![rect(a, 0, 0, 100, 50), rect(b, 0, 50, 50, 50), rect(c, 52, 50, 48, 50)];
    m.focus_direction(FocusDir::Left, &rects);
    assert_eq!(active_pane(&m), b);
    m.focus_direction(FocusDir::Right, &rects);
    assert_eq!(active_pane(&m), c);
    m.focus_direction(FocusDir::Up, &rects);
    assert_eq!(active_pane(&m), a);
    // Both b and c lie just below a: the first laid out wins.
    m.focus_direction(FocusDir::Down, &rects);
    assert_eq!(active_pane(&m), b);
}

#[test]
fn focus_picks_the_nearest_pane() {
    let mut m = mux_with_tabs(1);
    let a = active_pane(&m);
    m.split_active(SplitDirection::Horizontal, "b".to_string()).unwrap();
    let b = active_pane(&m);
    m.split_active(SplitDirection::Horizontal, "c".to_string()).unwrap();
    let c = active_pane(&m);
    // a | b | c side by side; from c, b is nearer than a.
    let rects = vec![rect(a, 0, 0, 30, 40), rect(b, 32, 0, 30, 40), rect(c, 64, 0, 30, 40)];
    m.focus_direction(FocusDir::Left, &rects);
    assert_eq!(active_pane(&m), b);
    m.focus_direction(FocusDir::Left, &rects);
    assert_eq!(active_pane(&m), a);
    m.focus_direction(FocusDir::Left, &rects);
    assert_eq!(active_pane(&m), a);
}

#[test]
fn focus_ignores_rects_of_other_tabs() {
    let mut m = mux_with_tabs(2);
    let other = m.tabs()[0].active_pane;
    let a = active_pane(&m);
    let rects = vec![rect(a, 50, 0, 50, 50), rect(other, 0, 0, 50, 50)];
    m.focus_direction(FocusDir::Left, &rects);
    assert_eq!(active_pane(&m), a);
}

#[test]
fn focus_with_one_pane_stays() {
    let mut m = mux_with_tabs(1);
    let a = active_pane(&m);
    m.focus_direction(FocusDir::Down, &vec![rect(a, 0, 0, 80, 24)]);
    assert_eq!(active_pane(&m), a);
    m.focus_direction(FocusDir::Down, &Vec::new());
    assert_eq!(active_pane(&m), a);
}

#[test]
fn closing_a_pane_passes_focus_to_its_sibling() {
    let mut m = mux_with_tabs(1);
    let a = active_pane(&m);
    m.split_active(SplitDirection::Vertical, "b".to_string()).unwrap();
    let b = active_pane(&m);
    m.split_active(SplitDirection::Horizontal, "c".to_string()).unwrap();
    let c = active_pane(&m);
    assert_eq!(m.panes().len(), 3);

    // Closing c leaves a above b, with b focused.
    assert!(m.close_active_pane());
    assert_eq!(active_pane(&m), b);
    assert_eq!(active_leaves(&m), vec![a, b]);
    assert!(!m.panes().contains_key(&c.0));
    assert_eq!(m.panes().len(), 2);

    // Closing a, the first pane, gives its place to b.
    let rects = vec![rect(a, 0, 0, 100, 50), rect(b, 0, 50, 100, 50)];
    m.focus_direction(FocusDir::Up, &rects);
    assert_eq!(active_pane(&m), a);
    assert!(m.close_active_pane());
    assert!(matches!(m.active_tab().unwrap().tree, PaneNode::Leaf(id) if id == b));
    assert_eq!(active_pane(&m), b);
    assert_eq!(m.panes().len(), 1);
}

#[test]
fn closing_the_last_pane_closes_the_tab() {
    let mut m = mux_with_tabs(2);
    assert!(m.close_active_pane());
    assert_eq!(m.tabs().len(), 1);
    assert_eq!(m.panes().len(), 1);
    assert!(!m.close_active_pane());
    assert!(m.tabs().is_empty());
    assert!(m.panes().is_empty());
    assert!(!m.close_active_pane());
}

#[test]
fn close_drops_panes_of_the_tab() {
    let mut m = mux_with_tabs(2);
    m.split_active(SplitDirection::Horizontal, "x".to_string()).unwrap();
    assert_eq!(m.panes().len(), 3);
    assert!(m.close_active_tab());
    assert_eq!(m.tabs().len(), 1);
    assert_eq!(m.active_index(), 0);
    assert_eq!(m.panes().len(), 1);
    assert!(!m.close_active_tab());
    assert!(m.tabs().is_empty());
    assert!(m.panes().is_empty());
    assert!(!m.close_active_tab());
}

#[test]
fn split_without_tabs_fails() {
    let cfg = Config::default();
    let mut m: Mux<String> = Mux::new(&cfg);
    assert_eq!(m.split_active(SplitDirection::Horizontal, "s".to_string()), Err(MuxError::NoActiveTab));
    assert_eq!(m.open_ai_chat("AI"), Err(MuxError::NoActiveTab));
}

#[test]
fn ai_chat_pane_has_no_session() {
    let mut m = mux_with_tabs(1);
    m.open_ai_chat("AI").unwrap();
    let id = m.active_tab().unwrap().active_pane;
    assert_eq!(m.panes()[&id.0].kind, PaneKind::AiChat);
    assert!(m.panes()[&id.0].session.is_none());
    let title = m.active_tab().unwrap().title(m.panes(), |s: &String| s.clone());
    assert_eq!(title, "AI Chat");
}

#[test]
fn pinned_title_wins_and_empty_unpins() {
    let mut m = mux_with_tabs(1);
    let auto = m.active_tab().unwrap().title(m.panes(), |s: &String| s.clone());
    assert_eq!(auto, "session 0");
    m.set_tab_title(Some("build".to_string()));
    assert_eq!(m.active_tab().unwrap().title(m.panes(), |s: &String| s.clone()), "build");
    m.set_tab_title(Some(String::new()));
    assert!(m.active_tab().unwrap().title_override.is_none());
    assert_eq!(m.active_tab().unwrap().title(m.panes(), |s: &String| s.clone()), "session 0");
}

#[test]
fn active_pane_mut_edits_in_place() {
    let mut m = mux_with_tabs(1);
    {
        let p = m.active_pane_mut().unwrap();
        p.session = Some("renamed".to_string());
    }
    let id = m.active_tab().unwrap().active_pane;
    assert_eq!(m.panes()[&id.0].session.as_deref(), Some("renamed"));
}

#[test]
fn resize_keeps_at_least_one_cell() {
    let mut m = mux_with_tabs(0);
    assert_eq!(m.resize_all(0, 30), (1, 30));
    let o = m.spawn_options();
    assert_eq!((o.cols, o.rows), (1, 30));
}

#[test]
fn spawn_options_follow_config() {
    let mut cfg = Config::default();
    cfg.window.initial_cols = 100;
    cfg.window.initial_rows = 40;
    cfg.scrollback.lines = ScrollbackLines::Unlimited;
    let m: Mux<String> = Mux::new(&cfg);
    let o = m.spawn_options();
    assert_eq!((o.cols, o.rows, o.scrollback), (100, 40, 10_000_000));
    assert_eq!(o.shell, None);
    assert_eq!(o.cwd, None);
    assert_eq!(o.term_program, "xterm-256color");
}

#[test]
fn spawn_options_carry_term_settings() {
    let mut cfg = Config::default();
    cfg.term.shell = Some("/bin/zsh".to_string());
    cfg.term.cwd = Some("/srv".to_string());
    cfg.term.program = "xterm-kitty".to_string();
    let m: Mux<String> = Mux::new(&cfg);
    let o = m.spawn_options();
    assert_eq!(o.shell.as_deref(), Some("/bin/zsh"));
    assert_eq!(o.cwd.as_deref(), Some("/srv"));
    assert_eq!(o.term_program, "xterm-kitty");
}

#[test]
fn replace_leaf_reports_missing_target() {
    let a = PaneId::new();
    let b = PaneId::new();
    let c = PaneId::new();
    let mut tree = PaneNode::Leaf(a);
    assert_eq!(replace_leaf_with_split(&mut tree, c, b, SplitDirection::Horizontal), Err(MuxError::LeafNotFound));
    assert!(replace_leaf_with_split(&mut tree, a, b, SplitDirection::Horizontal).is_ok());
    assert_eq!(collect_leaves(&tree), vec![a, b]);
}

#[test]
fn pump_result_records_events() {
    let id = PaneId::new();
    let mut r = PumpResult::new();
    r.record(id, &PtyEvent::Output);
    assert!(r.dirty && !r.bell);
    r.record(id, &PtyEvent::Bell);
    assert!(r.bell);
    r.record(id, &PtyEvent::Exit);
    assert_eq!(r.exited, vec![id]);
}

#[test]
fn ids_are_version_4_uuids() {
    use_v4_bits(PaneId::new().0);
    use_v4_bits(neuterm::mux::TabId::new().0);
}

fn use_v4_bits(v: u128) {
    assert_eq!((v >> 76) & 0xf, 4);
    assert_eq!((v >> 62) & 0x3, 2);
}
