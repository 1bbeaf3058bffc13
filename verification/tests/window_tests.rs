use mosaic::layout::Rect;
use mosaic::window::{RuleAction, TrackedWindow, WindowInfo, WindowRule, WindowTracker};

fn window(id: u32, app: &str, title: &str, space: u64) -> TrackedWindow {
    TrackedWindow {
        id,
        owner_pid: 100 + id as i32,
        owner_name: app.to_string(),
        title: title.to_string(),
        frame: Rect { x: 0, y: 0, width: 800, height: 600 },
        is_minimized: false,
        is_floating: false,
        space_id: space,
        is_fullscreen: false,
    }
}

fn managed_ids(t: &WindowTracker) -> Vec<u32> {
    t.managed_windows().iter().map(|w| w.id).collect()
}

#[test]
fn added_windows_are_tracked_and_tiled_when_manageable() {
    let mut t = WindowTracker::new();
    t.add_window(window(1, "Safari", "Docs", 1));
    t.add_window(window(2, "Dock", "", 1));
    let mut minimized = window(3, "Mail", "Inbox", 1);
    minimized.is_minimized = true;
    t.add_window(minimized);
    let mut tiny = window(4, "Notes", "", 1);
    tiny.frame.width = 0;
    t.add_window(tiny);
    let mut nameless = window(5, "", "", 1);
    nameless.owner_name.clear();
    t.add_window(nameless);
    assert_eq!(managed_ids(&t), vec![1]);
    assert_eq!(t.all_windows().len(), 5);
    assert_eq!(t.get_window(2).map(|w| w.owner_name.clone()), Some("Dock".to_string()));
}

#[test]
fn manageability_checks_flags_name_and_size() {
    assert!(WindowTracker::is_manageable(&window(1, "Safari", "", 1)));
    let mut w = window(1, "Safari", "", 1);
    w.is_fullscreen = true;
    assert!(!WindowTracker::is_manageable(&w));
    let mut w = window(1, "Safari", "", 1);
    w.frame.height = 0;
    assert!(!WindowTracker::is_manageable(&w));
}

#[test]
fn removed_windows_are_gone_and_lose_focus() {
    let mut t = WindowTracker::new();
    t.add_window(window(1, "Safari", "Docs", 1));
    t.add_window(window(2, "Mail", "Inbox", 1));
    t.set_focused(1);
    assert_eq!(t.get_focused().map(|w| w.id), Some(1));
    t.remove_window(1);
    assert!(t.get_window(1).is_none());
    assert!(t.get_focused().is_none());
    assert_eq!(managed_ids(&t), vec![2]);
    t.set_focused(7);
    assert!(t.get_focused().is_none());
}

#[test]
fn toggling_float_twice_restores_tiling() {
    let mut t = WindowTracker::new();
    t.add_window(window(1, "Safari", "Docs", 1));
    t.toggle_floating(1);
    assert!(t.get_window(1).unwrap().is_floating);
    assert!(managed_ids(&t).is_empty());
    t.toggle_floating(1);
    assert!(!t.get_window(1).unwrap().is_floating);
    assert_eq!(managed_ids(&t), vec![1]);
}

#[test]
fn rules_float_ignore_and_assign() {
    let mut t = WindowTracker::new();
    t.add_rule(WindowRule { app_name: Some("Calculator".to_string()), title_contains: None, action: RuleAction::Float });
    t.add_rule(WindowRule { app_name: None, title_contains: Some("Secret".to_string()), action: RuleAction::Ignore });
    t.add_rule(WindowRule { app_name: Some("Mail".to_string()), title_contains: None, action: RuleAction::AssignToSpace(5) });
    t.add_window(window(1, "Calculator", "Calc", 1));
    t.add_window(window(2, "Safari", "My Secret Page", 1));
    t.add_window(window(3, "Mail", "Inbox", 1));
    t.apply_rules(1);
    t.apply_rules(2);
    t.apply_rules(3);
    t.apply_rules(9);
    assert!(t.get_window(1).unwrap().is_floating);
    assert!(!t.get_window(2).unwrap().is_floating);
    assert_eq!(t.get_window(3).unwrap().space_id, 5);
    assert_eq!(managed_ids(&t), vec![3]);
    let on_five: Vec<u32> = t.windows_on_space(5).iter().map(|w| w.id).collect();
    assert_eq!(on_five, vec![3]);
}

#[test]
fn rule_matching_needs_app_and_title() {
    let rule = WindowRule {
        app_name: Some("Finder".to_string()),
        title_contains: Some("Copy".to_string()),
        action: RuleAction::Float,
    };
    assert!(WindowTracker::rule_matches(&rule, &window(1, "Finder", "Copying files", 1)));
    assert!(!WindowTracker::rule_matches(&rule, &window(1, "Finder", "Documents", 1)));
    assert!(!WindowTracker::rule_matches(&rule, &window(1, "Safari", "Copy", 1)));
    let any = WindowRule { app_name: None, title_contains: None, action: RuleAction::Ignore };
    assert!(WindowTracker::rule_matches(&any, &window(1, "Safari", "", 1)));
}

#[test]
fn refresh_tracks_exactly_the_seen_windows() {
    let mut t = WindowTracker::new();
    t.add_rule(WindowRule { app_name: Some("Calculator".to_string()), title_contains: None, action: RuleAction::Float });
    t.add_window(window(1, "Safari", "Old title", 1));
    t.add_window(window(2, "Mail", "Inbox", 1));
    t.toggle_floating(1);
    let mut seen = window(1, "Safari", "New title", 3);
    seen.frame = Rect { x: 10, y: 20, width: 300, height: 400 };
    t.refresh(vec![seen, window(3, "Calculator", "Calc", 1)]);
    let ids: Vec<u32> = t.all_windows().iter().map(|w| w.id).collect();
    assert_eq!(ids, vec![1, 3]);
    let w1 = t.get_window(1).unwrap();
    assert_eq!(w1.title, "New title");
    assert_eq!(w1.frame, Rect { x: 10, y: 20, width: 300, height: 400 });
    assert!(w1.is_floating);
    assert_eq!(w1.space_id, 1);
    assert!(t.get_window(3).unwrap().is_floating);
    assert!(t.get_window(2).is_none());
}

#[test]
fn window_list_entries_become_windows() {
    let info = WindowInfo {
        number: Some(42),
        owner_pid: Some(321),
        layer: Some(0),
        owner_name: Some("Safari".to_string()),
        title: None,
        bounds: Some(Rect { x: 1, y: 2, width: 3, height: 4 }),
    };
    let w = WindowTracker::parse_window_info(&info).unwrap();
    assert_eq!(w.id, 42);
    assert_eq!(w.owner_pid, 321);
    assert_eq!(w.owner_name, "Safari");
    assert_eq!(w.title, "");
    assert_eq!(w.frame, Rect { x: 1, y: 2, width: 3, height: 4 });
    assert_eq!(w.space_id, 0);
    assert!(!w.is_minimized && !w.is_floating && !w.is_fullscreen);

    let menu = WindowInfo { layer: Some(25), ..info.clone() };
    assert!(WindowTracker::parse_window_info(&menu).is_none());
    let no_layer = WindowInfo { layer: None, ..info.clone() };
    assert!(WindowTracker::parse_window_info(&no_layer).is_none());
    let no_owner = WindowInfo { owner_pid: None, ..info.clone() };
    assert!(WindowTracker::parse_window_info(&no_owner).is_none());
    let no_bounds = WindowInfo { bounds: None, number: Some(7), ..info.clone() };
    let w = WindowTracker::parse_window_info(&no_bounds).unwrap();
    assert_eq!(w.frame, Rect { x: 0, y: 0, width: 0, height: 0 });

    let all = WindowTracker::windows_from_info(&vec![info.clone(), menu, no_bounds]);
    let ids: Vec<u32> = all.iter().map(|w| w.id).collect();
    assert_eq!(ids, vec![42, 7]);
}

#[test]
fn get_window_mut_changes_the_tracked_window() {
    let mut t = WindowTracker::new();
    t.add_window(window(1, "Safari", "Docs", 1));
    if let Some(w) = t.get_window_mut(1) {
        w.space_id = 9;
    }
    assert_eq!(t.get_window(1).unwrap().space_id, 9);
    assert!(t.get_window_mut(2).is_none());
}

#[test]
fn tiled_windows_stay_tracked_through_every_operation() {
    let mut t = WindowTracker::new();
    let check = |t: &WindowTracker| {
        let all: Vec<u32> = t.all_windows().iter().map(|w| w.id).collect();
        assert!(t.managed_windows().iter().all(|w| all.contains(&w.id)));
    };
    t.add_window(window(1, "Safari", "Docs", 1));
    t.add_window(window(2, "Mail", "Inbox", 1));
    check(&t);
    t.toggle_floating(2);
    t.toggle_floating(2);
    check(&t);
    t.remove_window(1);
    check(&t);
    t.refresh(vec![window(3, "Notes", "", 1)]);
    check(&t);
    assert_eq!(managed_ids(&t), vec![3]);
}

#[test]
fn refreshing_twice_with_the_same_windows_changes_nothing() {
    let mut t = WindowTracker::new();
    t.add_rule(WindowRule { app_name: Some("Calculator".to_string()), title_contains: None, action: RuleAction::Float });
    t.add_window(window(1, "Safari", "Old", 1));
    t.add_window(window(2, "Mail", "Inbox", 1));
    t.set_focused(1);
    let seen = vec![window(1, "Safari", "New", 1), window(3, "Calculator", "Calc", 1), window(1, "Safari", "Newer", 1)];
    t.refresh(seen.clone());
    let snapshot = |t: &WindowTracker| -> Vec<(u32, String, bool, u64)> {
        t.all_windows().iter().map(|w| (w.id, w.title.clone(), w.is_floating, w.space_id)).collect()
    };
    let first = snapshot(&t);
    let managed_first = managed_ids(&t);
    assert_eq!(first[0].1, "Newer");
    t.refresh(seen);
    assert_eq!(snapshot(&t), first);
    assert_eq!(managed_ids(&t), managed_first);
    assert_eq!(t.get_focused().map(|w| w.id), Some(1));
}
