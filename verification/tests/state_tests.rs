use mosaic::config::{GapConfig, MosaicConfig};
use mosaic::hotkeys::{hotkey_step, Hotkey, HotkeyAction, KeyMode};
use mosaic::layout::{Direction, Frame, LayoutMode, Rect};
use mosaic::state::{space_poll_step, Mosaic};
use mosaic::window::TrackedWindow;

fn window(id: u32, app: &str, title: &str, space: u64) -> TrackedWindow {
    TrackedWindow {
        id,
        owner_pid: 100 + id as i32,
        owner_name: app.to_string(),
        title: title.to_string(),
        frame: Rect { x: 0, y: 0, width: 800, height: 600 },
        is_minimized: false,
        is_floating: false,
        space_id: space,
        is_fullscreen: false,
    }
}

#[test]
fn new_state_takes_the_configured_rules() {
    let mut m = Mosaic::new(MosaicConfig::default(), 5, None);
    assert_eq!(m.connection_id, 5);
    assert!(m.layouts.is_empty() && m.scratchpad.is_empty() && m.marks.is_empty());
    assert!(m.sa_client.is_none());
    m.tracker.add_window(window(1, "Calculator", "Calc", 1));
    m.tracker.apply_rules(1);
    assert!(m.tracker.get_window(1).unwrap().is_floating);
}

#[test]
fn layout_for_space_makes_one_engine_per_space() {
    let mut config = MosaicConfig::default();
    config.gaps = GapConfig { inner: 2, outer: 30 };
    let mut m = Mosaic::new(config, 1, None);
    m.layout_for_space(3).add_window(9);
    assert!(m.layout_for_space(3).has_window(9));
    assert!(!m.layout_for_space(4).has_window(9));
    assert_eq!(m.layouts.len(), 2);
    let placed = m.layout_for_space(3).compute_layout(Rect { x: 0, y: 0, width: 100, height: 100 });
    assert_eq!(placed, vec![(9, Frame::Exact(Rect { x: 30, y: 30, width: 40, height: 40 }))]);
}

#[test]
fn retile_places_the_tiled_windows_of_the_space() {
    let mut m = Mosaic::new(MosaicConfig::default(), 1, None);
    m.tracker.add_window(window(1, "Safari", "Docs", 7));
    m.tracker.add_window(window(2, "Mail", "Inbox", 7));
    let mut minimized = window(3, "Notes", "", 7);
    minimized.is_minimized = true;
    m.tracker.add_window(minimized);
    m.tracker.add_window(window(4, "Terminal", "zsh", 8));
    let moves = m.retile_space(7);
    let ids: Vec<u32> = moves.iter().map(|mv| mv.window_id).collect();
    assert_eq!(ids, vec![1, 2]);
    assert_eq!(moves[0].frame, Frame::Exact(Rect { x: 8, y: 33, width: 948, height: 1039 }));
    assert_eq!(moves[1].frame, Frame::Exact(Rect { x: 964, y: 33, width: 948, height: 1039 }));
    assert_eq!(moves[1].title, "Inbox");
    assert_eq!(moves[1].owner_pid, 102);
    assert!(!m.layouts.get(&7).unwrap().has_window(3));
    assert!(!m.layouts.contains_key(&8));
    let again = m.retile_space(7);
    let again_ids: Vec<u32> = again.iter().map(|mv| mv.window_id).collect();
    assert_eq!(again_ids, ids);
}

#[test]
fn retile_of_an_empty_space_does_nothing() {
    let mut m = Mosaic::new(MosaicConfig::default(), 1, None);
    assert!(m.retile_space(7).is_empty());
    assert!(m.layouts.is_empty());
}

#[test]
fn retile_skips_windows_in_the_floating_set() {
    let mut m = Mosaic::new(MosaicConfig::default(), 1, None);
    m.tracker.add_window(window(1, "Safari", "Docs", 7));
    m.tracker.add_window(window(2, "Mail", "Inbox", 7));
    m.floating_windows.insert(1);
    let ids: Vec<u32> = m.retile_space(7).iter().map(|mv| mv.window_id).collect();
    assert_eq!(ids, vec![2]);
}

#[test]
fn scratchpad_banishes_then_summons() {
    let mut m = Mosaic::new(MosaicConfig::default(), 1, None);
    m.tracker.add_window(window(1, "Safari", "Docs", 7));
    m.tracker.add_window(window(2, "Mail", "Inbox", 7));
    m.retile_space(7);
    m.floating_windows.insert(1);
    m.toggle_scratchpad(7);
    assert_eq!(m.scratchpad, vec![1]);
    assert!(!m.floating_windows.contains(&1));
    assert!(m.layouts.get(&7).unwrap().has_window(1));
    m.toggle_scratchpad(7);
    assert!(m.scratchpad.is_empty());
    assert!(m.floating_windows.contains(&1));
}

#[test]
fn scratchpad_with_nothing_tracked_does_nothing() {
    let mut m = Mosaic::new(MosaicConfig::default(), 1, None);
    assert!(m.toggle_scratchpad(7).is_empty());
    assert!(m.scratchpad.is_empty());
}

#[test]
fn marks_lead_back_to_the_marked_window() {
    let mut m = Mosaic::new(MosaicConfig::default(), 1, None);
    m.mark_window('a');
    assert_eq!(m.jump_to_mark('a'), None);
    m.tracker.add_window(window(4, "Safari", "Docs", 7));
    m.tracker.add_window(window(5, "Mail", "Inbox", 7));
    m.mark_window('a');
    assert_eq!(m.jump_to_mark('a'), Some(4));
    assert_eq!(m.jump_to_mark('b'), None);
}

#[test]
fn hotkeys_switch_modes() {
    assert_eq!(hotkey_step(KeyMode::Main, Hotkey::ResizeMode), (KeyMode::Resize, HotkeyAction::EnterResizeMode));
    assert_eq!(hotkey_step(KeyMode::Resize, Hotkey::Escape), (KeyMode::Main, HotkeyAction::LeaveResizeMode));
    assert_eq!(hotkey_step(KeyMode::Resize, Hotkey::Enter), (KeyMode::Main, HotkeyAction::LeaveResizeMode));
    assert_eq!(hotkey_step(KeyMode::Main, Hotkey::Bsp), (KeyMode::Main, HotkeyAction::SetLayout(LayoutMode::Bsp)));
    assert_eq!(hotkey_step(KeyMode::Main, Hotkey::Monocle), (KeyMode::Main, HotkeyAction::SetLayout(LayoutMode::Monocle)));
    assert_eq!(hotkey_step(KeyMode::Main, Hotkey::Focus(Direction::West)), (KeyMode::Main, HotkeyAction::Focus(Direction::West)));
    assert_eq!(hotkey_step(KeyMode::Main, Hotkey::Scratchpad), (KeyMode::Main, HotkeyAction::ToggleScratchpad));
    assert_eq!(hotkey_step(KeyMode::Resize, Hotkey::Resize(Direction::East)), (KeyMode::Resize, HotkeyAction::Resize(Direction::East)));
    assert_eq!(hotkey_step(KeyMode::Resize, Hotkey::Bsp), (KeyMode::Resize, HotkeyAction::Ignore));
    assert_eq!(hotkey_step(KeyMode::Resize, Hotkey::ResizeMode), (KeyMode::Resize, HotkeyAction::Ignore));
    assert_eq!(hotkey_step(KeyMode::Main, Hotkey::Escape), (KeyMode::Main, HotkeyAction::Ignore));
}

#[test]
fn hotkey_layouts_apply_only_to_spaces_with_an_engine() {
    let mut m = Mosaic::new(MosaicConfig::default(), 1, None);
    m.tracker.add_window(window(1, "Safari", "Docs", 7));
    assert!(m.on_hotkey(HotkeyAction::SetLayout(LayoutMode::Monocle), 7).is_empty());
    assert!(m.layouts.is_empty());
    m.retile_space(7);
    let moves = m.on_hotkey(HotkeyAction::SetLayout(LayoutMode::Monocle), 7);
    assert_eq!(moves.len(), 1);
    assert_eq!(moves[0].frame, Frame::Exact(Rect { x: 8, y: 33, width: 1904, height: 1039 }));
    assert!(m.on_hotkey(HotkeyAction::Focus(Direction::North), 7).is_empty());
    m.on_hotkey(HotkeyAction::ToggleScratchpad, 7);
    assert_eq!(m.scratchpad, vec![1]);
}

#[test]
fn space_rules_move_windows_to_their_space() {
    let mut config = MosaicConfig::default();
    config.rules.push(mosaic::config::RuleConfig {
        app_name: Some("Mail".to_string()),
        title_contains: None,
        action: "space:5".to_string(),
    });
    let mut m = Mosaic::new(config, 1, None);
    m.tracker.add_window(window(1, "Mail", "Inbox", 1));
    m.tracker.apply_rules(1);
    let w = m.tracker.get_window(1).unwrap();
    assert_eq!(w.space_id, 5);
    assert!(!w.is_floating);
    assert_eq!(m.tracker.managed_windows().len(), 1);
}

#[test]
fn space_polling_follows_changes_after_the_first() {
    assert_eq!(space_poll_step(0, 4), (4, false));
    assert_eq!(space_poll_step(4, 4), (4, false));
    assert_eq!(space_poll_step(4, 9), (9, true));
}
