use mosaic::config::MosaicConfig;
use mosaic::ipc::{is_blank_line, mode_string, parse_command, parse_direction, Command, Effect, Environment, QueryTarget};
use mosaic::layout::{Direction, Frame, LayoutMode, Rect, SplitDirection};
use mosaic::state::Mosaic;
use mosaic::text::{float_thousandths, is_float_word};
use mosaic::window::TrackedWindow;

fn window(id: u32, app: &str, title: &str, space: u64) -> TrackedWindow {
    TrackedWindow {
        id,
        owner_pid: 100 + id as i32,
        owner_name: app.to_string(),
        title: title.to_string(),
        frame: Rect { x: 0, y: 0, width: 800, height: 600 },
        is_minimized: false,
        is_floating: false,
        space_id: space,
        is_fullscreen: false,
    }
}

fn env(active: u64) -> Environment {
    Environment { active_space: active, spaces: vec![7, 8], windows: Vec::new() }
}

/// Two windows on space 7, the first focused, already tiled.
fn state() -> Mosaic {
    let mut m = Mosaic::new(MosaicConfig::default(), 1, None);
    m.tracker.add_window(window(1, "Safari", "Docs", 7));
    m.tracker.add_window(window(2, "Mail", "Inbox", 7));
    m.tracker.set_focused(1);
    m.retile_space(7);
    m
}

fn placed_ids(effects: &[Effect]) -> Vec<u32> {
    effects
        .iter()
        .filter_map(|e| match e {
            Effect::Place(m) => Some(m.window_id),
            _ => None,
        })
        .collect()
}

#[test]
fn directions_have_compass_and_arrow_names() {
    assert_eq!(parse_direction("north"), Some(Direction::North));
    assert_eq!(parse_direction("up"), Some(Direction::North));
    assert_eq!(parse_direction("down"), Some(Direction::South));
    assert_eq!(parse_direction("right"), Some(Direction::East));
    assert_eq!(parse_direction("left"), Some(Direction::West));
    assert_eq!(parse_direction("West"), None);
}

#[test]
fn commands_are_read_from_their_words() {
    assert_eq!(parse_command("focus east"), Ok(Command::Focus(Direction::East)));
    assert_eq!(parse_command("  swap   up  "), Ok(Command::Swap(Direction::North)));
    assert_eq!(parse_command("move-to-space 2"), Ok(Command::MoveToSpace(2)));
    assert_eq!(parse_command("space +3"), Ok(Command::SwitchSpace(3)));
    assert_eq!(parse_command("layout master_stack"), Ok(Command::Layout(LayoutMode::MasterStack { master_ratio: 550 })));
    assert_eq!(parse_command("toggle fullscreen"), Ok(Command::ToggleFullscreen));
    assert_eq!(parse_command("rotate tree"), Ok(Command::Rotate));
    assert_eq!(parse_command("equalize"), Ok(Command::Equalize));
    assert_eq!(parse_command("resize up 0.05"), Ok(Command::Resize(SplitDirection::Vertical, -50)));
    assert_eq!(parse_command("resize down .25"), Ok(Command::Resize(SplitDirection::Vertical, 250)));
    assert_eq!(parse_command("resize west -1e3"), Ok(Command::Resize(SplitDirection::Horizontal, 1000)));
    assert_eq!(parse_command("resize east nan"), Ok(Command::Resize(SplitDirection::Horizontal, 0)));
    assert_eq!(parse_command("retile"), Ok(Command::Retile));
    assert_eq!(parse_command("query focused"), Ok(Command::Query(QueryTarget::Focused)));
    assert_eq!(parse_command("quit now"), Ok(Command::Quit));
}

#[test]
fn commands_that_are_not_understood_are_errors() {
    assert_eq!(parse_command(""), Err("error: empty command".to_string()));
    assert_eq!(parse_command("focus"), Err("error: focus requires a direction (north|south|east|west)".to_string()));
    assert_eq!(parse_command("swap"), Err("error: swap requires a direction (north|south|east|west)".to_string()));
    assert_eq!(parse_command("focus sideways"), Err("error: invalid direction 'sideways'".to_string()));
    assert_eq!(parse_command("move-to-space"), Err("error: move-to-space requires a space number".to_string()));
    assert_eq!(parse_command("space"), Err("error: space requires a space number".to_string()));
    assert_eq!(parse_command("space -1"), Err("error: invalid space number '-1'".to_string()));
    assert_eq!(parse_command("move-to-space two"), Err("error: invalid space number 'two'".to_string()));
    assert_eq!(parse_command("layout"), Err("error: layout requires a mode (bsp|monocle|master-stack)".to_string()));
    assert_eq!(parse_command("layout grid"), Err("error: unknown layout mode 'grid'".to_string()));
    assert_eq!(parse_command("toggle"), Err("error: toggle requires a target (float|fullscreen)".to_string()));
    assert_eq!(parse_command("toggle sticky"), Err("error: unknown toggle target 'sticky'".to_string()));
    assert_eq!(parse_command("resize east"), Err("error: resize requires <direction> <delta>".to_string()));
    assert_eq!(parse_command("resize diagonal 1"), Err("error: invalid direction 'diagonal'".to_string()));
    assert_eq!(parse_command("resize east abc"), Err("error: invalid delta 'abc'".to_string()));
    assert_eq!(parse_command("query"), Err("error: query requires a target (windows|spaces|focused)".to_string()));
    assert_eq!(parse_command("query apps"), Err("error: unknown query target 'apps'".to_string()));
    assert_eq!(parse_command("dance"), Err("error: unknown command 'dance'".to_string()));
}

#[test]
fn float_words_follow_the_float_grammar() {
    for ok in ["0.05", "-1e3", "+.5", "1.", "7", "inf", "-Infinity", "NaN", "2.5E-3", "1e+9"] {
        assert!(is_float_word(ok), "{ok}");
    }
    for bad in [".", "e5", "1e", "1.2.3", "abc", "", "+", "1e+", "infinit", "0x10", "1_0"] {
        assert!(!is_float_word(bad), "{bad}");
    }
}

#[test]
fn blank_lines_are_skipped() {
    assert!(is_blank_line(""));
    assert!(is_blank_line(" \t "));
    assert!(!is_blank_line(" retile "));
}

#[test]
fn layout_modes_are_written_as_debug_does() {
    assert_eq!(mode_string(LayoutMode::Bsp), "Bsp");
    assert_eq!(mode_string(LayoutMode::Monocle), "Monocle");
    assert_eq!(mode_string(LayoutMode::MasterStack { master_ratio: 550 }), "MasterStack { master_ratio: 0.55 }");
    assert_eq!(mode_string(LayoutMode::MasterStack { master_ratio: 500 }), format!("{:?}", LayoutMode::MasterStack { master_ratio: 500 }).replace("500", "0.5"));
    assert_eq!(mode_string(LayoutMode::MasterStack { master_ratio: 1000 }), "MasterStack { master_ratio: 1.0 }");
    assert_eq!(mode_string(LayoutMode::MasterStack { master_ratio: 0 }), "MasterStack { master_ratio: 0.0 }");
    assert_eq!(mode_string(LayoutMode::MasterStack { master_ratio: 1234 }), "MasterStack { master_ratio: 1.234 }");
    assert_eq!(mode_string(LayoutMode::MasterStack { master_ratio: 50 }), "MasterStack { master_ratio: 0.05 }");
}

#[test]
fn focus_moves_to_the_next_window() {
    let mut m = state();
    let r = m.handle_command("focus east", env(7));
    assert_eq!(r.text, "ok: focused window 2");
    assert!(r.effects.is_empty());
    assert_eq!(m.tracker.get_focused().map(|w| w.id), Some(2));
    let r = m.handle_command("focus west", env(7));
    assert_eq!(r.text, "ok: focused window 1");
    let r = m.handle_command("focus north", env(7));
    assert_eq!(r.text, "error: no window in that direction");
    let r = m.handle_command("focus west", env(7));
    assert_eq!(r.text, "error: no window in that direction");
}

#[test]
fn focus_without_a_neighbour_is_an_error() {
    let mut m = Mosaic::new(MosaicConfig::default(), 1, None);
    let r = m.handle_command("focus east", env(7));
    assert_eq!(r.text, "error: no window in that direction");
    m.tracker.add_window(window(1, "Safari", "Docs", 7));
    m.tracker.set_focused(1);
    let r = m.handle_command("focus east", env(7));
    assert_eq!(r.text, "error: no window in that direction");
    assert!(m.layouts.contains_key(&7));
}

#[test]
fn swap_exchanges_and_retiles() {
    let mut m = state();
    let r = m.handle_command("swap east", env(7));
    assert_eq!(r.text, "ok: swapped 1 with 2");
    assert_eq!(placed_ids(&r.effects), vec![2, 1]);
    match &r.effects[0] {
        Effect::Place(mv) => {
            assert_eq!(mv.owner_pid, 102);
            assert_eq!(mv.title, "Inbox");
            assert_eq!(mv.frame, Frame::Exact(Rect { x: 8, y: 33, width: 948, height: 1039 }));
        }
        _ => panic!("expected a move"),
    }
    let mut lone = Mosaic::new(MosaicConfig::default(), 1, None);
    let r = lone.handle_command("swap east", env(7));
    assert_eq!(r.text, "error: no window to swap with in that direction");
}

#[test]
fn move_to_space_asks_the_window_server_and_retiles_both_spaces() {
    let mut m = state();
    let r = m.handle_command("move-to-space 0", env(7));
    assert_eq!(r.text, "error: space 0 does not exist (have 2)");
    let r = m.handle_command("move-to-space 3", env(7));
    assert_eq!(r.text, "error: space 3 does not exist (have 2)");
    let r = m.handle_command("move-to-space 2", env(7));
    assert_eq!(r.text, "ok: moved window 1 to space 2");
    assert!(matches!(r.effects[0], Effect::MoveWindowToSpace { window_id: 1, space_id: 8 }));
    assert_eq!(placed_ids(&r.effects), vec![2, 1]);
    assert_eq!(m.tracker.get_window(1).unwrap().space_id, 8);
    assert!(!m.layouts.get(&7).unwrap().has_window(1));
    assert!(m.layouts.get(&8).unwrap().has_window(1));
    let mut empty = Mosaic::new(MosaicConfig::default(), 1, None);
    let r = empty.handle_command("move-to-space 1", env(7));
    assert_eq!(r.text, "error: no focused window");
}

#[test]
fn space_switches_through_the_window_server() {
    let mut m = state();
    let r = m.handle_command("space 2", env(7));
    assert_eq!(r.text, "ok: switched to space 2");
    assert!(matches!(r.effects[..], [Effect::SwitchToSpace { space_id: 8 }]));
    let r = m.handle_command("space 3", env(7));
    assert_eq!(r.text, "error: space 3 does not exist");
    assert!(r.effects.is_empty());
}

#[test]
fn layout_sets_the_mode_and_retiles() {
    let mut m = state();
    let r = m.handle_command("layout monocle", env(7));
    assert_eq!(r.text, "ok: layout set to Monocle");
    let region = Rect { x: 8, y: 33, width: 1904, height: 1039 };
    let frames: Vec<Frame> = r
        .effects
        .iter()
        .filter_map(|e| match e {
            Effect::Place(mv) => Some(mv.frame),
            _ => None,
        })
        .collect();
    assert_eq!(frames, vec![Frame::Exact(region), Frame::Exact(region)]);
    let r = m.handle_command("layout master-stack", env(7));
    assert_eq!(r.text, "ok: layout set to MasterStack { master_ratio: 0.55 }");
}

#[test]
fn toggle_float_untiles_the_focused_window() {
    let mut m = state();
    let r = m.handle_command("toggle float", env(7));
    assert_eq!(r.text, "ok: toggled float for window 1");
    assert!(m.tracker.get_window(1).unwrap().is_floating);
    assert_eq!(placed_ids(&r.effects), vec![1, 2]);
    let r = m.handle_command("toggle fullscreen", env(7));
    assert_eq!(r.text, "ok: fullscreen toggle (not yet implemented)");
}

#[test]
fn rotate_equalize_resize_and_retile_answer_ok() {
    let mut m = state();
    let r = m.handle_command("rotate tree", env(7));
    assert_eq!(r.text, "ok: tree rotated");
    match &r.effects[0] {
        Effect::Place(mv) => assert_eq!(mv.frame, Frame::Exact(Rect { x: 8, y: 33, width: 1904, height: 515 })),
        _ => panic!("expected a move"),
    }
    assert_eq!(m.handle_command("equalize tree", env(7)).text, "ok: tree equalized");
    assert_eq!(m.handle_command("resize east 0.05", env(7)).text, "ok: resized window 1");
    let mut e = env(7);
    e.windows = vec![window(2, "Mail", "Inbox (3)", 7)];
    let r = m.handle_command("retile", e);
    assert_eq!(r.text, "ok: retiled");
    assert!(m.tracker.get_window(1).is_none());
    assert_eq!(m.tracker.get_window(2).unwrap().title, "Inbox (3)");
    let mut empty = Mosaic::new(MosaicConfig::default(), 1, None);
    assert_eq!(empty.handle_command("resize east 0.05", env(7)).text, "error: no focused window");
    assert_eq!(empty.handle_command("toggle float", env(7)).text, "error: no focused window");
}

#[test]
fn queries_describe_the_state_as_json() {
    let mut m = state();
    let r = m.handle_command("query windows", env(7));
    assert_eq!(
        r.text,
        "ok [{\"id\":1,\"app\":\"Safari\",\"title\":\"Docs\",\"space\":7,\"floating\":false},{\"id\":2,\"app\":\"Mail\",\"title\":\"Inbox\",\"space\":7,\"floating\":false}]"
    );
    let r = m.handle_command("query spaces", env(8));
    assert_eq!(r.text, "ok [{\"index\":1,\"id\":7,\"active\":false},{\"index\":2,\"id\":8,\"active\":true}]");
    let r = m.handle_command("query focused", env(7));
    assert_eq!(r.text, "ok {\"id\":1,\"app\":\"Safari\",\"title\":\"Docs\"}");
    let mut empty = Mosaic::new(MosaicConfig::default(), 1, None);
    assert_eq!(empty.handle_command("query focused", env(7)).text, "ok null");
    assert_eq!(empty.handle_command("query windows", env(7)).text, "ok []");
}

#[test]
fn quit_asks_to_stop_without_answering() {
    let mut m = state();
    let r = m.handle_command("quit", env(7));
    assert_eq!(r.text, "");
    assert!(matches!(r.effects[..], [Effect::Quit]));
}

#[test]
fn unknown_commands_change_nothing() {
    let mut m = state();
    let r = m.handle_command("dance now", env(7));
    assert_eq!(r.text, "error: unknown command 'dance'");
    assert!(r.effects.is_empty());
    assert_eq!(m.tracker.get_focused().map(|w| w.id), Some(1));
}

#[test]
fn every_answer_to_a_command_is_ok_or_error() {
    for line in [
        "focus east", "swap west", "move-to-space 2", "space 1", "layout bsp", "toggle float",
        "toggle fullscreen", "rotate", "equalize", "resize north 1", "retile", "focus", "nonsense", "",
        "query windows", "query spaces", "query focused", "query apps",
    ] {
        let mut m = state();
        let r = m.handle_command(line, env(7));
        assert!(r.text.starts_with("ok") || r.text.starts_with("error: "), "{line}: {}", r.text);
    }
}

#[test]
fn default_keybinding_actions_are_commands() {
    for binding in mosaic::config::default_keybindings() {
        assert!(parse_command(&binding.action).is_ok(), "{}", binding.action);
    }
}

#[test]
fn resize_amounts_are_read_in_thousandths() {
    let cases = [
        ("0.05", 50), ("-1e3", -1000), ("inf", 1000), ("-Infinity", -1000), ("NaN", 0), (".25", 250),
        ("25e-3", 25), ("0.0005", 0), ("1.5", 1000), ("0.999", 999), ("5e-1", 500), ("0.5e1", 1000),
        ("-0.1", -100), ("1e-999999999999999999999999", 0), ("0.001e3", 1000), ("00.010", 10),
    ];
    for (text, expected) in cases {
        assert_eq!(float_thousandths(text), expected, "{text}");
    }
}

#[test]
fn resize_moves_the_split_of_the_focused_window() {
    let mut m = state();
    let r = m.handle_command("resize east 0.1", env(7));
    assert_eq!(r.text, "ok: resized window 1");
    let frames: Vec<Frame> = r
        .effects
        .iter()
        .filter_map(|e| match e {
            Effect::Place(mv) => Some(mv.frame),
            _ => None,
        })
        .collect();
    assert_eq!(
        frames,
        vec![
            Frame::Exact(Rect { x: 8, y: 33, width: 1137, height: 1039 }),
            Frame::Exact(Rect { x: 1153, y: 33, width: 759, height: 1039 }),
        ]
    );
    let r = m.handle_command("resize west 0.1", env(7));
    match &r.effects[0] {
        Effect::Place(mv) => assert_eq!(mv.frame, Frame::Exact(Rect { x: 8, y: 33, width: 948, height: 1039 })),
        _ => panic!("expected a move"),
    }
    let r = m.handle_command("resize north 0.1", env(7));
    assert_eq!(r.text, "ok: resized window 1");
    match &r.effects[0] {
        Effect::Place(mv) => assert_eq!(mv.frame, Frame::Exact(Rect { x: 8, y: 33, width: 948, height: 1039 })),
        _ => panic!("expected a move"),
    }
}
