//! Configuration: gaps, keybindings, window rules and the blacklist, with
//! the defaults used when no configuration file can be read.

use vstd::prelude::*;

use crate::text::{parse_u64, parse_u64_spec};
use crate::window::{RuleAction, WindowRule};

verus! {

/// General settings.
pub struct GeneralConfig {
    /// Default layout mode: "bsp", "monocle" or "master-stack".
    pub layout: String,
    /// Whether focus follows the mouse cursor.
    pub focus_follows_mouse: bool,
    /// Whether to start tiling on launch.
    pub auto_tile: bool,
    /// Share of the width for the master column, in parts of `RATIO_SCALE`.
    pub master_ratio: u32,
    /// Whether to animate window movements.
    pub animate: bool,
    /// Log level: "trace", "debug", "info", "warn" or "error".
    pub log_level: String,
}

/// Gap configuration, in pixels.
#[derive(Clone, Copy, Debug, PartialEq, Eq, Structural)]
pub struct GapConfig {
    /// Pixels between windows.
    pub inner: u32,
    /// Pixels between windows and the screen edges.
    pub outer: u32,
}

/// A keybinding definition.
#[derive(Clone, Debug)]
pub struct Keybinding {
    /// Modifier keys: "cmd", "alt", "ctrl", "shift".
    pub modifiers: Vec<String>,
    /// The key to bind, e.g. "h" or "space".
    pub key: String,
    /// The action to run, e.g. "focus east".
    pub action: String,
}

/// A window rule as written in the configuration.
#[derive(Clone, Debug)]
pub struct RuleConfig {
    /// Match by application name.
    pub app_name: Option<String>,
    /// Match by a substring of the window title.
    pub title_contains: Option<String>,
    /// "float", "ignore" or "space:<id>"; anything else floats.
    pub action: String,
}

/// The whole configuration.
pub struct MosaicConfig {
    pub general: GeneralConfig,
    pub gaps: GapConfig,
    pub keybindings: Vec<Keybinding>,
    pub rules: Vec<RuleConfig>,
    /// Applications that are never managed.
    pub blacklist: Vec<String>,
}

/// The default share of the master column: half the width.
pub const DEFAULT_MASTER_RATIO: u32 = 500;

impl Default for GeneralConfig {
    fn default() -> (r: Self)
        ensures
            r.layout@ == "bsp"@,
            !r.focus_follows_mouse,
            r.auto_tile,
            r.master_ratio == DEFAULT_MASTER_RATIO,
            !r.animate,
            r.log_level@ == "info"@,
    {
        GeneralConfig {
            layout: String::from_str("bsp"),
            focus_follows_mouse: false,
            auto_tile: true,
            master_ratio: DEFAULT_MASTER_RATIO,
            animate: false,
            log_level: String::from_str("info"),
        }
    }
}

impl Default for GapConfig {
    fn default() -> (r: Self)
        ensures
            r.inner == 8,
            r.outer == 8,
    {
        GapConfig { inner: 8, outer: 8 }
    }
}

/// The text of each string, in order.
pub open spec fn texts(v: Seq<String>) -> Seq<Seq<char>> {
    v.map_values(|s: String| s@)
}

pub open spec fn alt_mods() -> Seq<Seq<char>> {
    seq!["alt"@]
}

pub open spec fn alt_shift_mods() -> Seq<Seq<char>> {
    seq!["alt"@, "shift"@]
}

/// Whether a keybinding has these modifiers, key and action.
pub open spec fn binds(k: Keybinding, mods: Seq<Seq<char>>, key: Seq<char>, action: Seq<char>) -> bool {
    &&& texts(k.modifiers@) == mods
    &&& k.key@ == key
    &&& k.action@ == action
}

/// The default keybindings: modifiers, key and action of each, in order.
pub open spec fn default_keybinding_table() -> Seq<(Seq<Seq<char>>, Seq<char>, Seq<char>)> {
    seq![
        (alt_mods(), "h"@, "focus west"@),
        (alt_mods(), "j"@, "focus south"@),
        (alt_mods(), "k"@, "focus north"@),
        (alt_mods(), "l"@, "focus east"@),
        (alt_shift_mods(), "h"@, "swap west"@),
        (alt_shift_mods(), "j"@, "swap south"@),
        (alt_shift_mods(), "k"@, "swap north"@),
        (alt_shift_mods(), "l"@, "swap east"@),
        (alt_mods(), "f"@, "toggle fullscreen"@),
        (alt_shift_mods(), "space"@, "toggle float"@),
        (alt_mods(), "e"@, "layout bsp"@),
        (alt_mods(), "m"@, "layout monocle"@),
        (alt_mods(), "r"@, "rotate tree"@),
        (alt_mods(), "equal"@, "equalize tree"@),
        (alt_mods(), "1"@, "space 1"@),
        (alt_mods(), "2"@, "space 2"@),
        (alt_mods(), "3"@, "space 3"@),
        (alt_mods(), "4"@, "space 4"@),
        (alt_mods(), "5"@, "space 5"@),
        (alt_shift_mods(), "1"@, "move-to-space 1"@),
        (alt_shift_mods(), "2"@, "move-to-space 2"@),
        (alt_shift_mods(), "3"@, "move-to-space 3"@),
        (alt_shift_mods(), "4"@, "move-to-space 4"@),
        (alt_shift_mods(), "5"@, "move-to-space 5"@),
    ]
}

fn binding(shift: bool, key: &str, action: &str) -> (r: Keybinding)
    ensures
        binds(r, if shift { alt_shift_mods() } else { alt_mods() }, key@, action@),
{
    let mut modifiers: Vec<String> = Vec::new();
    modifiers.push(String::from_str("alt"));
    if shift {
        modifiers.push(String::from_str("shift"));
    }
    proof {
        assert(texts(modifiers@) =~= if shift { alt_shift_mods() } else { alt_mods() });
    }
    Keybinding { modifiers, key: String::from_str(key), action: String::from_str(action) }
}

/// The default keybindings: focus and swap in four directions, layout
/// toggles, tree rotation and equalization, and switching and moving to
/// spaces one to five.
#[verifier::rlimit(40)]
pub fn default_keybindings() -> (r: Vec<Keybinding>)
    ensures
        r@.len() == default_keybinding_table().len(),
        forall|i: int|
            0 <= i < r@.len() ==> binds(
                #[trigger] r@[i],
                default_keybinding_table()[i].0,
                default_keybinding_table()[i].1,
                default_keybinding_table()[i].2,
            ),
{
    let mut out: Vec<Keybinding> = Vec::new();
    out.push(binding(false, "h", "focus west"));
    out.push(binding(false, "j", "focus south"));
    out.push(binding(false, "k", "focus north"));
    out.push(binding(false, "l", "focus east"));
    out.push(binding(true, "h", "swap west"));
    out.push(binding(true, "j", "swap south"));
    out.push(binding(true, "k", "swap north"));
    out.push(binding(true, "l", "swap east"));
    out.push(binding(false, "f", "toggle fullscreen"));
    out.push(binding(true, "space", "toggle float"));
    out.push(binding(false, "e", "layout bsp"));
    out.push(binding(false, "m", "layout monocle"));
    out.push(binding(false, "r", "rotate tree"));
    out.push(binding(false, "equal", "equalize tree"));
    out.push(binding(false, "1", "space 1"));
    out.push(binding(false, "2", "space 2"));
    out.push(binding(false, "3", "space 3"));
    out.push(binding(false, "4", "space 4"));
    out.push(binding(false, "5", "space 5"));
    out.push(binding(true, "1", "move-to-space 1"));
    out.push(binding(true, "2", "move-to-space 2"));
    out.push(binding(true, "3", "move-to-space 3"));
    out.push(binding(true, "4", "move-to-space 4"));
    out.push(binding(true, "5", "move-to-space 5"));
    proof {
        let t = default_keybinding_table();
        assert forall|i: int| 0 <= i < out@.len() implies binds(
            #[trigger] out@[i],
            t[i].0,
            t[i].1,
            t[i].2,
        ) by {}
    }
    out
}

/// Whether a rule from the configuration has these fields.
pub open spec fn rule_is(r: RuleConfig, app: Option<Seq<char>>, title: Option<Seq<char>>, action: Seq<char>) -> bool {
    &&& match r.app_name {
        Some(a) => app == Some(a@),
        None => app is None,
    }
    &&& match r.title_contains {
        Some(t) => title == Some(t@),
        None => title is None,
    }
    &&& r.action@ == action
}

/// The default rules: float Calculator, System Settings, and Finder windows
/// whose title contains "Copy".
pub fn default_rules() -> (r: Vec<RuleConfig>)
    ensures
        r@.len() == 3,
        rule_is(r@[0], Some("Calculator"@), None, "float"@),
        rule_is(r@[1], Some("System Settings"@), None, "float"@),
        rule_is(r@[2], Some("Finder"@), Some("Copy"@), "float"@),
{
    let mut out: Vec<RuleConfig> = Vec::new();
    out.push(
        RuleConfig {
            app_name: Some(String::from_str("Calculator")),
            title_contains: None,
            action: String::from_str("float"),
        },
    );
    out.push(
        RuleConfig {
            app_name: Some(String::from_str("System Settings")),
            title_contains: None,
            action: String::from_str("float"),
        },
    );
    out.push(
        RuleConfig {
            app_name: Some(String::from_str("Finder")),
            title_contains: Some(String::from_str("Copy")),
            action: String::from_str("float"),
        },
    );
    out
}

/// The applications that are never managed by default.
pub open spec fn default_blacklist_names() -> Seq<Seq<char>> {
    seq![
        "Notification Centre"@,
        "Control Centre"@,
        "Dock"@,
        "WindowManager"@,
        "SystemUIServer"@,
    ]
}

/// The default blacklist: the system's own overlay applications.
pub fn default_blacklist() -> (r: Vec<String>)
    ensures
        texts(r@) == default_blacklist_names(),
{
    let mut out: Vec<String> = Vec::new();
    out.push(String::from_str("Notification Centre"));
    out.push(String::from_str("Control Centre"));
    out.push(String::from_str("Dock"));
    out.push(String::from_str("WindowManager"));
    out.push(String::from_str("SystemUIServer"));
    proof {
        assert(texts(out@) =~= default_blacklist_names());
    }
    out
}

impl MosaicConfig {
    /// The default configuration.
    pub fn default_config() -> (r: Self)
        ensures
            r.general.layout@ == "bsp"@,
            !r.general.focus_follows_mouse,
            r.general.auto_tile,
            r.general.master_ratio == DEFAULT_MASTER_RATIO,
            !r.general.animate,
            r.general.log_level@ == "info"@,
            r.gaps == (GapConfig { inner: 8, outer: 8 }),
            r.keybindings@.len() == default_keybinding_table().len(),
            forall|i: int|
                0 <= i < r.keybindings@.len() ==> binds(
                    #[trigger] r.keybindings@[i],
                    default_keybinding_table()[i].0,
                    default_keybinding_table()[i].1,
                    default_keybinding_table()[i].2,
                ),
            r.rules@.len() == 3,
            rule_is(r.rules@[0], Some("Calculator"@), None, "float"@),
            rule_is(r.rules@[1], Some("System Settings"@), None, "float"@),
            rule_is(r.rules@[2], Some("Finder"@), Some("Copy"@), "float"@),
            texts(r.blacklist@) == default_blacklist_names(),
    {
        MosaicConfig {
            general: GeneralConfig::default(),
            gaps: GapConfig::default(),
            keybindings: default_keybindings(),
            rules: default_rules(),
            blacklist: default_blacklist(),
        }
    }
}

impl Default for MosaicConfig {
    fn default() -> (r: Self)
        ensures
            r.general.layout@ == "bsp"@,
            r.gaps == (GapConfig { inner: 8, outer: 8 }),
            r.rules@.len() == 3,
            texts(r.blacklist@) == default_blacklist_names(),
    {
        MosaicConfig::default_config()
    }
}

/// The space a rule's action assigns: `space:` followed by a space
/// identifier written in decimal.
pub open spec fn assigned_space(action: Seq<char>) -> Option<nat> {
    if action.len() >= 6 && action.take(6) == "space:"@ {
        parse_u64_spec(action.skip(6))
    } else {
        None
    }
}

/// What a rule's action text means: "ignore" ignores, "space:<id>" moves
/// the window to that space, and "float" (or anything else) floats.
pub open spec fn rule_action_of(action: Seq<char>) -> RuleAction {
    if action == "ignore"@ {
        RuleAction::Ignore
    } else if assigned_space(action) is Some {
        RuleAction::AssignToSpace(assigned_space(action)->0 as u64)
    } else {
        RuleAction::Float
    }
}

/// Reads the space a rule's action assigns.
fn parse_assigned_space(action: &str) -> (r: Option<u64>)
    ensures
        r matches Some(v) ==> assigned_space(action@) == Some(v as nat),
        r is None ==> assigned_space(action@) is None,
{
    let n = action.unicode_len();
    if n < 6 {
        return None;
    }
    let head = action.substring_char(0, 6);
    if !crate::text::str_eq(head, "space:") {
        proof {
            assert(head@ =~= action@.take(6));
        }
        return None;
    }
    let rest = action.substring_char(6, n);
    proof {
        assert(head@ =~= action@.take(6));
        assert(rest@ =~= action@.skip(6));
    }
    parse_u64(rest)
}

/// Turns a configured rule into a window rule.
pub fn window_rule_from(rule: &RuleConfig) -> (r: WindowRule)
    ensures
        r.app_name == rule.app_name,
        r.title_contains == rule.title_contains,
        r.action == rule_action_of(rule.action@),
{
    let action = if crate::text::str_eq(rule.action.as_str(), "ignore") {
        RuleAction::Ignore
    } else {
        match parse_assigned_space(rule.action.as_str()) {
            Some(space) => RuleAction::AssignToSpace(space),
            None => RuleAction::Float,
        }
    };
    WindowRule { app_name: rule.app_name.clone(), title_contains: rule.title_contains.clone(), action }
}

} // verus!
