//! The global hotkeys: a main mode and a resize mode, and what each key does
//! in each mode.

use vstd::prelude::*;

use crate::layout::{Direction, EngineView, LayoutMode};
use crate::state::{Mosaic, MosaicView, WindowMove};

verus! {

/// Which set of hotkeys is live.
#[derive(Clone, Copy, Debug, PartialEq, Eq, Structural)]
pub enum KeyMode {
    /// Alt with a letter: layouts, focus, the scratchpad, and the way into
    /// resize mode.
    Main,
    /// Bare letters resize; Escape or Enter go back to the main mode.
    Resize,
}

/// A hotkey that was pressed.
#[derive(Clone, Copy, Debug, PartialEq, Eq, Structural)]
pub enum Hotkey {
    /// Alt-E.
    Bsp,
    /// Alt-F.
    Monocle,
    /// Alt-H, Alt-J, Alt-K, Alt-L.
    Focus(Direction),
    /// Alt-R.
    ResizeMode,
    /// Alt-minus.
    Scratchpad,
    /// H, J, K, L in resize mode.
    Resize(Direction),
    /// Escape in resize mode.
    Escape,
    /// Enter in resize mode.
    Enter,
}

/// What a hotkey asks for.
#[derive(Clone, Copy, Debug, PartialEq, Eq, Structural)]
pub enum HotkeyAction {
    /// Register the resize-mode keys.
    EnterResizeMode,
    /// Unregister the resize-mode keys.
    LeaveResizeMode,
    /// Arrange the active space this way, if it has a layout engine.
    SetLayout(LayoutMode),
    /// Focus in a direction (only reported).
    Focus(Direction),
    /// Resize in a direction (only reported).
    Resize(Direction),
    /// Summon or banish a window through the scratchpad.
    ToggleScratchpad,
    /// Nothing.
    Ignore,
}

/// The mode after a hotkey, and what the hotkey asks for. Alt-R enters the
/// resize mode from the main mode; Escape or Enter leave it. Otherwise the
/// mode stays, and only the keys of the current mode act.
pub open spec fn hotkey_transition(mode: KeyMode, key: Hotkey) -> (KeyMode, HotkeyAction) {
    match (mode, key) {
        (KeyMode::Main, Hotkey::ResizeMode) => (KeyMode::Resize, HotkeyAction::EnterResizeMode),
        (KeyMode::Resize, Hotkey::Escape) => (KeyMode::Main, HotkeyAction::LeaveResizeMode),
        (KeyMode::Resize, Hotkey::Enter) => (KeyMode::Main, HotkeyAction::LeaveResizeMode),
        (KeyMode::Main, Hotkey::Bsp) => (KeyMode::Main, HotkeyAction::SetLayout(LayoutMode::Bsp)),
        (KeyMode::Main, Hotkey::Monocle) => (KeyMode::Main, HotkeyAction::SetLayout(LayoutMode::Monocle)),
        (KeyMode::Main, Hotkey::Focus(d)) => (KeyMode::Main, HotkeyAction::Focus(d)),
        (KeyMode::Main, Hotkey::Scratchpad) => (KeyMode::Main, HotkeyAction::ToggleScratchpad),
        (KeyMode::Resize, Hotkey::Resize(d)) => (KeyMode::Resize, HotkeyAction::Resize(d)),
        (m, _) => (m, HotkeyAction::Ignore),
    }
}

/// Decides what a pressed hotkey does in a mode.
pub fn hotkey_step(mode: KeyMode, key: Hotkey) -> (r: (KeyMode, HotkeyAction))
    ensures
        r == hotkey_transition(mode, key),
{
    match (mode, key) {
        (KeyMode::Main, Hotkey::ResizeMode) => (KeyMode::Resize, HotkeyAction::EnterResizeMode),
        (KeyMode::Resize, Hotkey::Escape) => (KeyMode::Main, HotkeyAction::LeaveResizeMode),
        (KeyMode::Resize, Hotkey::Enter) => (KeyMode::Main, HotkeyAction::LeaveResizeMode),
        (KeyMode::Main, Hotkey::Bsp) => (KeyMode::Main, HotkeyAction::SetLayout(LayoutMode::Bsp)),
        (KeyMode::Main, Hotkey::Monocle) => (KeyMode::Main, HotkeyAction::SetLayout(LayoutMode::Monocle)),
        (KeyMode::Main, Hotkey::Focus(d)) => (KeyMode::Main, HotkeyAction::Focus(d)),
        (KeyMode::Main, Hotkey::Scratchpad) => (KeyMode::Main, HotkeyAction::ToggleScratchpad),
        (KeyMode::Resize, Hotkey::Resize(d)) => (KeyMode::Resize, HotkeyAction::Resize(d)),
        (m, _) => (m, HotkeyAction::Ignore),
    }
}

impl MosaicView {
    /// The state after a hotkey's action on the active space `a`: a layout
    /// is set (and the space retiled) only when the space has an engine; the
    /// scratchpad is toggled; nothing else changes the state.
    pub open spec fn after_hotkey(self, action: HotkeyAction, a: u64) -> MosaicView {
        match action {
            HotkeyAction::SetLayout(m) => if self.layouts.contains_key(a) {
                MosaicView {
                    layouts: self.layouts.insert(a, EngineView { mode: m, ..self.layouts[a] }),
                    ..self
                }.retiled(a)
            } else {
                self
            },
            HotkeyAction::ToggleScratchpad => self.scratchpad_toggled(a),
            _ => self,
        }
    }

    /// The moves a hotkey's action asks for.
    pub open spec fn hotkey_moves(self, action: HotkeyAction, a: u64) -> Seq<WindowMove> {
        match action {
            HotkeyAction::SetLayout(m) => if self.layouts.contains_key(a) {
                MosaicView {
                    layouts: self.layouts.insert(a, EngineView { mode: m, ..self.layouts[a] }),
                    ..self
                }.retile_moves(a)
            } else {
                Seq::empty()
            },
            HotkeyAction::ToggleScratchpad => self.scratchpad_moves(a),
            _ => Seq::empty(),
        }
    }
}

impl Mosaic {
    /// Carries out a hotkey's action on the active space, returning the moves.
    pub fn on_hotkey(&mut self, action: HotkeyAction, active_space: u64) -> (r: Vec<WindowMove>)
        requires
            old(self).wf(),
        ensures
            final(self).wf(),
            final(self)@ == old(self)@.after_hotkey(action, active_space),
            r@ == old(self)@.hotkey_moves(action, active_space),
    {
        match action {
            HotkeyAction::SetLayout(m) => {
                if self.layouts.contains_key(&active_space) {
                    let mut engine = self.take_engine(active_space);
                    engine.set_mode(m);
                    self.put_engine(active_space, engine);
                    proof {
                        assert(self@.layouts =~= old(self)@.layouts.insert(
                            active_space,
                            EngineView { mode: m, ..old(self)@.layouts[active_space] },
                        ));
                    }
                    self.retile_space(active_space)
                } else {
                    Vec::new()
                }
            },
            HotkeyAction::ToggleScratchpad => self.toggle_scratchpad(active_space),
            _ => Vec::new(),
        }
    }
}


/// Alt-R leads from the main mode to the resize mode, and Escape or Enter
/// lead back; the keys of the other mode do nothing.
pub proof fn law_resize_mode_round_trip(key: Hotkey)
    ensures
        hotkey_transition(KeyMode::Main, Hotkey::ResizeMode) == (KeyMode::Resize, HotkeyAction::EnterResizeMode),
        hotkey_transition(KeyMode::Resize, Hotkey::Escape) == (KeyMode::Main, HotkeyAction::LeaveResizeMode),
        hotkey_transition(KeyMode::Resize, Hotkey::Enter) == (KeyMode::Main, HotkeyAction::LeaveResizeMode),
        !(key is Escape || key is Enter || key is Resize) ==> hotkey_transition(KeyMode::Resize, key) == (
            KeyMode::Resize,
            HotkeyAction::Ignore,
        ),
        (key is Escape || key is Enter || key is Resize) ==> hotkey_transition(KeyMode::Main, key) == (
            KeyMode::Main,
            HotkeyAction::Ignore,
        ),
{
}

} // verus!
