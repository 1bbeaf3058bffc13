//! Window tracking: which windows exist, which are tiled, which has focus,
//! and the rules that float, ignore or place windows.

use vstd::prelude::*;

use std::collections::HashSet;

use crate::layout::Rect;
use crate::text::{occurs_in, str_contains};

verus! {

broadcast use vstd::std_specs::hash::group_hash_axioms;

/// A window on the system.
#[derive(Clone, Debug)]
pub struct TrackedWindow {
    /// Window-server identifier.
    pub id: u32,
    /// Process that owns the window.
    pub owner_pid: i32,
    /// Name of the owning application, e.g. "Safari".
    pub owner_name: String,
    /// Window title (may be empty).
    pub title: String,
    /// Position and size, in whole pixels.
    pub frame: Rect,
    /// Minimized to the Dock.
    pub is_minimized: bool,
    /// Toggled into floating mode: never tiled.
    pub is_floating: bool,
    /// The space (virtual desktop) the window lives on.
    pub space_id: u64,
    /// In native fullscreen mode.
    pub is_fullscreen: bool,
}

/// What happens to a window that a rule matches.
#[derive(Clone, Copy, Debug, PartialEq, Eq, Structural)]
pub enum RuleAction {
    /// Float the window: never tile it.
    Float,
    /// Put the window on the given space.
    AssignToSpace(u64),
    /// Do not manage the window at all.
    Ignore,
}

/// A rule that matches windows by application name and title.
#[derive(Clone, Debug)]
pub struct WindowRule {
    /// When set, only windows of this application match.
    pub app_name: Option<String>,
    /// When set, only windows whose title contains this text match.
    pub title_contains: Option<String>,
    /// What happens to a matching window.
    pub action: RuleAction,
}

/// Whether a window is an ordinary application window worth tiling: not
/// minimized, not fullscreen, owned by a named application, and at least one
/// pixel wide and high.
pub open spec fn manageable(w: TrackedWindow) -> bool {
    &&& !w.is_minimized
    &&& !w.is_fullscreen
    &&& w.owner_name@.len() > 0
    &&& w.frame.width >= 1
    &&& w.frame.height >= 1
}

/// Whether a rule matches a window: the application name, when the rule has
/// one, is the window's; the title text, when the rule has one, occurs in the
/// window's title.
pub open spec fn rule_matches_spec(rule: WindowRule, w: TrackedWindow) -> bool {
    &&& (rule.app_name matches Some(a) ==> w.owner_name@ == a@)
    &&& (rule.title_contains matches Some(t) ==> occurs_in(w.title@, t@))
}

/// The actions of the rules that match a window, in rule order.
pub open spec fn matching_actions(rules: Seq<WindowRule>, w: TrackedWindow) -> Seq<RuleAction>
    decreases rules.len(),
{
    if rules.len() == 0 {
        Seq::empty()
    } else {
        let rest = matching_actions(rules.drop_last(), w);
        if rule_matches_spec(rules.last(), w) {
            rest.push(rules.last().action)
        } else {
            rest
        }
    }
}

/// The windows among `ws` (whose identifiers are `ids`) that `keep` accepts,
/// in order.
pub open spec fn select(
    ids: Seq<u32>,
    ws: Seq<TrackedWindow>,
    keep: spec_fn(u32, TrackedWindow) -> bool,
) -> Seq<TrackedWindow>
    decreases ids.len(),
{
    if ids.len() == 0 || ws.len() == 0 {
        Seq::empty()
    } else {
        let rest = select(ids.drop_last(), ws.drop_last(), keep);
        if keep(ids.last(), ws.last()) {
            rest.push(ws.last())
        } else {
            rest
        }
    }
}

/// The identifiers among `ids` that `keep` accepts, in order.
pub open spec fn select_ids(
    ids: Seq<u32>,
    ws: Seq<TrackedWindow>,
    keep: spec_fn(u32, TrackedWindow) -> bool,
) -> Seq<u32>
    decreases ids.len(),
{
    if ids.len() == 0 || ws.len() == 0 {
        Seq::empty()
    } else {
        let rest = select_ids(ids.drop_last(), ws.drop_last(), keep);
        if keep(ids.last(), ws.last()) {
            rest.push(ids.last())
        } else {
            rest
        }
    }
}

/// The state of a window tracker, as the contracts see it.
pub ghost struct TrackerView {
    /// Identifiers of the tracked windows, in the order they were first seen.
    pub ids: Seq<u32>,
    /// The tracked windows, `windows[i]` under `ids[i]`.
    pub windows: Seq<TrackedWindow>,
    /// Identifiers of the windows that are tiled.
    pub managed: Set<u32>,
    pub rules: Seq<WindowRule>,
    pub focused: Option<u32>,
    /// Names of applications that are never managed.
    pub blacklist: Seq<Seq<char>>,
}

impl TrackerView {
    /// Every identifier is tracked once, with one window.
    pub open spec fn wf(self) -> bool {
        &&& self.ids.len() == self.windows.len()
        &&& self.ids.no_duplicates()
    }

    pub open spec fn has(self, id: u32) -> bool {
        self.ids.contains(id)
    }

    pub open spec fn index(self, id: u32) -> int {
        self.ids.index_of(id)
    }

    /// The window tracked under `id`.
    pub open spec fn lookup(self, id: u32) -> Option<TrackedWindow> {
        if self.has(id) {
            Some(self.windows[self.index(id)])
        } else {
            None
        }
    }

    /// Whether a window is tiled when it is added: it is manageable and its
    /// application is not blacklisted.
    pub open spec fn admits(self, w: TrackedWindow) -> bool {
        manageable(w) && !self.blacklist.contains(w.owner_name@)
    }

    /// The tracker with the window under `id` replaced by `w`.
    pub open spec fn with_window(self, id: u32, w: TrackedWindow) -> TrackerView {
        TrackerView { windows: self.windows.update(self.index(id), w), ..self }
    }

    /// The tracker after `add_window(w)`: the window is tracked under its
    /// identifier (replacing a window tracked there) and tiled when admitted.
    pub open spec fn added(self, w: TrackedWindow) -> TrackerView {
        let v = if self.has(w.id) {
            self.with_window(w.id, w)
        } else {
            TrackerView { ids: self.ids.push(w.id), windows: self.windows.push(w), ..self }
        };
        TrackerView {
            managed: if self.admits(w) {
                self.managed.insert(w.id)
            } else {
                self.managed
            },
            ..v
        }
    }

    /// The tracker after `remove_window(id)`.
    pub open spec fn removed(self, id: u32) -> TrackerView {
        let v = if self.has(id) {
            TrackerView {
                ids: self.ids.remove(self.index(id)),
                windows: self.windows.remove(self.index(id)),
                ..self
            }
        } else {
            self
        };
        TrackerView {
            managed: self.managed.remove(id),
            focused: if self.focused == Some(id) {
                None
            } else {
                self.focused
            },
            ..v
        }
    }

    /// The tracker after one rule action on the window under `id`.
    pub open spec fn after_action(self, id: u32, a: RuleAction) -> TrackerView {
        match a {
            RuleAction::Float => {
                let v = if self.has(id) {
                    self.with_window(id, TrackedWindow { is_floating: true, ..self.lookup(id)->0 })
                } else {
                    self
                };
                TrackerView { managed: self.managed.remove(id), ..v }
            },
            RuleAction::AssignToSpace(space) => if self.has(id) {
                self.with_window(id, TrackedWindow { space_id: space, ..self.lookup(id)->0 })
            } else {
                self
            },
            RuleAction::Ignore => TrackerView { managed: self.managed.remove(id), ..self },
        }
    }

    /// The tracker after rule actions, in order, on the window under `id`.
    pub open spec fn after_actions(self, id: u32, acts: Seq<RuleAction>) -> TrackerView
        decreases acts.len(),
    {
        if acts.len() == 0 {
            self
        } else {
            self.after_actions(id, acts.drop_last()).after_action(id, acts.last())
        }
    }

    /// The tracker after `apply_rules(id)`: the actions of every matching rule,
    /// in rule order.
    pub open spec fn with_rules_applied(self, id: u32) -> TrackerView {
        if self.has(id) {
            self.after_actions(id, matching_actions(self.rules, self.lookup(id)->0))
        } else {
            self
        }
    }

    /// The tracker after `toggle_floating(id)`.
    pub open spec fn toggled(self, id: u32) -> TrackerView {
        if self.has(id) {
            let w = self.lookup(id)->0;
            let w2 = TrackedWindow { is_floating: !w.is_floating, ..w };
            TrackerView {
                managed: if w2.is_floating {
                    self.managed.remove(id)
                } else if self.admits(w2) {
                    self.managed.insert(id)
                } else {
                    self.managed
                },
                ..self.with_window(id, w2)
            }
        } else {
            self
        }
    }

    /// The tracker after seeing `w` on screen during a refresh: a known window
    /// takes the new title, frame and application name; a new window is added
    /// and has the rules applied.
    pub open spec fn observed(self, w: TrackedWindow) -> TrackerView {
        if self.has(w.id) {
            let old_w = self.lookup(w.id)->0;
            self.with_window(
                w.id,
                TrackedWindow { title: w.title, frame: w.frame, owner_name: w.owner_name, ..old_w },
            )
        } else {
            self.added(w).with_rules_applied(w.id)
        }
    }

    /// The tracker after seeing every window of `ws`, in order.
    pub open spec fn observed_all(self, ws: Seq<TrackedWindow>) -> TrackerView
        decreases ws.len(),
    {
        if ws.len() == 0 {
            self
        } else {
            self.observed_all(ws.drop_last()).observed(ws.last())
        }
    }

    /// Whether a tracked window is stale: it was not seen.
    pub open spec fn stale(self, seen: Seq<u32>, id: u32) -> bool {
        self.has(id) && !seen.contains(id)
    }

    /// The tracker with every window that was not seen removed.
    pub open spec fn pruned(self, seen: Seq<u32>) -> TrackerView {
        let keep = |id: u32, w: TrackedWindow| seen.contains(id);
        TrackerView {
            ids: select_ids(self.ids, self.windows, keep),
            windows: select(self.ids, self.windows, keep),
            managed: self.managed.filter(|id: u32| !self.stale(seen, id)),
            focused: match self.focused {
                Some(f) => if self.stale(seen, f) {
                    None
                } else {
                    Some(f)
                },
                None => None,
            },
            ..self
        }
    }

    /// The tracker after `refresh(discovered)`.
    pub open spec fn refreshed(self, discovered: Seq<TrackedWindow>) -> TrackerView {
        self.observed_all(discovered).pruned(discovered.map_values(|w: TrackedWindow| w.id))
    }
}

/// The applications that are never managed, unless configured otherwise.
pub open spec fn default_blacklisted_apps() -> Seq<Seq<char>> {
    seq![
        "Notification Centre"@,
        "Control Centre"@,
        "Dock"@,
        "WindowManager"@,
        "SystemUIServer"@,
    ]
}

/// Keeps track of every window, decides which are tiled, and applies rules.
pub struct WindowTracker {
    ids: Vec<u32>,
    windows: Vec<TrackedWindow>,
    managed_windows: HashSet<u32>,
    rules: Vec<WindowRule>,
    focused_window: Option<u32>,
    blacklisted_apps: Vec<String>,
}

impl View for WindowTracker {
    type V = TrackerView;

    closed spec fn view(&self) -> TrackerView {
        TrackerView {
            ids: self.ids@,
            windows: self.windows@,
            managed: self.managed_windows@,
            rules: self.rules@,
            focused: self.focused_window,
            blacklist: self.blacklisted_apps@.map_values(|s: String| s@),
        }
    }
}

impl WindowTracker {
    /// Creates a tracker with no windows, no rules and the default blacklist.
    pub fn new() -> (r: Self)
        ensures
            r@ == (TrackerView {
                ids: Seq::empty(),
                windows: Seq::empty(),
                managed: Set::empty(),
                rules: Seq::empty(),
                focused: None,
                blacklist: default_blacklisted_apps(),
            }),
            r@.wf(),
    {
        let mut blacklisted_apps: Vec<String> = Vec::new();
        blacklisted_apps.push(String::from_str("Notification Centre"));
        blacklisted_apps.push(String::from_str("Control Centre"));
        blacklisted_apps.push(String::from_str("Dock"));
        blacklisted_apps.push(String::from_str("WindowManager"));
        blacklisted_apps.push(String::from_str("SystemUIServer"));
        let r = WindowTracker {
            ids: Vec::new(),
            windows: Vec::new(),
            managed_windows: HashSet::new(),
            rules: Vec::new(),
            focused_window: None,
            blacklisted_apps,
        };
        proof {
            assert(r@.blacklist =~= default_blacklisted_apps());
        }
        r
    }

    /// Whether an application is blacklisted.
    fn is_blacklisted(&self, name: &String) -> (r: bool)
        ensures
            r == self@.blacklist.contains(name@),
    {
        let mut i: usize = 0;
        while i < self.blacklisted_apps.len()
            invariant
                i <= self.blacklisted_apps@.len(),
                forall|j: int| 0 <= j < i ==> self@.blacklist[j] != name@,
            decreases self.blacklisted_apps@.len() - i,
        {
            if self.blacklisted_apps[i] == *name {
                proof {
                    assert(self@.blacklist[i as int] == name@);
                }
                return true;
            }
            i = i + 1;
        }
        false
    }

    /// Where the window with this identifier is kept.
    fn position(&self, id: u32) -> (r: Option<usize>)
        requires
            self@.wf(),
        ensures
            r is Some <==> self@.has(id),
            r matches Some(i) ==> i == self@.index(id) && i < self@.ids.len(),
    {
        let mut i: usize = 0;
        while i < self.ids.len()
            invariant
                i <= self@.ids.len(),
                self@.wf(),
                forall|j: int| 0 <= j < i ==> self@.ids[j] != id,
            decreases self@.ids.len() - i,
        {
            if self.ids[i] == id {
                proof {
                    let k = self@.ids.index_of(id);
                    assert(self@.ids[k] == id);
                }
                return Some(i);
            }
            i = i + 1;
        }
        None
    }

    /// Whether a window is an ordinary application window worth tiling: not
    /// minimized or fullscreen, owned by a named application, and at least one
    /// pixel wide and high.
    pub fn is_manageable(window: &TrackedWindow) -> (r: bool)
        ensures
            r == manageable(*window),
    {
        if window.is_minimized || window.is_fullscreen {
            return false;
        }
        if window.owner_name.as_str().is_empty() {
            return false;
        }
        if window.frame.width < 1 || window.frame.height < 1 {
            return false;
        }
        true
    }

    /// Whether a rule matches a window.
    pub fn rule_matches(rule: &WindowRule, window: &TrackedWindow) -> (r: bool)
        ensures
            r == rule_matches_spec(*rule, *window),
    {
        if let Some(app) = &rule.app_name {
            if !(window.owner_name == *app) {
                return false;
            }
        }
        if let Some(substring) = &rule.title_contains {
            if !str_contains(window.title.as_str(), substring.as_str()) {
                return false;
            }
        }
        true
    }

    /// Starts tracking a window (replacing the one tracked under the same
    /// identifier); it is tiled when it is manageable and its application is
    /// not blacklisted.
    pub fn add_window(&mut self, window: TrackedWindow)
        requires
            old(self)@.wf(),
        ensures
            final(self)@ == old(self)@.added(window),
            final(self)@.wf(),
    {
        let id = window.id;
        let manageable = Self::is_manageable(&window) && !self.is_blacklisted(&window.owner_name);
        match self.position(id) {
            Some(i) => {
                self.windows.set(i, window);
            },
            None => {
                self.ids.push(id);
                self.windows.push(window);
                proof {
                    assert(self@.ids.no_duplicates()) by {
                        let s = self@.ids;
                        assert forall|a: int, b: int|
                            0 <= a < s.len() && 0 <= b < s.len() && a != b implies s[a] != s[b] by {
                            if a < old(self)@.ids.len() && b < old(self)@.ids.len() {
                            } else if a < old(self)@.ids.len() {
                                assert(old(self)@.ids.contains(s[a]));
                            } else {
                                assert(old(self)@.ids.contains(s[b]));
                            }
                        }
                    }
                }
            },
        }
        if manageable {
            self.managed_windows.insert(id);
        }
        proof {
            assert(final(self)@ =~= old(self)@.added(window));
        }
    }

    /// Stops tracking a window.
    pub fn remove_window(&mut self, id: u32)
        requires
            old(self)@.wf(),
        ensures
            final(self)@ == old(self)@.removed(id),
            final(self)@.wf(),
    {
        match self.position(id) {
            Some(i) => {
                self.ids.remove(i);
                self.windows.remove(i);
                proof {
                    let s = old(self)@.ids;
                    assert(self@.ids.no_duplicates()) by {
                        let t = self@.ids;
                        assert forall|a: int, b: int|
                            0 <= a < t.len() && 0 <= b < t.len() && a != b implies t[a] != t[b] by {
                            let sa = if a < i { a } else { a + 1 };
                            let sb = if b < i { b } else { b + 1 };
                            assert(t[a] == s[sa] && t[b] == s[sb]);
                        }
                    }
                }
            },
            None => {},
        }
        self.managed_windows.remove(&id);
        let clear = match self.focused_window {
            Some(f) => f == id,
            None => false,
        };
        if clear {
            self.focused_window = None;
        }
        proof {
            assert(final(self)@ =~= old(self)@.removed(id));
        }
    }

    /// The window tracked under `id`, if any.
    pub fn get_window(&self, id: u32) -> (r: Option<&TrackedWindow>)
        requires
            self@.wf(),
        ensures
            r is Some <==> self@.has(id),
            r matches Some(w) ==> *w == self@.lookup(id)->0,
    {
        match self.position(id) {
            Some(i) => Some(&self.windows[i]),
            None => None,
        }
    }

    /// The window tracked under `id`, for changing it in place.
    pub fn get_window_mut(&mut self, id: u32) -> (r: Option<&mut TrackedWindow>)
        requires
            old(self)@.wf(),
        ensures
            r is Some <==> old(self)@.has(id),
            r matches Some(w) ==> *w == old(self)@.lookup(id)->0 && final(self)@ == old(
                self,
            )@.with_window(id, *final(w)),
            r is None ==> final(self)@ == old(self)@,
    {
        match self.position(id) {
            Some(i) => Some(&mut self.windows[i]),
            None => None,
        }
    }

    /// Makes the window under `id` the focused one; does nothing when no
    /// window is tracked under `id`.
    pub fn set_focused(&mut self, id: u32)
        requires
            old(self)@.wf(),
        ensures
            final(self)@ == (if old(self)@.has(id) {
                TrackerView { focused: Some(id), ..old(self)@ }
            } else {
                old(self)@
            }),
    {
        if self.position(id).is_some() {
            self.focused_window = Some(id);
        }
    }

    /// The focused window, if it is tracked.
    pub fn get_focused(&self) -> (r: Option<&TrackedWindow>)
        requires
            self@.wf(),
        ensures
            match self@.focused {
                Some(f) => (r is Some <==> self@.has(f)) && (r matches Some(w) ==> *w
                    == self@.lookup(f)->0),
                None => r is None,
            },
    {
        match self.focused_window {
            Some(id) => self.get_window(id),
            None => None,
        }
    }

    /// Switches a window between floating and tiled. A window that floats is
    /// no longer tiled; one that stops floating is tiled again when it is
    /// manageable and its application is not blacklisted.
    pub fn toggle_floating(&mut self, id: u32)
        requires
            old(self)@.wf(),
        ensures
            final(self)@ == old(self)@.toggled(id),
            final(self)@.wf(),
    {
        if let Some(i) = self.position(id) {
            let now_floating = !self.windows[i].is_floating;
            let w = &mut self.windows[i];
            w.is_floating = now_floating;
            if now_floating {
                self.managed_windows.remove(&id);
            } else if Self::is_manageable(&self.windows[i]) && !self.is_blacklisted(
                &self.windows[i].owner_name,
            ) {
                self.managed_windows.insert(id);
            }
            proof {
                assert(final(self)@ =~= old(self)@.toggled(id));
            }
        }
    }

    /// Adds a rule after the existing ones.
    pub fn add_rule(&mut self, rule: WindowRule)
        ensures
            final(self)@ == (TrackerView { rules: old(self)@.rules.push(rule), ..old(self)@ }),
    {
        self.rules.push(rule);
    }
}

impl Default for WindowTracker {
    /// A tracker with no windows, no rules and the default blacklist.
    fn default() -> (r: Self)
        ensures
            r@ == (TrackerView {
                ids: Seq::empty(),
                windows: Seq::empty(),
                managed: Set::empty(),
                rules: Seq::empty(),
                focused: None,
                blacklist: default_blacklisted_apps(),
            }),
            r@.wf(),
    {
        WindowTracker::new()
    }
}

/// Which tracked windows a listing returns.
enum Listing {
    Managed,
    OnSpace(u64),
    All,
}

/// Whether a listing includes the window under `id`.
spec fn listed(l: Listing, managed: Set<u32>) -> spec_fn(u32, TrackedWindow) -> bool {
    match l {
        Listing::Managed => |id: u32, w: TrackedWindow| managed.contains(id),
        Listing::OnSpace(space) => |id: u32, w: TrackedWindow| w.space_id == space,
        Listing::All => |id: u32, w: TrackedWindow| true,
    }
}

/// Whether a sequence of identifiers holds `id`.
fn ids_contain(ids: &Vec<u32>, id: u32) -> (r: bool)
    ensures
        r == ids@.contains(id),
{
    let mut i: usize = 0;
    while i < ids.len()
        invariant
            i <= ids@.len(),
            forall|j: int| 0 <= j < i ==> ids@[j] != id,
        decreases ids@.len() - i,
    {
        if ids[i] == id {
            proof {
                assert(ids@[i as int] == id);
            }
            return true;
        }
        i = i + 1;
    }
    false
}

impl WindowTracker {
    fn list(&self, l: Listing) -> (r: Vec<&TrackedWindow>)
        requires
            self@.wf(),
        ensures
            r@.len() == select(self@.ids, self@.windows, listed(l, self@.managed)).len(),
            forall|k: int|
                0 <= k < r@.len() ==> *r@[k] == select(
                    self@.ids,
                    self@.windows,
                    listed(l, self@.managed),
                )[k],
    {
        let ghost keep = listed(l, self@.managed);
        let mut out: Vec<&TrackedWindow> = Vec::new();
        let mut i: usize = 0;
        while i < self.ids.len()
            invariant
                self@.wf(),
                keep == listed(l, self@.managed),
                i <= self@.ids.len(),
                out@.len() == select(self@.ids.take(i as int), self@.windows.take(i as int), keep).len(),
                forall|k: int|
                    0 <= k < out@.len() ==> *out@[k] == select(
                        self@.ids.take(i as int),
                        self@.windows.take(i as int),
                        keep,
                    )[k],
            decreases self@.ids.len() - i,
        {
            let ghost prev = select(self@.ids.take(i as int), self@.windows.take(i as int), keep);
            proof {
                assert(self@.ids.take(i + 1).drop_last() =~= self@.ids.take(i as int));
                assert(self@.windows.take(i + 1).drop_last() =~= self@.windows.take(i as int));
            }
            let wanted = match l {
                Listing::Managed => self.managed_windows.contains(&self.ids[i]),
                Listing::OnSpace(space) => self.windows[i].space_id == space,
                Listing::All => true,
            };
            proof {
                assert(wanted == keep(self@.ids[i as int], self@.windows[i as int]));
            }
            if wanted {
                out.push(&self.windows[i]);
            }
            i = i + 1;
        }
        proof {
            assert(self@.ids.take(self@.ids.len() as int) =~= self@.ids);
            assert(self@.windows.take(self@.windows.len() as int) =~= self@.windows);
        }
        out
    }

    /// The windows that are tiled, in the order they were first seen.
    pub fn managed_windows(&self) -> (r: Vec<&TrackedWindow>)
        requires
            self@.wf(),
        ensures
            r@.len() == select(self@.ids, self@.windows, |id: u32, w: TrackedWindow| self@.managed.contains(id)).len(),
            forall|k: int|
                0 <= k < r@.len() ==> *r@[k] == select(
                    self@.ids,
                    self@.windows,
                    |id: u32, w: TrackedWindow| self@.managed.contains(id),
                )[k],
    {
        let r = self.list(Listing::Managed);
        proof {
            assert(listed(Listing::Managed, self@.managed) == |id: u32, w: TrackedWindow| self@.managed.contains(id));
        }
        r
    }

    /// The tracked windows on a space, in the order they were first seen.
    pub fn windows_on_space(&self, space_id: u64) -> (r: Vec<&TrackedWindow>)
        requires
            self@.wf(),
        ensures
            r@.len() == select(self@.ids, self@.windows, |id: u32, w: TrackedWindow| w.space_id == space_id).len(),
            forall|k: int|
                0 <= k < r@.len() ==> *r@[k] == select(
                    self@.ids,
                    self@.windows,
                    |id: u32, w: TrackedWindow| w.space_id == space_id,
                )[k],
    {
        let r = self.list(Listing::OnSpace(space_id));
        proof {
            assert(listed(Listing::OnSpace(space_id), self@.managed) == |id: u32, w: TrackedWindow| w.space_id == space_id);
        }
        r
    }

    /// Every tracked window, in the order they were first seen.
    pub fn all_windows(&self) -> (r: Vec<&TrackedWindow>)
        requires
            self@.wf(),
        ensures
            r@.len() == self@.windows.len(),
            forall|k: int| 0 <= k < r@.len() ==> *r@[k] == self@.windows[k],
    {
        let r = self.list(Listing::All);
        proof {
            lemma_select_all(self@.ids, self@.windows);
            assert(listed(Listing::All, self@.managed) == |id: u32, w: TrackedWindow| true);
        }
        r
    }
}

/// Selecting every window gives all of them.
pub proof fn lemma_select_all(ids: Seq<u32>, ws: Seq<TrackedWindow>)
    requires
        ids.len() == ws.len(),
    ensures
        select(ids, ws, |id: u32, w: TrackedWindow| true) == ws,
    decreases ids.len(),
{
    if ids.len() > 0 {
        lemma_select_all(ids.drop_last(), ws.drop_last());
        assert(ws.drop_last().push(ws.last()) =~= ws);
    }
}

impl TrackerView {
    /// Rule actions keep the identifiers, the rules and the focus.
    pub proof fn lemma_after_actions_frame(self, id: u32, acts: Seq<RuleAction>)
        requires
            self.wf(),
        ensures
            self.after_actions(id, acts).ids == self.ids,
            self.after_actions(id, acts).windows.len() == self.windows.len(),
            self.after_actions(id, acts).rules == self.rules,
            self.after_actions(id, acts).focused == self.focused,
            self.after_actions(id, acts).blacklist == self.blacklist,
        decreases acts.len(),
    {
        if acts.len() > 0 {
            self.lemma_after_actions_frame(id, acts.drop_last());
            if self.has(id) {
                assert(self.ids[self.index(id)] == id);
            }
        }
    }
}

impl WindowTracker {
    /// Applies every rule that matches the window under `id`, in rule order:
    /// `Float` floats the window and stops tiling it, `AssignToSpace` moves it
    /// to the space, `Ignore` stops tiling it. The rules are matched against
    /// the window as it was before any of them acted.
    pub fn apply_rules(&mut self, window_id: u32)
        requires
            old(self)@.wf(),
        ensures
            final(self)@ == old(self)@.with_rules_applied(window_id),
            final(self)@.wf(),
    {
        let idx = match self.position(window_id) {
            None => {
                return;
            },
            Some(i) => i,
        };
        let ghost w0 = self@.windows[idx as int];
        let mut actions: Vec<RuleAction> = Vec::new();
        let mut k: usize = 0;
        while k < self.rules.len()
            invariant
                self@ == old(self)@,
                self@.wf(),
                idx < self@.windows.len(),
                w0 == self@.windows[idx as int],
                k <= self@.rules.len(),
                actions@ == matching_actions(self@.rules.take(k as int), w0),
            decreases self@.rules.len() - k,
        {
            proof {
                assert(self@.rules.take(k + 1).drop_last() =~= self@.rules.take(k as int));
                assert(self@.rules.take(k + 1).last() == self@.rules[k as int]);
            }
            if Self::rule_matches(&self.rules[k], &self.windows[idx]) {
                actions.push(self.rules[k].action);
            }
            k = k + 1;
        }
        proof {
            assert(self@.rules.take(self@.rules.len() as int) =~= self@.rules);
        }
        let mut j: usize = 0;
        while j < actions.len()
            invariant
                old(self)@.wf(),
                old(self)@.has(window_id),
                idx == old(self)@.index(window_id),
                idx < old(self)@.windows.len(),
                j <= actions@.len(),
                self@ == old(self)@.after_actions(window_id, actions@.take(j as int)),
                self@.wf(),
            decreases actions@.len() - j,
        {
            proof {
                assert(actions@.take(j + 1).drop_last() =~= actions@.take(j as int));
                assert(actions@.take(j + 1).last() == actions@[j as int]);
                old(self)@.lemma_after_actions_frame(window_id, actions@.take(j as int));
            }
            match actions[j] {
                RuleAction::Float => {
                    let w = &mut self.windows[idx];
                    w.is_floating = true;
                    self.managed_windows.remove(&window_id);
                },
                RuleAction::AssignToSpace(space) => {
                    let w = &mut self.windows[idx];
                    w.space_id = space;
                },
                RuleAction::Ignore => {
                    self.managed_windows.remove(&window_id);
                },
            }
            proof {
                assert(self@ =~= old(self)@.after_actions(window_id, actions@.take(j + 1)));
            }
            j = j + 1;
        }
        proof {
            assert(actions@.take(actions@.len() as int) =~= actions@);
        }
    }
}

/// Selecting keeps identifiers and windows side by side, and keeps
/// identifiers distinct.
pub proof fn lemma_select_ids(ids: Seq<u32>, ws: Seq<TrackedWindow>, keep: spec_fn(u32, TrackedWindow) -> bool)
    requires
        ids.len() == ws.len(),
    ensures
        select_ids(ids, ws, keep).len() == select(ids, ws, keep).len(),
        forall|x: u32| select_ids(ids, ws, keep).contains(x) ==> ids.contains(x),
        ids.no_duplicates() ==> select_ids(ids, ws, keep).no_duplicates(),
    decreases ids.len(),
{
    if ids.len() > 0 {
        let t = ids.drop_last();
        lemma_select_ids(t, ws.drop_last(), keep);
        let rest = select_ids(t, ws.drop_last(), keep);
        assert forall|x: u32| select_ids(ids, ws, keep).contains(x) implies ids.contains(x) by {
            crate::seqs::lemma_contains_push(rest, ids.last(), x);
            crate::seqs::lemma_contains_push(t, ids.last(), x);
            assert(t.push(ids.last()) =~= ids);
        }
        if ids.no_duplicates() {
            assert(t.no_duplicates()) by {
                assert forall|a: int, b: int|
                    0 <= a < t.len() && 0 <= b < t.len() && a != b implies t[a] != t[b] by {
                    assert(t[a] == ids[a] && t[b] == ids[b]);
                }
            }
            if keep(ids.last(), ws.last()) {
                assert(!rest.contains(ids.last())) by {
                    if rest.contains(ids.last()) {
                        assert(t.contains(ids.last()));
                        let k = t.index_of(ids.last());
                        assert(ids[k] == ids[ids.len() - 1]);
                    }
                }
                let r = rest.push(ids.last());
                assert forall|a: int, b: int|
                    0 <= a < r.len() && 0 <= b < r.len() && a != b implies r[a] != r[b] by {
                    if a < rest.len() && b < rest.len() {
                        assert(r[a] == rest[a] && r[b] == rest[b]);
                    } else if a < rest.len() {
                        assert(r[a] == rest[a]);
                        assert(rest.contains(rest[a]));
                    } else {
                        assert(r[b] == rest[b]);
                        assert(rest.contains(rest[b]));
                    }
                }
            }
        }
    }
}

impl WindowTracker {
    /// Brings the tracker up to date with the windows now on screen, in the
    /// order given: a known window takes the new title, frame and application
    /// name (its floating and other flags stay); a new window is added and has
    /// the rules applied. Windows that were not seen are then removed.
    pub fn refresh(&mut self, discovered: Vec<TrackedWindow>)
        requires
            old(self)@.wf(),
        ensures
            final(self)@ == old(self)@.refreshed(discovered@),
            final(self)@.wf(),
    {
        let ghost disc = discovered@;
        let ghost seen_spec = disc.map_values(|w: TrackedWindow| w.id);
        let n = discovered.len();
        let mut rest = discovered;
        let mut seen: Vec<u32> = Vec::new();
        let mut i: usize = 0;
        while i < n
            invariant
                n == disc.len(),
                i <= n,
                rest@ == disc.skip(i as int),
                seen@ == disc.take(i as int).map_values(|w: TrackedWindow| w.id),
                self@ == old(self)@.observed_all(disc.take(i as int)),
                self@.wf(),
            decreases n - i,
        {
            let window = rest.remove(0);
            proof {
                assert(window == disc[i as int]);
                assert(disc.take(i + 1).drop_last() =~= disc.take(i as int));
                assert(disc.take(i + 1).last() == disc[i as int]);
                assert(rest@ =~= disc.skip(i + 1));
            }
            seen.push(window.id);
            proof {
                assert(seen@ =~= disc.take(i + 1).map_values(|w: TrackedWindow| w.id));
            }
            match self.position(window.id) {
                Some(k) => {
                    let TrackedWindow { id, owner_pid, owner_name, title, frame, is_minimized, is_floating, space_id, is_fullscreen } = window;
                    let w = &mut self.windows[k];
                    w.title = title;
                    w.frame = frame;
                    w.owner_name = owner_name;
                    proof {
                        assert(self@ =~= old(self)@.observed_all(disc.take(i + 1)));
                    }
                },
                None => {
                    let id = window.id;
                    self.add_window(window);
                    self.apply_rules(id);
                },
            }
            i = i + 1;
        }
        proof {
            assert(disc.take(n as int) =~= disc);
            assert(seen@ =~= seen_spec);
        }
        let ghost v = self@;
        let ghost keep = |id: u32, w: TrackedWindow| seen_spec.contains(id);
        let mut old_ids: Vec<u32> = Vec::new();
        std::mem::swap(&mut old_ids, &mut self.ids);
        let mut old_windows: Vec<TrackedWindow> = Vec::new();
        std::mem::swap(&mut old_windows, &mut self.windows);
        let mut kept_ids: Vec<u32> = Vec::new();
        let mut kept_windows: Vec<TrackedWindow> = Vec::new();
        let m = old_ids.len();
        let mut k: usize = 0;
        while k < m
            invariant
                v.wf(),
                m == v.ids.len(),
                k <= m,
                seen@ == seen_spec,
                keep == |id: u32, w: TrackedWindow| seen_spec.contains(id),
                old_ids@ == v.ids.skip(k as int),
                old_windows@ == v.windows.skip(k as int),
                kept_ids@ == select_ids(v.ids.take(k as int), v.windows.take(k as int), keep),
                kept_windows@ == select(v.ids.take(k as int), v.windows.take(k as int), keep),
                self.managed_windows@ == v.managed.filter(
                    |x: u32| !(v.ids.take(k as int).contains(x) && !seen_spec.contains(x)),
                ),
                self.focused_window == (match v.focused {
                    Some(f) => if v.ids.take(k as int).contains(f) && !seen_spec.contains(f) {
                        None
                    } else {
                        Some(f)
                    },
                    None => None,
                }),
                self.rules@ == v.rules,
                self.blacklisted_apps@.map_values(|s: String| s@) == v.blacklist,
            decreases m - k,
        {
            let id = old_ids.remove(0);
            let w = old_windows.remove(0);
            proof {
                assert(id == v.ids[k as int]);
                assert(w == v.windows[k as int]);
                assert(old_ids@ =~= v.ids.skip(k + 1));
                assert(old_windows@ =~= v.windows.skip(k + 1));
                assert(v.ids.take(k + 1).drop_last() =~= v.ids.take(k as int));
                assert(v.windows.take(k + 1).drop_last() =~= v.windows.take(k as int));
                assert(v.ids.take(k + 1).last() == id);
                assert(v.windows.take(k + 1).last() == w);
                assert(v.ids.take(k + 1) =~= v.ids.take(k as int).push(id));
            }
            if ids_contain(&seen, id) {
                kept_ids.push(id);
                kept_windows.push(w);
                proof {
                    assert(self.managed_windows@ =~= v.managed.filter(
                        |x: u32| !(v.ids.take(k + 1).contains(x) && !seen_spec.contains(x)),
                    )) by {
                        assert forall|x: u32| v.ids.take(k + 1).contains(x) <==> (v.ids.take(k as int).contains(x) || x == id) by {
                            crate::seqs::lemma_contains_push(v.ids.take(k as int), id, x);
                        }
                    }
                    if let Some(f) = v.focused {
                        crate::seqs::lemma_contains_push(v.ids.take(k as int), id, f);
                    }
                }
            } else {
                self.managed_windows.remove(&id);
                let clear = match self.focused_window {
                    Some(f) => f == id,
                    None => false,
                };
                if clear {
                    self.focused_window = None;
                }
                proof {
                    assert(self.managed_windows@ =~= v.managed.filter(
                        |x: u32| !(v.ids.take(k + 1).contains(x) && !seen_spec.contains(x)),
                    )) by {
                        assert forall|x: u32| v.ids.take(k + 1).contains(x) <==> (v.ids.take(k as int).contains(x) || x == id) by {
                            crate::seqs::lemma_contains_push(v.ids.take(k as int), id, x);
                        }
                    }
                    if let Some(f) = v.focused {
                        crate::seqs::lemma_contains_push(v.ids.take(k as int), id, f);
                    }
                }
            }
            k = k + 1;
        }
        proof {
            assert(v.ids.take(m as int) =~= v.ids);
            assert(v.windows.take(m as int) =~= v.windows);
            lemma_select_ids(v.ids, v.windows, keep);
        }
        self.ids = kept_ids;
        self.windows = kept_windows;
        proof {
            let keep2 = |id: u32, w: TrackedWindow| seen_spec.contains(id);
            assert(keep =~= keep2);
            assert(self.managed_windows@ =~= v.managed.filter(|id: u32| !v.stale(seen_spec, id)));
            assert(self@.ids == v.pruned(seen_spec).ids);
            assert(self@.windows == v.pruned(seen_spec).windows);
            assert(self@.managed == v.pruned(seen_spec).managed);
            assert(self@.focused == v.pruned(seen_spec).focused);
            assert(self@ =~= v.pruned(seen_spec));
        }
    }
}

} // verus!

verus! {

/// Law: a window just added is tracked under its identifier, as given.
pub proof fn law_added_window_is_tracked(v: TrackerView, w: TrackedWindow)
    requires
        v.wf(),
    ensures
        v.added(w).wf(),
        v.added(w).lookup(w.id) == Some(w),
        v.added(w).managed.contains(w.id) <== v.admits(w),
{
    let a = v.added(w);
    if v.has(w.id) {
        let i = v.index(w.id);
        assert(a.ids == v.ids);
        assert(a.ids[i] == w.id);
    } else {
        crate::seqs::lemma_contains_push(v.ids, w.id, w.id);
        assert(a.ids[v.ids.len() as int] == w.id);
        assert(a.ids.no_duplicates()) by {
            let s = a.ids;
            assert forall|x: int, y: int|
                0 <= x < s.len() && 0 <= y < s.len() && x != y implies s[x] != s[y] by {
                if x < v.ids.len() && y < v.ids.len() {
                } else if x < v.ids.len() {
                    assert(v.ids.contains(s[x]));
                } else {
                    assert(v.ids.contains(s[y]));
                }
            }
        }
        let k = a.ids.index_of(w.id);
        assert(a.ids[k] == w.id);
    }
}

/// Law: a window just removed is no longer tracked, tiled or focused.
pub proof fn law_removed_window_is_gone(v: TrackerView, id: u32)
    requires
        v.wf(),
    ensures
        !v.removed(id).has(id),
        !v.removed(id).managed.contains(id),
        v.removed(id).focused != Some(id),
{
    if v.has(id) {
        let i = v.index(id);
        let r = v.removed(id).ids;
        assert(v.ids[i] == id);
        if r.contains(id) {
            let k = r.index_of(id);
            let sk = if k < i { k } else { k + 1 };
            assert(r[k] == v.ids[sk]);
        }
    }
}

/// Law: switching a window between floating and tiled twice gives back the
/// same window record; a window that floats after a switch is not tiled.
pub proof fn law_toggle_twice_restores_window(v: TrackerView, id: u32)
    requires
        v.wf(),
        v.has(id),
    ensures
        v.toggled(id).toggled(id).windows == v.windows,
        v.toggled(id).lookup(id)->0.is_floating ==> !v.toggled(id).managed.contains(id),
        v.toggled(id).lookup(id)->0.is_floating == !v.lookup(id)->0.is_floating,
{
    let i = v.index(id);
    assert(v.ids[i] == id);
    let t = v.toggled(id);
    assert(t.ids == v.ids);
    assert(t.windows[i] == TrackedWindow { is_floating: !v.windows[i].is_floating, ..v.windows[i] });
    assert(t.toggled(id).windows =~= v.windows);
}

/// One more action keeps a window out of the tiled set once it is out, and
/// takes it out when the action floats or ignores it.
proof fn lemma_after_actions_unmanaged(v: TrackerView, id: u32, acts: Seq<RuleAction>)
    ensures
        (exists|k: int| 0 <= k < acts.len() && (acts[k] is Float || acts[k] is Ignore)) ==> !v.after_actions(id, acts).managed.contains(id),
        !v.managed.contains(id) ==> !v.after_actions(id, acts).managed.contains(id),
    decreases acts.len(),
{
    if acts.len() > 0 {
        let init = acts.drop_last();
        lemma_after_actions_unmanaged(v, id, init);
        if exists|k: int| 0 <= k < acts.len() && (acts[k] is Float || acts[k] is Ignore) {
            let k = choose|k: int| 0 <= k < acts.len() && (acts[k] is Float || acts[k] is Ignore);
            if k < acts.len() - 1 {
                assert(init[k] == acts[k]);
            }
        }
    }
}

/// Law: when a rule that floats or ignores matches a window, the window is
/// not tiled after the rules are applied; every matching rule acts.
pub proof fn law_float_or_ignore_rule_untiles(v: TrackerView, id: u32)
    requires
        v.wf(),
        v.has(id),
        exists|k: int|
            0 <= k < matching_actions(v.rules, v.lookup(id)->0).len() && (matching_actions(
                v.rules,
                v.lookup(id)->0,
            )[k] is Float || matching_actions(v.rules, v.lookup(id)->0)[k] is Ignore),
    ensures
        !v.with_rules_applied(id).managed.contains(id),
{
    lemma_after_actions_unmanaged(v, id, matching_actions(v.rules, v.lookup(id)->0));
}

/// Seeing one window keeps the tracked identifiers and adds the window's.
proof fn lemma_observed_has(v: TrackerView, w: TrackedWindow, x: u32)
    requires
        v.wf(),
    ensures
        v.observed(w).wf(),
        v.observed(w).has(x) <==> (v.has(x) || x == w.id),
{
    law_added_window_is_tracked(v, w);
    crate::seqs::lemma_contains_push(v.ids, w.id, x);
    if !v.has(w.id) {
        let a = v.added(w);
        a.lemma_after_actions_frame(w.id, matching_actions(a.rules, a.lookup(w.id)->0));
    } else {
        let i = v.index(w.id);
        assert(v.ids[i] == w.id);
    }
}

proof fn lemma_observed_all_has(v: TrackerView, ws: Seq<TrackedWindow>, x: u32)
    requires
        v.wf(),
    ensures
        v.observed_all(ws).wf(),
        v.observed_all(ws).has(x) <==> (v.has(x) || ws.map_values(|w: TrackedWindow| w.id).contains(x)),
    decreases ws.len(),
{
    if ws.len() > 0 {
        lemma_observed_all_has(v, ws.drop_last(), x);
        let p = v.observed_all(ws.drop_last());
        lemma_observed_has(p, ws.last(), x);
        let ids = ws.map_values(|w: TrackedWindow| w.id);
        assert(ids =~= ws.drop_last().map_values(|w: TrackedWindow| w.id).push(ws.last().id));
        crate::seqs::lemma_contains_push(ws.drop_last().map_values(|w: TrackedWindow| w.id), ws.last().id, x);
    }
}

/// An identifier that is kept by the selection is in the selection.
proof fn lemma_select_ids_has(ids: Seq<u32>, ws: Seq<TrackedWindow>, keep: spec_fn(u32, TrackedWindow) -> bool, x: u32)
    requires
        ids.len() == ws.len(),
    ensures
        select_ids(ids, ws, keep).contains(x) <==> (exists|i: int| 0 <= i < ids.len() && ids[i] == x && keep(x, ws[i])),
    decreases ids.len(),
{
    if ids.len() > 0 {
        lemma_select_ids_has(ids.drop_last(), ws.drop_last(), keep, x);
        let rest = select_ids(ids.drop_last(), ws.drop_last(), keep);
        crate::seqs::lemma_contains_push(rest, ids.last(), x);
        if exists|i: int| 0 <= i < ids.len() && ids[i] == x && keep(x, ws[i]) {
            let i = choose|i: int| 0 <= i < ids.len() && ids[i] == x && keep(x, ws[i]);
            if i < ids.len() - 1 {
                assert(ids.drop_last()[i] == x && ws.drop_last()[i] == ws[i]);
            }
        }
        if exists|i: int| 0 <= i < ids.len() - 1 && ids.drop_last()[i] == x && keep(x, ws.drop_last()[i]) {
            let i = choose|i: int| 0 <= i < ids.len() - 1 && ids.drop_last()[i] == x && keep(x, ws.drop_last()[i]);
            assert(ids[i] == x && ws[i] == ws.drop_last()[i]);
        }
        if select_ids(ids, ws, keep).contains(x) && !rest.contains(x) {
            assert(ids[ids.len() - 1] == x && keep(x, ws[ws.len() - 1]));
        }
    }
}

/// Law: after a refresh, the tracker holds exactly the windows that were
/// seen on screen.
pub proof fn law_refresh_tracks_exactly_the_seen_windows(v: TrackerView, discovered: Seq<TrackedWindow>, x: u32)
    requires
        v.wf(),
    ensures
        v.refreshed(discovered).has(x) <==> discovered.map_values(|w: TrackedWindow| w.id).contains(x),
{
    let seen = discovered.map_values(|w: TrackedWindow| w.id);
    let o = v.observed_all(discovered);
    lemma_observed_all_has(v, discovered, x);
    let keep = |id: u32, w: TrackedWindow| seen.contains(id);
    lemma_select_ids(o.ids, o.windows, keep);
    lemma_select_ids_has(o.ids, o.windows, keep, x);
    let keep2 = |id: u32, w: TrackedWindow| seen.contains(id);
    assert(keep =~= keep2);
    assert(v.refreshed(discovered).ids == select_ids(o.ids, o.windows, keep));
    if seen.contains(x) {
        let i = o.ids.index_of(x);
        assert(o.ids[i] == x);
        assert(keep(x, o.windows[i]));
    }
}


impl TrackerView {
    /// Every tiled window is a tracked window.
    pub open spec fn tiles_tracked(self) -> bool {
        forall|x: u32| self.managed.contains(x) ==> self.has(x)
    }
}

/// Rule actions never add a window to the tiled set.
proof fn lemma_after_actions_shrink(v: TrackerView, id: u32, acts: Seq<RuleAction>, x: u32)
    ensures
        v.after_actions(id, acts).managed.contains(x) ==> v.managed.contains(x),
    decreases acts.len(),
{
    if acts.len() > 0 {
        lemma_after_actions_shrink(v, id, acts.drop_last(), x);
    }
}

/// Seeing one window keeps every tiled window tracked.
proof fn lemma_observed_tiles_tracked(v: TrackerView, w: TrackedWindow)
    requires
        v.wf(),
        v.tiles_tracked(),
    ensures
        v.observed(w).tiles_tracked(),
{
    assert forall|x: u32| v.observed(w).managed.contains(x) implies v.observed(w).has(x) by {
        lemma_observed_has(v, w, x);
        if !v.has(w.id) {
            let a = v.added(w);
            lemma_after_actions_shrink(a, w.id, matching_actions(a.rules, a.lookup(w.id)->0), x);
        }
    }
}

proof fn lemma_observed_all_tiles_tracked(v: TrackerView, ws: Seq<TrackedWindow>)
    requires
        v.wf(),
        v.tiles_tracked(),
    ensures
        v.observed_all(ws).wf(),
        v.observed_all(ws).tiles_tracked(),
    decreases ws.len(),
{
    if ws.len() > 0 {
        lemma_observed_all_tiles_tracked(v, ws.drop_last());
        let p = v.observed_all(ws.drop_last());
        lemma_observed_tiles_tracked(p, ws.last());
        lemma_observed_has(p, ws.last(), 0);
    }
}

/// Law: every operation on the tracker keeps every tiled window tracked:
/// adding, removing, switching floating, applying rules and refreshing.
pub proof fn law_tiled_windows_are_tracked(
    v: TrackerView,
    w: TrackedWindow,
    id: u32,
    discovered: Seq<TrackedWindow>,
)
    requires
        v.wf(),
        v.tiles_tracked(),
    ensures
        v.added(w).tiles_tracked(),
        v.removed(id).tiles_tracked(),
        v.toggled(id).tiles_tracked(),
        v.with_rules_applied(id).tiles_tracked(),
        v.refreshed(discovered).tiles_tracked(),
{
    assert forall|x: u32| v.added(w).managed.contains(x) implies v.added(w).has(x) by {
        crate::seqs::lemma_contains_push(v.ids, w.id, x);
        if x != w.id {
            assert(v.managed.contains(x));
            assert(v.has(x));
        }
    }
    assert forall|x: u32| v.removed(id).managed.contains(x) implies v.removed(id).has(x) by {
        assert(v.managed.contains(x) && x != id);
        assert(v.has(x));
        if v.has(id) {
            let i = v.index(id);
            let j = v.ids.index_of(x);
            assert(v.ids[i] == id && v.ids[j] == x);
            let r = v.ids.remove(i);
            let k = if j < i { j } else { j - 1 };
            assert(r[k] == x);
        }
    }
    assert forall|x: u32| v.with_rules_applied(id).managed.contains(x) implies v.with_rules_applied(
        id,
    ).has(x) by {
        if v.has(id) {
            let acts = matching_actions(v.rules, v.lookup(id)->0);
            lemma_after_actions_shrink(v, id, acts, x);
            v.lemma_after_actions_frame(id, acts);
            assert(v.managed.contains(x));
            assert(v.has(x));
        }
    }
    assert forall|x: u32| v.toggled(id).managed.contains(x) implies v.toggled(id).has(x) by {
        if x != id {
            assert(v.managed.contains(x));
            assert(v.has(x));
        }
    }
    let seen = discovered.map_values(|d: TrackedWindow| d.id);
    let o = v.observed_all(discovered);
    lemma_observed_all_tiles_tracked(v, discovered);
    assert forall|x: u32| v.refreshed(discovered).managed.contains(x) implies v.refreshed(
        discovered,
    ).has(x) by {
        law_refresh_tracks_exactly_the_seen_windows(v, discovered, x);
        assert(o.has(x));
        assert(!o.stale(seen, x));
    }
}

/// A tracked window once a refresh has seen it as `seen`: it takes the
/// title, frame and application name; the rest stays.
pub open spec fn refreshed_window(w: TrackedWindow, seen: TrackedWindow) -> TrackedWindow {
    TrackedWindow { title: seen.title, frame: seen.frame, owner_name: seen.owner_name, ..w }
}

/// The window `w`, tracked under `x`, once every entry of `ds` that names
/// `x` has been seen, in order.
pub open spec fn seen_all(w: TrackedWindow, x: u32, ds: Seq<TrackedWindow>) -> TrackedWindow
    decreases ds.len(),
{
    if ds.len() == 0 {
        w
    } else {
        let w1 = seen_all(w, x, ds.drop_last());
        if ds.last().id == x {
            refreshed_window(w1, ds.last())
        } else {
            w1
        }
    }
}

/// Seeing the entries again leaves a window as the first time.
proof fn lemma_seen_all_twice(w: TrackedWindow, x: u32, ds: Seq<TrackedWindow>)
    ensures
        seen_all(seen_all(w, x, ds), x, ds) == seen_all(w, x, ds),
        seen_all(w, x, ds) == w || exists|k: int| 0 <= k < ds.len() && ds[k].id == x && seen_all(w, x, ds) == refreshed_window(w, ds[k]),
    decreases ds.len(),
{
    if ds.len() > 0 {
        let init = ds.drop_last();
        lemma_seen_all_twice(w, x, init);
        lemma_seen_all_twice(seen_all(w, x, ds), x, init);
        if seen_all(w, x, init) != w {
            let k = choose|k: int| 0 <= k < init.len() && init[k].id == x && seen_all(w, x, init) == refreshed_window(w, init[k]);
            assert(ds[k] == init[k]);
        }
        let v = seen_all(w, x, ds);
        if ds.last().id == x {
            assert(v == refreshed_window(seen_all(w, x, init), ds.last()));
            assert(v == refreshed_window(w, ds.last()));
            assert(ds[ds.len() - 1] == ds.last());
            if seen_all(v, x, init) != v {
                let k = choose|k: int| 0 <= k < init.len() && init[k].id == x && seen_all(v, x, init) == refreshed_window(v, init[k]);
            }
        }
    }
}

/// A window that seeing the entries again would not change.
pub open spec fn fresh(w: TrackedWindow, x: u32, ds: Seq<TrackedWindow>) -> bool {
    seen_all(w, x, ds) == w
}

/// The tracker with every window seen through the entries of `ds`.
pub open spec fn all_seen(v: TrackerView, ds: Seq<TrackedWindow>) -> TrackerView {
    TrackerView {
        windows: Seq::new(v.windows.len(), |i: int| seen_all(v.windows[i], v.ids[i], ds)),
        ..v
    }
}

/// Seeing windows that are all tracked only updates them in place.
proof fn lemma_observed_all_known(v: TrackerView, ds: Seq<TrackedWindow>)
    requires
        v.wf(),
        forall|k: int| 0 <= k < ds.len() ==> v.has(#[trigger] ds[k].id),
    ensures
        v.observed_all(ds) == all_seen(v, ds),
    decreases ds.len(),
{
    if ds.len() > 0 {
        let init = ds.drop_last();
        assert forall|k: int| 0 <= k < init.len() implies v.has(#[trigger] init[k].id) by {
            assert(init[k] == ds[k]);
        }
        lemma_observed_all_known(v, init);
        let p = all_seen(v, init);
        let d = ds.last();
        assert(ds[ds.len() - 1] == d);
        assert(p.has(d.id));
        let i = p.index(d.id);
        assert(p.ids[i] == d.id);
        let r = p.observed(d);
        assert(r.windows =~= all_seen(v, ds).windows) by {
            assert forall|j: int| 0 <= j < r.windows.len() implies r.windows[j] == all_seen(v, ds).windows[j] by {
                if j != i {
                    assert(v.ids[j] != d.id);
                }
            }
        }
        assert(r == all_seen(v, ds));
    } else {
        assert(all_seen(v, ds).windows =~= v.windows);
    }
}


/// Rule actions touch only the window they act on, and never its title,
/// frame or application name.
proof fn lemma_after_actions_windows(v: TrackerView, id: u32, acts: Seq<RuleAction>, j: int)
    requires
        v.wf(),
        0 <= j < v.windows.len(),
    ensures
        v.after_actions(id, acts).windows[j].title == v.windows[j].title,
        v.after_actions(id, acts).windows[j].frame == v.windows[j].frame,
        v.after_actions(id, acts).windows[j].owner_name == v.windows[j].owner_name,
        (!v.has(id) || j != v.index(id)) ==> v.after_actions(id, acts).windows[j] == v.windows[j],
    decreases acts.len(),
{
    if acts.len() > 0 {
        let init = acts.drop_last();
        lemma_after_actions_windows(v, id, init, j);
        v.lemma_after_actions_frame(id, init);
        let p = v.after_actions(id, init);
        if v.has(id) {
            let i = v.index(id);
            assert(v.ids[i] == id);
            lemma_after_actions_windows(v, id, init, i);
        }
    }
}

/// After seeing the entries of `ds`, every tracked window is as seeing them
/// again would leave it.
proof fn lemma_observed_all_fresh(v: TrackerView, ds: Seq<TrackedWindow>)
    requires
        v.wf(),
    ensures
        forall|i: int|
            0 <= i < v.observed_all(ds).ids.len() ==> fresh(
                #[trigger] v.observed_all(ds).windows[i],
                v.observed_all(ds).ids[i],
                ds,
            ),
    decreases ds.len(),
{
    if ds.len() == 0 {
    } else {
        let init = ds.drop_last();
        let d = ds.last();
        lemma_observed_all_fresh(v, init);
        lemma_observed_all_has(v, init, 0);
        let p = v.observed_all(init);
        let o = p.observed(d);
        lemma_observed_has(p, d, d.id);
        assert(o.has(d.id));
        let k = o.index(d.id);
        assert(o.ids[k] == d.id);
        // the window seen last takes its fields from `d`
        assert(o.windows[k].title == d.title && o.windows[k].frame == d.frame
            && o.windows[k].owner_name == d.owner_name) by {
            if p.has(d.id) {
                let pi = p.index(d.id);
                assert(p.ids[pi] == d.id);
            } else {
                let a = p.added(d);
                law_added_window_is_tracked(p, d);
                let acts = matching_actions(a.rules, a.lookup(d.id)->0);
                a.lemma_after_actions_frame(d.id, acts);
                lemma_after_actions_windows(a, d.id, acts, a.index(d.id));
            }
        }
        assert forall|i: int| 0 <= i < o.ids.len() implies fresh(#[trigger] o.windows[i], o.ids[i], ds) by {
            let x = o.ids[i];
            if x == d.id {
                assert(i == k);
                let w = o.windows[i];
                lemma_seen_all_twice(w, x, init);
                assert(refreshed_window(w, d) == w);
                if seen_all(w, x, init) != w {
                    let j = choose|j: int| 0 <= j < init.len() && init[j].id == x && seen_all(w, x, init) == refreshed_window(w, init[j]);
                    assert(refreshed_window(refreshed_window(w, init[j]), d) == w);
                }
            } else {
                if p.has(d.id) {
                    let pi = p.index(d.id);
                    assert(p.ids[pi] == d.id);
                    assert(o.windows[i] == p.windows[i]);
                    assert(o.ids[i] == p.ids[i]);
                } else {
                    let a = p.added(d);
                    law_added_window_is_tracked(p, d);
                    let acts = matching_actions(a.rules, a.lookup(d.id)->0);
                    a.lemma_after_actions_frame(d.id, acts);
                    crate::seqs::lemma_contains_push(p.ids, d.id, d.id);
                    assert(a.ids[a.ids.len() - 1] == d.id);
                    let ai = a.index(d.id);
                    assert(a.ids[ai] == d.id);
                    assert(i != ai);
                    lemma_after_actions_windows(a, d.id, acts, i);
                    assert(i < p.ids.len());
                    assert(o.windows[i] == p.windows[i]);
                    assert(o.ids[i] == p.ids[i]);
                }
            }
        }
    }
}

/// A property of identifier and window holds of every pair a selection
/// keeps when it holds of every pair.
proof fn lemma_select_pairs(
    ids: Seq<u32>,
    ws: Seq<TrackedWindow>,
    keep: spec_fn(u32, TrackedWindow) -> bool,
    prop: spec_fn(u32, TrackedWindow) -> bool,
)
    requires
        ids.len() == ws.len(),
        forall|i: int| 0 <= i < ids.len() ==> prop(ids[i], ws[i]),
    ensures
        forall|k: int|
            0 <= k < select_ids(ids, ws, keep).len() ==> prop(
                select_ids(ids, ws, keep)[k],
                select(ids, ws, keep)[k],
            ),
    decreases ids.len(),
{
    lemma_select_ids(ids, ws, keep);
    if ids.len() > 0 {
        lemma_select_pairs(ids.drop_last(), ws.drop_last(), keep, prop);
        lemma_select_ids(ids.drop_last(), ws.drop_last(), keep);
        assert(prop(ids[ids.len() - 1], ws[ws.len() - 1]));
    }
}

/// A selection that keeps every pair keeps everything.
proof fn lemma_select_keeps_all(ids: Seq<u32>, ws: Seq<TrackedWindow>, keep: spec_fn(u32, TrackedWindow) -> bool)
    requires
        ids.len() == ws.len(),
        forall|i: int| 0 <= i < ids.len() ==> keep(ids[i], ws[i]),
    ensures
        select_ids(ids, ws, keep) == ids,
        select(ids, ws, keep) == ws,
    decreases ids.len(),
{
    if ids.len() > 0 {
        lemma_select_keeps_all(ids.drop_last(), ws.drop_last(), keep);
        assert(keep(ids[ids.len() - 1], ws[ws.len() - 1]));
        assert(ids.drop_last().push(ids.last()) =~= ids);
        assert(ws.drop_last().push(ws.last()) =~= ws);
    }
}


/// Law: refreshing a second time with the same windows on screen changes
/// nothing: the tracked windows, the tiled set and the focus stay.
pub proof fn law_refresh_twice_changes_nothing(v: TrackerView, ds: Seq<TrackedWindow>)
    requires
        v.wf(),
    ensures
        v.refreshed(ds).refreshed(ds) == v.refreshed(ds),
{
    let seen = ds.map_values(|w: TrackedWindow| w.id);
    let keep = |id: u32, w: TrackedWindow| seen.contains(id);
    let o = v.observed_all(ds);
    lemma_observed_all_has(v, ds, 0);
    let r1 = v.refreshed(ds);
    assert(r1.ids == select_ids(o.ids, o.windows, keep));
    assert(r1.windows == select(o.ids, o.windows, keep));
    lemma_select_ids(o.ids, o.windows, keep);
    assert(r1.wf());
    lemma_observed_all_fresh(v, ds);
    let prop = |x: u32, w: TrackedWindow| fresh(w, x, ds);
    assert forall|i: int| 0 <= i < o.ids.len() implies prop(o.ids[i], o.windows[i]) by {
        assert(fresh(o.windows[i], o.ids[i], ds));
    }
    lemma_select_pairs(o.ids, o.windows, keep, prop);
    assert forall|k: int| 0 <= k < ds.len() implies r1.has(#[trigger] ds[k].id) by {
        law_refresh_tracks_exactly_the_seen_windows(v, ds, ds[k].id);
        assert(seen[k] == ds[k].id);
    }
    lemma_observed_all_known(r1, ds);
    let o2 = r1.observed_all(ds);
    assert(o2.windows =~= r1.windows) by {
        assert forall|i: int| 0 <= i < r1.windows.len() implies o2.windows[i] == r1.windows[i] by {
            assert(prop(r1.ids[i], r1.windows[i]));
        }
    }
    assert(o2 == r1);
    assert forall|i: int| 0 <= i < r1.ids.len() implies keep(r1.ids[i], r1.windows[i]) by {
        let x = r1.ids[i];
        assert(r1.has(x));
        law_refresh_tracks_exactly_the_seen_windows(v, ds, x);
    }
    lemma_select_keeps_all(r1.ids, r1.windows, keep);
    let r2 = r1.refreshed(ds);
    assert(r2.ids == select_ids(r1.ids, r1.windows, keep));
    assert(r2.windows == select(r1.ids, r1.windows, keep));
    assert forall|x: u32| r1.managed.contains(x) implies !r1.stale(seen, x) by {
        law_refresh_tracks_exactly_the_seen_windows(v, ds, x);
    }
    assert(r2.managed =~= r1.managed);
    if let Some(f) = r1.focused {
        law_refresh_tracks_exactly_the_seen_windows(v, ds, f);
    }
    assert(r2 == r1);
}


/// What the window server's window list says of one window, as plain values:
/// each entry is missing when the list has none.
#[derive(Clone, Debug)]
pub struct WindowInfo {
    /// The window number.
    pub number: Option<i64>,
    /// The owning process.
    pub owner_pid: Option<i64>,
    /// The window layer: 0 for ordinary application windows.
    pub layer: Option<i64>,
    /// The owning application's name.
    pub owner_name: Option<String>,
    /// The window's title.
    pub title: Option<String>,
    /// The window's bounds, in whole pixels.
    pub bounds: Option<Rect>,
}

/// The text of an optional string, empty when missing.
pub open spec fn text_or_empty(s: Option<String>) -> Seq<char> {
    match s {
        Some(t) => t@,
        None => Seq::empty(),
    }
}

/// Whether an entry of the window list describes a window to track: it has
/// a number and an owner, and sits on layer 0.
pub open spec fn admitted(info: WindowInfo) -> bool {
    info.number is Some && info.owner_pid is Some && info.layer == Some(0i64)
}

/// Whether `w` is the window an admitted entry describes: its number and
/// owner (truncated to their widths), its name and title (empty when
/// missing), its bounds (a zero rectangle when missing); on space 0, neither
/// minimized, floating nor fullscreen.
pub open spec fn describes(info: WindowInfo, w: TrackedWindow) -> bool {
    &&& w.id == info.number->0 as u32
    &&& w.owner_pid == info.owner_pid->0 as i32
    &&& w.owner_name@ == text_or_empty(info.owner_name)
    &&& w.title@ == text_or_empty(info.title)
    &&& w.frame == match info.bounds {
        Some(b) => b,
        None => Rect { x: 0, y: 0, width: 0, height: 0 },
    }
    &&& !w.is_minimized
    &&& !w.is_floating
    &&& w.space_id == 0
    &&& !w.is_fullscreen
}

/// The admitted entries of a window list, in order.
pub open spec fn admitted_infos(infos: Seq<WindowInfo>) -> Seq<WindowInfo>
    decreases infos.len(),
{
    if infos.len() == 0 {
        Seq::empty()
    } else {
        let rest = admitted_infos(infos.drop_last());
        if admitted(infos.last()) {
            rest.push(infos.last())
        } else {
            rest
        }
    }
}

/// A copy of an optional string, or an empty string.
fn string_or_empty(s: &Option<String>) -> (r: String)
    ensures
        r@ == text_or_empty(*s),
{
    match s {
        Some(t) => t.clone(),
        None => String::new(),
    }
}

impl WindowTracker {
    /// The window an entry of the window list describes, if it is to be
    /// tracked.
    pub fn parse_window_info(info: &WindowInfo) -> (r: Option<TrackedWindow>)
        ensures
            r is Some <==> admitted(*info),
            r matches Some(w) ==> describes(*info, w),
    {
        match (info.number, info.owner_pid, info.layer) {
            (Some(n), Some(p), Some(layer)) => {
                if layer != 0 {
                    return None;
                }
                let frame = match info.bounds {
                    Some(b) => b,
                    None => Rect { x: 0, y: 0, width: 0, height: 0 },
                };
                Some(
                    TrackedWindow {
                        id: n as u32,
                        owner_pid: p as i32,
                        owner_name: string_or_empty(&info.owner_name),
                        title: string_or_empty(&info.title),
                        frame,
                        is_minimized: false,
                        is_floating: false,
                        space_id: 0,
                        is_fullscreen: false,
                    },
                )
            },
            _ => None,
        }
    }

    /// The windows a window list describes, in list order, leaving out the
    /// entries that are not to be tracked.
    pub fn windows_from_info(infos: &Vec<WindowInfo>) -> (r: Vec<TrackedWindow>)
        ensures
            r@.len() == admitted_infos(infos@).len(),
            forall|k: int| 0 <= k < r@.len() ==> describes(admitted_infos(infos@)[k], #[trigger] r@[k]),
    {
        let mut out: Vec<TrackedWindow> = Vec::new();
        let mut i: usize = 0;
        while i < infos.len()
            invariant
                i <= infos@.len(),
                out@.len() == admitted_infos(infos@.take(i as int)).len(),
                forall|k: int|
                    0 <= k < out@.len() ==> describes(admitted_infos(infos@.take(i as int))[k], #[trigger] out@[k]),
            decreases infos@.len() - i,
        {
            proof {
                assert(infos@.take(i + 1).drop_last() =~= infos@.take(i as int));
            }
            match Self::parse_window_info(&infos[i]) {
                Some(w) => {
                    out.push(w);
                },
                None => {},
            }
            i = i + 1;
        }
        proof {
            assert(infos@.take(infos@.len() as int) =~= infos@);
        }
        out
    }
}

} // verus!
