//! The window manager's state: configuration, tracked windows, one layout
//! engine per space, and the scratchpad, floating set and marks.

use vstd::prelude::*;

use std::collections::{HashMap, HashSet};

use crate::config::{rule_action_of, window_rule_from, GapConfig, MosaicConfig, RuleConfig};
use crate::layout::{BspNode, EngineView, Frame, LayoutEngine, LayoutMode, Rect, WindowId};
use crate::sa::ScriptingAddition;
use crate::window::{default_blacklisted_apps, TrackedWindow, TrackerView, WindowRule, WindowTracker};

verus! {

broadcast use vstd::std_specs::hash::group_hash_axioms;

/// Where a window is to be put, with what is needed to find it on screen:
/// its owner and its title.
#[derive(Clone, Debug)]
pub struct WindowMove {
    pub window_id: WindowId,
    pub owner_pid: i32,
    pub title: String,
    pub frame: Frame,
}

/// The window rule a configured rule becomes.
pub open spec fn rule_of(rule: RuleConfig) -> WindowRule {
    WindowRule {
        app_name: rule.app_name,
        title_contains: rule.title_contains,
        action: rule_action_of(rule.action@),
    }
}

/// A new layout engine for a space: BSP, with the configured gaps.
pub open spec fn fresh_engine(gaps: GapConfig) -> EngineView {
    EngineView {
        mode: LayoutMode::Bsp,
        tree: BspNode::Empty,
        gap_inner: gaps.inner,
        gap_outer: gaps.outer,
        windows: Seq::empty(),
    }
}

/// The area windows are tiled in: a 1920 by 1080 screen less a 25-pixel
/// menu bar.
pub open spec fn tiling_screen() -> Rect {
    Rect { x: 0, y: 25, width: 1920, height: 1055 }
}

/// The identifiers of the windows to tile on a space: those on the space that
/// neither float nor are minimized, in order.
pub open spec fn tiled_ids(ws: Seq<TrackedWindow>, space_id: u64) -> Seq<WindowId>
    decreases ws.len(),
{
    if ws.len() == 0 {
        Seq::empty()
    } else {
        let rest = tiled_ids(ws.drop_last(), space_id);
        let w = ws.last();
        if w.space_id == space_id && !w.is_floating && !w.is_minimized {
            rest.push(w.id)
        } else {
            rest
        }
    }
}

/// The moves for a computed layout: one for each placed window that is
/// tracked and not in the floating set, in layout order.
pub open spec fn placements(
    layout: Seq<(WindowId, Frame)>,
    tracker: TrackerView,
    floating: Set<u32>,
) -> Seq<WindowMove>
    decreases layout.len(),
{
    if layout.len() == 0 {
        Seq::empty()
    } else {
        let rest = placements(layout.drop_last(), tracker, floating);
        let (wid, frame) = layout.last();
        if !floating.contains(wid) && tracker.has(wid) {
            let w = tracker.lookup(wid)->0;
            rest.push(WindowMove { window_id: wid, owner_pid: w.owner_pid, title: w.title, frame })
        } else {
            rest
        }
    }
}

/// The state of the window manager, as the contracts see it.
pub ghost struct MosaicView {
    pub config: MosaicConfig,
    pub tracker: TrackerView,
    /// The layout engine of each space that has one.
    pub layouts: Map<u64, EngineView>,
    pub connection_id: i32,
    /// Windows sent to the scratchpad, the last one on top.
    pub scratchpad: Seq<u32>,
    /// Windows that are never tiled.
    pub floating: Set<u32>,
    /// Marked windows, by the code of the mark's character.
    pub marks: Map<u32, u32>,
    pub sa_client: Option<ScriptingAddition>,
}

impl MosaicView {
    /// The layout engine of a space: its own, or a new one.
    pub open spec fn engine_for(self, space_id: u64) -> EngineView {
        if self.layouts.contains_key(space_id) {
            self.layouts[space_id]
        } else {
            fresh_engine(self.config.gaps)
        }
    }

    /// The state with the space's engine given, or a new one if it had none.
    pub open spec fn with_engine(self, space_id: u64) -> MosaicView {
        MosaicView { layouts: self.layouts.insert(space_id, self.engine_for(space_id)), ..self }
    }

    /// The identifiers of the windows to tile on a space.
    pub open spec fn tiled_on(self, space_id: u64) -> Seq<WindowId> {
        tiled_ids(self.tracker.windows, space_id)
    }

    /// The space's engine once every window to tile there has been added.
    pub open spec fn retiled_engine(self, space_id: u64) -> EngineView {
        self.engine_for(space_id).with_windows(self.tiled_on(space_id))
    }

    /// The state after retiling a space: nothing changes when no window is
    /// to be tiled there; otherwise the space's engine takes every such window.
    pub open spec fn retiled(self, space_id: u64) -> MosaicView {
        if self.tiled_on(space_id).len() == 0 {
            self
        } else {
            MosaicView {
                layouts: self.layouts.insert(space_id, self.retiled_engine(space_id)),
                ..self
            }
        }
    }

    /// The moves a retile of a space asks for: the layout of the space's
    /// engine on the tiling screen, less floating and untracked windows.
    /// None when nothing is to be tiled, or when the layout's numbers would
    /// not fit in 64 bits.
    pub open spec fn retile_moves(self, space_id: u64) -> Seq<WindowMove> {
        let e = self.retiled_engine(space_id);
        if self.tiled_on(space_id).len() == 0 || !e.layout_fits(tiling_screen()) {
            Seq::empty()
        } else {
            placements(e.layout(tiling_screen()), self.tracker, self.floating)
        }
    }
}

/// The window manager's state.
pub struct Mosaic {
    /// The configuration.
    pub config: MosaicConfig,
    /// Every window on the system.
    pub tracker: WindowTracker,
    /// The layout engine of each space.
    pub layouts: HashMap<u64, LayoutEngine>,
    /// The connection to the window server.
    pub connection_id: i32,
    /// Windows sent to the scratchpad, the last one on top.
    pub scratchpad: Vec<u32>,
    /// Windows that float over the tiling layout.
    pub floating_windows: HashSet<u32>,
    /// Marked windows, by the code of the mark's character.
    pub marks: HashMap<u32, u32>,
    /// The scripting addition, when one answered.
    pub sa_client: Option<ScriptingAddition>,
}

impl View for Mosaic {
    type V = MosaicView;

    open spec fn view(&self) -> MosaicView {
        MosaicView {
            config: self.config,
            tracker: self.tracker@,
            layouts: self.layouts@.map_values(|e: LayoutEngine| e@),
            connection_id: self.connection_id,
            scratchpad: self.scratchpad@,
            floating: self.floating_windows@,
            marks: self.marks@,
            sa_client: self.sa_client,
        }
    }
}

impl Mosaic {
    /// The tracker's bookkeeping is sound.
    pub open spec fn wf(&self) -> bool {
        self.tracker@.wf()
    }

    /// The state for a configuration: a tracker with the configured rules
    /// (and the default blacklist), no layouts, an empty scratchpad, no
    /// floating windows and no marks.
    pub fn new(config: MosaicConfig, connection_id: i32, sa_client: Option<ScriptingAddition>) -> (r: Self)
        ensures
            r.wf(),
            r@ == (MosaicView {
                config,
                tracker: TrackerView {
                    ids: Seq::empty(),
                    windows: Seq::empty(),
                    managed: Set::empty(),
                    rules: config.rules@.map_values(|c: RuleConfig| rule_of(c)),
                    focused: None,
                    blacklist: default_blacklisted_apps(),
                },
                layouts: Map::empty(),
                connection_id,
                scratchpad: Seq::empty(),
                floating: Set::empty(),
                marks: Map::empty(),
                sa_client,
            }),
    {
        let mut tracker = WindowTracker::new();
        proof {
            assert(config.rules@.take(0).map_values(|c: RuleConfig| rule_of(c)) =~= Seq::<WindowRule>::empty());
        }
        let mut i: usize = 0;
        while i < config.rules.len()
            invariant
                i <= config.rules@.len(),
                tracker@.wf(),
                tracker@ == (TrackerView {
                    ids: Seq::empty(),
                    windows: Seq::empty(),
                    managed: Set::empty(),
                    rules: config.rules@.take(i as int).map_values(|c: RuleConfig| rule_of(c)),
                    focused: None,
                    blacklist: default_blacklisted_apps(),
                }),
            decreases config.rules@.len() - i,
        {
            let rule = window_rule_from(&config.rules[i]);
            tracker.add_rule(rule);
            proof {
                assert(config.rules@.take(i + 1).map_values(|c: RuleConfig| rule_of(c))
                    =~= config.rules@.take(i as int).map_values(|c: RuleConfig| rule_of(c)).push(
                    rule,
                ));
            }
            i = i + 1;
        }
        proof {
            assert(config.rules@.take(config.rules@.len() as int) =~= config.rules@);
        }
        let r = Mosaic {
            config,
            tracker,
            layouts: HashMap::new(),
            connection_id,
            scratchpad: Vec::new(),
            floating_windows: HashSet::new(),
            marks: HashMap::new(),
            sa_client,
        };
        proof {
            assert(r@.layouts =~= Map::<u64, EngineView>::empty());
        }
        r
    }
}


impl Mosaic {
    /// The layout engine of a space, made (BSP, with the configured gaps)
    /// when the space has none yet.
    pub fn layout_for_space(&mut self, space_id: u64) -> (r: &mut LayoutEngine)
        ensures
            r@ == old(self)@.engine_for(space_id),
            final(self).layouts@ == old(self).layouts@.insert(space_id, *final(r)),
            final(self).config == old(self).config,
            final(self).tracker == old(self).tracker,
            final(self).connection_id == old(self).connection_id,
            final(self).scratchpad == old(self).scratchpad,
            final(self).floating_windows == old(self).floating_windows,
            final(self).marks == old(self).marks,
            final(self).sa_client == old(self).sa_client,
    {
        let fresh = LayoutEngine::new(LayoutMode::Bsp, self.config.gaps.inner, self.config.gaps.outer);
        self.layouts.entry(space_id).or_insert(fresh)
    }
}


/// The rectangle windows are tiled in.
fn tiling_screen_rect() -> (r: Rect)
    ensures
        r == tiling_screen(),
{
    Rect { x: 0, y: 25, width: 1920, height: 1055 }
}

impl Mosaic {
    /// Takes a space's layout engine out of the map, or makes a new one.
    pub(crate) fn take_engine(&mut self, space_id: u64) -> (r: LayoutEngine)
        ensures
            r@ == old(self)@.engine_for(space_id),
            final(self)@ == (MosaicView { layouts: old(self)@.layouts.remove(space_id), ..old(self)@ }),
    {
        let taken = self.layouts.remove(&space_id);
        proof {
            assert(self@.layouts =~= old(self)@.layouts.remove(space_id));
        }
        match taken {
            Some(e) => e,
            None => LayoutEngine::new(LayoutMode::Bsp, self.config.gaps.inner, self.config.gaps.outer),
        }
    }

    /// Puts a space's layout engine in the map.
    pub(crate) fn put_engine(&mut self, space_id: u64, engine: LayoutEngine)
        ensures
            final(self)@ == (MosaicView {
                layouts: old(self)@.layouts.insert(space_id, engine@),
                ..old(self)@
            }),
    {
        self.layouts.insert(space_id, engine);
        proof {
            assert(self@.layouts =~= old(self)@.layouts.insert(space_id, engine@));
        }
    }

    /// The identifiers of the windows to tile on a space.
    fn tiled_on_space(&self, space_id: u64) -> (r: Vec<WindowId>)
        requires
            self.wf(),
        ensures
            r@ == self@.tiled_on(space_id),
    {
        let ghost ws_spec = self@.tracker.windows;
        let ws = self.tracker.all_windows();
        let mut out: Vec<WindowId> = Vec::new();
        let mut i: usize = 0;
        while i < ws.len()
            invariant
                i <= ws@.len(),
                ws@.len() == ws_spec.len(),
                forall|k: int| 0 <= k < ws@.len() ==> *ws@[k] == ws_spec[k],
                out@ == tiled_ids(ws_spec.take(i as int), space_id),
            decreases ws@.len() - i,
        {
            let w = ws[i];
            proof {
                assert(ws_spec.take(i + 1).drop_last() =~= ws_spec.take(i as int));
            }
            if w.space_id == space_id && !w.is_floating && !w.is_minimized {
                out.push(w.id);
            }
            i = i + 1;
        }
        proof {
            assert(ws_spec.take(ws_spec.len() as int) =~= ws_spec);
        }
        out
    }

    /// The moves that put the windows of an engine's layout in place.
    fn placements_for(&self, engine: &LayoutEngine) -> (r: Vec<WindowMove>)
        requires
            self.wf(),
        ensures
            r@ == (if engine@.layout_fits(tiling_screen()) {
                placements(engine@.layout(tiling_screen()), self@.tracker, self@.floating)
            } else {
                Seq::empty()
            }),
    {
        let screen = tiling_screen_rect();
        if !engine.layout_fits(screen) {
            return Vec::new();
        }
        let placed = engine.compute_layout(screen);
        let ghost layout = placed@;
        let mut out: Vec<WindowMove> = Vec::new();
        let mut i: usize = 0;
        while i < placed.len()
            invariant
                self.wf(),
                layout == placed@,
                i <= layout.len(),
                out@ == placements(layout.take(i as int), self@.tracker, self@.floating),
            decreases layout.len() - i,
        {
            let (wid, frame) = placed[i];
            proof {
                assert(layout.take(i + 1).drop_last() =~= layout.take(i as int));
            }
            if !self.floating_windows.contains(&wid) {
                match self.tracker.get_window(wid) {
                    Some(w) => {
                        out.push(
                            WindowMove {
                                window_id: wid,
                                owner_pid: w.owner_pid,
                                title: w.title.clone(),
                                frame,
                            },
                        );
                    },
                    None => {},
                }
            }
            i = i + 1;
        }
        proof {
            assert(layout.take(layout.len() as int) =~= layout);
        }
        out
    }

    /// Retiles a space: every window to tile there joins the space's layout
    /// engine (made when the space has none), and the engine's layout is
    /// returned as moves, one for each tracked window that does not float.
    /// Nothing happens when no window is to be tiled on the space.
    pub fn retile_space(&mut self, space_id: u64) -> (r: Vec<WindowMove>)
        requires
            old(self).wf(),
        ensures
            final(self).wf(),
            final(self)@ == old(self)@.retiled(space_id),
            r@ == old(self)@.retile_moves(space_id),
    {
        let ids = self.tiled_on_space(space_id);
        if ids.len() == 0 {
            return Vec::new();
        }
        let mut engine = self.take_engine(space_id);
        let ghost e0 = engine@;
        let mut i: usize = 0;
        while i < ids.len()
            invariant
                i <= ids@.len(),
                engine@ == e0.with_windows(ids@.take(i as int)),
            decreases ids@.len() - i,
        {
            proof {
                assert(ids@.take(i + 1).drop_last() =~= ids@.take(i as int));
            }
            engine.add_window(ids[i]);
            i = i + 1;
        }
        proof {
            assert(ids@.take(ids@.len() as int) =~= ids@);
        }
        let moves = self.placements_for(&engine);
        self.put_engine(space_id, engine);
        proof {
            assert(self@.layouts =~= old(self)@.layouts.insert(space_id, old(self)@.retiled_engine(space_id)));
        }
        moves
    }
}


/// Adding windows keeps the windows an engine had and holds each added one.
pub proof fn lemma_with_windows_holds(e: EngineView, ids: Seq<WindowId>)
    ensures
        forall|x: WindowId| e.windows.contains(x) ==> #[trigger] e.with_windows(ids).windows.contains(x),
        forall|k: int| 0 <= k < ids.len() ==> e.with_windows(ids).windows.contains(#[trigger] ids[k]),
    decreases ids.len(),
{
    if ids.len() > 0 {
        let prev = e.with_windows(ids.drop_last());
        lemma_with_windows_holds(e, ids.drop_last());
        assert forall|x: WindowId| prev.windows.contains(x) implies #[trigger] prev.with_window(
            ids.last(),
        ).windows.contains(x) by {
            if !prev.windows.contains(ids.last()) {
                let i = prev.windows.index_of(x);
                assert(prev.windows.push(ids.last())[i] == x);
            }
        }
        if !prev.windows.contains(ids.last()) {
            assert(prev.windows.push(ids.last())[prev.windows.len() as int] == ids.last());
        }
        assert forall|k: int| 0 <= k < ids.len() implies e.with_windows(ids).windows.contains(
            #[trigger] ids[k],
        ) by {
            if k < ids.len() - 1 {
                assert(ids.drop_last()[k] == ids[k]);
            }
        }
    }
}

/// Adding windows an engine already holds changes nothing.
pub proof fn lemma_with_windows_held(e: EngineView, ids: Seq<WindowId>)
    requires
        forall|k: int| 0 <= k < ids.len() ==> e.windows.contains(#[trigger] ids[k]),
    ensures
        e.with_windows(ids) == e,
    decreases ids.len(),
{
    if ids.len() > 0 {
        assert forall|k: int| 0 <= k < ids.drop_last().len() implies e.windows.contains(
            #[trigger] ids.drop_last()[k],
        ) by {
            assert(ids.drop_last()[k] == ids[k]);
        }
        lemma_with_windows_held(e, ids.drop_last());
        assert(e.windows.contains(ids[ids.len() - 1]));
    }
}

/// Retiling a space a second time changes nothing more, and asks for the
/// same moves as the first time.
pub proof fn law_retile_idempotent(v: MosaicView, space_id: u64)
    ensures
        v.retiled(space_id).retiled(space_id) == v.retiled(space_id),
        v.retiled(space_id).retile_moves(space_id) == v.retile_moves(space_id),
{
    let ids = v.tiled_on(space_id);
    if ids.len() > 0 {
        let w = v.retiled(space_id);
        let e1 = v.retiled_engine(space_id);
        assert(w.engine_for(space_id) == e1);
        lemma_with_windows_holds(v.engine_for(space_id), ids);
        lemma_with_windows_held(e1, ids);
        assert(w.retiled_engine(space_id) == e1);
        assert(w.retiled(space_id).layouts =~= w.layouts);
    }
}

/// After a space is retiled, its layout engine holds every window to tile
/// there, and every window it held before.
pub proof fn law_retile_holds_every_tiled_window(v: MosaicView, space_id: u64, x: WindowId)
    requires
        v.tiled_on(space_id).len() > 0,
    ensures
        v.tiled_on(space_id).contains(x) ==> v.retiled(space_id).layouts[space_id].windows.contains(x),
        v.engine_for(space_id).windows.contains(x) ==> v.retiled(space_id).layouts[space_id].windows.contains(x),
{
    lemma_with_windows_holds(v.engine_for(space_id), v.tiled_on(space_id));
    if v.tiled_on(space_id).contains(x) {
        let k = v.tiled_on(space_id).index_of(x);
        assert(v.tiled_on(space_id)[k] == x);
    }
}

/// What watching the active space decides: the space to remember, and
/// whether to rediscover the windows and retile. A change of space is
/// followed, but the first space seen (when none was remembered, 0) is only
/// remembered.
pub open spec fn space_poll(last: u64, active: u64) -> (u64, bool) {
    if active != last {
        (active, last != 0)
    } else {
        (last, false)
    }
}

/// Decides what to do when the active space is polled.
pub fn space_poll_step(last: u64, active: u64) -> (r: (u64, bool))
    ensures
        r == space_poll(last, active),
{
    if active != last {
        (active, last != 0)
    } else {
        (last, false)
    }
}

/// The windows to tile on a space are exactly the identifiers of the
/// windows on that space that neither float nor are minimized.
proof fn lemma_tiled_ids_members(ws: Seq<TrackedWindow>, space_id: u64, x: WindowId)
    ensures
        tiled_ids(ws, space_id).contains(x) <==> exists|i: int|
            0 <= i < ws.len() && ws[i].id == x && ws[i].space_id == space_id && !ws[i].is_floating
                && !ws[i].is_minimized,
    decreases ws.len(),
{
    if ws.len() > 0 {
        let init = ws.drop_last();
        lemma_tiled_ids_members(init, space_id, x);
        let rest = tiled_ids(init, space_id);
        crate::seqs::lemma_contains_push(rest, ws.last().id, x);
        if exists|i: int|
            0 <= i < ws.len() && ws[i].id == x && ws[i].space_id == space_id && !ws[i].is_floating
                && !ws[i].is_minimized {
            let i = choose|i: int|
                0 <= i < ws.len() && ws[i].id == x && ws[i].space_id == space_id
                    && !ws[i].is_floating && !ws[i].is_minimized;
            if i < init.len() {
                assert(init[i] == ws[i]);
            }
        }
        if exists|i: int|
            0 <= i < init.len() && init[i].id == x && init[i].space_id == space_id
                && !init[i].is_floating && !init[i].is_minimized {
            let i = choose|i: int|
                0 <= i < init.len() && init[i].id == x && init[i].space_id == space_id
                    && !init[i].is_floating && !init[i].is_minimized;
            assert(ws[i] == init[i]);
        }
        if tiled_ids(ws, space_id).contains(x) && !rest.contains(x) {
            assert(ws[ws.len() - 1] == ws.last());
        }
    }
}

/// Adding windows to an engine adds only those windows.
proof fn lemma_with_windows_only(e: EngineView, ids: Seq<WindowId>, x: WindowId)
    ensures
        e.with_windows(ids).windows.contains(x) ==> e.windows.contains(x) || ids.contains(x),
    decreases ids.len(),
{
    if ids.len() > 0 {
        let init = ids.drop_last();
        lemma_with_windows_only(e, init, x);
        let p = e.with_windows(init);
        crate::seqs::lemma_contains_push(p.windows, ids.last(), x);
        if init.contains(x) {
            let k = init.index_of(x);
            assert(ids[k] == x);
        }
        assert(ids[ids.len() - 1] == ids.last());
    }
}

/// Law: a retile tiles exactly the windows on the space that neither float
/// nor are minimized: a window tracked only as floating (or minimized, or on
/// another space) is not among them, and the space's engine gains no window
/// other than those.
pub proof fn law_retile_tiles_only_tileable_windows(v: MosaicView, space_id: u64, x: WindowId)
    ensures
        v.tiled_on(space_id).contains(x) <==> exists|i: int|
            0 <= i < v.tracker.windows.len() && v.tracker.windows[i].id == x
                && v.tracker.windows[i].space_id == space_id && !v.tracker.windows[i].is_floating
                && !v.tracker.windows[i].is_minimized,
        (forall|i: int|
            0 <= i < v.tracker.windows.len() && v.tracker.windows[i].id == x
                ==> #[trigger] v.tracker.windows[i].is_floating) ==> !v.tiled_on(space_id).contains(x),
        v.retiled(space_id).layouts.contains_key(space_id) && v.retiled(space_id).layouts[space_id].windows.contains(x)
            ==> v.engine_for(space_id).windows.contains(x) || v.tiled_on(space_id).contains(x),
{
    lemma_tiled_ids_members(v.tracker.windows, space_id, x);
    lemma_with_windows_only(v.engine_for(space_id), v.tiled_on(space_id), x);
}

} // verus!
