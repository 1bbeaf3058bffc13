//! The scratchpad and window marks.

use vstd::prelude::*;

use crate::layout::EngineView;
use crate::seqs::drop_all;
use crate::state::{Mosaic, MosaicView, WindowMove};

verus! {

broadcast use vstd::std_specs::hash::group_hash_axioms;

/// An engine with a window taken out of its list and its tree.
pub open spec fn engine_without(e: EngineView, window_id: u32) -> EngineView {
    EngineView { windows: drop_all(e.windows, window_id), tree: e.tree.removed(window_id), ..e }
}

impl MosaicView {
    /// The state once the window on top of the scratchpad has been summoned:
    /// it leaves the scratchpad and floats.
    pub open spec fn summoned(self) -> MosaicView {
        let wid = self.scratchpad.last();
        MosaicView {
            scratchpad: self.scratchpad.drop_last(),
            floating: self.floating.insert(wid),
            ..self
        }
    }

    /// The state once the first tracked window has been sent to the
    /// scratchpad: it goes on top of the scratchpad, stops floating, and
    /// leaves the space's layout engine when the space has one.
    pub open spec fn banished(self, space_id: u64) -> MosaicView {
        let wid = self.tracker.windows[0].id;
        MosaicView {
            scratchpad: self.scratchpad.push(wid),
            floating: self.floating.remove(wid),
            layouts: if self.layouts.contains_key(space_id) {
                self.layouts.insert(space_id, engine_without(self.layouts[space_id], wid))
            } else {
                self.layouts
            },
            ..self
        }
    }

    /// The state after `toggle_scratchpad(space_id)`: the window on top of a
    /// non-empty scratchpad is summoned, or else the first tracked window (if
    /// any) is banished; the space is then retiled.
    pub open spec fn scratchpad_toggled(self, space_id: u64) -> MosaicView {
        if self.scratchpad.len() > 0 {
            self.summoned().retiled(space_id)
        } else if self.tracker.windows.len() > 0 {
            self.banished(space_id).retiled(space_id)
        } else {
            self
        }
    }

    /// The moves asked for by `toggle_scratchpad(space_id)`: those of the retile.
    pub open spec fn scratchpad_moves(self, space_id: u64) -> Seq<WindowMove> {
        if self.scratchpad.len() > 0 {
            self.summoned().retile_moves(space_id)
        } else if self.tracker.windows.len() > 0 {
            self.banished(space_id).retile_moves(space_id)
        } else {
            Seq::empty()
        }
    }

    /// The state after `mark_window(mark)`: the first tracked window, if any,
    /// is marked with `mark`, replacing what the mark named before.
    pub open spec fn marked(self, mark: char) -> MosaicView {
        if self.tracker.windows.len() > 0 {
            MosaicView { marks: self.marks.insert(mark as u32, self.tracker.windows[0].id), ..self }
        } else {
            self
        }
    }
}

impl Mosaic {
    /// Summons the window on top of the scratchpad, making it float, or, when
    /// the scratchpad is empty, sends the first tracked window there (it stops
    /// floating and leaves the space's layout). Either way the space is then
    /// retiled, and its moves are returned.
    pub fn toggle_scratchpad(&mut self, space_id: u64) -> (r: Vec<WindowMove>)
        requires
            old(self).wf(),
        ensures
            final(self).wf(),
            final(self)@ == old(self)@.scratchpad_toggled(space_id),
            r@ == old(self)@.scratchpad_moves(space_id),
    {
        match self.scratchpad.pop() {
            Some(wid) => {
                self.floating_windows.insert(wid);
                proof {
                    assert(self@ == old(self)@.summoned());
                }
                self.retile_space(space_id)
            },
            None => {
                let first = {
                    let all = self.tracker.all_windows();
                    if all.len() > 0 {
                        Some(all[0].id)
                    } else {
                        None
                    }
                };
                match first {
                    Some(wid) => {
                        self.scratchpad.push(wid);
                        self.floating_windows.remove(&wid);
                        if self.layouts.contains_key(&space_id) {
                            let mut engine = self.take_engine(space_id);
                            engine.remove_window(wid);
                            self.put_engine(space_id, engine);
                            proof {
                                assert(self@.layouts =~= old(self)@.banished(space_id).layouts);
                            }
                        }
                        proof {
                            assert(self@ == old(self)@.banished(space_id));
                        }
                        self.retile_space(space_id)
                    },
                    None => Vec::new(),
                }
            },
        }
    }

    /// Marks the first tracked window with `mark`; does nothing when no window
    /// is tracked.
    pub fn mark_window(&mut self, mark: char)
        requires
            old(self).wf(),
        ensures
            final(self).wf(),
            final(self)@ == old(self)@.marked(mark),
    {
        let first = {
            let all = self.tracker.all_windows();
            if all.len() > 0 {
                Some(all[0].id)
            } else {
                None
            }
        };
        if let Some(wid) = first {
            self.marks.insert(mark as u32, wid);
        }
    }

    /// The window marked with `mark`, if any: the one to bring to the front.
    pub fn jump_to_mark(&mut self, mark: char) -> (r: Option<u32>)
        ensures
            final(self)@ == old(self)@,
            r == old(self)@.marks.get(mark as u32),
    {
        match self.marks.get(&(mark as u32)) {
            Some(wid) => Some(*wid),
            None => None,
        }
    }
}


/// Toggling the scratchpad twice, starting from an empty scratchpad, sends
/// the first tracked window away and brings it back floating: the scratchpad
/// is empty again.
pub proof fn law_banish_then_summon(v: MosaicView, space_id: u64)
    requires
        v.scratchpad.len() == 0,
        v.tracker.windows.len() > 0,
    ensures
        v.scratchpad_toggled(space_id).scratchpad.len() == 1,
        v.scratchpad_toggled(space_id).scratchpad_toggled(space_id).scratchpad == Seq::<u32>::empty(),
        v.scratchpad_toggled(space_id).scratchpad_toggled(space_id).floating.contains(
            v.tracker.windows[0].id,
        ),
{
    let v1 = v.scratchpad_toggled(space_id);
    assert(v1.scratchpad == seq![v.tracker.windows[0].id]);
    assert(v1.scratchpad_toggled(space_id).scratchpad =~= Seq::<u32>::empty());
}

/// Once the first tracked window is marked, its mark leads back to it.
pub proof fn law_mark_then_jump(v: MosaicView, mark: char)
    requires
        v.tracker.windows.len() > 0,
    ensures
        v.marked(mark).marks.get(mark as u32) == Some(v.tracker.windows[0].id),
{
}

} // verus!
