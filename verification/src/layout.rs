//! Tiling layouts: a binary space partitioning tree, monocle and master-stack.

use vstd::prelude::*;

use crate::seqs::{
    drop_all, last_index, lemma_contains_push, lemma_drop_all, lemma_insert_contains, lemma_last_index,
    lemma_remove_first_absent, lemma_remove_first_concat, lemma_remove_first_contains,
    lemma_swap_positions, remove_first,
};

verus! {

/// Identifier of a window, as used by the window server.
pub type WindowId = u32;

/// The number of parts in a whole when a split ratio is written down:
/// a ratio of `RATIO_SCALE / 2` gives each side of a split half the room.
pub const RATIO_SCALE: u32 = 1000;

/// The ratio that gives both sides of a split the same room.
pub const HALF_RATIO: u32 = 500;

/// A rectangle on screen, in whole pixels.
#[derive(Clone, Copy, Debug, PartialEq, Eq, Structural)]
pub struct Rect {
    pub x: i64,
    pub y: i64,
    pub width: i64,
    pub height: i64,
}

/// How a split divides its region.
#[derive(Clone, Copy, Debug, PartialEq, Eq, Structural)]
pub enum SplitDirection {
    /// Side by side: the region's width is divided.
    Horizontal,
    /// One above the other: the region's height is divided.
    Vertical,
}

/// A compass direction, as used by focus and swap commands.
#[derive(Clone, Copy, Debug, PartialEq, Eq, Structural)]
pub enum Direction {
    North,
    South,
    East,
    West,
}

/// A node of the tiling tree.
pub enum BspNode {
    /// An inner node that divides its region between two subtrees.
    /// `ratio` is the share given to `first`, in parts of `RATIO_SCALE`.
    Split { direction: SplitDirection, ratio: u32, first: Box<BspNode>, second: Box<BspNode> },
    /// A single window that takes the whole region.
    Leaf { window_id: WindowId },
    /// No window at all.
    Empty,
}

/// The other split direction.
pub open spec fn flip(d: SplitDirection) -> SplitDirection {
    match d {
        SplitDirection::Horizontal => SplitDirection::Vertical,
        SplitDirection::Vertical => SplitDirection::Horizontal,
    }
}

/// A swap changes the tree when both windows occur and differ.
pub open spec fn swap_applies(s: Seq<WindowId>, a: WindowId, b: WindowId) -> bool {
    a != b && s.contains(a) && s.contains(b)
}

/// The windows after a swap: the last `a` becomes `b` and the last `b` becomes `a`.
pub open spec fn swap_leaves(s: Seq<WindowId>, a: WindowId, b: WindowId) -> Seq<WindowId> {
    if swap_applies(s, a, b) {
        s.update(last_index(s, a), b).update(last_index(s, b), a)
    } else {
        s
    }
}

/// Whether an integer fits in an `i64`.
pub open spec fn fits_i64(v: int) -> bool {
    i64::MIN <= v <= i64::MAX
}

/// The room given to the first side of a split whose room is `total`: the
/// share `ratio` out of `RATIO_SCALE`, rounded down.
pub open spec fn first_extent(total: int, ratio: u32) -> int {
    (total * ratio) / (RATIO_SCALE as int)
}

/// The numbers a split of `region` produces, in the split's direction:
/// the extent of the first side, the offset where the second side starts,
/// and the extent of the second side. The room to share is the region's
/// extent less one gap.
pub open spec fn split_values(region: Rect, direction: SplitDirection, ratio: u32, gap: i64) -> (
    int,
    int,
    int,
) {
    let origin: int = match direction {
        SplitDirection::Horizontal => region.x as int,
        SplitDirection::Vertical => region.y as int,
    };
    let extent: int = match direction {
        SplitDirection::Horizontal => region.width as int,
        SplitDirection::Vertical => region.height as int,
    };
    let total = extent - gap;
    let f = first_extent(total, ratio);
    (f, origin + f + gap, total - f)
}

/// Whether the numbers of a split fit in `i64` coordinates.
pub open spec fn split_fits(region: Rect, direction: SplitDirection, ratio: u32, gap: i64) -> bool {
    let (f, o, e) = split_values(region, direction, ratio, gap);
    fits_i64(f) && fits_i64(o) && fits_i64(e)
}

/// The region of the first side of a split.
pub open spec fn split_first(region: Rect, direction: SplitDirection, ratio: u32, gap: i64) -> Rect {
    let (f, o, e) = split_values(region, direction, ratio, gap);
    match direction {
        SplitDirection::Horizontal => Rect { width: f as i64, ..region },
        SplitDirection::Vertical => Rect { height: f as i64, ..region },
    }
}

/// The region of the second side of a split: it starts one gap after the
/// first side and ends where the region ends.
pub open spec fn split_second(region: Rect, direction: SplitDirection, ratio: u32, gap: i64) -> Rect {
    let (f, o, e) = split_values(region, direction, ratio, gap);
    match direction {
        SplitDirection::Horizontal => Rect { x: o as i64, width: e as i64, ..region },
        SplitDirection::Vertical => Rect { y: o as i64, height: e as i64, ..region },
    }
}

/// Division by `RATIO_SCALE`, rounding down also for negative numbers.
fn floor_div_scale(p: i128) -> (r: i128)
    requires
        -0x1_0000_0000_0000_0000_0000_0000_0000 < p < 0x1_0000_0000_0000_0000_0000_0000_0000,
    ensures
        r == (p as int) / (RATIO_SCALE as int),
{
    if p >= 0 {
        ((p as u128) / 1000) as i128
    } else {
        let m: u128 = (-p) as u128;
        let q: u128 = (m + 999) / 1000;
        proof {
            lemma_floor_div_negative(p as int, m as int, q as int);
        }
        -(q as i128)
    }
}

proof fn lemma_floor_div_negative(p: int, m: int, q: int)
    requires
        p < 0,
        m == -p,
        q == (m + 999) / 1000,
    ensures
        -q == p / 1000,
{
    assert(q * 1000 <= m + 999 < q * 1000 + 1000) by (nonlinear_arith)
        requires
            q == (m + 999) / 1000,
            m > 0,
    ;
    assert((-q) * 1000 <= p < (-q) * 1000 + 1000);
    vstd::arithmetic::div_mod::lemma_fundamental_div_mod_converse(p, 1000, -q, p - (-q) * 1000);
}

/// Splits `region` as a split node does, or `None` when a number does not fit
/// in `i64`.
pub fn split_region(region: Rect, direction: SplitDirection, ratio: u32, gap: i64) -> (r: Option<
    (Rect, Rect),
>)
    ensures
        r is Some <==> split_fits(region, direction, ratio, gap),
        r matches Some(p) ==> p == (
            split_first(region, direction, ratio, gap),
            split_second(region, direction, ratio, gap),
        ),
{
    let origin: i128 = match direction {
        SplitDirection::Horizontal => region.x as i128,
        SplitDirection::Vertical => region.y as i128,
    };
    let extent: i128 = match direction {
        SplitDirection::Horizontal => region.width as i128,
        SplitDirection::Vertical => region.height as i128,
    };
    let total: i128 = extent - gap as i128;
    proof {
        assert(-0x1_0000_0000_0000_0000 <= total <= 0x1_0000_0000_0000_0000);
        assert(-0x1_0000_0000_0000_0000_0000_0000 <= total * (ratio as int)
            <= 0x1_0000_0000_0000_0000_0000_0000) by (nonlinear_arith)
            requires
                -0x1_0000_0000_0000_0000 <= total <= 0x1_0000_0000_0000_0000,
                0 <= ratio <= 0xffff_ffff,
        ;
    }
    let product: i128 = total * ratio as i128;
    let f: i128 = floor_div_scale(product);
    proof {
        assert(-0x1_0000_0000_0000_0000_0000_0000 <= f <= 0x1_0000_0000_0000_0000_0000_0000);
    }
    let o: i128 = origin + f + gap as i128;
    let e: i128 = total - f;
    if f < i64::MIN as i128 || f > i64::MAX as i128 || o < i64::MIN as i128 || o > i64::MAX as i128
        || e < i64::MIN as i128 || e > i64::MAX as i128 {
        return None;
    }
    let fi = f as i64;
    let oi = o as i64;
    let ei = e as i64;
    match direction {
        SplitDirection::Horizontal => Some(
            (
                Rect { x: region.x, y: region.y, width: fi, height: region.height },
                Rect { x: oi, y: region.y, width: ei, height: region.height },
            ),
        ),
        SplitDirection::Vertical => Some(
            (
                Rect { x: region.x, y: region.y, width: region.width, height: fi },
                Rect { x: region.x, y: oi, width: region.width, height: ei },
            ),
        ),
    }
}

/// The split direction a compass direction moves across: east and west
/// cross splits that set regions side by side.
pub open spec fn axis_of(dir: Direction) -> SplitDirection {
    match dir {
        Direction::East | Direction::West => SplitDirection::Horizontal,
        Direction::North | Direction::South => SplitDirection::Vertical,
    }
}

/// Whether a direction points toward the second side of a split.
pub open spec fn forward(dir: Direction) -> bool {
    dir is East || dir is South
}

/// The neighbour of `current` in the master-stack layout of `windows`: the
/// first window is the master column, the others are rows of the stack to
/// its east, from north to south.
pub open spec fn master_stack_neighbour(windows: Seq<WindowId>, current: WindowId, dir: Direction) -> Option<WindowId> {
    if !windows.contains(current) || windows.len() < 2 {
        None
    } else {
        let i = windows.index_of(current);
        if i == 0 {
            if dir is East {
                Some(windows[1])
            } else {
                None
            }
        } else {
            match dir {
                Direction::West => Some(windows[0]),
                Direction::North => if i > 1 {
                    Some(windows[i - 1])
                } else {
                    None
                },
                Direction::South => if i + 1 < windows.len() {
                    Some(windows[i + 1])
                } else {
                    None
                },
                Direction::East => None,
            }
        }
    }
}

/// A split ratio moved by `delta`, kept between 1 and `RATIO_SCALE - 1` so
/// that both sides of the split keep some room.
pub open spec fn adjusted_ratio(ratio: u32, delta: int) -> u32 {
    let v = ratio + delta;
    if v < 1 {
        1
    } else if v > RATIO_SCALE - 1 {
        (RATIO_SCALE - 1) as u32
    } else {
        v as u32
    }
}

/// Moves a split ratio by `delta`, keeping it between 1 and `RATIO_SCALE - 1`.
pub fn adjust_ratio(ratio: u32, delta: i64) -> (r: u32)
    ensures
        r == adjusted_ratio(ratio, delta as int),
{
    let v: i128 = ratio as i128 + delta as i128;
    if v < 1 {
        1
    } else if v > (RATIO_SCALE - 1) as i128 {
        RATIO_SCALE - 1
    } else {
        v as u32
    }
}

impl BspNode {
    /// The windows of the tree, from left to right.
    pub open spec fn leaves(self) -> Seq<WindowId>
        decreases self,
    {
        match self {
            BspNode::Split { first, second, .. } => first.leaves() + second.leaves(),
            BspNode::Leaf { window_id } => seq![window_id],
            BspNode::Empty => Seq::empty(),
        }
    }

    pub open spec fn is_empty_node(self) -> bool {
        self is Empty
    }

    /// A well-formed tree has no empty subtree below a split.
    pub open spec fn wf(self) -> bool
        decreases self,
    {
        match self {
            BspNode::Split { first, second, .. } => {
                &&& !first.is_empty_node()
                &&& !second.is_empty_node()
                &&& first.wf()
                &&& second.wf()
            },
            _ => true,
        }
    }

    /// The tree after `insert(window_id)`: the leftmost leaf is split in two,
    /// keeping its window first and placing the new window second.
    pub open spec fn inserted(self, window_id: WindowId) -> BspNode
        decreases self,
    {
        match self {
            BspNode::Empty => BspNode::Leaf { window_id },
            BspNode::Leaf { window_id: existing } => BspNode::Split {
                direction: SplitDirection::Horizontal,
                ratio: HALF_RATIO,
                first: Box::new(BspNode::Leaf { window_id: existing }),
                second: Box::new(BspNode::Leaf { window_id }),
            },
            BspNode::Split { direction, ratio, first, second } => BspNode::Split {
                direction,
                ratio,
                first: Box::new(first.inserted(window_id)),
                second,
            },
        }
    }

    /// Where `insert` places a new window among the leaves: right after the
    /// leftmost window, or first when the leftmost subtree is empty.
    pub open spec fn insert_pos(self) -> nat
        decreases self,
    {
        match self {
            BspNode::Empty => 0,
            BspNode::Leaf { .. } => 1,
            BspNode::Split { first, .. } => first.insert_pos(),
        }
    }

    pub proof fn lemma_inserted_leaves(self, window_id: WindowId)
        ensures
            self.insert_pos() <= self.leaves().len(),
            self.inserted(window_id).leaves() == self.leaves().insert(
                self.insert_pos() as int,
                window_id,
            ),
        decreases self,
    {
        match self {
            BspNode::Split { first, second, .. } => {
                first.lemma_inserted_leaves(window_id);
                assert(self.inserted(window_id).leaves() =~= self.leaves().insert(
                    self.insert_pos() as int,
                    window_id,
                ));
            },
            BspNode::Leaf { window_id: existing } => {
                reveal_with_fuel(BspNode::leaves, 2);
                assert(self.inserted(window_id).leaves() =~= self.leaves().insert(1, window_id));
            },
            BspNode::Empty => {
                assert(self.inserted(window_id).leaves() =~= self.leaves().insert(0, window_id));
            },
        }
    }

    pub proof fn lemma_inserted_wf(self, window_id: WindowId)
        requires
            self.wf(),
        ensures
            self.inserted(window_id).wf(),
            !self.inserted(window_id).is_empty_node(),
        decreases self,
    {
        match self {
            BspNode::Split { direction, ratio, first, second } => {
                first.lemma_inserted_wf(window_id);
                let t = self.inserted(window_id);
                assert(t == BspNode::Split {
                    direction,
                    ratio,
                    first: Box::new(first.inserted(window_id)),
                    second,
                });
            },
            BspNode::Leaf { window_id: existing } => {
                reveal_with_fuel(BspNode::wf, 2);
            },
            BspNode::Empty => {},
        }
    }


    /// The tree after `remove(window_id)`: the first leaf holding the window
    /// (from the left) is taken out, and a split left with one child is
    /// replaced by that child.
    pub open spec fn removed(self, window_id: WindowId) -> BspNode
        decreases self,
    {
        match self {
            BspNode::Empty => BspNode::Empty,
            BspNode::Leaf { window_id: id } => if id == window_id {
                BspNode::Empty
            } else {
                self
            },
            BspNode::Split { direction, ratio, first, second } => {
                if first.leaves().contains(window_id) {
                    let f = first.removed(window_id);
                    if f.is_empty_node() {
                        *second
                    } else {
                        BspNode::Split { direction, ratio, first: Box::new(f), second }
                    }
                } else if second.leaves().contains(window_id) {
                    let s = second.removed(window_id);
                    if s.is_empty_node() {
                        *first
                    } else {
                        BspNode::Split { direction, ratio, first, second: Box::new(s) }
                    }
                } else {
                    self
                }
            },
        }
    }

    /// The windows of two concatenated sequences are those of either part.
    pub proof fn lemma_concat_contains(a: Seq<WindowId>, b: Seq<WindowId>, x: WindowId)
        ensures
            (a + b).contains(x) <==> (a.contains(x) || b.contains(x)),
    {
        let l = a + b;
        if l.contains(x) {
            let j = l.index_of(x);
            if j < a.len() {
                assert(a[j] == l[j]);
            } else {
                assert(b[j - a.len()] == l[j]);
            }
        }
        if a.contains(x) {
            assert(l[a.index_of(x)] == x);
        }
        if b.contains(x) {
            assert(l[a.len() + b.index_of(x)] == x);
        }
    }

    pub proof fn lemma_removed_leaves(self, window_id: WindowId)
        ensures
            self.removed(window_id).leaves() == remove_first(self.leaves(), window_id),
        decreases self,
    {
        match self {
            BspNode::Split { direction, ratio, first, second } => {
                first.lemma_removed_leaves(window_id);
                second.lemma_removed_leaves(window_id);
                let fl = first.leaves();
                let sl = second.leaves();
                lemma_remove_first_concat(fl, sl, window_id);
                lemma_remove_first_absent(fl, window_id);
                lemma_remove_first_absent(sl, window_id);
                if fl.contains(window_id) {
                    let f = first.removed(window_id);
                    if f.is_empty_node() {
                        assert(f.leaves() =~= Seq::<WindowId>::empty());
                        assert(remove_first(fl, window_id) + sl =~= sl);
                    }
                } else if sl.contains(window_id) {
                    let t = second.removed(window_id);
                    if t.is_empty_node() {
                        assert(t.leaves() =~= Seq::<WindowId>::empty());
                        assert(fl + remove_first(sl, window_id) =~= fl);
                    }
                }
            },
            BspNode::Leaf { window_id: id } => {
                assert(self.leaves().drop_first() =~= Seq::<WindowId>::empty());
                lemma_remove_first_absent(self.leaves(), window_id);
                assert(self.leaves()[0] == id);
            },
            BspNode::Empty => {},
        }
    }

    pub proof fn lemma_removed_absent(self, window_id: WindowId)
        ensures
            !self.leaves().contains(window_id) ==> self.removed(window_id) == self,
        decreases self,
    {
        if let BspNode::Split { first, second, .. } = self {
            Self::lemma_concat_contains(first.leaves(), second.leaves(), window_id);
        }
        if let BspNode::Leaf { window_id: id } = self {
            assert(self.leaves()[0] == id);
        }
    }

    pub proof fn lemma_removed_wf(self, window_id: WindowId)
        requires
            self.wf(),
        ensures
            self.removed(window_id).wf(),
        decreases self,
    {
        match self {
            BspNode::Split { first, second, .. } => {
                first.lemma_removed_wf(window_id);
                second.lemma_removed_wf(window_id);
            },
            _ => {},
        }
    }

    /// In a well-formed tree, only the empty tree has no windows.
    pub proof fn lemma_wf_empty_iff_no_leaves(self)
        requires
            self.wf(),
        ensures
            self.is_empty_node() <==> self.leaves().len() == 0,
        decreases self,
    {
        match self {
            BspNode::Split { first, second, .. } => {
                first.lemma_wf_empty_iff_no_leaves();
                second.lemma_wf_empty_iff_no_leaves();
            },
            _ => {},
        }
    }

    /// The tree with the first leaf holding the window (from the left)
    /// replaced by the subtree `n`.
    pub open spec fn graft(self, window_id: WindowId, n: BspNode) -> BspNode
        decreases self,
    {
        match self {
            BspNode::Split { direction, ratio, first, second } => {
                if first.leaves().contains(window_id) {
                    BspNode::Split { direction, ratio, first: Box::new(first.graft(window_id, n)), second }
                } else if second.leaves().contains(window_id) {
                    BspNode::Split { direction, ratio, first, second: Box::new(second.graft(window_id, n)) }
                } else {
                    self
                }
            },
            BspNode::Leaf { window_id: id } => if id == window_id {
                n
            } else {
                self
            },
            BspNode::Empty => self,
        }
    }

    /// The rectangle of every window when the tree tiles `region` with `gap`
    /// pixels between neighbours, from left to right.
    pub open spec fn rects(self, region: Rect, gap: i64) -> Seq<(WindowId, Rect)>
        decreases self,
    {
        match self {
            BspNode::Split { direction, ratio, first, second } => first.rects(
                split_first(region, direction, ratio, gap),
                gap,
            ) + second.rects(split_second(region, direction, ratio, gap), gap),
            BspNode::Leaf { window_id } => seq![(window_id, region)],
            BspNode::Empty => Seq::empty(),
        }
    }

    /// Whether every number computed while tiling `region` fits in `i64`.
    pub open spec fn rects_fit(self, region: Rect, gap: i64) -> bool
        decreases self,
    {
        match self {
            BspNode::Split { direction, ratio, first, second } => {
                &&& split_fits(region, direction, ratio, gap)
                &&& first.rects_fit(split_first(region, direction, ratio, gap), gap)
                &&& second.rects_fit(split_second(region, direction, ratio, gap), gap)
            },
            _ => true,
        }
    }

    /// Tiling yields one rectangle per window, in the order of the windows.
    pub proof fn lemma_rects_windows(self, region: Rect, gap: i64)
        ensures
            self.rects(region, gap).len() == self.leaves().len(),
            forall|i: int|
                0 <= i < self.leaves().len() ==> #[trigger] self.rects(region, gap)[i].0
                    == self.leaves()[i],
        decreases self,
    {
        match self {
            BspNode::Split { direction, ratio, first, second } => {
                let r1 = split_first(region, direction, ratio, gap);
                let r2 = split_second(region, direction, ratio, gap);
                first.lemma_rects_windows(r1, gap);
                second.lemma_rects_windows(r2, gap);
                let fl = first.leaves().len();
                assert forall|i: int|
                    0 <= i < self.leaves().len() implies #[trigger] self.rects(region, gap)[i].0
                    == self.leaves()[i] by {
                    if i < fl {
                        assert(self.rects(region, gap)[i] == first.rects(r1, gap)[i]);
                        assert(self.leaves()[i] == first.leaves()[i]);
                    } else {
                        assert(self.rects(region, gap)[i] == second.rects(r2, gap)[i - fl]);
                        assert(self.leaves()[i] == second.leaves()[i - fl]);
                    }
                }
            },
            _ => {},
        }
    }

    /// The tree with every split direction turned the other way.
    pub open spec fn rotated(self) -> BspNode
        decreases self,
    {
        match self {
            BspNode::Split { direction, ratio, first, second } => BspNode::Split {
                direction: flip(direction),
                ratio,
                first: Box::new(first.rotated()),
                second: Box::new(second.rotated()),
            },
            _ => self,
        }
    }

    /// The tree with every split giving both sides the same room.
    pub open spec fn equalized(self) -> BspNode
        decreases self,
    {
        match self {
            BspNode::Split { direction, ratio, first, second } => BspNode::Split {
                direction,
                ratio: HALF_RATIO,
                first: Box::new(first.equalized()),
                second: Box::new(second.equalized()),
            },
            _ => self,
        }
    }

    /// The tree with its `k`-th window (from the left) replaced by `v`.
    pub open spec fn set_leaf(self, k: int, v: WindowId) -> BspNode
        decreases self,
    {
        match self {
            BspNode::Split { direction, ratio, first, second } => {
                if k < first.leaves().len() {
                    BspNode::Split {
                        direction,
                        ratio,
                        first: Box::new(first.set_leaf(k, v)),
                        second,
                    }
                } else {
                    BspNode::Split {
                        direction,
                        ratio,
                        first,
                        second: Box::new(second.set_leaf(k - first.leaves().len(), v)),
                    }
                }
            },
            BspNode::Leaf { .. } => if k == 0 {
                BspNode::Leaf { window_id: v }
            } else {
                self
            },
            BspNode::Empty => self,
        }
    }

    /// The tree after `swap(a, b)`: when both windows are present and differ,
    /// the last leaf holding `a` and the last leaf holding `b` trade windows.
    pub open spec fn swapped(self, a: WindowId, b: WindowId) -> BspNode {
        if swap_applies(self.leaves(), a, b) {
            self.set_leaf(last_index(self.leaves(), a), b).set_leaf(
                last_index(self.leaves(), b),
                a,
            )
        } else {
            self
        }
    }

    /// The tree with every window number set to zero: what remains is the
    /// shape of the tree, its split directions and ratios.
    pub open spec fn shape(self) -> BspNode
        decreases self,
    {
        match self {
            BspNode::Split { direction, ratio, first, second } => BspNode::Split {
                direction,
                ratio,
                first: Box::new(first.shape()),
                second: Box::new(second.shape()),
            },
            BspNode::Leaf { .. } => BspNode::Leaf { window_id: 0 },
            BspNode::Empty => BspNode::Empty,
        }
    }

    /// Whether the path from the root to the first leaf holding `w` passes a
    /// split in direction `dir`.
    pub open spec fn holds_split(self, w: WindowId, dir: SplitDirection) -> bool
        decreases self,
    {
        match self {
            BspNode::Split { direction, first, second, .. } => if first.leaves().contains(w) {
                direction == dir || first.holds_split(w, dir)
            } else if second.leaves().contains(w) {
                direction == dir || second.holds_split(w, dir)
            } else {
                false
            },
            _ => false,
        }
    }

    /// The tree after `resize(w, dir, delta)`: the deepest split in direction
    /// `dir` on the path to the first leaf holding `w` has its ratio moved by
    /// `delta`, kept between 1 and `RATIO_SCALE - 1`; nothing else changes.
    pub open spec fn resized(self, w: WindowId, dir: SplitDirection, delta: int) -> BspNode
        decreases self,
    {
        match self {
            BspNode::Split { direction, ratio, first, second } => if first.leaves().contains(w) {
                if first.holds_split(w, dir) {
                    BspNode::Split {
                        direction,
                        ratio,
                        first: Box::new(first.resized(w, dir, delta)),
                        second,
                    }
                } else if direction == dir {
                    BspNode::Split { direction, ratio: adjusted_ratio(ratio, delta), first, second }
                } else {
                    self
                }
            } else if second.leaves().contains(w) {
                if second.holds_split(w, dir) {
                    BspNode::Split {
                        direction,
                        ratio,
                        first,
                        second: Box::new(second.resized(w, dir, delta)),
                    }
                } else if direction == dir {
                    BspNode::Split { direction, ratio: adjusted_ratio(ratio, delta), first, second }
                } else {
                    self
                }
            } else {
                self
            },
            _ => self,
        }
    }

    pub proof fn lemma_resized(self, w: WindowId, dir: SplitDirection, delta: int)
        ensures
            self.resized(w, dir, delta).leaves() == self.leaves(),
            self.wf() ==> self.resized(w, dir, delta).wf(),
            self.resized(w, dir, delta).is_empty_node() == self.is_empty_node(),
            !self.holds_split(w, dir) ==> self.resized(w, dir, delta) == self,
        decreases self,
    {
        if let BspNode::Split { first, second, .. } = self {
            first.lemma_resized(w, dir, delta);
            second.lemma_resized(w, dir, delta);
        }
    }

    /// The window reached from the first leaf holding `w` by crossing, in
    /// direction `dir`, the nearest split that divides along that direction
    /// and has `w` on the side facing away from `dir`: the nearest window on
    /// the other side (its first window going east or south, its last going
    /// west or north).
    pub open spec fn neighbour(self, w: WindowId, dir: Direction) -> Option<WindowId>
        decreases self,
    {
        match self {
            BspNode::Split { direction, first, second, .. } => if first.leaves().contains(w) {
                match first.neighbour(w, dir) {
                    Some(n) => Some(n),
                    None => if direction == axis_of(dir) && forward(dir) && second.leaves().len() > 0 {
                        Some(second.leaves()[0])
                    } else {
                        None
                    },
                }
            } else if second.leaves().contains(w) {
                match second.neighbour(w, dir) {
                    Some(n) => Some(n),
                    None => if direction == axis_of(dir) && !forward(dir) && first.leaves().len() > 0 {
                        Some(first.leaves().last())
                    } else {
                        None
                    },
                }
            } else {
                None
            },
            _ => None,
        }
    }

    pub proof fn lemma_rotated(self)
        ensures
            self.rotated().leaves() == self.leaves(),
            self.rotated().rotated() == self,
            self.wf() ==> self.rotated().wf(),
            self.rotated().is_empty_node() == self.is_empty_node(),
        decreases self,
    {
        if let BspNode::Split { first, second, .. } = self {
            first.lemma_rotated();
            second.lemma_rotated();
        }
    }

    pub proof fn lemma_equalized(self)
        ensures
            self.equalized().leaves() == self.leaves(),
            self.equalized().equalized() == self.equalized(),
            self.wf() ==> self.equalized().wf(),
            self.equalized().is_empty_node() == self.is_empty_node(),
        decreases self,
    {
        if let BspNode::Split { first, second, .. } = self {
            first.lemma_equalized();
            second.lemma_equalized();
        }
    }

    pub proof fn lemma_set_leaf(self, k: int, v: WindowId)
        requires
            0 <= k < self.leaves().len(),
        ensures
            self.set_leaf(k, v).leaves() == self.leaves().update(k, v),
            self.set_leaf(k, v).shape() == self.shape(),
            self.wf() ==> self.set_leaf(k, v).wf(),
            self.set_leaf(k, v).is_empty_node() == self.is_empty_node(),
        decreases self,
    {
        match self {
            BspNode::Split { first, second, .. } => {
                if k < first.leaves().len() {
                    first.lemma_set_leaf(k, v);
                    assert(self.set_leaf(k, v).leaves() =~= self.leaves().update(k, v));
                } else {
                    second.lemma_set_leaf(k - first.leaves().len(), v);
                    assert(self.set_leaf(k, v).leaves() =~= self.leaves().update(k, v));
                }
            },
            BspNode::Leaf { .. } => {
                assert(self.set_leaf(k, v).leaves() =~= self.leaves().update(k, v));
            },
            BspNode::Empty => {},
        }
    }

    pub proof fn lemma_swapped(self, a: WindowId, b: WindowId)
        ensures
            self.swapped(a, b).leaves() == swap_leaves(self.leaves(), a, b),
            self.swapped(a, b).shape() == self.shape(),
            self.wf() ==> self.swapped(a, b).wf(),
            self.swapped(a, b).is_empty_node() == self.is_empty_node(),
    {
        let l = self.leaves();
        if swap_applies(l, a, b) {
            lemma_last_index(l, a);
            lemma_last_index(l, b);
            let ia = last_index(l, a);
            let ib = last_index(l, b);
            self.lemma_set_leaf(ia, b);
            self.set_leaf(ia, b).lemma_set_leaf(ib, a);
        }
    }

    /// Creates an empty tree.
    pub fn new_empty() -> (r: Self)
        ensures
            r is Empty,
    {
        BspNode::Empty
    }

    /// Whether this node is the empty tree.
    pub fn is_empty(&self) -> (r: bool)
        ensures
            r == self.is_empty_node(),
    {
        match self {
            BspNode::Empty => true,
            _ => false,
        }
    }

    /// Takes out the first leaf (from the left) that holds the window, and
    /// replaces a split left with a single child by that child. Returns whether
    /// the window was found.
    pub fn remove(&mut self, window_id: WindowId) -> (r: bool)
        ensures
            r == old(self).leaves().contains(window_id),
            *final(self) == old(self).removed(window_id),
            final(self).leaves() == remove_first(old(self).leaves(), window_id),
        decreases *old(self),
    {
        proof {
            if let BspNode::Split { first, second, .. } = *old(self) {
                Self::lemma_concat_contains(first.leaves(), second.leaves(), window_id);
            }
        }
        proof {
            old(self).lemma_removed_leaves(window_id);
        }
        let mut node = BspNode::Empty;
        std::mem::swap(&mut node, self);
        let (result, removed) = match node {
            BspNode::Empty => (BspNode::Empty, false),
            BspNode::Leaf { window_id: id } => {
                if id == window_id {
                    (BspNode::Empty, true)
                } else {
                    proof {
                        assert(!old(self).leaves().contains(window_id)) by {
                            if old(self).leaves().contains(window_id) {
                                let j = old(self).leaves().index_of(window_id);
                                assert(old(self).leaves()[j] == id);
                            }
                        }
                    }
                    (BspNode::Leaf { window_id: id }, false)
                }
            },
            BspNode::Split { direction, ratio, mut first, mut second } => {
                proof {
                    first.lemma_removed_absent(window_id);
                    second.lemma_removed_absent(window_id);
                }
                if first.remove(window_id) {
                    if first.is_empty() {
                        (*second, true)
                    } else {
                        (BspNode::Split { direction, ratio, first, second }, true)
                    }
                } else if second.remove(window_id) {
                    if second.is_empty() {
                        (*first, true)
                    } else {
                        (BspNode::Split { direction, ratio, first, second }, true)
                    }
                } else {
                    (BspNode::Split { direction, ratio, first, second }, false)
                }
            },
        };
        *self = result;
        removed
    }

    /// Looks up the leaf that holds the window.
    pub fn find(&self, window_id: WindowId) -> (r: Option<&BspNode>)
        ensures
            r is Some <==> self.leaves().contains(window_id),
            r matches Some(n) ==> *n == (BspNode::Leaf { window_id }),
        decreases self,
    {
        proof {
            if let BspNode::Split { first, second, .. } = self {
                Self::lemma_concat_contains(first.leaves(), second.leaves(), window_id);
            }
            if let BspNode::Leaf { window_id: id } = self {
                assert(self.leaves()[0] == *id);
            }
        }
        match self {
            BspNode::Empty => None,
            BspNode::Leaf { window_id: id } => {
                if *id == window_id {
                    Some(self)
                } else {
                    None
                }
            },
            BspNode::Split { first, second, .. } => {
                match first.find(window_id) {
                    Some(n) => Some(n),
                    None => second.find(window_id),
                }
            },
        }
    }

    /// Looks up the leaf that holds the window, for changing it in place.
    /// Whatever the leaf becomes through the returned reference is grafted
    /// into the tree at that spot.
    pub fn find_mut(&mut self, window_id: WindowId) -> (r: Option<&mut BspNode>)
        ensures
            r is Some <==> old(self).leaves().contains(window_id),
            r matches Some(n) ==> *n == (BspNode::Leaf { window_id }) && *final(self) == old(
                self,
            ).graft(window_id, *final(n)),
            r is None ==> *final(self) == *old(self),
        decreases *old(self),
    {
        proof {
            if let BspNode::Split { first, second, .. } = self {
                Self::lemma_concat_contains(first.leaves(), second.leaves(), window_id);
            }
            if let BspNode::Leaf { window_id: id } = self {
                assert(self.leaves()[0] == *id);
            }
        }
        match self {
            BspNode::Empty => None,
            BspNode::Leaf { window_id: id } => {
                if *id == window_id {
                    Some(self)
                } else {
                    None
                }
            },
            BspNode::Split { first, second, .. } => {
                if first.find(window_id).is_some() {
                    first.find_mut(window_id)
                } else {
                    second.find_mut(window_id)
                }
            },
        }
    }

    /// Whether tiling `region` with this tree keeps every number in `i64`.
    pub fn rects_fit_in(&self, region: Rect, gap: i64) -> (r: bool)
        ensures
            r == self.rects_fit(region, gap),
        decreases self,
    {
        match self {
            BspNode::Split { direction, ratio, first, second } => {
                match split_region(region, *direction, *ratio, gap) {
                    None => false,
                    Some((r1, r2)) => first.rects_fit_in(r1, gap) && second.rects_fit_in(r2, gap),
                }
            },
            _ => true,
        }
    }

    /// The rectangle of every window when the tree tiles `region` with `gap`
    /// pixels between neighbours, from left to right. Each split gives its
    /// first side `ratio` parts of `RATIO_SCALE` of the room left after one
    /// gap, rounded down, and the rest to the second side.
    pub fn compute_rects(&self, region: Rect, gap: i64) -> (r: Vec<(WindowId, Rect)>)
        requires
            self.rects_fit(region, gap),
        ensures
            r@ == self.rects(region, gap),
    {
        let mut rects = Vec::new();
        self.compute_rects_impl(region, gap, &mut rects);
        proof {
            assert(Seq::<(WindowId, Rect)>::empty() + self.rects(region, gap) =~= self.rects(
                region,
                gap,
            ));
        }
        rects
    }

    fn compute_rects_impl(&self, region: Rect, gap: i64, rects: &mut Vec<(WindowId, Rect)>)
        requires
            self.rects_fit(region, gap),
        ensures
            final(rects)@ == old(rects)@ + self.rects(region, gap),
        decreases self,
    {
        match self {
            BspNode::Empty => {
                proof {
                    assert(old(rects)@ + self.rects(region, gap) =~= old(rects)@);
                }
            },
            BspNode::Leaf { window_id } => {
                rects.push((*window_id, region));
            },
            BspNode::Split { direction, ratio, first, second } => {
                match split_region(region, *direction, *ratio, gap) {
                    None => {},
                    Some((first_region, second_region)) => {
                        first.compute_rects_impl(first_region, gap, rects);
                        second.compute_rects_impl(second_region, gap, rects);
                        proof {
                            assert(old(rects)@ + self.rects(region, gap) =~= old(rects)@
                                + first.rects(first_region, gap) + second.rects(
                                second_region,
                                gap,
                            ));
                        }
                    },
                }
            },
        }
    }

    /// Turns every split the other way: side by side becomes one above the other.
    pub fn rotate(&mut self)
        ensures
            *final(self) == old(self).rotated(),
        decreases *old(self),
    {
        match self {
            BspNode::Split { direction, first, second, .. } => {
                *direction = match direction {
                    SplitDirection::Horizontal => SplitDirection::Vertical,
                    SplitDirection::Vertical => SplitDirection::Horizontal,
                };
                first.rotate();
                second.rotate();
            },
            _ => {},
        }
    }

    /// Moves the ratio of the deepest split in direction `dir` on the path to
    /// the first leaf holding `w` by `delta` (in parts of `RATIO_SCALE`),
    /// keeping it between 1 and `RATIO_SCALE - 1`. Returns whether there was
    /// such a split.
    pub fn resize(&mut self, w: WindowId, dir: SplitDirection, delta: i64) -> (r: bool)
        ensures
            r == old(self).holds_split(w, dir),
            *final(self) == old(self).resized(w, dir, delta as int),
        decreases *old(self),
    {
        proof {
            old(self).lemma_resized(w, dir, delta as int);
            if let BspNode::Split { first, second, .. } = *old(self) {
                first.lemma_resized(w, dir, delta as int);
                second.lemma_resized(w, dir, delta as int);
            }
        }
        match self {
            BspNode::Split { direction, ratio, first, second } => {
                if first.find(w).is_some() {
                    if first.resize(w, dir, delta) {
                        true
                    } else if *direction == dir {
                        *ratio = adjust_ratio(*ratio, delta);
                        true
                    } else {
                        false
                    }
                } else if second.find(w).is_some() {
                    if second.resize(w, dir, delta) {
                        true
                    } else if *direction == dir {
                        *ratio = adjust_ratio(*ratio, delta);
                        true
                    } else {
                        false
                    }
                } else {
                    false
                }
            },
            _ => false,
        }
    }

    /// The first window of the tree, from the left.
    pub fn first_leaf(&self) -> (r: Option<WindowId>)
        ensures
            r == (if self.leaves().len() > 0 {
                Some(self.leaves()[0])
            } else {
                None::<WindowId>
            }),
        decreases self,
    {
        match self {
            BspNode::Split { first, second, .. } => match first.first_leaf() {
                Some(x) => Some(x),
                None => second.first_leaf(),
            },
            BspNode::Leaf { window_id } => Some(*window_id),
            BspNode::Empty => None,
        }
    }

    /// The last window of the tree, from the left.
    pub fn last_leaf(&self) -> (r: Option<WindowId>)
        ensures
            r == (if self.leaves().len() > 0 {
                Some(self.leaves().last())
            } else {
                None::<WindowId>
            }),
        decreases self,
    {
        match self {
            BspNode::Split { first, second, .. } => match second.last_leaf() {
                Some(x) => Some(x),
                None => first.last_leaf(),
            },
            BspNode::Leaf { window_id } => Some(*window_id),
            BspNode::Empty => None,
        }
    }

    /// The window across the nearest split in direction `dir` from the
    /// window `w` (see `neighbour`).
    pub fn neighbour_of(&self, w: WindowId, dir: Direction) -> (r: Option<WindowId>)
        ensures
            r == self.neighbour(w, dir),
        decreases self,
    {
        match self {
            BspNode::Split { direction, first, second, .. } => {
                let along = match dir {
                    Direction::East | Direction::West => SplitDirection::Horizontal,
                    Direction::North | Direction::South => SplitDirection::Vertical,
                };
                let ahead = match dir {
                    Direction::East | Direction::South => true,
                    _ => false,
                };
                if first.find(w).is_some() {
                    match first.neighbour_of(w, dir) {
                        Some(n) => Some(n),
                        None => if *direction == along && ahead {
                            second.first_leaf()
                        } else {
                            None
                        },
                    }
                } else if second.find(w).is_some() {
                    match second.neighbour_of(w, dir) {
                        Some(n) => Some(n),
                        None => if *direction == along && !ahead {
                            first.last_leaf()
                        } else {
                            None
                        },
                    }
                } else {
                    None
                }
            },
            _ => None,
        }
    }

    /// Gives both sides of every split the same room.
    pub fn equalize(&mut self)
        ensures
            *final(self) == old(self).equalized(),
        decreases *old(self),
    {
        match self {
            BspNode::Split { ratio, first, second, .. } => {
                *ratio = HALF_RATIO;
                first.equalize();
                second.equalize();
            },
            _ => {},
        }
    }

    /// The number of windows in the tree.
    pub fn window_count(&self) -> (r: usize)
        requires
            self.leaves().len() <= usize::MAX,
        ensures
            r == self.leaves().len(),
        decreases self,
    {
        match self {
            BspNode::Empty => 0,
            BspNode::Leaf { .. } => 1,
            BspNode::Split { first, second, .. } => first.window_count() + second.window_count(),
        }
    }

    /// The windows of the tree, from left to right.
    pub fn windows(&self) -> (r: Vec<WindowId>)
        ensures
            r@ == self.leaves(),
    {
        let mut ids = Vec::new();
        self.collect_windows(&mut ids);
        proof {
            assert(Seq::<WindowId>::empty() + self.leaves() =~= self.leaves());
        }
        ids
    }

    fn collect_windows(&self, ids: &mut Vec<WindowId>)
        ensures
            final(ids)@ == old(ids)@ + self.leaves(),
        decreases self,
    {
        match self {
            BspNode::Empty => {
                proof {
                    assert(old(ids)@ + self.leaves() =~= old(ids)@);
                }
            },
            BspNode::Leaf { window_id } => {
                ids.push(*window_id);
            },
            BspNode::Split { first, second, .. } => {
                first.collect_windows(ids);
                second.collect_windows(ids);
                proof {
                    assert(old(ids)@ + self.leaves() =~= old(ids)@ + first.leaves()
                        + second.leaves());
                }
            },
        }
    }

    /// Puts `v` in the `k`-th leaf from the left. Returns `None` when it did,
    /// or the index left over when the tree has `k` or fewer leaves.
    fn set_leaf_at(&mut self, k: usize, v: WindowId) -> (rest: Option<usize>)
        ensures
            k < old(self).leaves().len() ==> rest is None && *final(self) == old(self).set_leaf(
                k as int,
                v,
            ),
            k >= old(self).leaves().len() ==> rest == Some((k - old(self).leaves().len()) as usize)
                && *final(self) == *old(self),
        decreases *old(self),
    {
        match self {
            BspNode::Empty => Some(k),
            BspNode::Leaf { window_id } => {
                if k == 0 {
                    *window_id = v;
                    None
                } else {
                    Some(k - 1)
                }
            },
            BspNode::Split { first, second, .. } => {
                match first.set_leaf_at(k, v) {
                    None => None,
                    Some(k2) => second.set_leaf_at(k2, v),
                }
            },
        }
    }

    /// Exchanges two windows in the tree, keeping its shape. Leaves are visited
    /// from left to right; the last leaf holding `a` and the last leaf holding
    /// `b` (other than `a`) trade windows. Returns whether both were found.
    pub fn swap(&mut self, a: WindowId, b: WindowId) -> (r: bool)
        ensures
            r == swap_applies(old(self).leaves(), a, b),
            *final(self) == old(self).swapped(a, b),
            final(self).leaves() == swap_leaves(old(self).leaves(), a, b),
            final(self).shape() == old(self).shape(),
    {
        proof {
            old(self).lemma_swapped(a, b);
        }
        let ids = self.windows();
        let ghost l = ids@;
        let mut a_pos: Option<usize> = None;
        let mut b_pos: Option<usize> = None;
        let mut i: usize = 0;
        while i < ids.len()
            invariant
                i <= ids.len(),
                ids@ == l,
                l == self.leaves(),
                *self == *old(self),
                a_pos == (if last_index(l.take(i as int), a) >= 0 {
                    Some(last_index(l.take(i as int), a) as usize)
                } else {
                    None::<usize>
                }),
                b_pos == (if a != b && last_index(l.take(i as int), b) >= 0 {
                    Some(last_index(l.take(i as int), b) as usize)
                } else {
                    None::<usize>
                }),
            decreases ids.len() - i,
        {
            proof {
                assert(l.take(i + 1).drop_last() =~= l.take(i as int));
                assert(l.take(i + 1).last() == l[i as int]);
                lemma_last_index(l.take(i as int), a);
                lemma_last_index(l.take(i as int), b);
            }
            if ids[i] == a {
                a_pos = Some(i);
            } else if ids[i] == b {
                b_pos = Some(i);
            }
            i = i + 1;
        }
        proof {
            assert(l.take(l.len() as int) =~= l);
            lemma_last_index(l, a);
            lemma_last_index(l, b);
        }
        match (a_pos, b_pos) {
            (Some(ia), Some(ib)) => {
                let _ = self.set_leaf_at(ia, b);
                proof {
                    old(self).lemma_set_leaf(ia as int, b);
                }
                let _ = self.set_leaf_at(ib, a);
                true
            },
            _ => false,
        }
    }

    /// Adds a window by splitting the leftmost leaf (or filling the leftmost
    /// empty spot). Always succeeds.
    pub fn insert(&mut self, window_id: WindowId) -> (r: bool)
        ensures
            r,
            *final(self) == old(self).inserted(window_id),
            final(self).leaves() == old(self).leaves().insert(
                old(self).insert_pos() as int,
                window_id,
            ),
        decreases *old(self),
    {
        proof {
            old(self).lemma_inserted_leaves(window_id);
        }
        match self {
            BspNode::Empty => {
                *self = BspNode::Leaf { window_id };
                true
            },
            BspNode::Leaf { window_id: existing_id } => {
                let existing = *existing_id;
                *self = BspNode::Split {
                    direction: SplitDirection::Horizontal,
                    ratio: HALF_RATIO,
                    first: Box::new(BspNode::Leaf { window_id: existing }),
                    second: Box::new(BspNode::Leaf { window_id }),
                };
                true
            },
            BspNode::Split { first, second, .. } => {
                if first.insert(window_id) {
                    true
                } else {
                    second.insert(window_id)
                }
            },
        }
    }
}

} // verus!

verus! {

/// How the windows of a space are arranged.
#[derive(Clone, Copy, Debug, PartialEq, Eq, Structural)]
pub enum LayoutMode {
    /// Binary space partitioning: every new window splits the leftmost window.
    Bsp,
    /// Every window takes the whole screen.
    Monocle,
    /// The first window takes a column of `master_ratio` parts of `RATIO_SCALE`
    /// of the width; the others share the remaining column, one row each.
    MasterStack { master_ratio: u32 },
}

/// Where a window goes. Tiles of the master-stack layout are described
/// rather than measured, because their sizes are fractions of a pixel.
#[derive(Clone, Copy, Debug, PartialEq, Eq, Structural)]
pub enum Frame {
    /// Exactly this rectangle.
    Exact(Rect),
    /// The master column of `area`: `master_ratio` parts of `RATIO_SCALE` of
    /// its width, less half a gap.
    MasterColumn { area: Rect, master_ratio: u32, gap: u32 },
    /// Row `index` of the `count` rows of the stack column of `area`, which
    /// starts one gap after the master column.
    StackRow { area: Rect, master_ratio: u32, gap: u32, index: usize, count: usize },
}

/// The state of a layout engine, as the contracts see it.
pub ghost struct EngineView {
    pub mode: LayoutMode,
    pub tree: BspNode,
    pub gap_inner: u32,
    pub gap_outer: u32,
    /// The windows in the order they were added (and swapped).
    pub windows: Seq<WindowId>,
}

/// The tree and the window list hold the same windows, each once, and the
/// tree is well formed.
pub open spec fn engine_consistent(tree: BspNode, windows: Seq<WindowId>) -> bool {
    &&& tree.wf()
    &&& windows.no_duplicates()
    &&& tree.leaves().no_duplicates()
    &&& forall|x: WindowId| tree.leaves().contains(x) <==> windows.contains(x)
}

/// `screen` shrunk by `gap` pixels on every side.
pub open spec fn inset(screen: Rect, gap: u32) -> Rect {
    Rect {
        x: (screen.x + gap) as i64,
        y: (screen.y + gap) as i64,
        width: (screen.width - 2 * gap) as i64,
        height: (screen.height - 2 * gap) as i64,
    }
}

/// Whether the numbers of `inset(screen, gap)` fit in `i64`.
pub open spec fn inset_fits(screen: Rect, gap: u32) -> bool {
    &&& fits_i64(screen.x + gap)
    &&& fits_i64(screen.y + gap)
    &&& fits_i64(screen.width - 2 * gap)
    &&& fits_i64(screen.height - 2 * gap)
}

/// The window after `current`, wrapping around; `None` when `current` is not
/// in the list.
pub open spec fn next_in(windows: Seq<WindowId>, current: WindowId) -> Option<WindowId> {
    if windows.contains(current) {
        Some(windows[(windows.index_of(current) + 1) % (windows.len() as int)])
    } else {
        None
    }
}

/// The window before `current`, wrapping around; `None` when `current` is not
/// in the list.
pub open spec fn prev_in(windows: Seq<WindowId>, current: WindowId) -> Option<WindowId> {
    if windows.contains(current) {
        let i = windows.index_of(current);
        Some(windows[if i == 0 { windows.len() - 1 } else { i - 1 }])
    } else {
        None
    }
}

/// The list with the positions of `a` and `b` exchanged, when both occur.
pub open spec fn swap_in(windows: Seq<WindowId>, a: WindowId, b: WindowId) -> Seq<WindowId> {
    if windows.contains(a) && windows.contains(b) {
        let i = windows.index_of(a);
        let j = windows.index_of(b);
        windows.update(i, windows[j]).update(j, windows[i])
    } else {
        windows
    }
}

/// `screen` shrunk by `gap` on every side, or `None` when a number does not
/// fit in `i64`.
pub fn inset_region(screen: Rect, gap: u32) -> (r: Option<Rect>)
    ensures
        r is Some <==> inset_fits(screen, gap),
        r matches Some(x) ==> x == inset(screen, gap),
{
    let g = gap as i128;
    let x = screen.x as i128 + g;
    let y = screen.y as i128 + g;
    let w = screen.width as i128 - 2 * g;
    let h = screen.height as i128 - 2 * g;
    let lo = i64::MIN as i128;
    let hi = i64::MAX as i128;
    if x < lo || x > hi || y < lo || y > hi || w < lo || w > hi || h < lo || h > hi {
        None
    } else {
        Some(Rect { x: x as i64, y: y as i64, width: w as i64, height: h as i64 })
    }
}

impl EngineView {
    /// The engine after `add_window(window_id)`: a new window goes at the end
    /// of the list and into the tree; a known window changes nothing.
    pub open spec fn with_window(self, window_id: WindowId) -> EngineView {
        if self.windows.contains(window_id) {
            self
        } else {
            EngineView {
                windows: self.windows.push(window_id),
                tree: self.tree.inserted(window_id),
                ..self
            }
        }
    }

    /// The engine after adding each window of `ids`, in order.
    pub open spec fn with_windows(self, ids: Seq<WindowId>) -> EngineView
        decreases ids.len(),
    {
        if ids.len() == 0 {
            self
        } else {
            self.with_windows(ids.drop_last()).with_window(ids.last())
        }
    }

    /// The window in direction `dir` from `current` in this engine's layout.
    pub open spec fn neighbour_in(self, current: WindowId, dir: Direction) -> Option<WindowId> {
        match self.mode {
            LayoutMode::Bsp => self.tree.neighbour(current, dir),
            LayoutMode::Monocle => None,
            LayoutMode::MasterStack { .. } => master_stack_neighbour(self.windows, current, dir),
        }
    }

    /// The region windows are tiled in: the screen less the outer gap.
    pub open spec fn region(self, screen: Rect) -> Rect {
        inset(screen, self.gap_outer)
    }

    /// Whether computing the layout on `screen` keeps every number in `i64`.
    pub open spec fn layout_fits(self, screen: Rect) -> bool {
        self.windows.len() > 0 ==> {
            &&& inset_fits(screen, self.gap_outer)
            &&& (self.mode is Bsp ==> self.tree.rects_fit(
                self.region(screen),
                self.gap_inner as i64,
            ))
        }
    }

    /// Where every window goes on `screen`.
    pub open spec fn layout(self, screen: Rect) -> Seq<(WindowId, Frame)> {
        let region = self.region(screen);
        let n = self.windows.len();
        if n == 0 {
            Seq::empty()
        } else {
            match self.mode {
                LayoutMode::Bsp => {
                    let rects = self.tree.rects(region, self.gap_inner as i64);
                    Seq::new(rects.len(), |i: int| (rects[i].0, Frame::Exact(rects[i].1)))
                },
                LayoutMode::Monocle => Seq::new(n, |i: int| (self.windows[i], Frame::Exact(region))),
                LayoutMode::MasterStack { master_ratio } => if n == 1 {
                    seq![(self.windows[0], Frame::Exact(region))]
                } else {
                    Seq::new(
                        n,
                        |i: int|
                            if i == 0 {
                                (
                                    self.windows[0],
                                    Frame::MasterColumn {
                                        area: region,
                                        master_ratio,
                                        gap: self.gap_inner,
                                    },
                                )
                            } else {
                                (
                                    self.windows[i],
                                    Frame::StackRow {
                                        area: region,
                                        master_ratio,
                                        gap: self.gap_inner,
                                        index: (i - 1) as usize,
                                        count: (n - 1) as usize,
                                    },
                                )
                            },
                    )
                },
            }
        }
    }
}

/// Arranges the windows of one space.
pub struct LayoutEngine {
    mode: LayoutMode,
    tree: BspNode,
    gap_inner: u32,
    gap_outer: u32,
    /// The windows in the order they were added, for monocle and master-stack.
    windows: Vec<WindowId>,
}

impl View for LayoutEngine {
    type V = EngineView;

    closed spec fn view(&self) -> EngineView {
        EngineView {
            mode: self.mode,
            tree: self.tree,
            gap_inner: self.gap_inner,
            gap_outer: self.gap_outer,
            windows: self.windows@,
        }
    }
}

impl LayoutEngine {
    /// The tree and the window list of an engine always agree.
    #[verifier::type_invariant]
    pub open spec fn inv(self) -> bool {
        engine_consistent(self@.tree, self@.windows)
    }

    /// Creates an engine with no windows.
    pub fn new(mode: LayoutMode, gap_inner: u32, gap_outer: u32) -> (r: Self)
        ensures
            r@ == (EngineView { mode, tree: BspNode::Empty, gap_inner, gap_outer, windows: Seq::empty() }),
    {
        LayoutEngine { mode, tree: BspNode::new_empty(), gap_inner, gap_outer, windows: Vec::new() }
    }

    /// Whether the engine arranges the window.
    pub fn has_window(&self, window_id: WindowId) -> (r: bool)
        ensures
            r == self@.windows.contains(window_id),
    {
        let mut i: usize = 0;
        while i < self.windows.len()
            invariant
                i <= self.windows@.len(),
                forall|j: int| 0 <= j < i ==> self.windows@[j] != window_id,
            decreases self.windows@.len() - i,
        {
            if self.windows[i] == window_id {
                return true;
            }
            i = i + 1;
        }
        false
    }

    /// The position of a window in the list, the first one when it occurs.
    fn position(&self, window_id: WindowId) -> (r: Option<usize>)
        ensures
            r is Some <==> self@.windows.contains(window_id),
            r matches Some(i) ==> i < self@.windows.len() && self@.windows[i as int] == window_id
                && i == self@.windows.index_of(window_id),
    {
        proof {
            use_type_invariant(self);
        }
        let mut i: usize = 0;
        while i < self.windows.len()
            invariant
                i <= self.windows@.len(),
                forall|j: int| 0 <= j < i ==> self.windows@[j] != window_id,
                self.windows@.no_duplicates(),
            decreases self.windows@.len() - i,
        {
            if self.windows[i] == window_id {
                proof {
                    let k = self.windows@.index_of(window_id);
                    assert(self.windows@[k] == window_id);
                }
                return Some(i);
            }
            i = i + 1;
        }
        None
    }

    /// Adds a window at the end of the list and into the tree, unless the
    /// engine already arranges it.
    pub fn add_window(&mut self, window_id: WindowId)
        ensures
            final(self)@ == old(self)@.with_window(window_id),
    {
        proof {
            use_type_invariant(&*self);
        }
        if !self.has_window(window_id) {
            let mut taken = LayoutEngine::new(self.mode, 0, 0);
            std::mem::swap(&mut taken, self);
            let LayoutEngine { mode, mut tree, gap_inner, gap_outer, mut windows } = taken;
            proof {
                tree.lemma_inserted_leaves(window_id);
                tree.lemma_inserted_wf(window_id);
                assert forall|x: WindowId| #[trigger] tree.inserted(window_id).leaves().contains(x)
                    <==> windows@.push(window_id).contains(x) by {
                    lemma_insert_contains(tree.leaves(), tree.insert_pos() as int, window_id, x);
                    lemma_contains_push(windows@, window_id, x);
                }
                lemma_insert_contains(tree.leaves(), tree.insert_pos() as int, window_id, window_id);
                lemma_contains_push(windows@, window_id, window_id);
                assert(windows@.push(window_id).no_duplicates()) by {
                    let w = windows@.push(window_id);
                    assert forall|i: int, j: int|
                        0 <= i < w.len() && 0 <= j < w.len() && i != j implies w[i] != w[j] by {
                        if i < windows@.len() && j < windows@.len() {
                        } else if i < windows@.len() {
                            assert(windows@.contains(w[i]));
                        } else {
                            assert(windows@.contains(w[j]));
                        }
                    }
                }
            }
            windows.push(window_id);
            tree.insert(window_id);
            *self = LayoutEngine { mode, tree, gap_inner, gap_outer, windows };
        }
    }

    /// Stops arranging a window: it leaves the list and the tree.
    pub fn remove_window(&mut self, window_id: WindowId)
        ensures
            final(self)@ == (EngineView {
                windows: drop_all(old(self)@.windows, window_id),
                tree: old(self)@.tree.removed(window_id),
                ..old(self)@
            }),
    {
        proof {
            use_type_invariant(&*self);
        }
        let mut taken = LayoutEngine::new(self.mode, 0, 0);
        std::mem::swap(&mut taken, self);
        let LayoutEngine { mode, mut tree, gap_inner, gap_outer, windows } = taken;
        let mut kept: Vec<WindowId> = Vec::new();
        let mut i: usize = 0;
        while i < windows.len()
            invariant
                i <= windows@.len(),
                kept@ == drop_all(windows@.take(i as int), window_id),
            decreases windows@.len() - i,
        {
            proof {
                assert(windows@.take(i + 1).drop_last() =~= windows@.take(i as int));
                assert(windows@.take(i + 1).last() == windows@[i as int]);
            }
            if windows[i] != window_id {
                kept.push(windows[i]);
            }
            i = i + 1;
        }
        proof {
            assert(windows@.take(windows@.len() as int) =~= windows@);
            tree.lemma_removed_leaves(window_id);
            tree.lemma_removed_wf(window_id);
            lemma_remove_first_contains(tree.leaves(), window_id, window_id);
            lemma_drop_all(windows@, window_id, window_id);
            assert forall|x: WindowId| #[trigger] tree.removed(window_id).leaves().contains(x)
                <==> kept@.contains(x) by {
                lemma_remove_first_contains(tree.leaves(), window_id, x);
                lemma_drop_all(windows@, window_id, x);
            }
        }
        tree.remove(window_id);
        *self = LayoutEngine { mode, tree, gap_inner, gap_outer, windows: kept };
    }

    /// Exchanges two windows, in the tree and in the list.
    pub fn swap_windows(&mut self, a: WindowId, b: WindowId)
        ensures
            final(self)@ == (EngineView {
                windows: swap_in(old(self)@.windows, a, b),
                tree: old(self)@.tree.swapped(a, b),
                ..old(self)@
            }),
    {
        proof {
            use_type_invariant(&*self);
        }
        let a_idx = self.position(a);
        let b_idx = self.position(b);
        let mut taken = LayoutEngine::new(self.mode, 0, 0);
        std::mem::swap(&mut taken, self);
        let LayoutEngine { mode, mut tree, gap_inner, gap_outer, mut windows } = taken;
        let ghost l = tree.leaves();
        let ghost w = windows@;
        proof {
            tree.lemma_swapped(a, b);
            if swap_applies(l, a, b) {
                lemma_last_index(l, a);
                lemma_last_index(l, b);
                let ia = last_index(l, a);
                let ib = last_index(l, b);
                assert(l.update(ia, b).update(ib, a) == l.update(ia, l[ib]).update(ib, l[ia]));
                assert forall|x: WindowId| #[trigger] swap_leaves(l, a, b).contains(x) <==> l.contains(x) by {
                    lemma_swap_positions(l, ia, ib, x);
                }
                lemma_swap_positions(l, ia, ib, a);
            }
        }
        tree.swap(a, b);
        match (a_idx, b_idx) {
            (Some(ai), Some(bi)) => {
                let va = windows[ai];
                let vb = windows[bi];
                windows.set(ai, vb);
                windows.set(bi, va);
                proof {
                    assert forall|x: WindowId| #[trigger] windows@.contains(x) <==> w.contains(x) by {
                        lemma_swap_positions(w, ai as int, bi as int, x);
                    }
                    lemma_swap_positions(w, ai as int, bi as int, a);
                }
            },
            _ => {},
        }
        *self = LayoutEngine { mode, tree, gap_inner, gap_outer, windows };
    }

    /// Changes how the windows are arranged.
    pub fn set_mode(&mut self, mode: LayoutMode)
        ensures
            final(self)@ == (EngineView { mode, ..old(self)@ }),
    {
        proof {
            use_type_invariant(&*self);
        }
        self.mode = mode;
    }

    /// Turns every split of the tree the other way.
    pub fn rotate_tree(&mut self)
        ensures
            final(self)@ == (EngineView { tree: old(self)@.tree.rotated(), ..old(self)@ }),
    {
        proof {
            use_type_invariant(&*self);
            self.tree.lemma_rotated();
        }
        let mut taken = LayoutEngine::new(self.mode, 0, 0);
        std::mem::swap(&mut taken, self);
        let LayoutEngine { mode, mut tree, gap_inner, gap_outer, windows } = taken;
        tree.rotate();
        *self = LayoutEngine { mode, tree, gap_inner, gap_outer, windows };
    }

    /// Gives both sides of every split of the tree the same room.
    pub fn equalize_tree(&mut self)
        ensures
            final(self)@ == (EngineView { tree: old(self)@.tree.equalized(), ..old(self)@ }),
    {
        proof {
            use_type_invariant(&*self);
            self.tree.lemma_equalized();
        }
        let mut taken = LayoutEngine::new(self.mode, 0, 0);
        std::mem::swap(&mut taken, self);
        let LayoutEngine { mode, mut tree, gap_inner, gap_outer, windows } = taken;
        tree.equalize();
        *self = LayoutEngine { mode, tree, gap_inner, gap_outer, windows };
    }

    /// Resizes a window along a split direction: the deepest split in that
    /// direction on the path to the window has its ratio moved by `delta`
    /// parts of `RATIO_SCALE` (a positive delta gives the first side more
    /// room), kept between 1 and `RATIO_SCALE - 1`. Nothing changes when no
    /// such split holds the window.
    pub fn resize_window(&mut self, window_id: WindowId, direction: SplitDirection, delta: i64)
        ensures
            final(self)@ == (EngineView {
                tree: old(self)@.tree.resized(window_id, direction, delta as int),
                ..old(self)@
            }),
    {
        proof {
            use_type_invariant(&*self);
            self.tree.lemma_resized(window_id, direction, delta as int);
        }
        let mut taken = LayoutEngine::new(self.mode, 0, 0);
        std::mem::swap(&mut taken, self);
        let LayoutEngine { mode, mut tree, gap_inner, gap_outer, windows } = taken;
        tree.resize(window_id, direction, delta);
        *self = LayoutEngine { mode, tree, gap_inner, gap_outer, windows };
    }

    /// Whether computing the layout on `screen` keeps every number in `i64`.
    pub fn layout_fits(&self, screen: Rect) -> (r: bool)
        ensures
            r == self@.layout_fits(screen),
    {
        if self.windows.len() == 0 {
            return true;
        }
        match inset_region(screen, self.gap_outer) {
            None => false,
            Some(region) => match self.mode {
                LayoutMode::Bsp => self.tree.rects_fit_in(region, self.gap_inner as i64),
                _ => true,
            },
        }
    }

    /// Where every window goes on `screen`. The windows are tiled in the
    /// screen less the outer gap: in tree order for BSP, and in list order,
    /// all on the whole region, for monocle; master-stack puts the first
    /// window in the master column and the others in the rows of the stack.
    pub fn compute_layout(&self, screen: Rect) -> (r: Vec<(WindowId, Frame)>)
        requires
            self@.layout_fits(screen),
        ensures
            r@ == self@.layout(screen),
    {
        let n = self.windows.len();
        if n == 0 {
            return Vec::new();
        }
        let region = match inset_region(screen, self.gap_outer) {
            Some(region) => region,
            None => {
                return Vec::new();
            },
        };
        let ghost v = self@;
        let mut out: Vec<(WindowId, Frame)> = Vec::new();
        match self.mode {
            LayoutMode::Bsp => {
                let rects = self.tree.compute_rects(region, self.gap_inner as i64);
                let mut i: usize = 0;
                while i < rects.len()
                    invariant
                        i <= rects@.len(),
                        out@.len() == i,
                        forall|j: int|
                            0 <= j < i ==> #[trigger] out@[j] == (rects@[j].0, Frame::Exact(
                                rects@[j].1,
                            )),
                    decreases rects@.len() - i,
                {
                    let (id, rect) = rects[i];
                    out.push((id, Frame::Exact(rect)));
                    i = i + 1;
                }
                proof {
                    assert(out@ =~= v.layout(screen));
                }
            },
            LayoutMode::Monocle => {
                let mut i: usize = 0;
                while i < n
                    invariant
                        n == self.windows@.len(),
                        i <= n,
                        out@.len() == i,
                        forall|j: int|
                            0 <= j < i ==> #[trigger] out@[j] == (self.windows@[j], Frame::Exact(
                                region,
                            )),
                    decreases n - i,
                {
                    out.push((self.windows[i], Frame::Exact(region)));
                    i = i + 1;
                }
                proof {
                    assert(out@ =~= v.layout(screen));
                }
            },
            LayoutMode::MasterStack { master_ratio } => {
                if n == 1 {
                    out.push((self.windows[0], Frame::Exact(region)));
                    proof {
                        assert(out@ =~= v.layout(screen));
                    }
                } else {
                    let gap = self.gap_inner;
                    out.push(
                        (self.windows[0], Frame::MasterColumn { area: region, master_ratio, gap }),
                    );
                    let mut i: usize = 1;
                    while i < n
                        invariant
                            n == self.windows@.len(),
                            n >= 2,
                            1 <= i <= n,
                            v == self@,
                            v.mode == (LayoutMode::MasterStack { master_ratio }),
                            gap == v.gap_inner,
                            region == v.region(screen),
                            out@ == v.layout(screen).take(i as int),
                        decreases n - i,
                    {
                        out.push(
                            (
                                self.windows[i],
                                Frame::StackRow {
                                    area: region,
                                    master_ratio,
                                    gap,
                                    index: i - 1,
                                    count: n - 1,
                                },
                            ),
                        );
                        proof {
                            assert(out@ =~= v.layout(screen).take(i + 1));
                        }
                        i = i + 1;
                    }
                    proof {
                        assert(v.layout(screen).take(n as int) =~= v.layout(screen));
                    }
                }
            },
        }
        out
    }

    /// The window after `current` in the list, wrapping around.
    pub fn focus_next(&self, current: WindowId) -> (r: Option<WindowId>)
        ensures
            r == next_in(self@.windows, current),
    {
        match self.position(current) {
            None => None,
            Some(idx) => {
                let n = self.windows.len();
                let next_idx = (idx + 1) % n;
                Some(self.windows[next_idx])
            },
        }
    }

    /// The window before `current` in the list, wrapping around.
    pub fn focus_prev(&self, current: WindowId) -> (r: Option<WindowId>)
        ensures
            r == prev_in(self@.windows, current),
    {
        match self.position(current) {
            None => None,
            Some(idx) => {
                let next_idx = if idx == 0 {
                    self.windows.len() - 1
                } else {
                    idx - 1
                };
                Some(self.windows[next_idx])
            },
        }
    }

    /// The window in direction `dir` from `current`: across the nearest
    /// split in that direction for BSP, between the master column and the
    /// stack rows for master-stack, and none for monocle, where every window
    /// takes the whole region.
    pub fn focus_direction(&self, current: WindowId, dir: Direction) -> (r: Option<WindowId>)
        ensures
            r == self@.neighbour_in(current, dir),
    {
        match self.mode {
            LayoutMode::Bsp => self.tree.neighbour_of(current, dir),
            LayoutMode::Monocle => None,
            LayoutMode::MasterStack { .. } => {
                let n = self.windows.len();
                match self.position(current) {
                    None => None,
                    Some(i) => {
                        if n < 2 {
                            None
                        } else if i == 0 {
                            match dir {
                                Direction::East => Some(self.windows[1]),
                                _ => None,
                            }
                        } else {
                            match dir {
                                Direction::West => Some(self.windows[0]),
                                Direction::North => if i > 1 {
                                    Some(self.windows[i - 1])
                                } else {
                                    None
                                },
                                Direction::South => if i + 1 < n {
                                    Some(self.windows[i + 1])
                                } else {
                                    None
                                },
                                Direction::East => None,
                            }
                        }
                    },
                }
            },
        }
    }
}

} // verus!

verus! {

/// Two trees of the same shape holding the same windows in the same order
/// are the same tree.
pub proof fn lemma_shape_and_leaves_determine(t1: BspNode, t2: BspNode)
    requires
        t1.shape() == t2.shape(),
        t1.leaves() == t2.leaves(),
    ensures
        t1 == t2,
    decreases t1,
{
    match t1 {
        BspNode::Split { first: f1, second: s1, .. } => {
            match t2 {
                BspNode::Split { first: f2, second: s2, .. } => {
                    assert(f1.shape() == f2.shape());
                    assert(s1.shape() == s2.shape());
                    lemma_shape_leaves_len(*f1);
                    lemma_shape_leaves_len(*f2);
                    let n = f1.leaves().len();
                    assert(f1.leaves() =~= t1.leaves().take(n as int));
                    assert(f2.leaves() =~= t2.leaves().take(n as int));
                    assert(s1.leaves() =~= t1.leaves().skip(n as int));
                    assert(s2.leaves() =~= t2.leaves().skip(n as int));
                    lemma_shape_and_leaves_determine(*f1, *f2);
                    lemma_shape_and_leaves_determine(*s1, *s2);
                    assert(t1 == t2);
                },
                _ => {
                    assert(t1.shape() is Split);
                },
            }
        },
        BspNode::Leaf { window_id } => {
            match t2 {
                BspNode::Leaf { window_id: w2 } => {
                    assert(t1.leaves() == seq![window_id]);
                    assert(t2.leaves() == seq![w2]);
                    assert(seq![window_id][0] == window_id);
                    assert(seq![w2][0] == w2);
                },
                _ => {
                    assert(t1.shape() is Leaf);
                },
            }
        },
        BspNode::Empty => {
            assert(t1.shape() is Empty);
        },
    }
}

/// The number of windows of a tree follows from its shape.
pub proof fn lemma_shape_leaves_len(t: BspNode)
    ensures
        t.shape().leaves().len() == t.leaves().len(),
    decreases t,
{
    if let BspNode::Split { first, second, .. } = t {
        lemma_shape_leaves_len(*first);
        lemma_shape_leaves_len(*second);
    }
}

/// In a sequence without repeats, the last occurrence of an element is its
/// only occurrence.
pub proof fn lemma_last_index_unique(s: Seq<WindowId>, i: int)
    requires
        s.no_duplicates(),
        0 <= i < s.len(),
    ensures
        last_index(s, s[i]) == i,
{
    lemma_last_index(s, s[i]);
}

/// Swapping the same two windows twice gives back the windows it started with,
/// when no window occurs twice.
pub proof fn lemma_swap_leaves_involution(s: Seq<WindowId>, a: WindowId, b: WindowId)
    requires
        s.no_duplicates(),
    ensures
        swap_leaves(swap_leaves(s, a, b), a, b) == s,
        swap_leaves(s, a, b).no_duplicates(),
{
    if swap_applies(s, a, b) {
        lemma_last_index(s, a);
        lemma_last_index(s, b);
        let ia = last_index(s, a);
        let ib = last_index(s, b);
        let t = swap_leaves(s, a, b);
        assert(t == s.update(ia, s[ib]).update(ib, s[ia]));
        lemma_swap_positions(s, ia, ib, a);
        lemma_swap_positions(s, ia, ib, b);
        assert(t[ib] == a && t[ia] == b);
        lemma_last_index_unique(t, ib);
        lemma_last_index_unique(t, ia);
        assert(swap_applies(t, a, b));
        assert(swap_leaves(t, a, b) =~= s);
    }
}

/// Law: inserting a window that the tree does not hold and then removing it
/// gives back the same tree (for well-formed trees).
pub proof fn law_remove_undoes_insert(t: BspNode, window_id: WindowId)
    requires
        t.wf(),
        !t.leaves().contains(window_id),
    ensures
        t.inserted(window_id).removed(window_id) == t,
    decreases t,
{
    t.lemma_inserted_leaves(window_id);
    match t {
        BspNode::Split { direction, ratio, first, second } => {
            BspNode::lemma_concat_contains(first.leaves(), second.leaves(), window_id);
            law_remove_undoes_insert(*first, window_id);
            first.lemma_inserted_leaves(window_id);
            lemma_insert_contains(
                first.leaves(),
                first.insert_pos() as int,
                window_id,
                window_id,
            );
            first.lemma_inserted_wf(window_id);
            assert(first.inserted(window_id).leaves().contains(window_id));
            let fi = first.inserted(window_id);
            assert(fi.removed(window_id) == *first);
            assert(!first.is_empty_node());
            assert(t.inserted(window_id) == BspNode::Split {
                direction,
                ratio,
                first: Box::new(fi),
                second,
            });
            assert(t.inserted(window_id).removed(window_id) == BspNode::Split {
                direction,
                ratio,
                first: Box::new(*first),
                second,
            });
            assert(t == BspNode::Split { direction, ratio, first: Box::new(*first), second });
            assert(t.inserted(window_id).removed(window_id) == t);
        },
        BspNode::Leaf { window_id: e } => {
            reveal_with_fuel(BspNode::leaves, 2);
            assert(e != window_id) by {
                assert(t.leaves()[0] == e);
            }
            let a = BspNode::Leaf { window_id: e };
            let b = BspNode::Leaf { window_id };
            assert(t.inserted(window_id) == BspNode::Split {
                direction: SplitDirection::Horizontal,
                ratio: HALF_RATIO,
                first: Box::new(a),
                second: Box::new(b),
            });
            assert(b.leaves() == seq![window_id]);
            assert(b.leaves()[0] == window_id);
            assert(b.leaves().contains(window_id));
            assert(a.leaves() == seq![e]);
            assert(!a.leaves().contains(window_id)) by {
                if a.leaves().contains(window_id) {
                    assert(a.leaves()[a.leaves().index_of(window_id)] == e);
                }
            }
            assert(b.removed(window_id) == BspNode::Empty);
            assert(t.inserted(window_id).removed(window_id) == a);
        },
        BspNode::Empty => {
            assert(t.inserted(window_id).leaves()[0] == window_id);
        },
    }
}

/// Law: turning every split twice gives back the same tree.
pub proof fn law_rotate_twice(t: BspNode)
    ensures
        t.rotated().rotated() == t,
        t.rotated().leaves() == t.leaves(),
{
    t.lemma_rotated();
}

/// Law: equalizing is idempotent and keeps the windows.
pub proof fn law_equalize_idempotent(t: BspNode)
    ensures
        t.equalized().equalized() == t.equalized(),
        t.equalized().leaves() == t.leaves(),
{
    t.lemma_equalized();
}

/// Law: swapping the same two windows twice gives back the same tree, when no
/// window occurs twice; a swap keeps the tree's shape.
pub proof fn law_swap_twice(t: BspNode, a: WindowId, b: WindowId)
    requires
        t.leaves().no_duplicates(),
    ensures
        t.swapped(a, b).swapped(a, b) == t,
        t.swapped(a, b).shape() == t.shape(),
{
    t.lemma_swapped(a, b);
    t.swapped(a, b).lemma_swapped(a, b);
    lemma_swap_leaves_involution(t.leaves(), a, b);
    lemma_shape_and_leaves_determine(t.swapped(a, b).swapped(a, b), t);
}

/// Law: tiling gives every window of the tree one rectangle, in the order of
/// the windows.
pub proof fn law_rects_one_per_window(t: BspNode, region: Rect, gap: i64)
    ensures
        t.rects(region, gap).len() == t.leaves().len(),
        forall|i: int|
            0 <= i < t.leaves().len() ==> #[trigger] t.rects(region, gap)[i].0 == t.leaves()[i],
{
    t.lemma_rects_windows(region, gap);
}

/// Law: a split gives its first side the share of the room left after one
/// gap and its second side the rest, so that the two sides and the gap
/// between them span the region exactly.
pub proof fn law_split_spans_region(region: Rect, direction: SplitDirection, ratio: u32, gap: i64)
    requires
        split_fits(region, direction, ratio, gap),
    ensures
        direction == SplitDirection::Horizontal ==> {
            let a = split_first(region, direction, ratio, gap);
            let b = split_second(region, direction, ratio, gap);
            &&& a.x == region.x && b.x == a.x + a.width + gap
            &&& b.x + b.width == region.x + region.width
            &&& a.y == region.y && b.y == region.y && a.height == region.height
                && b.height == region.height
        },
        direction == SplitDirection::Vertical ==> {
            let a = split_first(region, direction, ratio, gap);
            let b = split_second(region, direction, ratio, gap);
            &&& a.y == region.y && b.y == a.y + a.height + gap
            &&& b.y + b.height == region.y + region.height
            &&& a.x == region.x && b.x == region.x && a.width == region.width
                && b.width == region.width
        },
{
}

/// Law: an equal split gives the first side half of the room left after one
/// gap, rounded down, and the second side the other half, rounded up.
pub proof fn law_half_split(region: Rect, direction: SplitDirection, gap: i64)
    requires
        split_fits(region, direction, HALF_RATIO, gap),
    ensures
        ({
            let (f, o, e) = split_values(region, direction, HALF_RATIO, gap);
            let total = (if direction == SplitDirection::Horizontal {
                region.width as int
            } else {
                region.height as int
            }) - gap;
            f == total / 2 && e == total - total / 2
        }),
{
    let (f, o, e) = split_values(region, direction, HALF_RATIO, gap);
    let total = (if direction == SplitDirection::Horizontal {
        region.width as int
    } else {
        region.height as int
    }) - gap;
    assert((total * 500) / 1000 == total / 2) by (nonlinear_arith);
}

/// Law: removing a window that was just added gives back the engine as it
/// was.
pub proof fn law_engine_remove_undoes_add(v: EngineView, window_id: WindowId)
    requires
        engine_consistent(v.tree, v.windows),
        !v.windows.contains(window_id),
    ensures
        ({
            let added = EngineView {
                windows: v.windows.push(window_id),
                tree: v.tree.inserted(window_id),
                ..v
            };
            EngineView {
                windows: drop_all(added.windows, window_id),
                tree: added.tree.removed(window_id),
                ..added
            } == v
        }),
{
    law_remove_undoes_insert(v.tree, window_id);
    let w = v.windows.push(window_id);
    assert(w.drop_last() =~= v.windows);
    lemma_drop_all(v.windows, window_id, window_id);
    assert(drop_all(w, window_id) == drop_all(v.windows, window_id));
}

/// Law: the window before the window after `x` is `x` itself.
pub proof fn law_focus_prev_undoes_next(windows: Seq<WindowId>, x: WindowId)
    requires
        windows.no_duplicates(),
        windows.contains(x),
    ensures
        next_in(windows, x) matches Some(y) && prev_in(windows, y) == Some(x),
{
    let n = windows.len() as int;
    let i = windows.index_of(x);
    let j = (i + 1) % n;
    assert(0 <= j < n);
    assert(j == if i + 1 < n { i + 1 } else { 0 }) by (nonlinear_arith)
        requires
            0 <= i < n,
            j == (i + 1) % n,
    ;
    let y = windows[j];
    assert(windows.contains(y));
    let k = windows.index_of(y);
    assert(k == j);
}

/// Law: swapping the same two windows twice gives back the engine as it was.
pub proof fn law_engine_swap_twice(v: EngineView, a: WindowId, b: WindowId)
    requires
        engine_consistent(v.tree, v.windows),
    ensures
        ({
            let once = EngineView { windows: swap_in(v.windows, a, b), tree: v.tree.swapped(a, b), ..v };
            EngineView {
                windows: swap_in(once.windows, a, b),
                tree: once.tree.swapped(a, b),
                ..once
            } == v
        }),
{
    law_swap_twice(v.tree, a, b);
    let w = v.windows;
    if w.contains(a) && w.contains(b) {
        let i = w.index_of(a);
        let j = w.index_of(b);
        let t = swap_in(w, a, b);
        lemma_swap_positions(w, i, j, a);
        lemma_swap_positions(w, i, j, b);
        assert(t[j] == a && t[i] == b);
        assert(t.index_of(a) == j);
        assert(t.index_of(b) == i);
        assert(swap_in(t, a, b) =~= w);
    }
}

/// Law: every layout places each window of the engine exactly once.
pub proof fn law_layout_places_each_window_once(v: EngineView, screen: Rect)
    requires
        engine_consistent(v.tree, v.windows),
    ensures
        v.layout(screen).len() == v.windows.len(),
        forall|x: WindowId|
            v.windows.contains(x) <==> exists|i: int|
                0 <= i < v.layout(screen).len() && #[trigger] v.layout(screen)[i].0 == x,
        forall|i: int, j: int|
            0 <= i < v.layout(screen).len() && 0 <= j < v.layout(screen).len() && i != j
                ==> v.layout(screen)[i].0 != v.layout(screen)[j].0,
{
    let l = v.layout(screen);
    let ids = if v.mode is Bsp && v.windows.len() > 0 {
        v.tree.leaves()
    } else {
        v.windows
    };
    let region = v.region(screen);
    v.tree.lemma_rects_windows(region, v.gap_inner as i64);
    if v.tree.leaves().len() > 0 {
        let x = v.tree.leaves()[0];
        assert(v.tree.leaves().contains(x));
        assert(v.windows.contains(x));
    }
    lemma_leaves_len_matches(v.tree.leaves(), v.windows);
    assert(l.len() == ids.len());
    assert forall|i: int| 0 <= i < l.len() implies #[trigger] l[i].0 == ids[i] by {}
    assert forall|x: WindowId| v.windows.contains(x) <==> exists|i: int|
        0 <= i < l.len() && #[trigger] l[i].0 == x by {
        if v.windows.contains(x) {
            assert(ids.contains(x));
            let k = ids.index_of(x);
            assert(l[k].0 == x);
        }
        if exists|i: int| 0 <= i < l.len() && #[trigger] l[i].0 == x {
            let i = choose|i: int| 0 <= i < l.len() && #[trigger] l[i].0 == x;
            assert(ids[i] == x);
            assert(ids.contains(x));
        }
    }
}

/// Two sequences without repeats that hold the same elements have the same
/// length.
pub proof fn lemma_leaves_len_matches(a: Seq<WindowId>, b: Seq<WindowId>)
    requires
        a.no_duplicates(),
        b.no_duplicates(),
        forall|x: WindowId| a.contains(x) <==> b.contains(x),
    ensures
        a.len() == b.len(),
{
    a.unique_seq_to_set();
    b.unique_seq_to_set();
    assert(a.to_set() =~= b.to_set());
}


impl BspNode {
    /// Whether every split of the tree has ratio `r`.
    pub open spec fn every_ratio_is(self, r: u32) -> bool
        decreases self,
    {
        match self {
            BspNode::Split { ratio, first, second, .. } => {
                &&& ratio == r
                &&& first.every_ratio_is(r)
                &&& second.every_ratio_is(r)
            },
            _ => true,
        }
    }
}

/// Law: removing the window of a leaf whose sibling does not hold it lifts
/// the sibling, exactly as it was, into the split's place; on either side.
pub proof fn law_remove_lifts_sibling(d: SplitDirection, r: u32, a: BspNode, w: WindowId)
    requires
        !a.leaves().contains(w),
    ensures
        (BspNode::Split {
            direction: d,
            ratio: r,
            first: Box::new(a),
            second: Box::new(BspNode::Leaf { window_id: w }),
        }).removed(w) == a,
        (BspNode::Split {
            direction: d,
            ratio: r,
            first: Box::new(BspNode::Leaf { window_id: w }),
            second: Box::new(a),
        }).removed(w) == a,
{
    let l = BspNode::Leaf { window_id: w };
    assert(l.leaves() =~= seq![w]);
    assert(l.leaves()[0] == w);
    assert(l.leaves().contains(w));
    assert(l.removed(w) == BspNode::Empty);
}

/// Law: removing a window from one side of a split that keeps other windows
/// on that side changes only that side; the split's direction and ratio and
/// the other side stay.
pub proof fn law_remove_keeps_the_split(d: SplitDirection, r: u32, a: BspNode, b: BspNode, w: WindowId)
    ensures
        a.leaves().contains(w) && !a.removed(w).is_empty_node() ==> (BspNode::Split {
            direction: d,
            ratio: r,
            first: Box::new(a),
            second: Box::new(b),
        }).removed(w) == (BspNode::Split {
            direction: d,
            ratio: r,
            first: Box::new(a.removed(w)),
            second: Box::new(b),
        }),
        !a.leaves().contains(w) && b.leaves().contains(w) && !b.removed(w).is_empty_node() ==> (
        BspNode::Split { direction: d, ratio: r, first: Box::new(a), second: Box::new(b) }).removed(w)
            == (BspNode::Split {
            direction: d,
            ratio: r,
            first: Box::new(a),
            second: Box::new(b.removed(w)),
        }),
{
}

/// Law: removing a window the tree does not hold changes nothing.
pub proof fn law_remove_absent_changes_nothing(t: BspNode, w: WindowId)
    requires
        !t.leaves().contains(w),
    ensures
        t.removed(w) == t,
{
    t.lemma_removed_absent(w);
    if let BspNode::Leaf { window_id } = t {
        assert(t.leaves()[0] == window_id);
    }
}

/// Law: equalizing gives every split of the tree half the room on each side,
/// and keeps the windows; a resize before equalizing leaves no trace.
pub proof fn law_equalize_evens_every_split(t: BspNode, w: WindowId, dir: SplitDirection, delta: int)
    ensures
        t.equalized().every_ratio_is(HALF_RATIO),
        t.equalized().leaves() == t.leaves(),
        t.resized(w, dir, delta).equalized() == t.equalized(),
    decreases t,
{
    t.lemma_equalized();
    if let BspNode::Split { first, second, .. } = t {
        law_equalize_evens_every_split(*first, w, dir, delta);
        law_equalize_evens_every_split(*second, w, dir, delta);
    }
}

} // verus!
