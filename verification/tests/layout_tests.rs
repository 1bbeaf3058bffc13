use mosaic::layout::{split_region, BspNode, Direction, Frame, LayoutEngine, LayoutMode, Rect, SplitDirection};

fn rect(x: i64, y: i64, width: i64, height: i64) -> Rect {
    Rect { x, y, width, height }
}

fn screen() -> Rect {
    rect(0, 25, 1920, 1055)
}

#[test]
fn bsp_insert_splits_the_leftmost_window() {
    let mut tree = BspNode::new_empty();
    assert!(tree.is_empty());
    assert!(tree.insert(1));
    assert!(tree.insert(2));
    assert!(tree.insert(3));
    assert_eq!(tree.windows(), vec![1, 3, 2]);
    assert_eq!(tree.window_count(), 3);
    assert!(!tree.is_empty());
}

#[test]
fn bsp_remove_undoes_insert() {
    let mut tree = BspNode::new_empty();
    tree.insert(1);
    tree.insert(2);
    assert!(tree.remove(2));
    assert_eq!(tree.windows(), vec![1]);
    assert!(!tree.remove(2));
    assert!(tree.remove(1));
    assert!(tree.is_empty());
    assert_eq!(tree.window_count(), 0);
}

#[test]
fn bsp_find_locates_leaves() {
    let mut tree = BspNode::new_empty();
    tree.insert(4);
    tree.insert(5);
    assert!(matches!(tree.find(5), Some(BspNode::Leaf { window_id: 5 })));
    assert!(tree.find(9).is_none());
    assert!(tree.find_mut(4).is_some());
    assert!(tree.find_mut(9).is_none());
}

#[test]
fn bsp_two_windows_share_the_width() {
    let mut tree = BspNode::new_empty();
    tree.insert(1);
    tree.insert(2);
    let rects = tree.compute_rects(rect(0, 0, 1000, 500), 10);
    assert_eq!(rects, vec![(1, rect(0, 0, 495, 500)), (2, rect(505, 0, 495, 500))]);
}

#[test]
fn bsp_rotate_stacks_vertically_and_twice_restores() {
    let mut tree = BspNode::new_empty();
    tree.insert(1);
    tree.insert(2);
    tree.rotate();
    let rects = tree.compute_rects(rect(0, 0, 1000, 500), 10);
    assert_eq!(rects, vec![(1, rect(0, 0, 1000, 245)), (2, rect(0, 255, 1000, 245))]);
    tree.rotate();
    let rects = tree.compute_rects(rect(0, 0, 1000, 500), 10);
    assert_eq!(rects, vec![(1, rect(0, 0, 495, 500)), (2, rect(505, 0, 495, 500))]);
}

#[test]
fn bsp_equalize_resets_ratios() {
    let mut tree = BspNode::Split {
        direction: SplitDirection::Horizontal,
        ratio: 700,
        first: Box::new(BspNode::Leaf { window_id: 1 }),
        second: Box::new(BspNode::Leaf { window_id: 2 }),
    };
    let rects = tree.compute_rects(rect(0, 0, 1000, 100), 0);
    assert_eq!(rects, vec![(1, rect(0, 0, 700, 100)), (2, rect(700, 0, 300, 100))]);
    tree.equalize();
    let rects = tree.compute_rects(rect(0, 0, 1000, 100), 0);
    assert_eq!(rects, vec![(1, rect(0, 0, 500, 100)), (2, rect(500, 0, 500, 100))]);
}

#[test]
fn bsp_split_rounds_down_also_below_zero() {
    let mut tree = BspNode::new_empty();
    tree.insert(1);
    tree.insert(2);
    let rects = tree.compute_rects(rect(0, 0, -11, 10), 0);
    assert_eq!(rects, vec![(1, rect(0, 0, -6, 10)), (2, rect(-6, 0, -5, 10))]);
    let rects = tree.compute_rects(rect(0, 0, 11, 10), 0);
    assert_eq!(rects, vec![(1, rect(0, 0, 5, 10)), (2, rect(5, 0, 6, 10))]);
}

#[test]
fn split_region_reports_numbers_that_do_not_fit() {
    assert_eq!(
        split_region(rect(0, 0, 100, 50), SplitDirection::Vertical, 500, 4),
        Some((rect(0, 0, 100, 23), rect(0, 27, 100, 23)))
    );
    assert_eq!(split_region(rect(i64::MAX - 5, 0, 100, 50), SplitDirection::Horizontal, 500, 0), None);
    let mut tree = BspNode::new_empty();
    tree.insert(1);
    tree.insert(2);
    assert!(tree.rects_fit_in(rect(0, 0, 100, 50), 4));
    assert!(!tree.rects_fit_in(rect(i64::MAX - 5, 0, 100, 50), 0));
}

#[test]
fn bsp_swap_exchanges_two_windows() {
    let mut tree = BspNode::new_empty();
    tree.insert(1);
    tree.insert(2);
    tree.insert(3);
    assert!(tree.swap(1, 2));
    assert_eq!(tree.windows(), vec![2, 3, 1]);
    assert!(!tree.swap(1, 9));
    assert_eq!(tree.windows(), vec![2, 3, 1]);
    assert!(tree.swap(1, 2));
    assert_eq!(tree.windows(), vec![1, 3, 2]);
}

#[test]
fn engine_bsp_layout_tiles_the_screen_less_the_gaps() {
    let mut engine = LayoutEngine::new(LayoutMode::Bsp, 8, 8);
    engine.add_window(1);
    engine.add_window(2);
    engine.add_window(2);
    assert!(engine.has_window(2));
    assert!(!engine.has_window(3));
    assert!(engine.layout_fits(screen()));
    let placed = engine.compute_layout(screen());
    assert_eq!(
        placed,
        vec![(1, Frame::Exact(rect(8, 33, 948, 1039))), (2, Frame::Exact(rect(964, 33, 948, 1039)))]
    );
}

#[test]
fn engine_empty_layout_places_nothing() {
    let engine = LayoutEngine::new(LayoutMode::Bsp, 8, 8);
    assert!(engine.compute_layout(screen()).is_empty());
}

#[test]
fn engine_monocle_gives_every_window_the_region() {
    let mut engine = LayoutEngine::new(LayoutMode::Monocle, 5, 10);
    engine.add_window(7);
    engine.add_window(3);
    let region = rect(10, 35, 1900, 1035);
    assert_eq!(engine.compute_layout(screen()), vec![(7, Frame::Exact(region)), (3, Frame::Exact(region))]);
}

#[test]
fn engine_master_stack_describes_column_and_rows() {
    let mut engine = LayoutEngine::new(LayoutMode::MasterStack { master_ratio: 600 }, 4, 0);
    engine.add_window(1);
    assert_eq!(engine.compute_layout(screen()), vec![(1, Frame::Exact(screen()))]);
    engine.add_window(2);
    engine.add_window(3);
    let placed = engine.compute_layout(screen());
    assert_eq!(
        placed,
        vec![
            (1, Frame::MasterColumn { area: screen(), master_ratio: 600, gap: 4 }),
            (2, Frame::StackRow { area: screen(), master_ratio: 600, gap: 4, index: 0, count: 2 }),
            (3, Frame::StackRow { area: screen(), master_ratio: 600, gap: 4, index: 1, count: 2 }),
        ]
    );
}

#[test]
fn engine_remove_undoes_add() {
    let mut engine = LayoutEngine::new(LayoutMode::Bsp, 8, 8);
    engine.add_window(1);
    let before = engine.compute_layout(screen());
    engine.add_window(2);
    engine.remove_window(2);
    assert!(!engine.has_window(2));
    assert_eq!(engine.compute_layout(screen()), before);
}

#[test]
fn engine_focus_wraps_around() {
    let mut engine = LayoutEngine::new(LayoutMode::Bsp, 0, 0);
    engine.add_window(1);
    engine.add_window(2);
    engine.add_window(3);
    assert_eq!(engine.focus_next(1), Some(2));
    assert_eq!(engine.focus_next(3), Some(1));
    assert_eq!(engine.focus_prev(1), Some(3));
    assert_eq!(engine.focus_prev(2), Some(1));
    assert_eq!(engine.focus_next(9), None);
    assert_eq!(engine.focus_direction(2, Direction::West), Some(3));
    assert_eq!(engine.focus_prev(engine.focus_next(2).unwrap()), Some(2));
}

#[test]
fn engine_swap_windows_exchanges_places_and_twice_restores() {
    let mut engine = LayoutEngine::new(LayoutMode::Monocle, 0, 0);
    engine.add_window(1);
    engine.add_window(2);
    engine.swap_windows(1, 2);
    assert_eq!(engine.focus_next(2), Some(1));
    let region = screen();
    assert_eq!(engine.compute_layout(screen()), vec![(2, Frame::Exact(region)), (1, Frame::Exact(region))]);
    engine.swap_windows(1, 2);
    assert_eq!(engine.compute_layout(screen()), vec![(1, Frame::Exact(region)), (2, Frame::Exact(region))]);
}

#[test]
fn engine_mode_rotate_equalize_and_resize() {
    let mut engine = LayoutEngine::new(LayoutMode::Monocle, 8, 8);
    engine.add_window(1);
    engine.add_window(2);
    engine.set_mode(LayoutMode::Bsp);
    engine.rotate_tree();
    let placed = engine.compute_layout(screen());
    assert_eq!(
        placed,
        vec![(1, Frame::Exact(rect(8, 33, 1904, 515))), (2, Frame::Exact(rect(8, 556, 1904, 516)))]
    );
    engine.equalize_tree();
    engine.resize_window(1, SplitDirection::Horizontal, 300);
    assert_eq!(engine.compute_layout(screen()), placed);
}

#[test]
fn resize_moves_the_split_holding_the_window() {
    let mut e = LayoutEngine::new(LayoutMode::Bsp, 0, 0);
    e.add_window(1);
    e.add_window(2);
    e.resize_window(1, SplitDirection::Horizontal, 100);
    let area = rect(0, 0, 100, 100);
    assert_eq!(e.compute_layout(area), vec![(1, Frame::Exact(rect(0, 0, 60, 100))), (2, Frame::Exact(rect(60, 0, 40, 100)))]);
    e.resize_window(2, SplitDirection::Horizontal, -5000);
    assert_eq!(e.compute_layout(area), vec![(1, Frame::Exact(rect(0, 0, 0, 100))), (2, Frame::Exact(rect(0, 0, 100, 100)))]);
    e.resize_window(2, SplitDirection::Horizontal, 5000);
    assert_eq!(e.compute_layout(area), vec![(1, Frame::Exact(rect(0, 0, 99, 100))), (2, Frame::Exact(rect(99, 0, 1, 100)))]);
    e.resize_window(9, SplitDirection::Horizontal, -500);
    e.resize_window(1, SplitDirection::Vertical, -500);
    assert_eq!(e.compute_layout(area), vec![(1, Frame::Exact(rect(0, 0, 99, 100))), (2, Frame::Exact(rect(99, 0, 1, 100)))]);
}

#[test]
fn resize_picks_the_deepest_split_in_the_direction() {
    let mut tree = BspNode::new_empty();
    tree.insert(1);
    tree.insert(2);
    tree.insert(3);
    // Split(H, Split(H, 1, 3), 2): window 3 sits in the inner split.
    assert!(tree.resize(3, SplitDirection::Horizontal, 100));
    let rects = tree.compute_rects(rect(0, 0, 1000, 100), 0);
    assert_eq!(rects, vec![(1, rect(0, 0, 300, 100)), (3, rect(300, 0, 200, 100)), (2, rect(500, 0, 500, 100))]);
    assert!(!tree.resize(3, SplitDirection::Vertical, 100));
    assert!(!tree.resize(8, SplitDirection::Horizontal, 100));
}

#[test]
fn focus_moves_across_splits_in_the_direction() {
    let mut e = LayoutEngine::new(LayoutMode::Bsp, 0, 0);
    e.add_window(1);
    e.add_window(2);
    e.add_window(3);
    // Side by side, from west to east: 1, 3, 2.
    assert_eq!(e.focus_direction(1, Direction::East), Some(3));
    assert_eq!(e.focus_direction(3, Direction::East), Some(2));
    assert_eq!(e.focus_direction(2, Direction::East), None);
    assert_eq!(e.focus_direction(2, Direction::West), Some(3));
    assert_eq!(e.focus_direction(3, Direction::West), Some(1));
    assert_eq!(e.focus_direction(1, Direction::North), None);
    assert_eq!(e.focus_direction(9, Direction::East), None);
    e.rotate_tree();
    // One above the other, from north to south: 1, 3, 2.
    assert_eq!(e.focus_direction(1, Direction::South), Some(3));
    assert_eq!(e.focus_direction(2, Direction::North), Some(3));
    assert_eq!(e.focus_direction(1, Direction::East), None);
}

#[test]
fn focus_in_master_stack_and_monocle() {
    let mut e = LayoutEngine::new(LayoutMode::MasterStack { master_ratio: 500 }, 0, 0);
    e.add_window(1);
    assert_eq!(e.focus_direction(1, Direction::East), None);
    e.add_window(2);
    e.add_window(3);
    assert_eq!(e.focus_direction(1, Direction::East), Some(2));
    assert_eq!(e.focus_direction(1, Direction::South), None);
    assert_eq!(e.focus_direction(3, Direction::West), Some(1));
    assert_eq!(e.focus_direction(3, Direction::North), Some(2));
    assert_eq!(e.focus_direction(2, Direction::North), None);
    assert_eq!(e.focus_direction(2, Direction::South), Some(3));
    assert_eq!(e.focus_direction(3, Direction::South), None);
    assert_eq!(e.focus_direction(2, Direction::East), None);
    e.set_mode(LayoutMode::Monocle);
    assert_eq!(e.focus_direction(1, Direction::East), None);
}
