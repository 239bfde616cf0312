use std::collections::HashMap;

use pinnacle::geometry::{Point, Rectangle, Size};
use pinnacle::layout::automatic::{master_stack, Direction};
use pinnacle::layout::neighbors::{update_neighbor_info, NeighborInfo, NeighborTree};
use pinnacle::layout::pending::PendingQueues;
use pinnacle::layout::{
    floating_resize_loc, layout_window_count, plan_window_update, swap_window_positions,
    LayoutDir, LayoutNode, LayoutRequestId, LayoutRequestIds, ResizeDir, ResizeEdge, WindowFacts,
};

fn leaf() -> LayoutNode {
    LayoutNode {
        label: None,
        traversal_index: 0,
        traversal_overrides: HashMap::new(),
        is_row: true,
        children: Vec::new(),
    }
}

fn node(is_row: bool, children: Vec<LayoutNode>) -> LayoutNode {
    LayoutNode {
        label: Some("node".to_string()),
        traversal_index: 0,
        traversal_overrides: HashMap::new(),
        is_row,
        children,
    }
}

fn info(t: &NeighborTree) -> NeighborInfo {
    t.info
}

fn rect(x: i32, y: i32, w: i32, h: i32) -> Rectangle {
    Rectangle { loc: Point { x, y }, size: Size { w, h } }
}

#[test]
fn lone_root_has_no_neighbors() {
    let tree = update_neighbor_info(&leaf());
    assert_eq!(info(&tree), NeighborInfo::default());
    assert!(tree.children.is_empty());
}

#[test]
fn two_tiles_in_a_row_neighbor_each_other() {
    let tree = update_neighbor_info(&node(true, vec![leaf(), leaf()]));
    assert_eq!(info(&tree), NeighborInfo::default());
    let a = info(&tree.children[0]);
    let b = info(&tree.children[1]);
    assert!(a.has_immediate_row_neighbor_ahead);
    assert!(!a.has_immediate_row_neighbor_behind);
    assert_eq!(a.row_neighbors_ahead, 1);
    assert_eq!(a.row_neighbors_behind, 0);
    assert!(!b.has_immediate_row_neighbor_ahead);
    assert!(b.has_immediate_row_neighbor_behind);
    assert_eq!(b.row_neighbors_ahead, 0);
    assert_eq!(b.row_neighbors_behind, 1);
    assert!(!a.has_immediate_col_neighbor_ahead && !b.has_immediate_col_neighbor_behind);
    assert_eq!(a.col_neighbors_ahead + a.col_neighbors_behind, 0);
    assert!(a.has_immediate_neighbor(LayoutDir::Row, ResizeDir::Ahead));
    assert!(!a.has_immediate_neighbor(LayoutDir::Col, ResizeDir::Ahead));
    assert_eq!(b.neighbors(LayoutDir::Row, ResizeDir::Behind), 1);
    assert_eq!(b.neighbors(LayoutDir::Row, ResizeDir::Ahead), 0);
}

#[test]
fn nested_column_inherits_row_counts() {
    let tree = update_neighbor_info(&node(true, vec![leaf(), node(false, vec![leaf(), leaf()])]));
    let a = info(&tree.children[0]);
    let col = info(&tree.children[1]);
    let c = info(&tree.children[1].children[0]);
    let d = info(&tree.children[1].children[1]);
    assert_eq!((a.row_neighbors_ahead, a.row_neighbors_behind), (1, 0));
    assert_eq!((col.row_neighbors_ahead, col.row_neighbors_behind), (0, 1));
    assert!(col.has_immediate_row_neighbor_behind);
    assert_eq!(c.row_neighbors_behind, 1);
    assert!(!c.has_immediate_row_neighbor_behind);
    assert_eq!((c.col_neighbors_ahead, c.col_neighbors_behind), (1, 0));
    assert!(c.has_immediate_col_neighbor_ahead);
    assert_eq!((d.col_neighbors_ahead, d.col_neighbors_behind), (0, 1));
    assert!(d.has_immediate_col_neighbor_behind);
    assert_eq!(d.row_neighbors_behind, 1);
}

#[test]
fn wide_subtree_counts_every_row_step() {
    let tree = update_neighbor_info(&node(true, vec![node(true, vec![leaf(), leaf()]), leaf()]));
    let a = info(&tree.children[0].children[0]);
    let b = info(&tree.children[0].children[1]);
    let c = info(&tree.children[1]);
    assert_eq!(c.row_neighbors_behind, 2);
    assert_eq!(b.row_neighbors_ahead, 1);
    assert_eq!(a.row_neighbors_ahead, 2);
    assert_eq!(a.row_neighbors_behind, 0);
    assert_eq!(b.row_neighbors_behind, 1);
}

#[test]
fn immediate_neighbor_is_always_counted() {
    let tree = update_neighbor_info(&node(
        false,
        vec![node(true, vec![leaf(), leaf(), leaf()]), leaf(), node(true, vec![leaf()])],
    ));
    fn check(t: &NeighborTree) {
        let i = t.info;
        assert!(!i.has_immediate_row_neighbor_ahead || i.row_neighbors_ahead >= 1);
        assert!(!i.has_immediate_row_neighbor_behind || i.row_neighbors_behind >= 1);
        assert!(!i.has_immediate_col_neighbor_ahead || i.col_neighbors_ahead >= 1);
        assert!(!i.has_immediate_col_neighbor_behind || i.col_neighbors_behind >= 1);
        for c in &t.children {
            check(c);
        }
    }
    check(&tree);
}

#[test]
fn layout_request_ids_count_up() {
    let mut ids = LayoutRequestIds { current_id: LayoutRequestId(0) };
    assert_eq!(ids.next_id().to_inner(), 1);
    assert_eq!(ids.next_id().to_inner(), 2);
}

#[test]
fn master_stack_splits_output() {
    let out = rect(0, 0, 1920, 1080);
    let r = master_stack(&vec![true, false, true, true], Some(out), Direction::Left);
    assert_eq!(
        r,
        vec![(0, rect(0, 0, 960, 1080)), (2, rect(960, 0, 960, 540)), (3, rect(960, 540, 960, 540))]
    );
}

#[test]
fn master_stack_single_and_empty() {
    let out = rect(10, 20, 800, 600);
    assert_eq!(master_stack(&vec![false, true], Some(out), Direction::Left), vec![(1, out)]);
    assert!(master_stack(&vec![false, false], Some(out), Direction::Left).is_empty());
    assert!(master_stack(&vec![true, true], None, Direction::Left).is_empty());
}

#[test]
fn master_stack_clamps_stack_height() {
    let out = rect(0, 0, 1, 60);
    let r = master_stack(&vec![true, true, true, true], Some(out), Direction::Left);
    assert_eq!(r[0], (0, rect(0, 0, 0, 60)));
    assert_eq!(r[1], (1, rect(0, 0, 1, 40)));
    assert_eq!(r[2], (2, rect(0, 20, 1, 40)));
    assert_eq!(r[3], (3, rect(0, 40, 1, 40)));
}

fn win(on_output: bool, on_focused_tag: bool, override_redirect: bool, tiled: bool, mapped: bool) -> WindowFacts {
    WindowFacts { on_output, on_focused_tag, override_redirect, tiled_or_spilled: tiled, mapped }
}

#[test]
fn window_count_skips_floating_and_override_redirect() {
    let ws = vec![
        win(true, true, false, true, true),
        win(true, true, true, true, true),
        win(true, true, false, false, true),
        win(false, true, false, true, false),
        win(true, false, false, true, true),
    ];
    assert_eq!(layout_window_count(&ws), 2);
}

#[test]
fn window_update_plan_tiles_spills_and_unmaps() {
    let ws = vec![
        win(true, true, false, true, true),
        win(true, false, false, true, true),
        win(true, true, false, true, false),
        win(false, true, false, true, true),
        win(true, true, false, true, true),
        win(true, false, false, false, false),
    ];
    let geos = vec![rect(0, 0, 100, 100), rect(100, 0, 100, 100)];
    let plan = plan_window_update(&ws, &geos, Point { x: 1000, y: 0 }, Point { x: 0, y: 30 });
    assert_eq!(plan.unmap, vec![1]);
    assert_eq!(plan.tiled, vec![(0, rect(1000, 30, 100, 100)), (2, rect(1100, 30, 100, 100))]);
    assert_eq!(plan.spilled, vec![4]);
}

#[test]
fn swap_window_positions_swaps_first_places() {
    let mut ws = vec![7, 8, 9, 8];
    swap_window_positions(&mut ws, 8, 9);
    assert_eq!(ws, vec![7, 9, 8, 8]);
    swap_window_positions(&mut ws, 7, 42);
    assert_eq!(ws, vec![7, 9, 8, 8]);
}

#[test]
fn floating_resize_keeps_opposite_edge() {
    let initial = rect(100, 100, 500, 400);
    let size = Size { w: 450, h: 380 };
    assert_eq!(floating_resize_loc(ResizeEdge::TopLeft, initial, size), Point { x: 150, y: 120 });
    assert_eq!(floating_resize_loc(ResizeEdge::Right, initial, size), Point { x: 100, y: 100 });
    assert_eq!(floating_resize_loc(ResizeEdge::BottomLeft, initial, size), Point { x: 150, y: 100 });
    assert_eq!(floating_resize_loc(ResizeEdge::Top, initial, size), Point { x: 100, y: 120 });
}

#[test]
fn pending_queues_are_first_in_first_out_per_output() {
    let mut q: PendingQueues<&str> = PendingQueues::new();
    assert!(q.is_empty());
    q.add_for_output(1, "a");
    q.add_for_output(2, "x");
    q.add_for_output(1, "b");
    assert!(!q.is_empty());
    assert_eq!(q.first_for_output(1), Some(&"a"));
    assert_eq!(q.take_next_for_output(1), Some("a"));
    assert_eq!(q.take_next_for_output(1), Some("b"));
    assert_eq!(q.take_next_for_output(1), None);
    q.add_for_output(1, "c");
    q.remove_output(2);
    assert_eq!(q.take_next_for_output(2), None);
    assert_eq!(q.take_next_for_output(1), Some("c"));
    assert!(q.is_empty());
}

use pinnacle::layout::traversal::traversal_order;

fn leaf_with_index(traversal_index: u32) -> LayoutNode {
    LayoutNode { traversal_index, ..leaf() }
}

fn with_overrides(mut n: LayoutNode, entries: &[(u32, Vec<u32>)]) -> LayoutNode {
    for (k, v) in entries {
        n.traversal_overrides.insert(*k, v.clone());
    }
    n
}

#[test]
fn traversal_visits_leaves_in_order() {
    let root = node(true, vec![leaf(), leaf(), leaf()]);
    assert_eq!(traversal_order(&root), vec![1, 2, 3]);
    assert_eq!(traversal_order(&leaf()), vec![0]);
}

#[test]
fn traversal_follows_traversal_index() {
    let root = node(true, vec![leaf_with_index(2), leaf_with_index(0), leaf_with_index(1)]);
    assert_eq!(traversal_order(&root), vec![2, 3, 1]);
}

#[test]
fn traversal_override_puts_a_child_first() {
    let root = with_overrides(node(true, vec![leaf(), leaf(), leaf()]), &[(1, vec![2])]);
    assert_eq!(traversal_order(&root), vec![1, 3, 2]);
}

#[test]
fn traversal_overrides_are_handed_down() {
    let inner = node(false, vec![leaf(), leaf()]);
    let root = with_overrides(node(true, vec![inner, leaf()]), &[(0, vec![0, 1])]);
    assert_eq!(traversal_order(&root), vec![3, 2, 4]);
}

#[test]
fn traversal_root_overrides_follow_every_other_count() {
    let root = with_overrides(node(true, vec![leaf(), leaf(), leaf(), leaf()]), &[(2, vec![3])]);
    assert_eq!(traversal_order(&root), vec![1, 4, 2, 3]);
}

use pinnacle::layout::trees::LayoutTrees;

#[test]
fn layout_trees_track_current_tree() {
    let mut trees: LayoutTrees<&str> = LayoutTrees::new();
    assert_eq!(trees.current_tree_for_output(1), None);
    assert_eq!(trees.take_tree(1, 7), None);
    trees.put_tree(1, 7, "first");
    trees.set_current(1, 7);
    assert_eq!(trees.current_tree_for_output(1), Some(&"first"));
    let taken = trees.take_tree(1, 7).unwrap();
    assert_eq!(taken, "first");
    assert_eq!(trees.current_tree_for_output(1), None);
    trees.put_tree(1, 7, "updated");
    trees.put_tree(1, 8, "other");
    trees.put_tree(2, 7, "second output");
    assert_eq!(trees.current_tree_for_output(1), Some(&"updated"));
    trees.set_current(1, 8);
    assert_eq!(trees.current_tree_for_output(1), Some(&"other"));
    trees.set_current(2, 7);
    trees.remove_output(1);
    assert_eq!(trees.current_tree_for_output(1), None);
    assert_eq!(trees.current_tree_for_output(2), Some(&"second output"));
    // The current id of a removed output stays: a tree put back under it is current again.
    trees.put_tree(1, 8, "back");
    assert_eq!(trees.current_tree_for_output(1), Some(&"back"));
}

#[test]
fn unfinished_head_blocks_pending_transactions() {
    let mut q: PendingQueues<(u32, bool)> = PendingQueues::new();
    q.add_for_output(1, (1, false));
    q.add_for_output(1, (2, true));
    let head_finished = q.first_for_output(1).map_or(false, |t| t.1);
    assert_eq!(q.take_next_finished(1, head_finished), None);
    assert_eq!(q.first_for_output(1), Some(&(1, false)));
    assert_eq!(q.take_next_finished(1, true), Some((1, false)));
    let head_finished = q.first_for_output(1).map_or(false, |t| t.1);
    assert_eq!(q.take_next_finished(1, head_finished), Some((2, true)));
    assert_eq!(q.take_next_finished(1, true), None);
}
