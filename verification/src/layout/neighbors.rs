//! Which tiles of a layout tree have neighbors, and how many, in each
//! direction. Resizing a tile consults this to decide which nodes give way.
use vstd::prelude::*;

use crate::layout::{LayoutDir, LayoutNode, ResizeDir};

verus! {

/// The contribution of a child to its parent's count along `row`: its own
/// width, and at least `step`.
pub open spec fn contribution(c: LayoutNode, row: bool, step: nat) -> nat
    decreases c, 1nat,
{
    let w = width(c, row);
    if w < step { step } else { w }
}

/// How many neighbor steps a subtree spans along rows (`row`) or columns
/// (`!row`): the sum of its children's contributions when it lays them out
/// along that axis (each at least one when there are two or more), else the
/// largest among its children.
pub open spec fn width(n: LayoutNode, row: bool) -> nat
    decreases n, 0nat,
{
    let cs = n.children@;
    if n.is_row == row {
        span_sum(cs, row, step_of(cs.len()))
    } else {
        span_max(cs, row)
    }
}

/// One where a node has two or more children, else zero.
pub open spec fn step_of(k: nat) -> nat {
    if k > 1 { 1 } else { 0 }
}

/// The sum of the contributions of `cs`.
pub open spec fn span_sum(cs: Seq<LayoutNode>, row: bool, step: nat) -> nat
    decreases cs, 0nat,
{
    if cs.len() == 0 {
        0
    } else {
        span_sum(cs.subrange(0, cs.len() - 1), row, step) + contribution(cs[cs.len() - 1], row, step)
    }
}

/// The largest width among `cs`, zero if there is none.
pub open spec fn span_max(cs: Seq<LayoutNode>, row: bool) -> nat
    decreases cs, 0nat,
{
    if cs.len() == 0 {
        0
    } else {
        let a = span_max(cs.subrange(0, cs.len() - 1), row);
        let b = width(cs[cs.len() - 1], row);
        if a < b { b } else { a }
    }
}

/// What a node knows of its neighbors: for rows and columns, ahead and
/// behind, whether a sibling lies directly next to it, and how many neighbor
/// steps lie in that direction across the whole tree.
#[derive(Debug, Clone, Copy, PartialEq, Eq, Structural)]
pub struct NeighborInfo {
    pub has_immediate_row_neighbor_ahead: bool,
    pub has_immediate_row_neighbor_behind: bool,
    pub has_immediate_col_neighbor_ahead: bool,
    pub has_immediate_col_neighbor_behind: bool,
    pub row_neighbors_ahead: u32,
    pub row_neighbors_behind: u32,
    pub col_neighbors_ahead: u32,
    pub col_neighbors_behind: u32,
}

impl Default for NeighborInfo {
    fn default() -> (r: Self)
        ensures
            r == no_neighbors(),
    {
        NeighborInfo {
            has_immediate_row_neighbor_ahead: false,
            has_immediate_row_neighbor_behind: false,
            has_immediate_col_neighbor_ahead: false,
            has_immediate_col_neighbor_behind: false,
            row_neighbors_ahead: 0,
            row_neighbors_behind: 0,
            col_neighbors_ahead: 0,
            col_neighbors_behind: 0,
        }
    }
}

/// The information of a node alone in the tree: no neighbors anywhere.
pub open spec fn no_neighbors() -> NeighborInfo {
    NeighborInfo {
        has_immediate_row_neighbor_ahead: false,
        has_immediate_row_neighbor_behind: false,
        has_immediate_col_neighbor_ahead: false,
        has_immediate_col_neighbor_behind: false,
        row_neighbors_ahead: 0,
        row_neighbors_behind: 0,
        col_neighbors_ahead: 0,
        col_neighbors_behind: 0,
    }
}

/// The flag for the given axis and direction.
pub open spec fn immediate_of(info: NeighborInfo, row: bool, ahead: bool) -> bool {
    if row {
        if ahead { info.has_immediate_row_neighbor_ahead } else { info.has_immediate_row_neighbor_behind }
    } else {
        if ahead { info.has_immediate_col_neighbor_ahead } else { info.has_immediate_col_neighbor_behind }
    }
}

/// The count for the given axis and direction.
pub open spec fn count_of(info: NeighborInfo, row: bool, ahead: bool) -> u32 {
    if row {
        if ahead { info.row_neighbors_ahead } else { info.row_neighbors_behind }
    } else {
        if ahead { info.col_neighbors_ahead } else { info.col_neighbors_behind }
    }
}

/// Whether a layout direction is the row axis.
pub open spec fn is_row_dir(layout_dir: LayoutDir) -> bool {
    layout_dir == LayoutDir::Row
}

/// Whether a resize direction looks ahead.
pub open spec fn is_ahead_dir(resize_dir: ResizeDir) -> bool {
    resize_dir == ResizeDir::Ahead
}

impl NeighborInfo {
    /// Whether a sibling lies directly next to the node along `layout_dir`
    /// in `resize_dir`.
    pub fn has_immediate_neighbor(&self, layout_dir: LayoutDir, resize_dir: ResizeDir) -> (r: bool)
        ensures
            r == immediate_of(*self, is_row_dir(layout_dir), is_ahead_dir(resize_dir)),
    {
        match (layout_dir, resize_dir) {
            (LayoutDir::Row, ResizeDir::Ahead) => self.has_immediate_row_neighbor_ahead,
            (LayoutDir::Row, ResizeDir::Behind) => self.has_immediate_row_neighbor_behind,
            (LayoutDir::Col, ResizeDir::Ahead) => self.has_immediate_col_neighbor_ahead,
            (LayoutDir::Col, ResizeDir::Behind) => self.has_immediate_col_neighbor_behind,
        }
    }

    /// How many neighbor steps lie along `layout_dir` in `resize_dir`.
    pub fn neighbors(&self, layout_dir: LayoutDir, resize_dir: ResizeDir) -> (r: u32)
        ensures
            r == count_of(*self, is_row_dir(layout_dir), is_ahead_dir(resize_dir)),
    {
        match (layout_dir, resize_dir) {
            (LayoutDir::Row, ResizeDir::Ahead) => self.row_neighbors_ahead,
            (LayoutDir::Row, ResizeDir::Behind) => self.row_neighbors_behind,
            (LayoutDir::Col, ResizeDir::Ahead) => self.col_neighbors_ahead,
            (LayoutDir::Col, ResizeDir::Behind) => self.col_neighbors_behind,
        }
    }
}

/// The siblings of child `i` that lie in the given direction: those after it
/// when looking ahead, those before it when looking behind.
pub open spec fn siblings_toward(cs: Seq<LayoutNode>, i: int, ahead: bool) -> Seq<LayoutNode> {
    if ahead { cs.subrange(i + 1, cs.len() as int) } else { cs.subrange(0, i) }
}

/// The count that child `i` of `n` has along `row` in the given direction,
/// where `n` itself has `count`: where `n` lays its children out along that
/// axis, the contributions of the siblings in that direction are added.
pub open spec fn child_count(n: LayoutNode, row: bool, ahead: bool, count: int, i: int) -> int {
    let cs = n.children@;
    if n.is_row == row {
        count + span_sum(siblings_toward(cs, i, ahead), row, step_of(cs.len()))
    } else {
        count
    }
}

/// Whether child `i` of `n` has a sibling directly next to it along `row` in
/// the given direction.
pub open spec fn child_immediate(n: LayoutNode, row: bool, ahead: bool, i: int) -> bool {
    &&& n.is_row == row
    &&& if ahead { i + 1 < n.children@.len() } else { i > 0 }
}

/// A tree of neighbor information with the shape of a layout tree.
#[derive(Debug)]
pub struct NeighborTree {
    pub info: NeighborInfo,
    pub children: Vec<NeighborTree>,
}

/// `t` holds, for one direction, the information of `n` and of every node
/// below it, where `n` itself has the given counts and flags.
pub open spec fn direction_holds(
    t: NeighborTree,
    n: LayoutNode,
    ahead: bool,
    rows: int,
    cols: int,
    row_flag: bool,
    col_flag: bool,
) -> bool
    decreases t,
{
    &&& count_of(t.info, true, ahead) == rows
    &&& count_of(t.info, false, ahead) == cols
    &&& immediate_of(t.info, true, ahead) == row_flag
    &&& immediate_of(t.info, false, ahead) == col_flag
    &&& t.children@.len() == n.children@.len()
    &&& forall|i: int|
        0 <= i < t.children@.len() ==> direction_holds(
            #[trigger] t.children@[i],
            n.children@[i],
            ahead,
            child_count(n, true, ahead, rows, i),
            child_count(n, false, ahead, cols, i),
            child_immediate(n, true, ahead, i),
            child_immediate(n, false, ahead, i),
        )
}

/// `t` holds the neighbor information of every node of the tree rooted at
/// `root`, in both directions; the root has no neighbors.
pub open spec fn neighbor_tree_of(t: NeighborTree, root: LayoutNode) -> bool {
    &&& direction_holds(t, root, true, 0, 0, false, false)
    &&& direction_holds(t, root, false, 0, 0, false, false)
}

/// Splitting a run of children splits the sum of their contributions.
pub proof fn lemma_span_sum_split(cs: Seq<LayoutNode>, row: bool, step: nat, a: int, b: int, c: int)
    requires
        0 <= a <= b <= c <= cs.len(),
    ensures
        span_sum(cs.subrange(a, c), row, step) == span_sum(cs.subrange(a, b), row, step)
            + span_sum(cs.subrange(b, c), row, step),
    decreases c - b,
{
    if c == b {
        assert(cs.subrange(a, c) =~= cs.subrange(a, b));
        assert(cs.subrange(b, c).len() == 0);
    } else {
        lemma_span_sum_split(cs, row, step, a, b, c - 1);
        assert(cs.subrange(a, c).subrange(0, c - a - 1) =~= cs.subrange(a, c - 1));
        assert(cs.subrange(b, c).subrange(0, c - b - 1) =~= cs.subrange(b, c - 1));
        assert(cs.subrange(a, c)[c - a - 1] == cs[c - 1]);
        assert(cs.subrange(b, c)[c - b - 1] == cs[c - 1]);
    }
}

/// Splitting a run of children splits the largest of their widths.
pub proof fn lemma_span_max_split(cs: Seq<LayoutNode>, row: bool, a: int, b: int, c: int)
    requires
        0 <= a <= b <= c <= cs.len(),
    ensures
        ({
            let x = span_max(cs.subrange(a, b), row);
            let y = span_max(cs.subrange(b, c), row);
            span_max(cs.subrange(a, c), row) == if x < y { y } else { x }
        }),
    decreases c - b,
{
    if c == b {
        assert(cs.subrange(a, c) =~= cs.subrange(a, b));
        assert(cs.subrange(b, c).len() == 0);
    } else {
        lemma_span_max_split(cs, row, a, b, c - 1);
        assert(cs.subrange(a, c).subrange(0, c - a - 1) =~= cs.subrange(a, c - 1));
        assert(cs.subrange(b, c).subrange(0, c - b - 1) =~= cs.subrange(b, c - 1));
        assert(cs.subrange(a, c)[c - a - 1] == cs[c - 1]);
        assert(cs.subrange(b, c)[c - b - 1] == cs[c - 1]);
    }
}

/// The contribution of a single child.
pub proof fn lemma_span_single(cs: Seq<LayoutNode>, row: bool, step: nat, i: int)
    requires
        0 <= i < cs.len(),
    ensures
        span_sum(cs.subrange(i, i + 1), row, step) == contribution(cs[i], row, step),
        span_max(cs.subrange(i, i + 1), row) == width(cs[i], row),
{
    let s = cs.subrange(i, i + 1);
    assert(s.subrange(0, 0).len() == 0);
    assert(span_sum(s.subrange(0, 0), row, step) == 0);
    assert(span_max(s.subrange(0, 0), row) == 0);
    assert(s[0] == cs[i]);
}

/// The children that a pass has visited after `m` steps: a pass looking ahead
/// visits them from the last one backward, one looking behind from the first.
pub open spec fn visited(cs: Seq<LayoutNode>, m: int, ahead: bool) -> Seq<LayoutNode> {
    if ahead { cs.subrange(cs.len() - m, cs.len() as int) } else { cs.subrange(0, m) }
}

/// The child that a pass visits at step `m` of `k`.
pub open spec fn visit_index(k: int, m: int, ahead: bool) -> int {
    if ahead { k - 1 - m } else { m }
}

/// Visiting one more child adds its contribution to the sum and its width to
/// the largest, and the visited children never sum or reach past all of them.
proof fn lemma_visit_step(cs: Seq<LayoutNode>, row: bool, step: nat, m: int, ahead: bool)
    requires
        0 <= m < cs.len(),
    ensures
        ({
            let i = visit_index(cs.len() as int, m, ahead);
            let before = visited(cs, m, ahead);
            let after = visited(cs, m + 1, ahead);
            &&& span_sum(after, row, step) == span_sum(before, row, step) + contribution(cs[i], row, step)
            &&& span_max(after, row) == if span_max(before, row) < width(cs[i], row) {
                width(cs[i], row)
            } else {
                span_max(before, row)
            }
            &&& span_sum(after, row, step) <= span_sum(cs, row, step)
            &&& span_max(after, row) <= span_max(cs, row)
            &&& width(cs[i], row) <= span_max(cs, row)
        }),
{
    let k = cs.len() as int;
    let i = visit_index(k, m, ahead);
    assert(cs.subrange(0, k) =~= cs);
    lemma_span_single(cs, row, step, i);
    if ahead {
        lemma_span_sum_split(cs, row, step, i, i + 1, k);
        lemma_span_max_split(cs, row, i, i + 1, k);
        lemma_span_sum_split(cs, row, step, 0, i, k);
        lemma_span_max_split(cs, row, 0, i, k);
        lemma_span_max_split(cs, row, 0, i, i + 1);
    } else {
        lemma_span_sum_split(cs, row, step, 0, i, i + 1);
        lemma_span_max_split(cs, row, 0, i, i + 1);
        lemma_span_sum_split(cs, row, step, 0, i + 1, k);
        lemma_span_max_split(cs, row, 0, i + 1, k);
    }
}

/// Where an item stands in a run of items.
#[derive(Debug, Clone, Copy, PartialEq, Eq, Structural)]
pub enum Position {
    First,
    Middle,
    Last,
    Only,
}

/// Where the item at `index` stands in a run of `len` items.
pub open spec fn spec_position(index: int, len: int) -> Position {
    if len == 1 {
        Position::Only
    } else if index == 0 {
        Position::First
    } else if index == len - 1 {
        Position::Last
    } else {
        Position::Middle
    }
}

/// Where the item at `index` stands in a run of `len` items.
pub fn with_position(index: usize, len: usize) -> (r: Position)
    requires
        index < len,
    ensures
        r == spec_position(index as int, len as int),
{
    if len == 1 {
        Position::Only
    } else if index == 0 {
        Position::First
    } else if index == len - 1 {
        Position::Last
    } else {
        Position::Middle
    }
}

/// The largest of two counts.
fn max_u32(a: u32, b: u32) -> (r: u32)
    ensures
        r == if a < b { b } else { a },
{
    if a < b { b } else { a }
}

/// The items of `v` in reverse order.
fn reverse_trees(v: Vec<NeighborTree>) -> (r: Vec<NeighborTree>)
    ensures
        r@.len() == v@.len(),
        forall|i: int| 0 <= i < v@.len() ==> r@[i] == v@[v@.len() - 1 - i],
{
    let ghost orig = v@;
    let mut rest = v;
    let mut r: Vec<NeighborTree> = Vec::new();
    while rest.len() > 0
        invariant
            r@.len() + rest@.len() == orig.len(),
            rest@ == orig.subrange(0, rest@.len() as int),
            forall|i: int| 0 <= i < r@.len() ==> r@[i] == orig[orig.len() - 1 - i],
        decreases rest@.len(),
    {
        let t = rest.pop().unwrap();
        r.push(t);
    }
    r
}

/// One pass over the subtree at `node`, looking `ahead` or behind: records
/// the counts and flags of every node in that direction, and returns how far
/// the subtree reaches along rows and along columns, counted from the counts
/// that `node` itself has.
fn update_rec(
    node: &LayoutNode,
    ahead: bool,
    neighbors_row: u32,
    neighbors_col: u32,
    has_immediate_row_neighbor: bool,
    has_immediate_col_neighbor: bool,
) -> (res: (NeighborTree, u32, u32))
    requires
        neighbors_row + width(*node, true) <= u32::MAX,
        neighbors_col + width(*node, false) <= u32::MAX,
    ensures
        direction_holds(
            res.0,
            *node,
            ahead,
            neighbors_row as int,
            neighbors_col as int,
            has_immediate_row_neighbor,
            has_immediate_col_neighbor,
        ),
        res.1 == neighbors_row + width(*node, true),
        res.2 == neighbors_col + width(*node, false),
    decreases node,
{
    let mut info = NeighborInfo::default();
    if ahead {
        info.row_neighbors_ahead = neighbors_row;
        info.col_neighbors_ahead = neighbors_col;
        info.has_immediate_row_neighbor_ahead = has_immediate_row_neighbor;
        info.has_immediate_col_neighbor_ahead = has_immediate_col_neighbor;
    } else {
        info.row_neighbors_behind = neighbors_row;
        info.col_neighbors_behind = neighbors_col;
        info.has_immediate_row_neighbor_behind = has_immediate_row_neighbor;
        info.has_immediate_col_neighbor_behind = has_immediate_col_neighbor;
    }

    let ghost cs = node.children@;
    let k = node.children.len();
    let is_row = node.is_row;
    let ghost step = step_of(k as nat);

    let mut row_nodes_under_this_node = neighbors_row;
    let mut col_nodes_under_this_node = neighbors_col;
    let mut done: Vec<NeighborTree> = Vec::new();
    let mut m: usize = 0;
    proof {
        assert(cs.subrange(0, 0).len() == 0);
        assert(cs.subrange(k as int, k as int).len() == 0);
        assert(cs.subrange(0, k as int) =~= cs);
    }
    while m < k
        invariant
            cs == node.children@,
            k == cs.len(),
            is_row == node.is_row,
            step == step_of(k as nat),
            0 <= m <= k,
            done@.len() == m,
            neighbors_row + width(*node, true) <= u32::MAX,
            neighbors_col + width(*node, false) <= u32::MAX,
            width(*node, true) == (if is_row { span_sum(cs, true, step) } else { span_max(cs, true) }),
            width(*node, false) == (if !is_row { span_sum(cs, false, step) } else { span_max(cs, false) }),
            cs.subrange(0, k as int) == cs,
            row_nodes_under_this_node == neighbors_row + (if is_row {
                span_sum(visited(cs, m as int, ahead), true, step)
            } else {
                span_max(visited(cs, m as int, ahead), true)
            }),
            col_nodes_under_this_node == neighbors_col + (if !is_row {
                span_sum(visited(cs, m as int, ahead), false, step)
            } else {
                span_max(visited(cs, m as int, ahead), false)
            }),
            forall|j: int| 0 <= j < m ==> {
                let i = visit_index(k as int, j, ahead);
                direction_holds(
                    #[trigger] done@[j],
                    cs[i],
                    ahead,
                    child_count(*node, true, ahead, neighbors_row as int, i),
                    child_count(*node, false, ahead, neighbors_col as int, i),
                    child_immediate(*node, true, ahead, i),
                    child_immediate(*node, false, ahead, i),
                )
            },
        decreases k - m,
    {
        let i = if ahead { k - 1 - m } else { m };
        let pos = with_position(m, k);
        let has_immediate_neighbor = match pos {
            Position::First | Position::Only => false,
            Position::Middle | Position::Last => true,
        };
        let only = pos == Position::Only;
        let child = &node.children[i];
        let ghost before = visited(cs, m as int, ahead);
        let ghost after = visited(cs, m as int + 1, ahead);
        proof {
            lemma_visit_step(cs, true, step, m as int, ahead);
            lemma_visit_step(cs, false, step, m as int, ahead);
            assert(cs[i as int] == *child);
        }
        let (t, row_nodes_under_child, col_nodes_under_child) = update_rec(
            child,
            ahead,
            if is_row { row_nodes_under_this_node } else { neighbors_row },
            if !is_row { col_nodes_under_this_node } else { neighbors_col },
            is_row && has_immediate_neighbor,
            !is_row && has_immediate_neighbor,
        );
        row_nodes_under_this_node = max_u32(
            row_nodes_under_this_node + if is_row && !only { 1u32 } else { 0u32 },
            row_nodes_under_child,
        );
        col_nodes_under_this_node = max_u32(
            col_nodes_under_this_node + if !is_row && !only { 1u32 } else { 0u32 },
            col_nodes_under_child,
        );
        done.push(t);
        m = m + 1;
    }
    let children = if ahead { reverse_trees(done) } else { done };
    proof {
        assert(visited(cs, k as int, ahead) =~= cs);
    }
    (NeighborTree { info, children }, row_nodes_under_this_node, col_nodes_under_this_node)
}

/// The counts and flags looking ahead from `a`, those looking behind from `b`.
pub open spec fn combined(a: NeighborInfo, b: NeighborInfo) -> NeighborInfo {
    NeighborInfo {
        has_immediate_row_neighbor_ahead: a.has_immediate_row_neighbor_ahead,
        has_immediate_row_neighbor_behind: b.has_immediate_row_neighbor_behind,
        has_immediate_col_neighbor_ahead: a.has_immediate_col_neighbor_ahead,
        has_immediate_col_neighbor_behind: b.has_immediate_col_neighbor_behind,
        row_neighbors_ahead: a.row_neighbors_ahead,
        row_neighbors_behind: b.row_neighbors_behind,
        col_neighbors_ahead: a.col_neighbors_ahead,
        col_neighbors_behind: b.col_neighbors_behind,
    }
}

/// Two trees with the same shape.
pub open spec fn same_shape(a: NeighborTree, b: NeighborTree) -> bool
    decreases a,
{
    &&& a.children@.len() == b.children@.len()
    &&& forall|i: int|
        0 <= i < a.children@.len() ==> same_shape(#[trigger] a.children@[i], b.children@[i])
}

/// `r` has the shape of `a` and `b`, and at each node the counts and flags
/// looking ahead from `a` and those looking behind from `b`.
pub open spec fn merged(r: NeighborTree, a: NeighborTree, b: NeighborTree) -> bool
    decreases r,
{
    &&& r.info == combined(a.info, b.info)
    &&& r.children@.len() == a.children@.len()
    &&& r.children@.len() == b.children@.len()
    &&& forall|i: int|
        0 <= i < r.children@.len() ==> merged(#[trigger] r.children@[i], a.children@[i], b.children@[i])
}

/// Two trees that hold one direction each for the same layout tree have the
/// same shape.
proof fn lemma_passes_same_shape(
    a: NeighborTree,
    b: NeighborTree,
    n: LayoutNode,
    ra: int,
    ca: int,
    fa: bool,
    ga: bool,
    rb: int,
    cb: int,
    fb: bool,
    gb: bool,
)
    requires
        direction_holds(a, n, true, ra, ca, fa, ga),
        direction_holds(b, n, false, rb, cb, fb, gb),
    ensures
        same_shape(a, b),
    decreases a,
{
    assert forall|i: int| 0 <= i < a.children@.len() implies same_shape(
        #[trigger] a.children@[i],
        b.children@[i],
    ) by {
        lemma_passes_same_shape(
            a.children@[i],
            b.children@[i],
            n.children@[i],
            child_count(n, true, true, ra, i),
            child_count(n, false, true, ca, i),
            child_immediate(n, true, true, i),
            child_immediate(n, false, true, i),
            child_count(n, true, false, rb, i),
            child_count(n, false, false, cb, i),
            child_immediate(n, true, false, i),
            child_immediate(n, false, false, i),
        );
    }
}

/// Merging keeps what each pass recorded in its own direction.
proof fn lemma_merged_holds(
    r: NeighborTree,
    a: NeighborTree,
    b: NeighborTree,
    n: LayoutNode,
    ahead: bool,
    rows: int,
    cols: int,
    row_flag: bool,
    col_flag: bool,
)
    requires
        merged(r, a, b),
        direction_holds(if ahead { a } else { b }, n, ahead, rows, cols, row_flag, col_flag),
    ensures
        direction_holds(r, n, ahead, rows, cols, row_flag, col_flag),
    decreases r,
{
    assert forall|i: int| 0 <= i < r.children@.len() implies direction_holds(
        #[trigger] r.children@[i],
        n.children@[i],
        ahead,
        child_count(n, true, ahead, rows, i),
        child_count(n, false, ahead, cols, i),
        child_immediate(n, true, ahead, i),
        child_immediate(n, false, ahead, i),
    ) by {
        let x = if ahead { a } else { b };
        assert(x.children@[i] == if ahead { a.children@[i] } else { b.children@[i] });
        lemma_merged_holds(
            r.children@[i],
            a.children@[i],
            b.children@[i],
            n.children@[i],
            ahead,
            child_count(n, true, ahead, rows, i),
            child_count(n, false, ahead, cols, i),
            child_immediate(n, true, ahead, i),
            child_immediate(n, false, ahead, i),
        );
    }
}

/// The tree that takes its counts and flags looking ahead from `a` and those
/// looking behind from `b`.
fn merge(a: &NeighborTree, b: &NeighborTree) -> (r: NeighborTree)
    requires
        same_shape(*a, *b),
    ensures
        merged(r, *a, *b),
    decreases a,
{
    let info = NeighborInfo {
        has_immediate_row_neighbor_ahead: a.info.has_immediate_row_neighbor_ahead,
        has_immediate_row_neighbor_behind: b.info.has_immediate_row_neighbor_behind,
        has_immediate_col_neighbor_ahead: a.info.has_immediate_col_neighbor_ahead,
        has_immediate_col_neighbor_behind: b.info.has_immediate_col_neighbor_behind,
        row_neighbors_ahead: a.info.row_neighbors_ahead,
        row_neighbors_behind: b.info.row_neighbors_behind,
        col_neighbors_ahead: a.info.col_neighbors_ahead,
        col_neighbors_behind: b.info.col_neighbors_behind,
    };
    let mut children: Vec<NeighborTree> = Vec::new();
    let mut i: usize = 0;
    while i < a.children.len()
        invariant
            same_shape(*a, *b),
            0 <= i <= a.children@.len(),
            children@.len() == i,
            forall|j: int|
                0 <= j < i ==> merged(#[trigger] children@[j], a.children@[j], b.children@[j]),
        decreases a.children@.len() - i,
    {
        assert(same_shape(a.children@[i as int], b.children@[i as int]));
        let c = merge(&a.children[i], &b.children[i]);
        children.push(c);
        i = i + 1;
    }
    NeighborTree { info, children }
}

/// The neighbor information of every node of the tree rooted at `root`,
/// found by one pass looking ahead and one looking behind. Defined where the
/// counts fit in `u32`.
pub fn update_neighbor_info(root: &LayoutNode) -> (r: NeighborTree)
    requires
        width(*root, true) <= u32::MAX,
        width(*root, false) <= u32::MAX,
    ensures
        neighbor_tree_of(r, *root),
{
    let (ahead, _, _) = update_rec(root, true, 0, 0, false, false);
    let (behind, _, _) = update_rec(root, false, 0, 0, false, false);
    proof {
        lemma_passes_same_shape(ahead, behind, *root, 0, 0, false, false, 0, 0, false, false);
    }
    let r = merge(&ahead, &behind);
    proof {
        lemma_merged_holds(r, ahead, behind, *root, true, 0, 0, false, false);
        lemma_merged_holds(r, ahead, behind, *root, false, 0, 0, false, false);
    }
    r
}

/// At every node of `t`, looking `ahead` or behind, a direction in which a
/// sibling lies directly next to the node counts at least one neighbor.
pub open spec fn immediate_counted(t: NeighborTree, ahead: bool) -> bool
    decreases t,
{
    &&& (immediate_of(t.info, true, ahead) ==> count_of(t.info, true, ahead) >= 1)
    &&& (immediate_of(t.info, false, ahead) ==> count_of(t.info, false, ahead) >= 1)
    &&& forall|i: int|
        0 <= i < t.children@.len() ==> immediate_counted(#[trigger] t.children@[i], ahead)
}

/// With a step of one, a run of children that is not empty contributes at
/// least one.
proof fn lemma_span_sum_positive(cs: Seq<LayoutNode>, row: bool)
    requires
        cs.len() > 0,
    ensures
        span_sum(cs, row, 1) >= 1,
{
    assert(contribution(cs[cs.len() - 1], row, 1) >= 1);
}

proof fn lemma_immediate_counted(
    t: NeighborTree,
    n: LayoutNode,
    ahead: bool,
    rows: int,
    cols: int,
    row_flag: bool,
    col_flag: bool,
)
    requires
        direction_holds(t, n, ahead, rows, cols, row_flag, col_flag),
        row_flag ==> rows >= 1,
        col_flag ==> cols >= 1,
        rows >= 0,
        cols >= 0,
    ensures
        immediate_counted(t, ahead),
    decreases t,
{
    assert forall|i: int| 0 <= i < t.children@.len() implies immediate_counted(
        #[trigger] t.children@[i],
        ahead,
    ) by {
        let cs = n.children@;
        let sib = siblings_toward(cs, i, ahead);
        if child_immediate(n, true, ahead, i) || child_immediate(n, false, ahead, i) {
            assert(sib.len() > 0);
            assert(step_of(cs.len()) == 1);
            lemma_span_sum_positive(sib, n.is_row);
        }
        lemma_immediate_counted(
            t.children@[i],
            n.children@[i],
            ahead,
            child_count(n, true, ahead, rows, i),
            child_count(n, false, ahead, cols, i),
            child_immediate(n, true, ahead, i),
            child_immediate(n, false, ahead, i),
        );
    }
}

/// A node that has a sibling directly next to it in some direction is never
/// counted as lying at the edge in that direction: its count there is at
/// least one. This holds at every node of the tree, in both directions.
pub proof fn law_immediate_neighbors_are_counted(t: NeighborTree, root: LayoutNode)
    requires
        neighbor_tree_of(t, root),
    ensures
        immediate_counted(t, true),
        immediate_counted(t, false),
{
    lemma_immediate_counted(t, root, true, 0, 0, false, false);
    lemma_immediate_counted(t, root, false, 0, 0, false, false);
}

} // verus!
