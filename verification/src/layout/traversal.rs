//! The order in which the tiles of a layout tree take windows.
//!
//! Windows are handed to the leaves of the tree one pass at a time. Each pass
//! walks down from the root: at each node the children are tried in the
//! order of their traversal index, except that a traversal override (chosen
//! by how many windows the node has taken so far) may put one child first;
//! the first leaf reached that has no window yet takes the next one.
//!
//! Nodes are numbered in preorder: a node, then each of its children's
//! subtrees in turn.
use vstd::prelude::*;

use crate::layout::LayoutNode;

verus! {

broadcast use vstd::std_specs::hash::group_hash_axioms;

/// The number of nodes in the subtree at `n`.
pub open spec fn size(n: LayoutNode) -> nat
    decreases n, 1nat,
{
    1 + sizes(n.children@)
}

/// The number of nodes in the subtrees at `cs`.
pub open spec fn sizes(cs: Seq<LayoutNode>) -> nat
    decreases cs, 0nat,
{
    if cs.len() == 0 {
        0
    } else {
        sizes(cs.subrange(0, cs.len() - 1)) + size(cs[cs.len() - 1])
    }
}

/// The number of child `i` of a node numbered `base`.
pub open spec fn child_base(n: LayoutNode, base: int, i: int) -> int {
    base + 1 + sizes(n.children@.subrange(0, i))
}

/// The children's positions sorted by traversal index: the place where a
/// stable insertion puts child `c` among the sorted positions `s`.
pub open spec fn ins_pos(cs: Seq<LayoutNode>, s: Seq<int>, c: int) -> int
    decreases s.len(),
{
    if s.len() == 0 {
        0
    } else if cs[s.last()].traversal_index <= cs[c].traversal_index {
        s.len() as int
    } else {
        ins_pos(cs, s.drop_last(), c)
    }
}

/// The first `m` children's positions, stably sorted by traversal index.
pub open spec fn sorted_prefix(cs: Seq<LayoutNode>, m: int) -> Seq<int>
    decreases m,
{
    if m <= 0 {
        Seq::empty()
    } else {
        let s = sorted_prefix(cs, m - 1);
        s.insert(ins_pos(cs, s, m - 1), m - 1)
    }
}

/// The order in which a node tries its children: by traversal index, with
/// the one at place `first` (where there is such a place) moved to the front.
pub open spec fn visit_order(cs: Seq<LayoutNode>, first: Option<u32>) -> Seq<int> {
    let s = sorted_prefix(cs, cs.len() as int);
    match first {
        Some(i) => if i < s.len() {
            seq![s[i as int]] + s.remove(i as int)
        } else {
            s
        },
        None => s,
    }
}

/// The overrides a node has for its `counter`-th window, if any.
pub open spec fn own_overrides(n: LayoutNode, counter: u32) -> Seq<u32> {
    if n.traversal_overrides@.contains_key(counter) {
        n.traversal_overrides@[counter]@
    } else {
        Seq::empty()
    }
}

/// What the walk keeps: for each node, how many windows it has handed down;
/// for each leaf, whether it has a window; and the leaves in the order they
/// took windows.
pub struct TraversalState {
    pub counters: Seq<u32>,
    pub assigned: Seq<bool>,
    pub order: Seq<usize>,
}

/// One pass over the subtree at `n`, numbered from `base`, handed the
/// overrides `passed` by its parent: whether a leaf took a window, and the
/// state afterwards. A node's own overrides for its current count win where
/// it has any; the first override picks the child tried first, and the rest
/// are handed down.
pub open spec fn pass(n: LayoutNode, base: int, st: TraversalState, passed: Seq<u32>) -> (bool, TraversalState)
    decreases n, n.children@.len() + 1,
{
    if n.children@.len() == 0 {
        if st.assigned[base] {
            (false, st)
        } else {
            (
                true,
                TraversalState {
                    assigned: st.assigned.update(base, true),
                    order: st.order.push(base as usize),
                    ..st
                },
            )
        }
    } else {
        let own = own_overrides(n, st.counters[base]);
        let ov = if own.len() > 0 { own } else { passed };
        let first = if ov.len() > 0 { Some(ov[0]) } else { None };
        let rest = if ov.len() > 0 { ov.drop_first() } else { Seq::empty() };
        let order = visit_order(n.children@, first);
        let r = pass_children(n, base, order, 0, st, rest);
        if r.0 {
            (
                true,
                TraversalState {
                    counters: r.1.counters.update(base, (r.1.counters[base] + 1) as u32),
                    ..r.1
                },
            )
        } else {
            r
        }
    }
}

/// Tries the children of `n` in `order`, from the `j`-th on, until one of
/// their subtrees hands out a window.
pub open spec fn pass_children(
    n: LayoutNode,
    base: int,
    order: Seq<int>,
    j: int,
    st: TraversalState,
    rest: Seq<u32>,
) -> (bool, TraversalState)
    decreases n, n.children@.len() - j,
{
    if j < 0 || j >= order.len() || j >= n.children@.len() {
        (false, st)
    } else {
        let c = order[j];
        if 0 <= c < n.children@.len() {
            let r = pass(n.children@[c], child_base(n, base, c), st, rest);
            if r.0 {
                r
            } else {
                pass_children(n, base, order, j + 1, r.1, rest)
            }
        } else {
            pass_children(n, base, order, j + 1, st, rest)
        }
    }
}

/// The state before the first pass, for a tree of `total` nodes.
pub open spec fn initial_state(total: nat) -> TraversalState {
    TraversalState {
        counters: Seq::new(total, |i: int| 0u32),
        assigned: Seq::new(total, |i: int| false),
        order: Seq::empty(),
    }
}

/// Passes over the tree at `root` until one hands out no window (or `fuel`
/// runs out). The root's overrides are looked up by `top`, which grows by
/// two with each pass that hands out a window.
pub open spec fn run(root: LayoutNode, st: TraversalState, top: u32, fuel: nat) -> TraversalState
    decreases fuel,
{
    if fuel == 0 {
        st
    } else {
        let r = pass(root, 0, st, own_overrides(root, top));
        if !r.0 {
            r.1
        } else {
            run(root, r.1, (top + 2) as u32, (fuel - 1) as nat)
        }
    }
}

/// The leaves of the tree at `root` (by number), in the order they take
/// windows.
pub open spec fn spec_traversal_order(root: LayoutNode) -> Seq<usize> {
    run(root, initial_state(size(root)), 0, size(root) + 1).order
}

/// The number of entries that are `false`.
pub open spec fn count_false(s: Seq<bool>) -> nat
    decreases s.len(),
{
    if s.len() == 0 {
        0
    } else {
        count_false(s.drop_last()) + if s.last() { 0nat } else { 1nat }
    }
}

proof fn lemma_count_false_update(s: Seq<bool>, x: int)
    requires
        0 <= x < s.len(),
        !s[x],
    ensures
        count_false(s.update(x, true)) + 1 == count_false(s),
    decreases s.len(),
{
    let t = s.update(x, true);
    if x == s.len() - 1 {
        assert(t.drop_last() =~= s.drop_last());
    } else {
        assert(t.drop_last() =~= s.drop_last().update(x, true));
        lemma_count_false_update(s.drop_last(), x);
    }
}

proof fn lemma_count_false_bound(s: Seq<bool>)
    ensures
        count_false(s) <= s.len(),
    decreases s.len(),
{
    if s.len() > 0 {
        lemma_count_false_bound(s.drop_last());
    }
}

proof fn lemma_count_false_all(n: nat)
    ensures
        count_false(Seq::new(n, |i: int| false)) == n,
    decreases n,
{
    if n > 0 {
        assert(Seq::new(n, |i: int| false).drop_last() =~= Seq::new((n - 1) as nat, |i: int| false));
        lemma_count_false_all((n - 1) as nat);
    }
}

/// A longer run of children holds at least as many nodes.
proof fn lemma_sizes_prefix(cs: Seq<LayoutNode>, i: int, j: int)
    requires
        0 <= i <= j <= cs.len(),
    ensures
        sizes(cs.subrange(0, i)) <= sizes(cs.subrange(0, j)),
        j == i + 1 ==> sizes(cs.subrange(0, j)) == sizes(cs.subrange(0, i)) + size(cs[i]),
    decreases j - i,
{
    if i < j {
        let sj = cs.subrange(0, j);
        assert(sj.subrange(0, j - 1) =~= cs.subrange(0, j - 1));
        assert(sj[j - 1] == cs[j - 1]);
        lemma_sizes_prefix(cs, i, j - 1);
    }
    assert(cs.subrange(0, cs.len() as int) =~= cs);
}

/// Each child's subtree lies inside its parent's, after the parent and
/// after the subtrees of the children before it.
proof fn lemma_child_range(n: LayoutNode, base: int, i: int)
    requires
        0 <= i < n.children@.len(),
    ensures
        base + 1 <= child_base(n, base, i),
        child_base(n, base, i) + size(n.children@[i]) == child_base(n, base, i + 1),
        child_base(n, base, i + 1) <= base + size(n),
{
    let cs = n.children@;
    lemma_sizes_prefix(cs, i, i + 1);
    lemma_sizes_prefix(cs, i + 1, cs.len() as int);
    assert(cs.subrange(0, cs.len() as int) =~= cs);
}

/// Two different children's subtrees do not overlap.
proof fn lemma_children_disjoint(n: LayoutNode, base: int, a: int, b: int)
    requires
        0 <= a < b < n.children@.len(),
    ensures
        child_base(n, base, a) + size(n.children@[a]) <= child_base(n, base, b),
{
    lemma_child_range(n, base, a);
    lemma_sizes_prefix(n.children@, a + 1, b);
}

/// A state fits a tree of at least `end` nodes, and no counter is at its
/// largest value.
pub open spec fn state_fits(st: TraversalState, end: int) -> bool {
    &&& st.counters.len() == st.assigned.len()
    &&& end <= st.counters.len()
    &&& forall|y: int| 0 <= y < st.counters.len() ==> st.counters[y] < u32::MAX
}

/// What a pass over nodes `lo..hi` may do to the state: a pass that hands
/// out no window changes nothing; one that does gives one leaf of the range
/// without a window a window, appends it to the order, and raises some
/// counters of the range by one.
pub open spec fn pass_effect(st: TraversalState, r: (bool, TraversalState), lo: int, hi: int) -> bool {
    &&& r.1.counters.len() == st.counters.len()
    &&& r.1.assigned.len() == st.assigned.len()
    &&& (!r.0 ==> r.1 == st)
    &&& (r.0 ==> exists|x: int|
        lo <= x < hi && !st.assigned[x] && r.1.assigned == st.assigned.update(x, true) && r.1.order
            == st.order.push(x as usize))
    &&& forall|y: int|
        0 <= y < st.counters.len() && !(lo <= y < hi) ==> #[trigger] r.1.counters[y] == st.counters[y]
    &&& forall|y: int|
        0 <= y < st.counters.len() ==> #[trigger] r.1.counters[y] == st.counters[y]
            || r.1.counters[y] == st.counters[y] + 1
}

proof fn lemma_pass_effect(n: LayoutNode, base: int, st: TraversalState, passed: Seq<u32>)
    requires
        0 <= base,
        state_fits(st, base + size(n)),
    ensures
        pass_effect(st, pass(n, base, st, passed), base, base + size(n)),
    decreases n, n.children@.len() + 1,
{
    if n.children@.len() == 0 {
        let r = pass(n, base, st, passed);
        if r.0 {
            assert(r.1.assigned == st.assigned.update(base, true));
        }
    } else {
        let own = own_overrides(n, st.counters[base]);
        let ov = if own.len() > 0 { own } else { passed };
        let first = if ov.len() > 0 { Some(ov[0]) } else { None };
        let rest = if ov.len() > 0 { ov.drop_first() } else { Seq::empty() };
        let order = visit_order(n.children@, first);
        lemma_pass_children_effect(n, base, order, 0, st, rest);
        let r = pass_children(n, base, order, 0, st, rest);
        if r.0 {
            let x = choose|x: int|
                base + 1 <= x < base + size(n) && !st.assigned[x] && r.1.assigned == st.assigned.update(
                    x,
                    true,
                ) && r.1.order == st.order.push(x as usize);
            let q = pass(n, base, st, passed);
            assert(q.1.assigned == r.1.assigned);
            assert(q.1.order == r.1.order);
            assert(base <= x < base + size(n));
            assert forall|y: int|
                0 <= y < st.counters.len() && !(base <= y < base + size(n)) implies #[trigger] q.1.counters[y]
                == st.counters[y] by {
                assert(q.1.counters[y] == r.1.counters[y]);
            }
            assert forall|y: int| 0 <= y < st.counters.len() implies #[trigger] q.1.counters[y]
                == st.counters[y] || q.1.counters[y] == st.counters[y] + 1 by {
                if y != base {
                    assert(q.1.counters[y] == r.1.counters[y]);
                } else {
                    assert(r.1.counters[base] == st.counters[base]);
                }
            }
        }
    }
}

proof fn lemma_pass_children_effect(
    n: LayoutNode,
    base: int,
    order: Seq<int>,
    j: int,
    st: TraversalState,
    rest: Seq<u32>,
)
    requires
        0 <= base,
        state_fits(st, base + size(n)),
    ensures
        pass_effect(st, pass_children(n, base, order, j, st, rest), base + 1, base + size(n)),
    decreases n, n.children@.len() - j,
{
    if j < 0 || j >= order.len() || j >= n.children@.len() {
    } else {
        let c = order[j];
        if 0 <= c < n.children@.len() {
            lemma_child_range(n, base, c);
            let cb = child_base(n, base, c);
            lemma_pass_effect(n.children@[c], cb, st, rest);
            let r = pass(n.children@[c], cb, st, rest);
            if !r.0 {
                lemma_pass_children_effect(n, base, order, j + 1, st, rest);
            }
        } else {
            lemma_pass_children_effect(n, base, order, j + 1, st, rest);
        }
    }
}

/// Node `x` is a leaf of the subtree at `n`, numbered from `base`.
pub open spec fn is_leaf_at(n: LayoutNode, base: int, x: int) -> bool
    decreases n, n.children@.len() + 1,
{
    if n.children@.len() == 0 {
        x == base
    } else {
        is_leaf_in(n, base, 0, x)
    }
}

/// Node `x` is a leaf of the subtree of one of the children of `n` from the
/// `j`-th on.
pub open spec fn is_leaf_in(n: LayoutNode, base: int, j: int, x: int) -> bool
    decreases n, n.children@.len() - j,
{
    if j < 0 || j >= n.children@.len() {
        false
    } else {
        is_leaf_at(n.children@[j], child_base(n, base, j), x) || is_leaf_in(n, base, j + 1, x)
    }
}

/// A leaf of a child's subtree is a leaf of the children from any earlier
/// one on.
proof fn lemma_leaf_in_intro(n: LayoutNode, base: int, j: int, i: int, x: int)
    requires
        0 <= j <= i < n.children@.len(),
        is_leaf_at(n.children@[i], child_base(n, base, i), x),
    ensures
        is_leaf_in(n, base, j, x),
    decreases i - j,
{
    if j < i {
        lemma_leaf_in_intro(n, base, j + 1, i, x);
    }
}

/// A leaf of the children from the `j`-th on is a leaf of one of them.
proof fn lemma_leaf_in_witness(n: LayoutNode, base: int, j: int, x: int) -> (i: int)
    requires
        is_leaf_in(n, base, j, x),
    ensures
        j <= i < n.children@.len(),
        0 <= i,
        is_leaf_at(n.children@[i], child_base(n, base, i), x),
    decreases n.children@.len() - j,
{
    if is_leaf_at(n.children@[j], child_base(n, base, j), x) {
        j
    } else {
        lemma_leaf_in_witness(n, base, j + 1, x)
    }
}

proof fn lemma_leaf_range(n: LayoutNode, base: int, x: int)
    requires
        is_leaf_at(n, base, x),
    ensures
        base <= x < base + size(n),
    decreases n,
{
    if n.children@.len() > 0 {
        let i = lemma_leaf_in_witness(n, base, 0, x);
        lemma_leaf_range(n.children@[i], child_base(n, base, i), x);
        lemma_child_range(n, base, i);
    }
}

proof fn lemma_ins_pos_bounds(cs: Seq<LayoutNode>, s: Seq<int>, c: int)
    ensures
        0 <= ins_pos(cs, s, c) <= s.len(),
    decreases s.len(),
{
    if s.len() > 0 {
        lemma_ins_pos_bounds(cs, s.drop_last(), c);
    }
}

proof fn lemma_sorted_prefix_complete(cs: Seq<LayoutNode>, m: int)
    requires
        0 <= m,
    ensures
        sorted_prefix(cs, m).len() == m,
        forall|i: int| 0 <= i < m ==> #[trigger] sorted_prefix(cs, m).contains(i),
    decreases m,
{
    if m > 0 {
        let s = sorted_prefix(cs, m - 1);
        lemma_sorted_prefix_complete(cs, m - 1);
        let p = ins_pos(cs, s, m - 1);
        lemma_ins_pos_bounds(cs, s, m - 1);
        let t = s.insert(p, m - 1);
        assert forall|i: int| 0 <= i < m implies #[trigger] t.contains(i) by {
            if i == m - 1 {
                assert(t[p] == m - 1);
            } else {
                assert(s.contains(i));
                let k = choose|k: int| 0 <= k < s.len() && s[k] == i;
                if k < p {
                    assert(t[k] == i);
                } else {
                    assert(t[k + 1] == i);
                }
            }
        }
    }
}

/// A node tries every one of its children.
proof fn lemma_visit_order_complete(cs: Seq<LayoutNode>, first: Option<u32>)
    ensures
        visit_order(cs, first).len() == cs.len(),
        forall|i: int| 0 <= i < cs.len() ==> #[trigger] visit_order(cs, first).contains(i),
{
    let s = sorted_prefix(cs, cs.len() as int);
    lemma_sorted_prefix_complete(cs, cs.len() as int);
    if let Some(f) = first {
        if f < s.len() {
            let t = seq![s[f as int]] + s.remove(f as int);
            assert forall|i: int| 0 <= i < cs.len() implies #[trigger] t.contains(i) by {
                assert(s.contains(i));
                let k = choose|k: int| 0 <= k < s.len() && s[k] == i;
                if k == f {
                    assert(t[0] == i);
                } else if k < f {
                    assert(t[k + 1] == i);
                } else {
                    assert(t[k] == i);
                }
            }
        }
    }
}

/// A pass that hands out a window hands it to a leaf of its subtree, the
/// one it appends to the order.
proof fn lemma_pass_leaf(n: LayoutNode, base: int, st: TraversalState, passed: Seq<u32>)
    requires
        0 <= base,
        state_fits(st, base + size(n)),
        st.counters.len() <= usize::MAX,
        pass(n, base, st, passed).0,
    ensures
        ({
            let r = pass(n, base, st, passed);
            &&& r.1.order.len() == st.order.len() + 1
            &&& is_leaf_at(n, base, r.1.order.last() as int)
        }),
    decreases n, n.children@.len() + 1,
{
    lemma_pass_effect(n, base, st, passed);
    if n.children@.len() > 0 {
        let own = own_overrides(n, st.counters[base]);
        let ov = if own.len() > 0 { own } else { passed };
        let first = if ov.len() > 0 { Some(ov[0]) } else { None };
        let rest = if ov.len() > 0 { ov.drop_first() } else { Seq::empty() };
        let order = visit_order(n.children@, first);
        lemma_pass_children_leaf(n, base, order, 0, st, rest);
    } else {
        let r = pass(n, base, st, passed);
        assert(r.1.order.last() == base as usize);
    }
}

proof fn lemma_pass_children_leaf(
    n: LayoutNode,
    base: int,
    order: Seq<int>,
    j: int,
    st: TraversalState,
    rest: Seq<u32>,
)
    requires
        0 <= base,
        state_fits(st, base + size(n)),
        st.counters.len() <= usize::MAX,
        pass_children(n, base, order, j, st, rest).0,
    ensures
        ({
            let r = pass_children(n, base, order, j, st, rest);
            &&& r.1.order.len() == st.order.len() + 1
            &&& is_leaf_at(n, base, r.1.order.last() as int)
        }),
    decreases n, n.children@.len() - j,
{
    let c = order[j];
    if 0 <= c < n.children@.len() {
        lemma_child_range(n, base, c);
        let cb = child_base(n, base, c);
        lemma_pass_effect(n.children@[c], cb, st, rest);
        let r = pass(n.children@[c], cb, st, rest);
        if r.0 {
            lemma_pass_leaf(n.children@[c], cb, st, rest);
            assert(is_leaf_at(n.children@[c], child_base(n, base, c), r.1.order.last() as int));
            lemma_leaf_in_intro(n, base, 0, c, r.1.order.last() as int);
        } else {
            lemma_pass_children_leaf(n, base, order, j + 1, st, rest);
        }
    } else {
        lemma_pass_children_leaf(n, base, order, j + 1, st, rest);
    }
}

/// A pass that hands out no window finds every leaf of its subtree with a
/// window already.
proof fn lemma_pass_complete(n: LayoutNode, base: int, st: TraversalState, passed: Seq<u32>)
    requires
        0 <= base,
        state_fits(st, base + size(n)),
        !pass(n, base, st, passed).0,
    ensures
        forall|x: int| #[trigger] is_leaf_at(n, base, x) ==> st.assigned[x],
    decreases n, n.children@.len() + 1,
{
    if n.children@.len() > 0 {
        let own = own_overrides(n, st.counters[base]);
        let ov = if own.len() > 0 { own } else { passed };
        let first = if ov.len() > 0 { Some(ov[0]) } else { None };
        let rest = if ov.len() > 0 { ov.drop_first() } else { Seq::empty() };
        let order = visit_order(n.children@, first);
        lemma_visit_order_complete(n.children@, first);
        lemma_pass_children_complete(n, base, order, 0, st, rest);
        assert forall|x: int| #[trigger] is_leaf_at(n, base, x) implies st.assigned[x] by {
            let i = lemma_leaf_in_witness(n, base, 0, x);
            assert(order.contains(i));
            let k = choose|k: int| 0 <= k < order.len() && order[k] == i;
            assert(is_leaf_at(n.children@[order[k]], child_base(n, base, order[k]), x));
        }
    }
}

proof fn lemma_pass_children_complete(
    n: LayoutNode,
    base: int,
    order: Seq<int>,
    j: int,
    st: TraversalState,
    rest: Seq<u32>,
)
    requires
        0 <= base,
        0 <= j,
        state_fits(st, base + size(n)),
        !pass_children(n, base, order, j, st, rest).0,
        order.len() == n.children@.len(),
    ensures
        forall|k: int, x: int|
            j <= k < order.len() && 0 <= order[k] < n.children@.len() && #[trigger] is_leaf_at(
                n.children@[order[k]],
                child_base(n, base, order[k]),
                x,
            ) ==> st.assigned[x],
    decreases n, n.children@.len() - j,
{
    if j < order.len() {
        let c = order[j];
        if 0 <= c < n.children@.len() {
            lemma_child_range(n, base, c);
            let cb = child_base(n, base, c);
            lemma_pass_effect(n.children@[c], cb, st, rest);
            let r = pass(n.children@[c], cb, st, rest);
            assert(!r.0);
            lemma_pass_complete(n.children@[c], cb, st, rest);
            lemma_pass_children_complete(n, base, order, j + 1, st, rest);
        } else {
            lemma_pass_children_complete(n, base, order, j + 1, st, rest);
        }
    }
}

/// What holds after any number of passes over the tree at `root`: the
/// windows handed out went to distinct leaves, which are marked, and only
/// those are marked; no counter has grown past the passes made.
pub open spec fn run_inv(root: LayoutNode, st: TraversalState) -> bool {
    &&& st.counters.len() == size(root)
    &&& st.assigned.len() == size(root)
    &&& st.order.no_duplicates()
    &&& forall|k: int|
        0 <= k < st.order.len() ==> is_leaf_at(root, 0, #[trigger] st.order[k] as int)
            && st.assigned[st.order[k] as int]
    &&& forall|x: int| 0 <= x < size(root) && #[trigger] st.assigned[x] ==> st.order.contains(x as usize)
    &&& forall|y: int|
        0 <= y < st.counters.len() ==> #[trigger] st.counters[y] + count_false(st.assigned) <= size(root)
}

proof fn lemma_run(root: LayoutNode, st: TraversalState, top: u32, fuel: nat)
    requires
        2 * size(root) + 2 <= u32::MAX,
        run_inv(root, st),
        count_false(st.assigned) < fuel,
    ensures
        run_inv(root, run(root, st, top, fuel)),
        forall|x: int| #[trigger] is_leaf_at(root, 0, x) ==> run(root, st, top, fuel).assigned[x],
    decreases fuel,
{
    let passed = own_overrides(root, top);
    let r = pass(root, 0, st, passed);
    lemma_count_false_bound(st.assigned);
    assert(state_fits(st, size(root) as int));
    lemma_pass_effect(root, 0, st, passed);
    if !r.0 {
        lemma_pass_complete(root, 0, st, passed);
    } else {
        lemma_pass_leaf(root, 0, st, passed);
        let x = choose|x: int|
            0 <= x < size(root) && !st.assigned[x] && r.1.assigned == st.assigned.update(x, true)
                && r.1.order == st.order.push(x as usize);
        lemma_count_false_update(st.assigned, x);
        assert(r.1.order.last() == x as usize);
        assert(!st.order.contains(x as usize)) by {
            if st.order.contains(x as usize) {
                let k = choose|k: int| 0 <= k < st.order.len() && st.order[k] == x as usize;
                assert(st.assigned[st.order[k] as int]);
            }
        }
        let t = r.1;
        assert(t.order.no_duplicates()) by {
            assert forall|a: int, b: int| 0 <= a < t.order.len() && 0 <= b < t.order.len() && a != b implies t.order[a]
                != t.order[b] by {
                if a == st.order.len() {
                    assert(st.order.contains(t.order[b]));
                } else if b == st.order.len() {
                    assert(st.order.contains(t.order[a]));
                } else {
                    assert(t.order[a] == st.order[a] && t.order[b] == st.order[b]);
                }
            }
        }
        assert forall|k: int| 0 <= k < t.order.len() implies is_leaf_at(root, 0, #[trigger] t.order[k] as int)
            && t.assigned[t.order[k] as int] by {
            if k < st.order.len() {
                assert(t.order[k] == st.order[k]);
                lemma_leaf_range(root, 0, st.order[k] as int);
            }
        }
        assert forall|y: int| 0 <= y < size(root) && #[trigger] t.assigned[y] implies t.order.contains(
            y as usize,
        ) by {
            if y == x {
                assert(t.order[st.order.len() as int] == x as usize);
            } else {
                assert(st.assigned[y]);
                let k = choose|k: int| 0 <= k < st.order.len() && st.order[k] == y as usize;
                assert(t.order[k] == y as usize);
            }
        }
        lemma_run(root, t, (top + 2) as u32, (fuel - 1) as nat);
    }
}

/// Every leaf of a layout tree takes exactly one window: the order in which
/// leaves take windows holds each leaf once and nothing else.
pub proof fn law_every_leaf_takes_one_window(root: LayoutNode)
    requires
        2 * size(root) + 2 <= u32::MAX,
    ensures
        spec_traversal_order(root).no_duplicates(),
        forall|k: int|
            0 <= k < spec_traversal_order(root).len() ==> is_leaf_at(
                root,
                0,
                #[trigger] spec_traversal_order(root)[k] as int,
            ),
        forall|x: int| #[trigger] is_leaf_at(root, 0, x) ==> spec_traversal_order(root).contains(x as usize),
{
    let total = size(root);
    let st = initial_state(total);
    lemma_count_false_all(total);
    assert(st.assigned =~= Seq::new(total, |i: int| false));
    lemma_run(root, st, 0, total + 1);
    let fin = run(root, st, 0, total + 1);
    assert forall|x: int| #[trigger] is_leaf_at(root, 0, x) implies fin.order.contains(x as usize) by {
        lemma_leaf_range(root, 0, x);
    }
}

/// The number of nodes in the subtree at `n`.
fn subtree_size(n: &LayoutNode) -> (r: usize)
    requires
        size(*n) <= usize::MAX,
    ensures
        r == size(*n),
    decreases n,
{
    let mut total: usize = 1;
    let mut i: usize = 0;
    proof {
        assert(n.children@.subrange(0, 0).len() == 0);
        lemma_sizes_prefix(n.children@, 0, n.children@.len() as int);
    }
    while i < n.children.len()
        invariant
            0 <= i <= n.children@.len(),
            size(*n) <= usize::MAX,
            total == 1 + sizes(n.children@.subrange(0, i as int)),
        decreases n.children@.len() - i,
    {
        proof {
            lemma_sizes_prefix(n.children@, i as int, i as int + 1);
            lemma_sizes_prefix(n.children@, i as int + 1, n.children@.len() as int);
            assert(n.children@.subrange(0, n.children@.len() as int) =~= n.children@);
            assert(size(n.children@[i as int]) <= usize::MAX);
        }
        let child_size = subtree_size(&n.children[i]);
        total = total + child_size;
        i = i + 1;
    }
    proof {
        assert(n.children@.subrange(0, i as int) =~= n.children@);
    }
    total
}

/// The children's positions as integers.
pub open spec fn positions(v: Seq<usize>) -> Seq<int> {
    v.map_values(|x: usize| x as int)
}

/// The place where a stable insertion puts child `c` among `s`.
fn insertion_place(cs: &Vec<LayoutNode>, s: &Vec<usize>, c: usize) -> (r: usize)
    requires
        c < cs@.len(),
        forall|k: int| 0 <= k < s@.len() ==> s@[k] < cs@.len(),
    ensures
        r == ins_pos(cs@, positions(s@), c as int),
        r <= s@.len(),
{
    let key = cs[c].traversal_index;
    let mut p = s.len();
    proof {
        assert(s@.subrange(0, p as int) =~= s@);
    }
    while p > 0 && cs[s[p - 1]].traversal_index > key
        invariant
            0 <= p <= s@.len(),
            c < cs@.len(),
            key == cs@[c as int].traversal_index,
            forall|k: int| 0 <= k < s@.len() ==> s@[k] < cs@.len(),
            ins_pos(cs@, positions(s@), c as int) == ins_pos(
                cs@,
                positions(s@.subrange(0, p as int)),
                c as int,
            ),
        decreases p,
    {
        proof {
            let q = positions(s@.subrange(0, p as int));
            assert(q.drop_last() =~= positions(s@.subrange(0, p as int - 1)));
            assert(q.last() == s@[p as int - 1] as int);
        }
        p = p - 1;
    }
    proof {
        let q = positions(s@.subrange(0, p as int));
        if p > 0 {
            assert(q.last() == s@[p as int - 1] as int);
        }
        assert(positions(s@.subrange(0, s@.len() as int)) =~= positions(s@));
    }
    p
}

/// The children's positions stably sorted by traversal index.
fn sorted_children(cs: &Vec<LayoutNode>) -> (r: Vec<usize>)
    ensures
        positions(r@) == sorted_prefix(cs@, cs@.len() as int),
        r@.len() == cs@.len(),
        forall|k: int| 0 <= k < r@.len() ==> r@[k] < cs@.len(),
{
    let mut s: Vec<usize> = Vec::new();
    let mut m: usize = 0;
    while m < cs.len()
        invariant
            0 <= m <= cs@.len(),
            positions(s@) == sorted_prefix(cs@, m as int),
            s@.len() == m,
            forall|k: int| 0 <= k < s@.len() ==> s@[k] < m,
        decreases cs@.len() - m,
    {
        let p = insertion_place(cs, &s, m);
        let ghost before = s@;
        s.insert(p, m);
        proof {
            assert(positions(s@) =~= positions(before).insert(p as int, m as int));
            assert forall|k: int| 0 <= k < s@.len() implies s@[k] < m + 1 by {
                if k < p {
                    assert(s@[k] == before[k]);
                } else if k > p {
                    assert(s@[k] == before[k - 1]);
                }
            }
        }
        m = m + 1;
    }
    s
}

/// The order in which a node tries its children.
fn children_visit_order(cs: &Vec<LayoutNode>, first: Option<u32>) -> (r: Vec<usize>)
    ensures
        positions(r@) == visit_order(cs@, first),
        r@.len() == cs@.len(),
        forall|k: int| 0 <= k < r@.len() ==> r@[k] < cs@.len(),
{
    let mut s = sorted_children(cs);
    if let Some(i) = first {
        let i = i as usize;
        if i < s.len() {
            let ghost before = s@;
            let child = s.remove(i);
            s.insert(0, child);
            proof {
                assert(positions(s@) =~= seq![positions(before)[i as int]] + positions(before).remove(
                    i as int,
                ));
                assert forall|k: int| 0 <= k < s@.len() implies s@[k] < cs@.len() by {
                    if k == 0 {
                        assert(s@[0] == before[i as int]);
                    } else if k - 1 < i {
                        assert(s@[k] == before[k - 1]);
                    } else {
                        assert(s@[k] == before[k]);
                    }
                }
            }
        }
    }
    s
}

/// The state held in the three vectors.
pub open spec fn state_of(counters: Seq<u32>, assigned: Seq<bool>, order: Seq<usize>) -> TraversalState {
    TraversalState { counters, assigned, order }
}

/// The overrides a node hands on after using the first.
fn rest_of(ov: &Vec<u32>) -> (r: Vec<u32>)
    ensures
        ov@.len() > 0 ==> r@ == ov@.drop_first(),
        ov@.len() == 0 ==> r@ == Seq::<u32>::empty(),
{
    let mut r: Vec<u32> = Vec::new();
    let mut i: usize = 1;
    while i < ov.len()
        invariant
            1 <= i,
            ov@.len() > 0 ==> i <= ov@.len(),
            ov@.len() > 0 ==> r@ == ov@.subrange(1, i as int),
            ov@.len() == 0 ==> r@ == Seq::<u32>::empty(),
        decreases ov@.len() - i,
    {
        r.push(ov[i]);
        proof {
            assert(r@ =~= ov@.subrange(1, i as int + 1));
        }
        i = i + 1;
    }
    proof {
        if ov@.len() > 0 {
            assert(ov@.subrange(1, i as int) =~= ov@.drop_first());
        }
    }
    r
}

/// The numbers of the children of a node numbered `base`.
fn child_bases(n: &LayoutNode, base: usize) -> (r: Vec<usize>)
    requires
        base + size(*n) <= usize::MAX,
    ensures
        r@.len() == n.children@.len(),
        forall|i: int| 0 <= i < r@.len() ==> r@[i] == child_base(*n, base as int, i),
{
    let mut r: Vec<usize> = Vec::new();
    let mut next: usize = base + 1;
    let mut i: usize = 0;
    proof {
        assert(n.children@.subrange(0, 0).len() == 0);
    }
    while i < n.children.len()
        invariant
            0 <= i <= n.children@.len(),
            base + size(*n) <= usize::MAX,
            next == child_base(*n, base as int, i as int),
            r@.len() == i,
            forall|k: int| 0 <= k < i ==> r@[k] == child_base(*n, base as int, k),
        decreases n.children@.len() - i,
    {
        proof {
            lemma_child_range(*n, base as int, i as int);
        }
        r.push(next);
        let child_size = subtree_size(&n.children[i]);
        next = next + child_size;
        i = i + 1;
    }
    r
}

/// One pass over the subtree at `n`, numbered from `base`, on the state in
/// the three vectors; returns whether a leaf took a window.
fn pass_exec(
    n: &LayoutNode,
    base: usize,
    counters: &mut Vec<u32>,
    assigned: &mut Vec<bool>,
    order: &mut Vec<usize>,
    passed: &Vec<u32>,
) -> (found: bool)
    requires
        state_fits(state_of(old(counters)@, old(assigned)@, old(order)@), base + size(*n)),
    ensures
        (found, state_of(final(counters)@, final(assigned)@, final(order)@)) == pass(
            *n,
            base as int,
            state_of(old(counters)@, old(assigned)@, old(order)@),
            passed@,
        ),
    decreases n,
{
    let ghost st0 = state_of(counters@, assigned@, order@);
    let total_len = counters.len();
    proof {
        lemma_pass_effect(*n, base as int, st0, passed@);
        assert(counters@.len() == total_len);
    }
    if n.children.len() == 0 {
        if assigned[base] {
            return false;
        }
        assigned.set(base, true);
        order.push(base);
        return true;
    }
    let own = n.traversal_overrides.get(&counters[base]);
    let own_nonempty = match own {
        Some(v) => v.len() > 0,
        None => false,
    };
    let ov: &Vec<u32> = if own_nonempty {
        own.unwrap()
    } else {
        passed
    };
    proof {
        assert(own_overrides(*n, counters@[base as int]).len() > 0 <==> own_nonempty);
        if own_nonempty {
            assert(ov@ == own_overrides(*n, counters@[base as int]));
        }
    }
    let first = if ov.len() > 0 {
        Some(ov[0])
    } else {
        None
    };
    let rest = rest_of(ov);
    let visit = children_visit_order(&n.children, first);
    let bases = child_bases(n, base);
    let ghost order_spec = visit_order(n.children@, first);
    proof {
        lemma_pass_children_effect(*n, base as int, order_spec, 0, st0, rest@);
    }
    let mut j: usize = 0;
    while j < visit.len()
        invariant
            0 <= j <= visit@.len(),
            visit@.len() == n.children@.len(),
            positions(visit@) == order_spec,
            forall|k: int| 0 <= k < visit@.len() ==> visit@[k] < n.children@.len(),
            bases@.len() == n.children@.len(),
            forall|i: int| 0 <= i < bases@.len() ==> bases@[i] == child_base(*n, base as int, i),
            st0 == state_of(counters@, assigned@, order@),
            st0 == state_of(old(counters)@, old(assigned)@, old(order)@),
            state_fits(st0, base + size(*n)),
            ov@ == (if own_overrides(*n, st0.counters[base as int]).len() > 0 {
                own_overrides(*n, st0.counters[base as int])
            } else {
                passed@
            }),
            first == (if ov@.len() > 0 {
                Some(ov@[0])
            } else {
                None
            }),
            ov@.len() > 0 ==> rest@ == ov@.drop_first(),
            ov@.len() == 0 ==> rest@ == Seq::<u32>::empty(),
            order_spec == visit_order(n.children@, first),
            n.children@.len() > 0,
            pass_children(*n, base as int, order_spec, 0, st0, rest@) == pass_children(
                *n,
                base as int,
                order_spec,
                j as int,
                st0,
                rest@,
            ),
        decreases visit@.len() - j,
    {
        let c = visit[j];
        let cb = bases[c];
        proof {
            assert(order_spec[j as int] == c as int);
            lemma_child_range(*n, base as int, c as int);
            lemma_pass_effect(n.children@[c as int], cb as int, st0, rest@);
        }
        let found = pass_exec(&n.children[c], cb, counters, assigned, order, &rest);
        if found {
            let ghost r = pass(n.children@[c as int], cb as int, st0, rest@);
            proof {
                assert(counters@[base as int] == st0.counters[base as int]);
                assert(pass_children(*n, base as int, order_spec, j as int, st0, rest@) == r);
            }
            let bumped = counters[base] + 1;
            counters.set(base, bumped);
            proof {
                assert(pass(*n, base as int, st0, passed@) == (
                    true,
                    TraversalState {
                        counters: r.1.counters.update(base as int, (r.1.counters[base as int] + 1) as u32),
                        ..r.1
                    },
                ));
            }
            return true;
        }
        j = j + 1;
    }
    false
}

/// The leaves of the tree at `root` (each by its number in preorder), in the
/// order in which they take windows: passes are made until one hands out no
/// window. The root's overrides are looked up by a count that grows by two
/// with each pass.
pub fn traversal_order(root: &LayoutNode) -> (r: Vec<usize>)
    requires
        2 * size(*root) + 2 <= u32::MAX,
    ensures
        r@ == spec_traversal_order(*root),
{
    let total = subtree_size(root);
    let mut counters: Vec<u32> = Vec::new();
    let mut assigned: Vec<bool> = Vec::new();
    let mut i: usize = 0;
    while i < total
        invariant
            0 <= i <= total,
            counters@ == Seq::new(i as nat, |k: int| 0u32),
            assigned@ == Seq::new(i as nat, |k: int| false),
        decreases total - i,
    {
        counters.push(0);
        assigned.push(false);
        proof {
            assert(counters@ =~= Seq::new(i as nat + 1, |k: int| 0u32));
            assert(assigned@ =~= Seq::new(i as nat + 1, |k: int| false));
        }
        i = i + 1;
    }
    let mut order: Vec<usize> = Vec::new();
    let mut top: u32 = 0;
    let ghost mut passes: nat = 0;
    let empty: Vec<u32> = Vec::new();
    proof {
        lemma_count_false_all(total as nat);
        assert(state_of(counters@, assigned@, order@) =~= initial_state(total as nat));
    }
    loop
        invariant
            total == size(*root),
            2 * size(*root) + 2 <= u32::MAX,
            empty@ == Seq::<u32>::empty(),
            counters@.len() == total,
            assigned@.len() == total,
            passes <= total,
            passes + count_false(assigned@) == total,
            top == 2 * passes,
            forall|y: int| 0 <= y < counters@.len() ==> counters@[y] <= passes,
            run(*root, initial_state(total as nat), 0, total as nat + 1) == run(
                *root,
                state_of(counters@, assigned@, order@),
                top,
                (total + 1 - passes) as nat,
            ),
        ensures
            total == size(*root),
            order@ == run(*root, initial_state(total as nat), 0, total as nat + 1).order,
        decreases count_false(assigned@),
    {
        let passed: &Vec<u32> = match root.traversal_overrides.get(&top) {
            Some(v) => v,
            None => &empty,
        };
        let ghost st = state_of(counters@, assigned@, order@);
        proof {
            assert(passed@ == own_overrides(*root, top));
            lemma_pass_effect(*root, 0, st, passed@);
        }
        let found = pass_exec(root, 0, &mut counters, &mut assigned, &mut order, passed);
        if !found {
            proof {
                assert((total + 1 - passes) as nat > 0);
                assert(run(*root, st, top, (total + 1 - passes) as nat) == state_of(
                    counters@,
                    assigned@,
                    order@,
                ));
            }
            break;
        }
        proof {
            let r = pass(*root, 0, st, passed@);
            let x = choose|x: int|
                0 <= x < size(*root) && !st.assigned[x] && r.1.assigned == st.assigned.update(x, true)
                    && r.1.order == st.order.push(x as usize);
            lemma_count_false_update(st.assigned, x);
        }
        top = top + 2;
        proof {
            passes = passes + 1;
        }
    }
    order
}

/// Every place in the sorted order names a child.
proof fn lemma_sorted_prefix_range(cs: Seq<LayoutNode>, m: int)
    requires
        0 <= m,
    ensures
        forall|k: int| 0 <= k < sorted_prefix(cs, m).len() ==> 0 <= #[trigger] sorted_prefix(cs, m)[k] < m,
    decreases m,
{
    if m > 0 {
        let s = sorted_prefix(cs, m - 1);
        lemma_sorted_prefix_range(cs, m - 1);
        lemma_sorted_prefix_complete(cs, m - 1);
        let p = ins_pos(cs, s, m - 1);
        lemma_ins_pos_bounds(cs, s, m - 1);
        let t = s.insert(p, m - 1);
        assert forall|k: int| 0 <= k < t.len() implies 0 <= #[trigger] t[k] < m by {
            if k < p {
                assert(t[k] == s[k]);
            } else if k > p {
                assert(t[k] == s[k - 1]);
            }
        }
    }
}

/// A node's own overrides for its current count, where it has any, decide
/// its pass alone: the overrides its parent hands down make no difference.
pub proof fn law_own_overrides_win(
    n: LayoutNode,
    base: int,
    st: TraversalState,
    passed: Seq<u32>,
    other: Seq<u32>,
)
    requires
        n.children@.len() > 0,
        own_overrides(n, st.counters[base]).len() > 0,
    ensures
        pass(n, base, st, passed) == pass(n, base, st, other),
{
}

/// The overrides in force at a node: its own for its current count where it
/// has any, else those handed down.
pub open spec fn overrides_in_force(n: LayoutNode, st: TraversalState, base: int, passed: Seq<u32>) -> Seq<u32> {
    let own = own_overrides(n, st.counters[base]);
    if own.len() > 0 {
        own
    } else {
        passed
    }
}

/// The first override in force at a node names the child tried first, by its
/// place in traversal-index order, and that child's subtree is walked with
/// the rest of the overrides: where it hands out a window, that window is the
/// node's.
pub proof fn law_override_names_first_child(
    n: LayoutNode,
    base: int,
    st: TraversalState,
    passed: Seq<u32>,
)
    requires
        n.children@.len() > 0,
        overrides_in_force(n, st, base, passed).len() > 0,
        overrides_in_force(n, st, base, passed)[0] < n.children@.len(),
        ({
            let ov = overrides_in_force(n, st, base, passed);
            let c = sorted_prefix(n.children@, n.children@.len() as int)[ov[0] as int];
            pass(n.children@[c], child_base(n, base, c), st, ov.drop_first()).0
        }),
    ensures
        ({
            let ov = overrides_in_force(n, st, base, passed);
            let c = sorted_prefix(n.children@, n.children@.len() as int)[ov[0] as int];
            let q = pass(n.children@[c], child_base(n, base, c), st, ov.drop_first());
            let r = pass(n, base, st, passed);
            &&& 0 <= c < n.children@.len()
            &&& r.0
            &&& r.1.order == q.1.order
            &&& r.1.assigned == q.1.assigned
        }),
{
    let cs = n.children@;
    let ov = overrides_in_force(n, st, base, passed);
    let f = ov[0];
    let sp = sorted_prefix(cs, cs.len() as int);
    lemma_sorted_prefix_complete(cs, cs.len() as int);
    lemma_sorted_prefix_range(cs, cs.len() as int);
    let c = sp[f as int];
    assert(0 <= c < cs.len());
    lemma_visit_order_complete(cs, Some(f));
    let order = visit_order(cs, Some(f));
    assert(order[0] == c);
    let rest = ov.drop_first();
    let cb = child_base(n, base, c);
    let q = pass(cs[c], cb, st, rest);
    let pc = pass_children(n, base, order, 0, st, rest);
    assert(pc == q);
}

/// Where the child that the first override in force names is a leaf without
/// a window, that leaf takes the window, whatever the parent handed down
/// where the node has overrides of its own.
pub proof fn law_override_leaf_takes_window(n: LayoutNode, base: int, st: TraversalState, passed: Seq<u32>)
    requires
        n.children@.len() > 0,
        overrides_in_force(n, st, base, passed).len() > 0,
        overrides_in_force(n, st, base, passed)[0] < n.children@.len(),
        ({
            let c = sorted_prefix(n.children@, n.children@.len() as int)[overrides_in_force(
                n,
                st,
                base,
                passed,
            )[0] as int];
            &&& n.children@[c].children@.len() == 0
            &&& !st.assigned[child_base(n, base, c)]
        }),
    ensures
        ({
            let c = sorted_prefix(n.children@, n.children@.len() as int)[overrides_in_force(
                n,
                st,
                base,
                passed,
            )[0] as int];
            let r = pass(n, base, st, passed);
            &&& r.0
            &&& r.1.order == st.order.push(child_base(n, base, c) as usize)
            &&& r.1.assigned == st.assigned.update(child_base(n, base, c), true)
        }),
{
    let ov = overrides_in_force(n, st, base, passed);
    let cs = n.children@;
    let c = sorted_prefix(cs, cs.len() as int)[ov[0] as int];
    let q = pass(cs[c], child_base(n, base, c), st, ov.drop_first());
    assert(q.0);
    law_override_names_first_child(n, base, st, passed);
}

/// Children's positions `s` are in traversal-index order, and children with
/// the same index keep their order in the tree.
pub open spec fn in_traversal_order(cs: Seq<LayoutNode>, s: Seq<int>) -> bool {
    forall|k: int, l: int|
        0 <= k < l < s.len() ==> {
            let a = cs[#[trigger] s[k]].traversal_index;
            let b = cs[#[trigger] s[l]].traversal_index;
            a < b || (a == b && s[k] < s[l])
        }
}

/// Where a child is inserted among sorted positions: after every one with
/// an index no greater, before every one with a greater index.
proof fn lemma_ins_pos_sorted(cs: Seq<LayoutNode>, s: Seq<int>, c: int)
    requires
        in_traversal_order(cs, s),
    ensures
        forall|k: int|
            0 <= k < ins_pos(cs, s, c) ==> cs[#[trigger] s[k]].traversal_index <= cs[c].traversal_index,
        forall|k: int|
            ins_pos(cs, s, c) <= k < s.len() ==> cs[#[trigger] s[k]].traversal_index
                > cs[c].traversal_index,
    decreases s.len(),
{
    lemma_ins_pos_bounds(cs, s, c);
    if s.len() > 0 {
        if cs[s.last()].traversal_index <= cs[c].traversal_index {
            assert forall|k: int| 0 <= k < s.len() implies cs[#[trigger] s[k]].traversal_index
                <= cs[c].traversal_index by {
                if k < s.len() - 1 {
                    assert(cs[s[k]].traversal_index <= cs[s[s.len() - 1]].traversal_index);
                }
            }
        } else {
            let d = s.drop_last();
            assert forall|k: int, l: int| 0 <= k < l < d.len() implies {
                let a = cs[#[trigger] d[k]].traversal_index;
                let b = cs[#[trigger] d[l]].traversal_index;
                a < b || (a == b && d[k] < d[l])
            } by {
                assert(d[k] == s[k] && d[l] == s[l]);
            }
            lemma_ins_pos_sorted(cs, d, c);
            let p = ins_pos(cs, d, c);
            assert forall|k: int| 0 <= k < p implies cs[#[trigger] s[k]].traversal_index
                <= cs[c].traversal_index by {
                assert(d[k] == s[k]);
            }
            assert forall|k: int| p <= k < s.len() implies cs[#[trigger] s[k]].traversal_index
                > cs[c].traversal_index by {
                if k < s.len() - 1 {
                    assert(d[k] == s[k]);
                }
            }
        }
    }
}

proof fn lemma_sorted_prefix_sorted(cs: Seq<LayoutNode>, m: int)
    requires
        0 <= m,
    ensures
        in_traversal_order(cs, sorted_prefix(cs, m)),
    decreases m,
{
    if m > 0 {
        let s = sorted_prefix(cs, m - 1);
        lemma_sorted_prefix_sorted(cs, m - 1);
        lemma_sorted_prefix_complete(cs, m - 1);
        lemma_sorted_prefix_range(cs, m - 1);
        lemma_ins_pos_sorted(cs, s, m - 1);
        lemma_ins_pos_bounds(cs, s, m - 1);
        let p = ins_pos(cs, s, m - 1);
        let t = s.insert(p, m - 1);
        assert forall|k: int, l: int| 0 <= k < l < t.len() implies {
            let a = cs[#[trigger] t[k]].traversal_index;
            let b = cs[#[trigger] t[l]].traversal_index;
            a < b || (a == b && t[k] < t[l])
        } by {
            let sk = if k < p { k } else { k - 1 };
            let sl = if l < p { l } else { l - 1 };
            if k == p {
                assert(t[l] == s[sl]);
            } else if l == p {
                assert(t[k] == s[sk]);
                assert(0 <= s[sk] < m - 1);
            } else {
                assert(t[k] == s[sk]);
                assert(t[l] == s[sl]);
            }
        }
    }
}

/// With no override in force, a node tries its children in traversal-index
/// order, those with the same index in their order in the tree, each child
/// once.
pub proof fn law_children_tried_in_traversal_order(cs: Seq<LayoutNode>)
    ensures
        visit_order(cs, None).len() == cs.len(),
        visit_order(cs, None).no_duplicates(),
        forall|i: int| 0 <= i < cs.len() ==> #[trigger] visit_order(cs, None).contains(i),
        in_traversal_order(cs, visit_order(cs, None)),
{
    let s = sorted_prefix(cs, cs.len() as int);
    lemma_visit_order_complete(cs, None);
    lemma_sorted_prefix_sorted(cs, cs.len() as int);
    assert forall|k: int, l: int| 0 <= k < s.len() && 0 <= l < s.len() && k != l implies s[k] != s[l] by {
        if k < l {
            assert(cs[s[k]].traversal_index < cs[s[l]].traversal_index || s[k] < s[l]);
        } else {
            assert(cs[s[l]].traversal_index < cs[s[k]].traversal_index || s[l] < s[k]);
        }
    }
}

} // verus!
