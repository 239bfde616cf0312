//! The automatic master-stack layout: one master window beside a stack of the
//! others.
use vstd::prelude::*;

use crate::geometry::{div_toward_zero, Point, Rectangle, Size};

verus! {

/// The side of the output that the master window takes.
#[derive(Debug, Clone, Copy, PartialEq, Eq, Structural)]
pub enum Direction {
    Left,
    Right,
    Top,
    Bottom,
}

/// The smallest height of a stacked window.
pub const MIN_STACK_HEIGHT: i32 = 40;

/// The geometry of the `k`-th of `count` tiled windows, with the master on
/// the left of `output`: a lone window fills the output; otherwise the master
/// takes the left half, and the others share the right half from the top
/// down, each at least one wide and `MIN_STACK_HEIGHT` high.
pub open spec fn master_stack_geometry(output: Rectangle, count: int, k: int) -> Rectangle {
    let w = output.size.w as int;
    let h = output.size.h as int;
    if count == 1 {
        output
    } else if k == 0 {
        Rectangle { loc: output.loc, size: Size { w: div_toward_zero(w, 2) as i32, h: output.size.h } }
    } else {
        let stacked = count - 1;
        let height = div_toward_zero(h, stacked);
        let half = div_toward_zero(w, 2);
        Rectangle {
            loc: Point { x: (output.loc.x + half) as i32, y: ((k - 1) * height) as i32 },
            size: Size {
                w: (if half < 1 { 1 } else { half }) as i32,
                h: (if height < MIN_STACK_HEIGHT { MIN_STACK_HEIGHT as int } else { height }) as i32,
            },
        }
    }
}

/// The positions of the windows that are tiled, in order.
pub open spec fn tiled_indices(tiled: Seq<bool>) -> Seq<usize>
    decreases tiled.len(),
{
    if tiled.len() == 0 {
        Seq::empty()
    } else {
        let rest = tiled_indices(tiled.drop_last());
        if tiled.last() {
            rest.push((tiled.len() - 1) as usize)
        } else {
            rest
        }
    }
}

proof fn lemma_tiled_indices_bounds(tiled: Seq<bool>)
    ensures
        tiled_indices(tiled).len() <= tiled.len(),
        forall|j: int|
            0 <= j < tiled_indices(tiled).len() ==> #[trigger] tiled_indices(tiled)[j] < tiled.len(),
    decreases tiled.len(),
{
    if tiled.len() > 0 {
        lemma_tiled_indices_bounds(tiled.drop_last());
    }
}

/// A multiple of a quotient stays within the dividend.
proof fn lemma_stack_offset(h: int, n: int, i: int)
    requires
        n >= 1,
        0 <= i < n,
    ensures
        h >= 0 ==> 0 <= i * div_toward_zero(h, n) <= h,
        h < 0 ==> h <= i * div_toward_zero(h, n) <= 0,
{
    if h >= 0 {
        let q = h / n;
        assert(q * n <= h) by (nonlinear_arith)
            requires
                q == h / n,
                n >= 1,
                h >= 0,
        ;
        assert(0 <= q) by (nonlinear_arith)
            requires
                q == h / n,
                n >= 1,
                h >= 0,
        ;
        assert(0 <= i * q <= q * n) by (nonlinear_arith)
            requires
                0 <= q,
                0 <= i < n,
        ;
    } else {
        let q = (-h) / n;
        assert(q * n <= -h) by (nonlinear_arith)
            requires
                q == (-h) / n,
                n >= 1,
                h < 0,
        ;
        assert(0 <= q) by (nonlinear_arith)
            requires
                q == (-h) / n,
                n >= 1,
                h < 0,
        ;
        assert(0 <= i * q <= q * n) by (nonlinear_arith)
            requires
                0 <= q,
                0 <= i < n,
        ;
        assert(i * div_toward_zero(h, n) == -(i * q)) by (nonlinear_arith)
            requires
                div_toward_zero(h, n) == -q,
        ;
    }
}

/// Lays out the tiled windows (`tiled` marks which of the windows are) in a
/// master stack on `output`, the geometry of the output to lay them out on,
/// if there is one. Returns each tiled window's position among the windows
/// with its geometry; nothing where no window is tiled or there is no
/// output. Only the master on the left is laid out.
pub fn master_stack(tiled: &Vec<bool>, output: Option<Rectangle>, side: Direction) -> (r: Vec<
    (usize, Rectangle),
>)
    requires
        side == Direction::Left,
        tiled@.len() <= i32::MAX,
        output is Some ==> i32::MIN <= output->0.loc.x + div_toward_zero(output->0.size.w as int, 2)
            <= i32::MAX,
    ensures
        ({
            let idx = tiled_indices(tiled@);
            if idx.len() == 0 || output is None {
                r@.len() == 0
            } else {
                &&& r@.len() == idx.len()
                &&& forall|k: int|
                    0 <= k < r@.len() ==> #[trigger] r@[k] == (
                        idx[k],
                        master_stack_geometry(output->0, idx.len() as int, k),
                    )
            }
        }),
{
    let mut windows: Vec<usize> = Vec::new();
    let mut i: usize = 0;
    while i < tiled.len()
        invariant
            0 <= i <= tiled@.len(),
            windows@ == tiled_indices(tiled@.subrange(0, i as int)),
        decreases tiled@.len() - i,
    {
        proof {
            assert(tiled@.subrange(0, i as int + 1).drop_last() =~= tiled@.subrange(0, i as int));
        }
        if tiled[i] {
            windows.push(i);
        }
        i = i + 1;
    }
    proof {
        assert(tiled@.subrange(0, i as int) =~= tiled@);
        lemma_tiled_indices_bounds(tiled@);
    }
    let mut r: Vec<(usize, Rectangle)> = Vec::new();
    let window_count = windows.len();
    if window_count == 0 {
        return r;
    }
    let output = match output {
        Some(o) => o,
        None => {
            return r;
        },
    };
    if window_count == 1 {
        r.push((windows[0], output));
        return r;
    }
    let master = Rectangle { loc: output.loc, size: Size { w: output.size.w / 2, h: output.size.h } };
    r.push((windows[0], master));

    let stacked: i32 = (window_count - 1) as i32;
    let height = output.size.h / stacked;
    let x = output.loc.x + output.size.w / 2;
    let mut k: usize = 1;
    while k < window_count
        invariant
            1 <= k <= window_count,
            window_count == windows@.len(),
            window_count >= 2,
            window_count <= i32::MAX,
            stacked == window_count - 1,
            height == div_toward_zero(output.size.h as int, stacked as int),
            x == output.loc.x + div_toward_zero(output.size.w as int, 2),
            windows@ == tiled_indices(tiled@),
            r@.len() == k,
            forall|j: int|
                0 <= j < k ==> #[trigger] r@[j] == (
                    windows@[j],
                    master_stack_geometry(output, window_count as int, j),
                ),
        decreases window_count - k,
    {
        let i: i32 = (k - 1) as i32;
        proof {
            lemma_stack_offset(output.size.h as int, stacked as int, i as int);
        }
        let half = output.size.w / 2;
        let w = if half < 1 { 1 } else { half };
        let h = if height < MIN_STACK_HEIGHT { MIN_STACK_HEIGHT } else { height };
        let geo = Rectangle { loc: Point { x, y: i * height }, size: Size { w, h } };
        r.push((windows[k], geo));
        k = k + 1;
    }
    r
}

} // verus!
