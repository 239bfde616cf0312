//! Layout requests and the shape of layout trees: which tiles neighbor which.
use vstd::prelude::*;

use std::collections::HashMap;

use crate::geometry::{Point, Rectangle, Size};
use crate::output::OutputName;
use crate::tag::TagId;

pub mod automatic;
pub mod neighbors;
pub mod pending;
pub mod request_id;
pub mod traversal;
pub mod trees;

pub use request_id::LayoutRequestId;

verus! {

/// The source of layout request ids.
#[derive(Debug, Copy, Clone, PartialEq, Eq, Structural)]
pub struct LayoutRequestIds {
    pub current_id: LayoutRequestId,
}

impl Default for LayoutRequestIds {
    /// No request handed out yet: the current id is 0.
    fn default() -> (r: Self)
        ensures
            r.current_id.0 == 0,
    {
        LayoutRequestIds { current_id: LayoutRequestId(0) }
    }
}

impl LayoutRequestIds {
    /// The next request id: one more than the last one handed out.
    pub fn next_id(&mut self) -> (r: LayoutRequestId)
        requires
            old(self).current_id.0 < u32::MAX,
        ensures
            r.0 == old(self).current_id.0 + 1,
            final(self).current_id == r,
    {
        self.current_id.0 = self.current_id.0 + 1;
        self.current_id
    }
}

/// What a layout request tells the layout client.
#[derive(Debug)]
pub struct LayoutInfo {
    pub request_id: LayoutRequestId,
    pub output_name: OutputName,
    pub window_count: u32,
    pub tag_ids: Vec<TagId>,
}

/// The direction in which a tile is resized.
#[derive(PartialEq, Eq, Clone, Copy, Debug, Structural)]
pub enum ResizeDir {
    Ahead,
    Behind,
}

/// The axis along which a layout node lays out its children.
#[derive(PartialEq, Eq, Clone, Copy, Debug, Structural)]
pub enum LayoutDir {
    Row,
    Col,
}

/// A node of a layout tree as far as the layout logic reads it: its label,
/// its place in the traversal order, its traversal overrides, its direction,
/// and its children.
#[derive(Debug)]
pub struct LayoutNode {
    pub label: Option<String>,
    pub traversal_index: u32,
    pub traversal_overrides: HashMap<u32, Vec<u32>>,
    /// Whether the node lays out its children in a row (else in a column).
    pub is_row: bool,
    pub children: Vec<LayoutNode>,
}

/// What the layout logic reads of a window, relative to one output.
#[derive(Debug, Clone, Copy, PartialEq, Eq, Structural)]
pub struct WindowFacts {
    /// The window is on the output.
    pub on_output: bool,
    /// The window has one of the output's focused tags.
    pub on_focused_tag: bool,
    /// The window is an X11 override-redirect window.
    pub override_redirect: bool,
    /// The window's layout mode is tiled or spilled.
    pub tiled_or_spilled: bool,
    /// The window is mapped in the space.
    pub mapped: bool,
}

/// The kinds of windows that the layout logic picks out.
#[derive(Debug, Clone, Copy, PartialEq, Eq, Structural)]
pub enum WindowFilter {
    /// Windows that a layout arranges, on any output.
    LaidOut,
    /// Windows of the output that a layout arranges.
    LaidOutOnOutput,
    /// Mapped windows of the output without a focused tag.
    Hidden,
}

/// Whether `w` is of the kind `f` picks out.
pub open spec fn picks(f: WindowFilter, w: WindowFacts) -> bool {
    match f {
        WindowFilter::LaidOut => is_laid_out(w),
        WindowFilter::LaidOutOnOutput => is_laid_out_on_output(w),
        WindowFilter::Hidden => is_hidden(w),
    }
}

/// The positions of the windows that `f` picks out, in order.
pub open spec fn indices_where(ws: Seq<WindowFacts>, f: WindowFilter) -> Seq<usize>
    decreases ws.len(),
{
    if ws.len() == 0 {
        Seq::empty()
    } else {
        let rest = indices_where(ws.drop_last(), f);
        if picks(f, ws.last()) {
            rest.push((ws.len() - 1) as usize)
        } else {
            rest
        }
    }
}

/// A window that a layout arranges: one with a focused tag, not
/// override-redirect, tiled or spilled.
pub open spec fn is_laid_out(w: WindowFacts) -> bool {
    w.on_focused_tag && !w.override_redirect && w.tiled_or_spilled
}

/// A window of the output that a layout arranges.
pub open spec fn is_laid_out_on_output(w: WindowFacts) -> bool {
    w.on_output && is_laid_out(w)
}

/// A mapped window of the output without a focused tag: it is unmapped.
pub open spec fn is_hidden(w: WindowFacts) -> bool {
    w.on_output && !w.on_focused_tag && w.mapped
}

/// Collects the positions of the windows that `f` picks out.
fn collect_indices(ws: &Vec<WindowFacts>, f: WindowFilter) -> (r: Vec<usize>)
    ensures
        r@ == indices_where(ws@, f),
{
    let mut r: Vec<usize> = Vec::new();
    let mut i: usize = 0;
    while i < ws.len()
        invariant
            0 <= i <= ws@.len(),
            r@ == indices_where(ws@.subrange(0, i as int), f),
        decreases ws@.len() - i,
    {
        proof {
            assert(ws@.subrange(0, i as int + 1).drop_last() =~= ws@.subrange(0, i as int));
        }
        let w = ws[i];
        let laid_out = w.on_focused_tag && !w.override_redirect && w.tiled_or_spilled;
        let holds = match f {
            WindowFilter::LaidOut => laid_out,
            WindowFilter::LaidOutOnOutput => w.on_output && laid_out,
            WindowFilter::Hidden => w.on_output && !w.on_focused_tag && w.mapped,
        };
        if holds {
            r.push(i);
        }
        i = i + 1;
    }
    proof {
        assert(ws@.subrange(0, i as int) =~= ws@);
    }
    r
}

/// The number of windows that a layout request for an output asks the
/// layout client to arrange: those with one of its focused tags that are
/// not override-redirect and are tiled or spilled.
pub fn layout_window_count(windows: &Vec<WindowFacts>) -> (r: u32)
    ensures
        r == indices_where(windows@, WindowFilter::LaidOut).len() as u32,
{
    let laid_out = collect_indices(windows, WindowFilter::LaidOut);
    laid_out.len() as u32
}

/// What updating an output's windows from its layout does: which windows
/// are unmapped, which take the layout's geometries (each with its
/// geometry), and which are spilled beyond the geometries the layout gave.
#[derive(Debug)]
pub struct WindowUpdatePlan {
    pub unmap: Vec<usize>,
    pub tiled: Vec<(usize, Rectangle)>,
    pub spilled: Vec<usize>,
}

/// A geometry of the layout moved into global space.
pub open spec fn placed(geo: Rectangle, output_loc: Point, zone_loc: Point) -> Rectangle {
    Rectangle {
        loc: Point {
            x: (geo.loc.x + (output_loc.x + zone_loc.x)) as i32,
            y: (geo.loc.y + (output_loc.y + zone_loc.y)) as i32,
        },
        size: geo.size,
    }
}

/// The offsets and geometries can be added without overflow.
pub open spec fn placement_fits(geometries: Seq<Rectangle>, output_loc: Point, zone_loc: Point) -> bool {
    &&& i32::MIN <= output_loc.x + zone_loc.x <= i32::MAX
    &&& i32::MIN <= output_loc.y + zone_loc.y <= i32::MAX
    &&& forall|j: int|
        0 <= j < geometries.len() ==> {
            &&& i32::MIN <= #[trigger] geometries[j].loc.x + (output_loc.x + zone_loc.x) <= i32::MAX
            &&& i32::MIN <= geometries[j].loc.y + (output_loc.y + zone_loc.y) <= i32::MAX
        }
}

/// Plans the update of an output's windows from the geometries that its
/// layout computed (relative to the output's non-exclusive zone, which lies
/// at `zone_loc` within the output at `output_loc`): mapped windows of the
/// output without a focused tag are unmapped; the windows that the layout
/// arranges take the geometries in order; those beyond the last geometry
/// are spilled.
pub fn plan_window_update(
    windows: &Vec<WindowFacts>,
    geometries: &Vec<Rectangle>,
    output_loc: Point,
    zone_loc: Point,
) -> (r: WindowUpdatePlan)
    requires
        placement_fits(geometries@, output_loc, zone_loc),
    ensures
        r.unmap@ == indices_where(windows@, WindowFilter::Hidden),
        ({
            let laid = indices_where(windows@, WindowFilter::LaidOutOnOutput);
            let n = if laid.len() < geometries@.len() { laid.len() } else { geometries@.len() };
            &&& r.tiled@.len() == n
            &&& forall|j: int|
                0 <= j < n ==> #[trigger] r.tiled@[j] == (
                    laid[j],
                    placed(geometries@[j], output_loc, zone_loc),
                )
            &&& r.spilled@ == laid.subrange(n as int, laid.len() as int)
        }),
{
    let unmap = collect_indices(windows, WindowFilter::Hidden);
    let laid = collect_indices(windows, WindowFilter::LaidOutOnOutput);
    let dx = output_loc.x + zone_loc.x;
    let dy = output_loc.y + zone_loc.y;
    let mut tiled: Vec<(usize, Rectangle)> = Vec::new();
    let mut spilled: Vec<usize> = Vec::new();
    let mut j: usize = 0;
    while j < laid.len()
        invariant
            0 <= j <= laid@.len(),
            placement_fits(geometries@, output_loc, zone_loc),
            dx == output_loc.x + zone_loc.x,
            dy == output_loc.y + zone_loc.y,
            tiled@.len() == if j < geometries@.len() { j as int } else { geometries@.len() as int },
            forall|k: int|
                0 <= k < tiled@.len() ==> #[trigger] tiled@[k] == (
                    laid@[k],
                    placed(geometries@[k], output_loc, zone_loc),
                ),
            spilled@ == if j < geometries@.len() {
                Seq::<usize>::empty()
            } else {
                laid@.subrange(geometries@.len() as int, j as int)
            },
        decreases laid@.len() - j,
    {
        if j < geometries.len() {
            let g = geometries[j];
            let moved = Rectangle { loc: Point { x: g.loc.x + dx, y: g.loc.y + dy }, size: g.size };
            tiled.push((laid[j], moved));
        } else {
            proof {
                if j == geometries@.len() {
                    assert(laid@.subrange(j as int, j as int).len() == 0);
                }
                assert(laid@.subrange(geometries@.len() as int, j as int + 1) =~= (if j
                    < geometries@.len() {
                    Seq::<usize>::empty()
                } else {
                    laid@.subrange(geometries@.len() as int, j as int)
                }).push(laid@[j as int]));
            }
            spilled.push(laid[j]);
        }
        j = j + 1;
    }
    proof {
        if laid@.len() <= geometries@.len() {
            assert(laid@.subrange(laid@.len() as int, laid@.len() as int).len() == 0);
            assert(spilled@ =~= laid@.subrange(laid@.len() as int, laid@.len() as int));
        }
    }
    WindowUpdatePlan { unmap, tiled, spilled }
}

/// Every window that a layout arranges on the output either takes one of its
/// geometries or is spilled, in order; and no window that is unmapped for
/// lacking a focused tag is among them.
pub proof fn law_laid_out_windows_are_tiled_or_spilled(windows: Seq<WindowFacts>, geometry_count: nat)
    requires
        windows.len() <= usize::MAX,
    ensures
        ({
            let laid = indices_where(windows, WindowFilter::LaidOutOnOutput);
            let n = if laid.len() < geometry_count { laid.len() } else { geometry_count };
            laid.subrange(0, n as int) + laid.subrange(n as int, laid.len() as int) == laid
        }),
        forall|i: int, j: int|
            0 <= i < indices_where(windows, WindowFilter::Hidden).len() && 0 <= j < indices_where(
                windows,
                WindowFilter::LaidOutOnOutput,
            ).len() ==> #[trigger] indices_where(windows, WindowFilter::Hidden)[i]
                != #[trigger] indices_where(windows, WindowFilter::LaidOutOnOutput)[j],
{
    let laid = indices_where(windows, WindowFilter::LaidOutOnOutput);
    let n = if laid.len() < geometry_count { laid.len() } else { geometry_count };
    assert(laid.subrange(0, n as int) + laid.subrange(n as int, laid.len() as int) =~= laid);
    lemma_indices_pick(windows, WindowFilter::Hidden);
    lemma_indices_pick(windows, WindowFilter::LaidOutOnOutput);
}

/// Every position that `f` picks out is a window that `f` picks.
proof fn lemma_indices_pick(ws: Seq<WindowFacts>, f: WindowFilter)
    requires
        ws.len() <= usize::MAX,
    ensures
        forall|j: int|
            0 <= j < indices_where(ws, f).len() ==> {
                &&& #[trigger] indices_where(ws, f)[j] < ws.len()
                &&& picks(f, ws[indices_where(ws, f)[j] as int])
            },
    decreases ws.len(),
{
    if ws.len() > 0 {
        lemma_indices_pick(ws.drop_last(), f);
        let rest = indices_where(ws.drop_last(), f);
        assert forall|j: int| 0 <= j < indices_where(ws, f).len() implies {
            &&& #[trigger] indices_where(ws, f)[j] < ws.len()
            &&& picks(f, ws[indices_where(ws, f)[j] as int])
        } by {
            if j < rest.len() {
                assert(indices_where(ws, f)[j] == rest[j]);
                assert(ws.drop_last()[rest[j] as int] == ws[rest[j] as int]);
            } else {
                assert(picks(f, ws.last()));
                assert(indices_where(ws, f) == rest.push((ws.len() - 1) as usize));
                assert(j == rest.len());
                assert(indices_where(ws, f)[j] == (ws.len() - 1) as usize);
            }
        }
    }
}

/// Swaps the places of two windows in the window list (windows by handle,
/// each found at its first place); nothing happens unless both are there.
pub fn swap_window_positions(windows: &mut Vec<u64>, win1: u64, win2: u64)
    ensures
        ({
            let w = old(windows)@;
            if w.contains(win1) && w.contains(win2) {
                let i = w.index_of_first(win1)->0;
                let j = w.index_of_first(win2)->0;
                final(windows)@ == w.update(i, w[j]).update(j, w[i])
            } else {
                final(windows)@ == w
            }
        }),
{
    let first = position_of(windows, win1);
    let second = position_of(windows, win2);
    match (first, second) {
        (Some(i), Some(j)) => {
            let a = windows[i];
            let b = windows[j];
            windows.set(i, b);
            windows.set(j, a);
        },
        _ => {},
    }
}

/// The first place of `win` in the list.
fn position_of(windows: &Vec<u64>, win: u64) -> (r: Option<usize>)
    ensures
        r == match windows@.index_of_first(win) {
            Some(i) => Some(i as usize),
            None => None::<usize>,
        },
        windows@.contains(win) <==> r is Some,
        r is Some ==> windows@.index_of_first(win) == Some(r->0 as int) && r->0 < windows@.len()
            && windows@[r->0 as int] == win,
{
    proof {
        windows@.index_of_first_ensures(win);
    }
    let mut i: usize = 0;
    while i < windows.len()
        invariant
            0 <= i <= windows@.len(),
            forall|j: int| 0 <= j < i ==> windows@[j] != win,
            match windows@.index_of_first(win) {
                Some(k) => 0 <= k < windows@.len() && windows@[k] == win && forall|j: int|
                    0 <= j < k ==> windows@[j] != win,
                None => !windows@.contains(win),
            },
        decreases windows@.len() - i,
    {
        if windows[i] == win {
            assert(windows@[i as int] == win);
            return Some(i);
        }
        i = i + 1;
    }
    None
}

/// The edges of a window that an interactive resize moves.
#[derive(Debug, Clone, Copy, PartialEq, Eq, Structural)]
pub enum ResizeEdge {
    NoEdge,
    Top,
    Bottom,
    Left,
    TopLeft,
    BottomLeft,
    Right,
    TopRight,
    BottomRight,
}

/// Whether the resize moves the left edge.
pub open spec fn moves_left(edges: ResizeEdge) -> bool {
    edges == ResizeEdge::Left || edges == ResizeEdge::TopLeft || edges == ResizeEdge::BottomLeft
}

/// Whether the resize moves the top edge.
pub open spec fn moves_top(edges: ResizeEdge) -> bool {
    edges == ResizeEdge::Top || edges == ResizeEdge::TopRight || edges == ResizeEdge::TopLeft
}

/// The location of a floating window after a resize from `initial_geo` to
/// `size`: where the left (top) edge moved, the window shifts so that its
/// right (bottom) edge stays put.
pub open spec fn spec_floating_resize_loc(edges: ResizeEdge, initial_geo: Rectangle, size: Size) -> Point {
    Point {
        x: (initial_geo.loc.x + if moves_left(edges) {
            initial_geo.size.w - size.w
        } else {
            0
        }) as i32,
        y: (initial_geo.loc.y + if moves_top(edges) {
            initial_geo.size.h - size.h
        } else {
            0
        }) as i32,
    }
}

/// The location of a floating window after an interactive resize, given
/// its geometry when the resize began and its size now.
pub fn floating_resize_loc(edges: ResizeEdge, initial_geo: Rectangle, size: Size) -> (r: Point)
    requires
        moves_left(edges) ==> i32::MIN <= initial_geo.size.w - size.w <= i32::MAX && i32::MIN
            <= initial_geo.loc.x + (initial_geo.size.w - size.w) <= i32::MAX,
        moves_top(edges) ==> i32::MIN <= initial_geo.size.h - size.h <= i32::MAX && i32::MIN
            <= initial_geo.loc.y + (initial_geo.size.h - size.h) <= i32::MAX,
    ensures
        r == spec_floating_resize_loc(edges, initial_geo, size),
{
    let mut loc = initial_geo.loc;
    match edges {
        ResizeEdge::Left | ResizeEdge::TopLeft | ResizeEdge::BottomLeft => {
            loc.x = loc.x + (initial_geo.size.w - size.w);
        },
        _ => {},
    }
    match edges {
        ResizeEdge::Top | ResizeEdge::TopRight | ResizeEdge::TopLeft => {
            loc.y = loc.y + (initial_geo.size.h - size.h);
        },
        _ => {},
    }
    loc
}

} // verus!
