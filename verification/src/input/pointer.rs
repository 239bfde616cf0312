//! Which surface under the pointer takes pointer focus: the order in which
//! popups, layer surfaces and windows are tried, from top to bottom.
use vstd::prelude::*;

verus! {

/// A layer of layer-shell surfaces.
#[derive(Debug, Clone, Copy, PartialEq, Eq, Structural)]
pub enum LayerLevel {
    Overlay,
    Top,
    Bottom,
    Background,
}

/// What the hit tests found for one layer surface or window: whether the
/// point lies on one of its popups, and whether it lies on the surface itself
/// or one of its subsurfaces.
#[derive(Debug, Clone, Copy, PartialEq, Eq, Structural)]
pub struct SurfaceHit {
    pub popup: bool,
    pub surface: bool,
}

/// What the hit tests found for one window, and whether it is fullscreen.
#[derive(Debug, Clone, Copy, PartialEq, Eq, Structural)]
pub struct WindowHit {
    pub hit: SurfaceHit,
    pub fullscreen: bool,
}

/// What lies under the pointer on the output it is over.
#[derive(Debug, Clone, PartialEq, Eq)]
pub struct PointerScene {
    /// The overlay layer's surfaces, topmost first.
    pub overlay: Vec<SurfaceHit>,
    /// The top layer's surfaces, topmost first.
    pub top: Vec<SurfaceHit>,
    /// The bottom layer's surfaces, topmost first.
    pub bottom: Vec<SurfaceHit>,
    /// The background layer's surfaces, topmost first.
    pub background: Vec<SurfaceHit>,
    /// The output's windows, topmost first.
    pub windows: Vec<WindowHit>,
}

/// The surface that takes pointer focus.
#[derive(Debug, Clone, Copy, PartialEq, Eq, Structural)]
pub enum PointerTarget {
    /// The output's session lock surface.
    LockSurface,
    /// A popup of the layer surface at this position of its layer.
    LayerPopup(LayerLevel, usize),
    /// A popup of the window at this position.
    WindowPopup(usize),
    /// The layer surface at this position of its layer.
    Layer(LayerLevel, usize),
    /// The window at this position.
    Window(usize),
}

/// Whether the hit test of `h` found the point on a popup (`popup`) or on the
/// surface itself.
pub open spec fn is_hit(h: SurfaceHit, popup: bool) -> bool {
    if popup {
        h.popup
    } else {
        h.surface
    }
}

/// The first position in `lo..hi` whose surface was hit.
pub open spec fn first_hit(s: Seq<SurfaceHit>, popup: bool, lo: int, hi: int) -> Option<int>
    decreases hi - lo,
{
    if lo >= hi {
        None
    } else if is_hit(s[lo], popup) {
        Some(lo)
    } else {
        first_hit(s, popup, lo + 1, hi)
    }
}

/// What the hit tests found for each window, in order.
pub open spec fn window_hits(ws: Seq<WindowHit>) -> Seq<SurfaceHit> {
    ws.map_values(|w: WindowHit| w.hit)
}

/// The windows from the topmost down to the bottom-most fullscreen one are
/// those before this position (none where no window is fullscreen).
pub open spec fn fullscreen_split(ws: Seq<WindowHit>) -> int
    decreases ws.len(),
{
    if ws.len() == 0 {
        0
    } else if ws.last().fullscreen {
        ws.len() as int
    } else {
        fullscreen_split(ws.drop_last())
    }
}

/// The first surface of a layer that was hit, as a target.
pub open spec fn layer_target(s: Seq<SurfaceHit>, popup: bool, level: LayerLevel) -> Option<PointerTarget> {
    match first_hit(s, popup, 0, s.len() as int) {
        Some(i) => Some(
            if popup {
                PointerTarget::LayerPopup(level, i as usize)
            } else {
                PointerTarget::Layer(level, i as usize)
            },
        ),
        None => None,
    }
}

/// The first window in `lo..hi` that was hit, as a target.
pub open spec fn window_target(ws: Seq<WindowHit>, popup: bool, lo: int, hi: int) -> Option<PointerTarget> {
    match first_hit(window_hits(ws), popup, lo, hi) {
        Some(i) => Some(
            if popup {
                PointerTarget::WindowPopup(i as usize)
            } else {
                PointerTarget::Window(i as usize)
            },
        ),
        None => None,
    }
}

/// The first of `a`, `b` that is something.
pub open spec fn or_else<T>(a: Option<T>, b: Option<T>) -> Option<T> {
    if a is Some {
        a
    } else {
        b
    }
}

/// The target under the pointer, trying from top to bottom: popups (of
/// overlay, top, bottom and background layer surfaces, then of windows);
/// overlay layer surfaces; the windows down to the bottom-most fullscreen
/// one; top layer surfaces; the other windows; bottom and then background
/// layer surfaces. With the session locked, only the output's lock surface
/// takes focus.
pub open spec fn spec_pointer_target(
    scene: PointerScene,
    is_locked: bool,
    has_lock_surface: bool,
) -> Option<PointerTarget> {
    if is_locked {
        if has_lock_surface {
            Some(PointerTarget::LockSurface)
        } else {
            None
        }
    } else {
        let ws = scene.windows@;
        let split = fullscreen_split(ws);
        let popups = or_else(
            layer_target(scene.overlay@, true, LayerLevel::Overlay),
            or_else(
                layer_target(scene.top@, true, LayerLevel::Top),
                or_else(
                    layer_target(scene.bottom@, true, LayerLevel::Bottom),
                    or_else(
                        layer_target(scene.background@, true, LayerLevel::Background),
                        window_target(ws, true, 0, ws.len() as int),
                    ),
                ),
            ),
        );
        let above_top = or_else(
            layer_target(scene.overlay@, false, LayerLevel::Overlay),
            window_target(ws, false, 0, split),
        );
        let below = or_else(
            layer_target(scene.top@, false, LayerLevel::Top),
            or_else(
                window_target(ws, false, split, ws.len() as int),
                or_else(
                    layer_target(scene.bottom@, false, LayerLevel::Bottom),
                    layer_target(scene.background@, false, LayerLevel::Background),
                ),
            ),
        );
        or_else(popups, or_else(above_top, below))
    }
}

/// The first position in `lo..hi` of `s` whose surface was hit.
fn find_hit(s: &Vec<SurfaceHit>, popup: bool, lo: usize, hi: usize) -> (r: Option<usize>)
    requires
        lo <= hi <= s.len(),
    ensures
        match r {
            Some(i) => first_hit(s@, popup, lo as int, hi as int) == Some(i as int),
            None => first_hit(s@, popup, lo as int, hi as int) is None,
        },
{
    let mut i = lo;
    while i < hi
        invariant
            lo <= i <= hi <= s.len(),
            first_hit(s@, popup, lo as int, hi as int) == first_hit(s@, popup, i as int, hi as int),
        decreases hi - i,
    {
        let h = s[i];
        if (popup && h.popup) || (!popup && h.surface) {
            return Some(i);
        }
        i = i + 1;
    }
    None
}

/// The first surface of a layer that was hit, as a target.
fn find_layer(s: &Vec<SurfaceHit>, popup: bool, level: LayerLevel) -> (r: Option<PointerTarget>)
    ensures
        r == layer_target(s@, popup, level),
{
    match find_hit(s, popup, 0, s.len()) {
        Some(i) => Some(
            if popup {
                PointerTarget::LayerPopup(level, i)
            } else {
                PointerTarget::Layer(level, i)
            },
        ),
        None => None,
    }
}

/// The first window in `lo..hi` that was hit, as a target.
fn find_window(
    ws: &Vec<WindowHit>,
    hits: &Vec<SurfaceHit>,
    popup: bool,
    lo: usize,
    hi: usize,
) -> (r: Option<PointerTarget>)
    requires
        hits@ == window_hits(ws@),
        lo <= hi <= ws.len(),
    ensures
        r == window_target(ws@, popup, lo as int, hi as int),
{
    match find_hit(hits, popup, lo, hi) {
        Some(i) => Some(
            if popup {
                PointerTarget::WindowPopup(i)
            } else {
                PointerTarget::Window(i)
            },
        ),
        None => None,
    }
}

/// The surface under the pointer that takes pointer focus, or none.
pub fn pointer_target(scene: &PointerScene, is_locked: bool, has_lock_surface: bool) -> (r: Option<
    PointerTarget,
>)
    ensures
        r == spec_pointer_target(*scene, is_locked, has_lock_surface),
{
    if is_locked {
        return if has_lock_surface {
            Some(PointerTarget::LockSurface)
        } else {
            None
        };
    }
    let ws = &scene.windows;
    let mut hits: Vec<SurfaceHit> = Vec::new();
    let mut split: usize = 0;
    let mut i: usize = 0;
    while i < ws.len()
        invariant
            i <= ws.len(),
            hits@ == window_hits(ws@.take(i as int)),
            split as int == fullscreen_split(ws@.take(i as int)),
            split <= i,
        decreases ws.len() - i,
    {
        assert(ws@.take(i + 1).drop_last() =~= ws@.take(i as int));
        if ws[i].fullscreen {
            split = i + 1;
        }
        hits.push(ws[i].hit);
        i = i + 1;
        assert(hits@ =~= window_hits(ws@.take(i as int)));
    }
    assert(ws@.take(i as int) =~= ws@);
    let n = ws.len();
    if let Some(t) = find_layer(&scene.overlay, true, LayerLevel::Overlay) {
        return Some(t);
    }
    if let Some(t) = find_layer(&scene.top, true, LayerLevel::Top) {
        return Some(t);
    }
    if let Some(t) = find_layer(&scene.bottom, true, LayerLevel::Bottom) {
        return Some(t);
    }
    if let Some(t) = find_layer(&scene.background, true, LayerLevel::Background) {
        return Some(t);
    }
    if let Some(t) = find_window(ws, &hits, true, 0, n) {
        return Some(t);
    }
    if let Some(t) = find_layer(&scene.overlay, false, LayerLevel::Overlay) {
        return Some(t);
    }
    if let Some(t) = find_window(ws, &hits, false, 0, split) {
        return Some(t);
    }
    if let Some(t) = find_layer(&scene.top, false, LayerLevel::Top) {
        return Some(t);
    }
    if let Some(t) = find_window(ws, &hits, false, split, n) {
        return Some(t);
    }
    if let Some(t) = find_layer(&scene.bottom, false, LayerLevel::Bottom) {
        return Some(t);
    }
    find_layer(&scene.background, false, LayerLevel::Background)
}

/// A surface hit in `lo..hi` makes the search there find one, no later than it.
proof fn lemma_first_hit_found(s: Seq<SurfaceHit>, popup: bool, lo: int, hi: int, k: int)
    requires
        lo <= k < hi,
        is_hit(s[k], popup),
    ensures
        first_hit(s, popup, lo, hi) matches Some(i) && lo <= i <= k,
    decreases k - lo,
{
    if !is_hit(s[lo], popup) {
        lemma_first_hit_found(s, popup, lo + 1, hi, k);
    }
}

/// Popups come first: with the session unlocked, where the point lies on a
/// popup of any layer surface or window, a popup takes pointer focus.
pub proof fn law_popups_come_first(scene: PointerScene, has_lock_surface: bool)
    requires
        (exists|k: int| 0 <= k < scene.overlay@.len() && (#[trigger] scene.overlay@[k]).popup)
            || (exists|k: int| 0 <= k < scene.top@.len() && (#[trigger] scene.top@[k]).popup)
            || (exists|k: int| 0 <= k < scene.bottom@.len() && (#[trigger] scene.bottom@[k]).popup)
            || (exists|k: int|
            0 <= k < scene.background@.len() && (#[trigger] scene.background@[k]).popup)
            || (exists|k: int| 0 <= k < scene.windows@.len() && (#[trigger] scene.windows@[k]).hit.popup),
    ensures
        spec_pointer_target(scene, false, has_lock_surface) matches Some(t) && (
        t is LayerPopup || t is WindowPopup),
{
    if exists|k: int| 0 <= k < scene.overlay@.len() && (#[trigger] scene.overlay@[k]).popup {
        let k = choose|k: int| 0 <= k < scene.overlay@.len() && (#[trigger] scene.overlay@[k]).popup;
        lemma_first_hit_found(scene.overlay@, true, 0, scene.overlay@.len() as int, k);
    } else if exists|k: int| 0 <= k < scene.top@.len() && (#[trigger] scene.top@[k]).popup {
        let k = choose|k: int| 0 <= k < scene.top@.len() && (#[trigger] scene.top@[k]).popup;
        lemma_first_hit_found(scene.top@, true, 0, scene.top@.len() as int, k);
    } else if exists|k: int| 0 <= k < scene.bottom@.len() && (#[trigger] scene.bottom@[k]).popup {
        let k = choose|k: int| 0 <= k < scene.bottom@.len() && (#[trigger] scene.bottom@[k]).popup;
        lemma_first_hit_found(scene.bottom@, true, 0, scene.bottom@.len() as int, k);
    } else if exists|k: int|
        0 <= k < scene.background@.len() && (#[trigger] scene.background@[k]).popup {
        let k = choose|k: int|
            0 <= k < scene.background@.len() && (#[trigger] scene.background@[k]).popup;
        lemma_first_hit_found(scene.background@, true, 0, scene.background@.len() as int, k);
    } else {
        let k = choose|k: int| 0 <= k < scene.windows@.len() && (#[trigger] scene.windows@[k]).hit.popup;
        lemma_first_hit_found(window_hits(scene.windows@), true, 0, scene.windows@.len() as int, k);
    }
    let t = spec_pointer_target(scene, false, has_lock_surface);
    assert(t is Some);
}

} // verus!
