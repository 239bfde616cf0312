//! Keeping taskbars in step with the windows: which toplevel handles close,
//! and how each window's handle is refreshed.
use vstd::prelude::*;

use crate::foreign_toplevel::{
    refresh_toplevel, spec_states, text_change_view_ok, text_view, to_state_vec, ToplevelRecord,
    ToplevelRefresh, ToplevelState,
};
use crate::keyed::{has_key, key_index, keys_distinct, lookup};

verus! {

/// What a taskbar is told of a window, as a value.
pub struct ToplevelView {
    pub title: Option<Seq<char>>,
    pub app_id: Option<Seq<char>>,
    pub states: Seq<ToplevelState>,
    pub output: Option<u64>,
}

/// The value of a record.
pub open spec fn record_view(r: ToplevelRecord) -> ToplevelView {
    ToplevelView {
        title: text_view(r.title),
        app_id: text_view(r.app_id),
        states: r.states@,
        output: r.output,
    }
}

/// The value of the record of `surface` among `records`, if any.
pub open spec fn view_of(records: Seq<(u64, ToplevelRecord)>, surface: u64) -> Option<ToplevelView> {
    match lookup(records, surface) {
        Some(r) => Some(record_view(r)),
        None => None,
    }
}

/// What the xdg role of a window holds: its title, app id, and whether it
/// is maximized or fullscreen.
#[derive(Debug)]
pub struct XdgToplevelInfo {
    pub title: Option<String>,
    pub app_id: Option<String>,
    pub maximized: bool,
    pub fullscreen: bool,
}

/// A window as the refresh reads it: its surface (by handle), its xdg role
/// (none for other windows), whether it is minimized, and its output.
#[derive(Debug)]
pub struct WindowSnapshot {
    pub surface: Option<u64>,
    pub xdg: Option<XdgToplevelInfo>,
    pub minimized: bool,
    pub output: Option<u64>,
}

/// The focused window (by its place among the windows) and the focused
/// output.
#[derive(Debug, Clone, Copy, PartialEq, Eq, Structural)]
pub struct FocusedWindow {
    pub index: usize,
    pub output: u64,
}

/// What a window's handle is refreshed with, on `output`.
pub open spec fn window_view(w: WindowSnapshot, output: Option<u64>) -> ToplevelView {
    let x = w.xdg->0;
    ToplevelView {
        title: text_view(x.title),
        app_id: text_view(x.app_id),
        states: spec_states(x.maximized, x.fullscreen, w.minimized, false),
        output,
    }
}

/// A window that has a handle: one with a surface and an xdg role.
pub open spec fn has_handle(w: WindowSnapshot) -> bool {
    w.surface is Some && w.xdg is Some
}

/// Whether window `i` is the focused window.
pub open spec fn is_focused(focused: Option<FocusedWindow>, i: int) -> bool {
    focused is Some && focused->0.index == i
}

/// The refreshes made while walking the first `m` windows: each window with
/// a handle, except the focused one, on its own output.
pub open spec fn walk(windows: Seq<WindowSnapshot>, focused: Option<FocusedWindow>, m: int) -> Seq<
    (u64, ToplevelView),
>
    decreases m,
{
    if m <= 0 {
        Seq::empty()
    } else {
        let rest = walk(windows, focused, m - 1);
        let w = windows[m - 1];
        if has_handle(w) && !is_focused(focused, m - 1) {
            rest.push((w.surface->0, window_view(w, w.output)))
        } else {
            rest
        }
    }
}

/// All refreshes, in order: the walk, then the focused window (where it has
/// a handle) on the focused output.
pub open spec fn refresh_plan(windows: Seq<WindowSnapshot>, focused: Option<FocusedWindow>) -> Seq<
    (u64, ToplevelView),
> {
    let walked = walk(windows, focused, windows.len() as int);
    match focused {
        Some(f) => if f.index < windows.len() && has_handle(windows[f.index as int]) {
            walked.push(
                (
                    windows[f.index as int].surface->0,
                    window_view(windows[f.index as int], Some(f.output)),
                ),
            )
        } else {
            walked
        },
        None => walked,
    }
}

/// Whether some window has `surface`.
pub open spec fn has_surface(windows: Seq<WindowSnapshot>, surface: u64) -> bool {
    exists|k: int| 0 <= k < windows.len() && #[trigger] windows[k].surface == Some(surface)
}

/// The last refresh of `surface` among `plan`, if any.
pub open spec fn last_refresh(plan: Seq<(u64, ToplevelView)>, surface: u64) -> Option<ToplevelView>
    decreases plan.len(),
{
    if plan.len() == 0 {
        None
    } else if plan.last().0 == surface {
        Some(plan.last().1)
    } else {
        last_refresh(plan.drop_last(), surface)
    }
}

/// What a taskbar knows of `surface` after the first `k` refreshes of the
/// plan: the last of them for it, else what it knew before where some window
/// still has the surface, else nothing.
pub open spec fn view_before(
    records: Seq<(u64, ToplevelRecord)>,
    windows: Seq<WindowSnapshot>,
    plan: Seq<(u64, ToplevelView)>,
    k: int,
    surface: u64,
) -> Option<ToplevelView> {
    match last_refresh(plan.subrange(0, k), surface) {
        Some(v) => Some(v),
        None => if has_surface(windows, surface) {
            view_of(records, surface)
        } else {
            None
        },
    }
}

/// `r` is what refreshing a handle known as `before` (if known) to `new`
/// reports.
pub open spec fn refresh_ok(r: ToplevelRefresh, before: Option<ToplevelView>, new: ToplevelView) -> bool {
    &&& r.created == before is None
    &&& before is None ==> {
        &&& r.title == crate::foreign_toplevel::TextChange::Unchanged
        &&& r.app_id == crate::foreign_toplevel::TextChange::Unchanged
        &&& !r.states_changed
        &&& !r.output_changed
    }
    &&& before is Some ==> {
        let b = before->0;
        &&& text_change_view_ok(r.title, b.title, new.title)
        &&& text_change_view_ok(r.app_id, b.app_id, new.app_id)
        &&& r.states_changed == (b.states != new.states)
        &&& r.output_changed == (b.output != new.output)
    }
}

/// The records of surfaces that some window has (`keep`), or of the others.
pub open spec fn toplevels_split(
    records: Seq<(u64, ToplevelRecord)>,
    windows: Seq<WindowSnapshot>,
    keep: bool,
) -> Seq<u64>
    decreases records.len(),
{
    if records.len() == 0 {
        Seq::empty()
    } else {
        let rest = toplevels_split(records.drop_last(), windows, keep);
        if has_surface(windows, records.last().0) == keep {
            rest.push(records.last().0)
        } else {
            rest
        }
    }
}

/// The records of surfaces that some window has, in order.
pub open spec fn records_kept(records: Seq<(u64, ToplevelRecord)>, windows: Seq<WindowSnapshot>) -> Seq<
    (u64, ToplevelRecord),
>
    decreases records.len(),
{
    if records.len() == 0 {
        Seq::empty()
    } else {
        let rest = records_kept(records.drop_last(), windows);
        if has_surface(windows, records.last().0) {
            rest.push(records.last())
        } else {
            rest
        }
    }
}

/// What a taskbar knows of `surface` after the refreshes `done`.
pub open spec fn view_after(
    records: Seq<(u64, ToplevelRecord)>,
    windows: Seq<WindowSnapshot>,
    done: Seq<(u64, ToplevelView)>,
    surface: u64,
) -> Option<ToplevelView> {
    match last_refresh(done, surface) {
        Some(v) => Some(v),
        None => if has_surface(windows, surface) {
            view_of(records, surface)
        } else {
            None
        },
    }
}

proof fn lemma_records_kept(records: Seq<(u64, ToplevelRecord)>, windows: Seq<WindowSnapshot>)
    requires
        keys_distinct(records),
    ensures
        keys_distinct(records_kept(records, windows)),
        forall|surface: u64| #[trigger]
            lookup(records_kept(records, windows), surface) == if has_surface(windows, surface) {
                lookup(records, surface)
            } else {
                None
            },
    decreases records.len(),
{
    if records.len() == 0 {
        assert forall|surface: u64| #[trigger]
            lookup(records_kept(records, windows), surface) == if has_surface(windows, surface) {
                lookup(records, surface)
            } else {
                None
            } by {
            assert(!has_key(records, surface));
        }
    } else {
        let rest = records.drop_last();
        let last = records.last();
        assert(keys_distinct(rest)) by {
            assert forall|a: int, b: int|
                0 <= a < rest.len() && 0 <= b < rest.len() && a != b implies #[trigger] rest[a].0
                != #[trigger] rest[b].0 by {
                assert(rest[a] == records[a] && rest[b] == records[b]);
            }
        }
        lemma_records_kept(rest, windows);
        assert(!has_key(rest, last.0)) by {
            if has_key(rest, last.0) {
                let k = choose|k: int| 0 <= k < rest.len() && #[trigger] rest[k].0 == last.0;
                assert(records[k].0 == records[records.len() - 1].0);
            }
        }
        assert(records =~= rest.push(last));
        crate::keyed::lemma_push_fresh(rest, last.0, last.1);
        let kept_rest = records_kept(rest, windows);
        if has_surface(windows, last.0) {
            assert(!has_key(kept_rest, last.0)) by {
                if has_key(kept_rest, last.0) {
                    crate::keyed::lemma_key_index_unique(kept_rest, key_index(kept_rest, last.0));
                }
            }
            crate::keyed::lemma_push_fresh(kept_rest, last.0, last.1);
        }
    }
}

/// A copy of an optional text.
fn copy_text(t: &Option<String>) -> (r: Option<String>)
    ensures
        text_view(r) == text_view(*t),
{
    match t {
        Some(s) => Some(s.clone()),
        None => None,
    }
}

/// Whether some window has `surface`.
fn has_surface_exec(windows: &Vec<WindowSnapshot>, surface: u64) -> (r: bool)
    ensures
        r == has_surface(windows@, surface),
{
    let mut k: usize = 0;
    while k < windows.len()
        invariant
            0 <= k <= windows@.len(),
            forall|j: int| 0 <= j < k ==> #[trigger] windows@[j].surface != Some(surface),
        decreases windows@.len() - k,
    {
        let same = match windows[k].surface {
            Some(s) => s == surface,
            None => false,
        };
        if same {
            assert(windows@[k as int].surface == Some(surface));
            return true;
        }
        k = k + 1;
    }
    false
}

/// The position of the record of `surface`, if there is one.
fn find_toplevel(records: &Vec<(u64, ToplevelRecord)>, surface: u64) -> (r: Option<usize>)
    requires
        keys_distinct(records@),
    ensures
        match r {
            Some(i) => i < records@.len() && records@[i as int].0 == surface && key_index(records@, surface)
                == i && has_key(records@, surface),
            None => !has_key(records@, surface),
        },
{
    let mut i: usize = 0;
    while i < records.len()
        invariant
            keys_distinct(records@),
            0 <= i <= records@.len(),
            forall|j: int| 0 <= j < i ==> records@[j].0 != surface,
        decreases records@.len() - i,
    {
        if records[i].0 == surface {
            proof {
                crate::keyed::lemma_key_index_unique(records@, i as int);
            }
            return Some(i);
        }
        i = i + 1;
    }
    None
}

/// Refreshes the handle of `surface` among `records` with the given values.
fn refresh_one(
    records: &mut Vec<(u64, ToplevelRecord)>,
    surface: u64,
    title: Option<String>,
    app_id: Option<String>,
    states: Vec<ToplevelState>,
    output: Option<u64>,
) -> (r: ToplevelRefresh)
    requires
        keys_distinct(old(records)@),
    ensures
        keys_distinct(final(records)@),
        refresh_ok(
            r,
            view_of(old(records)@, surface),
            ToplevelView {
                title: text_view(title),
                app_id: text_view(app_id),
                states: states@,
                output,
            },
        ),
        forall|s: u64| #[trigger]
            view_of(final(records)@, s) == if s == surface {
                Some(
                    ToplevelView {
                        title: text_view(title),
                        app_id: text_view(app_id),
                        states: states@,
                        output,
                    },
                )
            } else {
                view_of(old(records)@, s)
            },
{
    let ghost new_view = ToplevelView {
        title: text_view(title),
        app_id: text_view(app_id),
        states: states@,
        output,
    };
    match find_toplevel(records, surface) {
        Some(idx) => {
            let ghost before = records@;
            proof {
                crate::keyed::lemma_key_index_unique(before, idx as int);
                crate::keyed::lemma_remove_at(before, idx as int);
            }
            let (key, rec) = records.remove(idx);
            let ghost removed = records@;
            let mut slot = Some(rec);
            let r = refresh_toplevel(&mut slot, title, app_id, states, output);
            let new_rec = slot.unwrap();
            proof {
                assert(lookup(removed, surface) is None);
                assert(!has_key(removed, surface)) by {
                    if has_key(removed, surface) {
                        crate::keyed::lemma_key_index_unique(removed, key_index(removed, surface));
                    }
                }
                crate::keyed::lemma_push_fresh(removed, surface, new_rec);
                assert(record_view(new_rec) == new_view);
                assert forall|s: u64| #[trigger]
                    view_of(removed.push((surface, new_rec)), s) == if s == surface {
                        Some(new_view)
                    } else {
                        view_of(before, s)
                    } by {}
            }
            records.push((key, new_rec));
            r
        },
        None => {
            let mut slot: Option<ToplevelRecord> = None;
            let r = refresh_toplevel(&mut slot, title, app_id, states, output);
            let new_rec = slot.unwrap();
            proof {
                crate::keyed::lemma_push_fresh(records@, surface, new_rec);
                assert(record_view(new_rec) == new_view);
            }
            records.push((surface, new_rec));
            r
        },
    }
}

/// What taskbars were last told of each window (by surface).
#[derive(Debug)]
pub struct ToplevelRecords {
    pub toplevels: Vec<(u64, ToplevelRecord)>,
}

/// What a refresh tells taskbars: the handles that close (by surface), and
/// each refresh made, in order.
#[derive(Debug)]
pub struct ToplevelsReport {
    pub closed: Vec<u64>,
    pub refreshed: Vec<(u64, ToplevelRefresh)>,
}

/// The refresh of window `w` (which has a handle) on `output`.
fn refresh_window(records: &mut Vec<(u64, ToplevelRecord)>, w: &WindowSnapshot, output: Option<u64>) -> (r: (
    u64,
    ToplevelRefresh,
))
    requires
        keys_distinct(old(records)@),
        has_handle(*w),
    ensures
        keys_distinct(final(records)@),
        r.0 == w.surface->0,
        refresh_ok(r.1, view_of(old(records)@, r.0), window_view(*w, output)),
        forall|s: u64| #[trigger]
            view_of(final(records)@, s) == if s == r.0 {
                Some(window_view(*w, output))
            } else {
                view_of(old(records)@, s)
            },
{
    let surface = w.surface.unwrap();
    let x = w.xdg.as_ref().unwrap();
    let title = copy_text(&x.title);
    let app_id = copy_text(&x.app_id);
    let states = to_state_vec(x.maximized, x.fullscreen, w.minimized, false);
    let r = refresh_one(records, surface, title, app_id, states, output);
    (surface, r)
}

impl ToplevelRecords {
    /// One record per surface.
    pub open spec fn wf(&self) -> bool {
        keys_distinct(self.toplevels@)
    }

    /// Nothing was told yet.
    pub fn new() -> (r: Self)
        ensures
            r.wf(),
            r.toplevels@.len() == 0,
    {
        ToplevelRecords { toplevels: Vec::new() }
    }

    /// Brings what taskbars know in line with the windows: handles of
    /// surfaces that no window has close; then each window with a handle is
    /// refreshed in order on its own output, the focused window last, on the
    /// focused output.
    pub fn refresh(&mut self, windows: &Vec<WindowSnapshot>, focused: Option<FocusedWindow>) -> (r:
        ToplevelsReport)
        requires
            old(self).wf(),
        ensures
            final(self).wf(),
            r.closed@ == toplevels_split(old(self).toplevels@, windows@, false),
            r.refreshed@.len() == refresh_plan(windows@, focused).len(),
            forall|k: int|
                0 <= k < r.refreshed@.len() ==> {
                    let plan = refresh_plan(windows@, focused);
                    &&& (#[trigger] r.refreshed@[k]).0 == plan[k].0
                    &&& refresh_ok(
                        r.refreshed@[k].1,
                        view_before(old(self).toplevels@, windows@, plan, k, plan[k].0),
                        plan[k].1,
                    )
                },
            forall|s: u64| #[trigger]
                view_of(final(self).toplevels@, s) == view_before(
                    old(self).toplevels@,
                    windows@,
                    refresh_plan(windows@, focused),
                    refresh_plan(windows@, focused).len() as int,
                    s,
                ),
    {
        let ghost orig = self.toplevels@;
        let total = self.toplevels.len();
        let mut rest: Vec<(u64, ToplevelRecord)> = Vec::new();
        std::mem::swap(&mut rest, &mut self.toplevels);
        let mut kept: Vec<(u64, ToplevelRecord)> = Vec::new();
        let mut closed: Vec<u64> = Vec::new();
        let mut i: usize = 0;
        while rest.len() > 0
            invariant
                i + rest@.len() == orig.len(),
                total == orig.len(),
                rest@ == orig.subrange(i as int, orig.len() as int),
                kept@ == records_kept(orig.subrange(0, i as int), windows@),
                closed@ == toplevels_split(orig.subrange(0, i as int), windows@, false),
            decreases rest@.len(),
        {
            let e = rest.remove(0);
            proof {
                assert(orig.subrange(0, i as int + 1).drop_last() =~= orig.subrange(0, i as int));
                assert(orig[i as int] == e);
                assert(rest@ =~= orig.subrange(i as int + 1, orig.len() as int));
            }
            if has_surface_exec(windows, e.0) {
                kept.push(e);
            } else {
                closed.push(e.0);
            }
            i = i + 1;
        }
        proof {
            assert(orig.subrange(0, i as int) =~= orig);
            lemma_records_kept(orig, windows@);
            assert forall|s: u64| #[trigger] view_of(kept@, s) == view_after(
                orig,
                windows@,
                walk(windows@, focused, 0),
                s,
            ) by {}
        }

        let mut refreshed: Vec<(u64, ToplevelRefresh)> = Vec::new();
        let mut n: usize = 0;
        while n < windows.len()
            invariant
                0 <= n <= windows@.len(),
                keys_distinct(kept@),
                forall|s: u64| #[trigger] view_of(kept@, s) == view_after(
                    orig,
                    windows@,
                    walk(windows@, focused, n as int),
                    s,
                ),
                refreshed@.len() == walk(windows@, focused, n as int).len(),
                forall|k: int|
                    0 <= k < refreshed@.len() ==> {
                        let done = walk(windows@, focused, n as int);
                        &&& (#[trigger] refreshed@[k]).0 == done[k].0
                        &&& refresh_ok(
                            refreshed@[k].1,
                            view_after(orig, windows@, done.subrange(0, k), done[k].0),
                            done[k].1,
                        )
                    },
            decreases windows@.len() - n,
        {
            let w = &windows[n];
            let focused_here = match focused {
                Some(f) => f.index == n,
                None => false,
            };
            let ghost done = walk(windows@, focused, n as int);
            let handle = w.surface.is_some() && w.xdg.is_some();
            if handle && !focused_here {
                let ghost before = kept@;
                let (surface, r) = refresh_window(&mut kept, w, w.output);
                let ghost entry = (surface, window_view(*w, w.output));
                proof {
                    let next = walk(windows@, focused, n as int + 1);
                    assert(next == done.push(entry));
                    assert(next.subrange(0, done.len() as int) =~= done);
                    assert forall|s: u64| #[trigger] view_of(kept@, s) == view_after(
                        orig,
                        windows@,
                        next,
                        s,
                    ) by {
                        assert(next.drop_last() == done);
                    }
                }
                let ghost prev = refreshed@;
                refreshed.push((surface, r));
                proof {
                    let next = walk(windows@, focused, n as int + 1);
                    assert forall|k: int| 0 <= k < refreshed@.len() implies {
                        &&& (#[trigger] refreshed@[k]).0 == next[k].0
                        &&& refresh_ok(
                            refreshed@[k].1,
                            view_after(orig, windows@, next.subrange(0, k), next[k].0),
                            next[k].1,
                        )
                    } by {
                        if k < prev.len() {
                            assert(refreshed@[k] == prev[k]);
                            assert(next.subrange(0, k) =~= done.subrange(0, k));
                            assert(next[k] == done[k]);
                        } else {
                            assert(next.subrange(0, k) =~= done);
                        }
                    }
                }
            } else {
                proof {
                    assert(walk(windows@, focused, n as int + 1) == done);
                }
            }
            n = n + 1;
        }

        let ghost walked = walk(windows@, focused, windows@.len() as int);
        let ghost plan = refresh_plan(windows@, focused);
        match focused {
            Some(f) => {
                if f.index < windows.len() && windows[f.index].surface.is_some()
                    && windows[f.index].xdg.is_some() {
                    let w = &windows[f.index];
                    let (surface, r) = refresh_window(&mut kept, w, Some(f.output));
                    let ghost prev = refreshed@;
                    refreshed.push((surface, r));
                    proof {
                        assert(plan == walked.push((surface, window_view(*w, Some(f.output)))));
                        assert(plan.subrange(0, walked.len() as int) =~= walked);
                        assert forall|k: int| 0 <= k < refreshed@.len() implies {
                            &&& (#[trigger] refreshed@[k]).0 == plan[k].0
                            &&& refresh_ok(
                                refreshed@[k].1,
                                view_after(orig, windows@, plan.subrange(0, k), plan[k].0),
                                plan[k].1,
                            )
                        } by {
                            if k < prev.len() {
                                assert(refreshed@[k] == prev[k]);
                                assert(plan.subrange(0, k) =~= walked.subrange(0, k));
                            }
                        }
                        assert forall|s: u64| #[trigger] view_of(kept@, s) == view_after(
                            orig,
                            windows@,
                            plan,
                            s,
                        ) by {
                            assert(plan.drop_last() == walked);
                        }
                    }
                }
            },
            None => {},
        }
        proof {
            assert(plan.subrange(0, plan.len() as int) =~= plan);
            assert forall|k: int| 0 <= k < plan.len() implies view_before(
                orig,
                windows@,
                plan,
                k,
                plan[k].0,
            ) == view_after(orig, windows@, plan.subrange(0, k), plan[k].0) by {}
        }
        self.toplevels = kept;
        ToplevelsReport { closed, refreshed }
    }
}

/// No two windows share a surface.
pub open spec fn surfaces_distinct(windows: Seq<WindowSnapshot>) -> bool {
    forall|a: int, b: int|
        0 <= a < windows.len() && 0 <= b < windows.len() && a != b && windows[a].surface is Some
            ==> #[trigger] windows[a].surface != #[trigger] windows[b].surface
}

/// Every refresh of the walk comes from an earlier window with a handle
/// that is not the focused one, and no surface is refreshed twice.
proof fn lemma_walk(windows: Seq<WindowSnapshot>, focused: Option<FocusedWindow>, m: int)
    requires
        0 <= m <= windows.len(),
        surfaces_distinct(windows),
    ensures
        forall|k: int|
            0 <= k < walk(windows, focused, m).len() ==> exists|i: int|
                0 <= i < m && has_handle(windows[i]) && !is_focused(focused, i)
                    && #[trigger] walk(windows, focused, m)[k].0 == windows[i].surface->0,
        forall|a: int, b: int|
            0 <= a < walk(windows, focused, m).len() && 0 <= b < walk(windows, focused, m).len()
                && a != b ==> #[trigger] walk(windows, focused, m)[a].0 != #[trigger] walk(
                windows,
                focused,
                m,
            )[b].0,
    decreases m,
{
    if m > 0 {
        lemma_walk(windows, focused, m - 1);
        let prev = walk(windows, focused, m - 1);
        let cur = walk(windows, focused, m);
        let w = windows[m - 1];
        if has_handle(w) && !is_focused(focused, m - 1) {
            assert forall|k: int| 0 <= k < cur.len() implies exists|i: int|
                0 <= i < m && has_handle(windows[i]) && !is_focused(focused, i)
                    && #[trigger] cur[k].0 == windows[i].surface->0 by {
                if k < prev.len() {
                    assert(cur[k] == prev[k]);
                    let i = choose|i: int|
                        0 <= i < m - 1 && has_handle(windows[i]) && !is_focused(focused, i)
                            && #[trigger] prev[k].0 == windows[i].surface->0;
                    assert(cur[k].0 == windows[i].surface->0);
                } else {
                    assert(cur[k].0 == windows[m - 1].surface->0);
                }
            }
            assert forall|a: int, b: int|
                0 <= a < cur.len() && 0 <= b < cur.len() && a != b implies #[trigger] cur[a].0
                != #[trigger] cur[b].0 by {
                if a < prev.len() && b < prev.len() {
                    assert(cur[a] == prev[a] && cur[b] == prev[b]);
                } else if a < prev.len() {
                    let i = choose|i: int|
                        0 <= i < m - 1 && has_handle(windows[i]) && !is_focused(focused, i)
                            && #[trigger] prev[a].0 == windows[i].surface->0;
                    assert(windows[i].surface != windows[m - 1].surface);
                    assert(cur[a] == prev[a]);
                } else if b < prev.len() {
                    let i = choose|i: int|
                        0 <= i < m - 1 && has_handle(windows[i]) && !is_focused(focused, i)
                            && #[trigger] prev[b].0 == windows[i].surface->0;
                    assert(windows[i].surface != windows[m - 1].surface);
                    assert(cur[b] == prev[b]);
                }
            }
        }
    }
}

/// Where no two refreshes share a surface, the last refresh of the `k`-th
/// one's surface is it, and none before it has that surface.
proof fn lemma_unique_refresh(plan: Seq<(u64, ToplevelView)>, k: int)
    requires
        0 <= k < plan.len(),
        forall|a: int, b: int|
            0 <= a < plan.len() && 0 <= b < plan.len() && a != b ==> #[trigger] plan[a].0
                != #[trigger] plan[b].0,
    ensures
        last_refresh(plan, plan[k].0) == Some(plan[k].1),
        last_refresh(plan.subrange(0, k), plan[k].0) is None,
    decreases plan.len(),
{
    let s = plan[k].0;
    lemma_last_refresh_absent(plan.subrange(0, k), s);
    if k < plan.len() - 1 {
        let rest = plan.drop_last();
        assert forall|a: int, b: int|
            0 <= a < rest.len() && 0 <= b < rest.len() && a != b implies #[trigger] rest[a].0
            != #[trigger] rest[b].0 by {
            assert(rest[a] == plan[a] && rest[b] == plan[b]);
        }
        lemma_unique_refresh(rest, k);
        assert(rest[k] == plan[k]);
        assert(plan.last().0 != s);
        assert(rest.subrange(0, k) =~= plan.subrange(0, k));
    }
}

/// A surface that no refresh has is not refreshed.
proof fn lemma_last_refresh_absent(plan: Seq<(u64, ToplevelView)>, s: u64)
    ensures
        (forall|j: int| 0 <= j < plan.len() ==> #[trigger] plan[j].0 != s) ==> last_refresh(plan, s)
            is None,
        last_refresh(plan, s) is Some ==> exists|j: int| 0 <= j < plan.len() && #[trigger] plan[j].0 == s,
    decreases plan.len(),
{
    if plan.len() > 0 {
        lemma_last_refresh_absent(plan.drop_last(), s);
        if last_refresh(plan, s) is Some && plan.last().0 != s {
            let j = choose|j: int| 0 <= j < plan.len() - 1 && #[trigger] plan.drop_last()[j].0 == s;
            assert(plan[j].0 == s);
        }
        if plan.last().0 == s {
            assert(plan[plan.len() - 1].0 == s);
        }
        if forall|j: int| 0 <= j < plan.len() ==> #[trigger] plan[j].0 != s {
            assert(plan[plan.len() - 1].0 != s);
            assert forall|j: int| 0 <= j < plan.len() - 1 implies #[trigger] plan.drop_last()[j].0 != s by {
                assert(plan.drop_last()[j] == plan[j]);
            }
        }
    }
}

/// Refreshing again with the same windows tells taskbars nothing, where no
/// two windows share a surface: no handle closes, none is created, and
/// nothing changes on any.
pub proof fn law_toplevel_refresh_settles(
    records: Seq<(u64, ToplevelRecord)>,
    windows: Seq<WindowSnapshot>,
    focused: Option<FocusedWindow>,
)
    requires
        keys_distinct(records),
        surfaces_distinct(windows),
        forall|i: int| 0 <= i < records.len() ==> has_surface(windows, #[trigger] records[i].0),
        forall|s: u64|
            #[trigger] last_refresh(refresh_plan(windows, focused), s) is Some ==> view_of(records, s)
                == last_refresh(refresh_plan(windows, focused), s),
    ensures
        toplevels_split(records, windows, false) == Seq::<u64>::empty(),
        forall|k: int, r: ToplevelRefresh|
            0 <= k < refresh_plan(windows, focused).len() && #[trigger] refresh_ok(
                r,
                view_before(
                    records,
                    windows,
                    refresh_plan(windows, focused),
                    k,
                    refresh_plan(windows, focused)[k].0,
                ),
                refresh_plan(windows, focused)[k].1,
            ) ==> !r.created && !r.spec_something_changed(),
{
    lemma_none_closed(records, windows);
    let plan = refresh_plan(windows, focused);
    let walked = walk(windows, focused, windows.len() as int);
    lemma_walk(windows, focused, windows.len() as int);
    assert forall|a: int, b: int|
        0 <= a < plan.len() && 0 <= b < plan.len() && a != b implies #[trigger] plan[a].0
        != #[trigger] plan[b].0 by {
        if a < walked.len() && b < walked.len() {
            assert(plan[a] == walked[a] && plan[b] == walked[b]);
        } else {
            let f = focused->0;
            let (x, y) = if a < walked.len() { (a, b) } else { (b, a) };
            assert(plan[x] == walked[x]);
            let i = choose|i: int|
                0 <= i < windows.len() && has_handle(windows[i]) && !is_focused(focused, i)
                    && #[trigger] walked[x].0 == windows[i].surface->0;
            assert(i != f.index);
            assert(windows[i].surface != windows[f.index as int].surface);
        }
    }
    assert forall|k: int, r: ToplevelRefresh|
        0 <= k < plan.len() && #[trigger] refresh_ok(
            r,
            view_before(records, windows, plan, k, plan[k].0),
            plan[k].1,
        ) implies !r.created && !r.spec_something_changed() by {
        lemma_unique_refresh(plan, k);
        assert(has_surface(windows, plan[k].0)) by {
            if k < walked.len() {
                assert(plan[k] == walked[k]);
                let i = choose|i: int|
                    0 <= i < windows.len() && has_handle(windows[i]) && !is_focused(focused, i)
                        && #[trigger] walked[k].0 == windows[i].surface->0;
                assert(windows[i].surface == Some(plan[k].0));
            } else {
                let f = focused->0;
                assert(windows[f.index as int].surface == Some(plan[k].0));
            }
        }
        assert(view_before(records, windows, plan, k, plan[k].0) == Some(plan[k].1));
    }
}

proof fn lemma_none_closed(records: Seq<(u64, ToplevelRecord)>, windows: Seq<WindowSnapshot>)
    requires
        forall|i: int| 0 <= i < records.len() ==> has_surface(windows, #[trigger] records[i].0),
    ensures
        toplevels_split(records, windows, false) == Seq::<u64>::empty(),
    decreases records.len(),
{
    if records.len() > 0 {
        let rest = records.drop_last();
        assert forall|i: int| 0 <= i < rest.len() implies has_surface(windows, #[trigger] rest[i].0) by {
            assert(rest[i] == records[i]);
        }
        lemma_none_closed(rest, windows);
        assert(has_surface(windows, records[records.len() - 1].0));
    }
}

} // verus!
