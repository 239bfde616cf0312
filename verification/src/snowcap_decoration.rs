//! Decoration surfaces: the bounds a decoration reserves around a window, and
//! the configure and acknowledge exchange that hands a decoration its state.
use vstd::prelude::*;

use crate::geometry::{Point, Size};

verus! {

/// How far a decoration reaches beyond each edge of its window.
#[derive(Debug, Clone, Copy, PartialEq, Eq, Structural)]
pub struct Bounds {
    pub top: u32,
    pub bottom: u32,
    pub left: u32,
    pub right: u32,
}

impl Default for Bounds {
    fn default() -> (r: Self)
        ensures
            r == (Bounds { top: 0, bottom: 0, left: 0, right: 0 }),
    {
        Bounds { top: 0, bottom: 0, left: 0, right: 0 }
    }
}

/// The state a decoration surface commits: where it lies, its bounds and
/// its stacking order.
#[derive(Debug, Clone, Copy, PartialEq, Eq, Structural)]
pub struct DecorationSurfaceCachedState {
    pub location: Point,
    pub bounds: Bounds,
    pub z_index: i32,
}

impl Default for DecorationSurfaceCachedState {
    fn default() -> (r: Self)
        ensures
            r == (DecorationSurfaceCachedState {
                location: Point { x: 0, y: 0 },
                bounds: Bounds { top: 0, bottom: 0, left: 0, right: 0 },
                z_index: 0,
            }),
    {
        DecorationSurfaceCachedState {
            location: Point { x: 0, y: 0 },
            bounds: Bounds::default(),
            z_index: 0,
        }
    }
}

impl DecorationSurfaceCachedState {
    /// Records the bounds a client set; the rest stays.
    pub fn set_bounds(&mut self, left: u32, right: u32, top: u32, bottom: u32)
        ensures
            final(self).bounds == (Bounds { top, bottom, left, right }),
            final(self).location == old(self).location,
            final(self).z_index == old(self).z_index,
    {
        self.bounds.left = left;
        self.bounds.right = right;
        self.bounds.top = top;
        self.bounds.bottom = bottom;
    }
}

/// The state the compositor gives a decoration surface: the size of the
/// toplevel it decorates.
#[derive(Debug, Clone, Copy, PartialEq, Eq, Structural)]
pub struct DecorationSurfaceState {
    pub toplevel_size: Option<Size>,
}

/// A state sent to the client under a serial.
#[derive(Debug, Clone, Copy, PartialEq, Eq, Structural)]
pub struct DecorationSurfaceConfigure {
    pub state: DecorationSurfaceState,
    pub serial: u32,
}

/// The state a decoration has before anything was sent or acknowledged.
pub open spec fn default_decoration_state() -> DecorationSurfaceState {
    DecorationSurfaceState { toplevel_size: None }
}

/// The state last sent: that of the newest configure still waiting for an
/// acknowledgement, else that of the last acknowledged one, else the default.
pub open spec fn current_state(
    pending: Seq<DecorationSurfaceConfigure>,
    last_acked: Option<DecorationSurfaceConfigure>,
) -> DecorationSurfaceState {
    if pending.len() > 0 {
        pending.last().state
    } else {
        match last_acked {
            Some(c) => c.state,
            None => default_decoration_state(),
        }
    }
}

/// Serials increase in the order configures were sent.
pub open spec fn serials_increasing(pending: Seq<DecorationSurfaceConfigure>) -> bool {
    forall|i: int, j: int| 0 <= i < j < pending.len() ==> pending[i].serial < pending[j].serial
}

/// The configures sent after the one with `serial`.
pub open spec fn later_than(pending: Seq<DecorationSurfaceConfigure>, serial: u32) -> Seq<
    DecorationSurfaceConfigure,
>
    decreases pending.len(),
{
    if pending.len() == 0 {
        Seq::empty()
    } else {
        let rest = later_than(pending.drop_last(), serial);
        if pending.last().serial > serial {
            rest.push(pending.last())
        } else {
            rest
        }
    }
}

/// The configures sent after a serial come from those waiting, in order.
proof fn lemma_later_than(pending: Seq<DecorationSurfaceConfigure>, serial: u32)
    ensures
        forall|c: DecorationSurfaceConfigure| #[trigger]
            later_than(pending, serial).contains(c) ==> pending.contains(c) && c.serial > serial,
        serials_increasing(pending) ==> serials_increasing(later_than(pending, serial)),
    decreases pending.len(),
{
    if pending.len() > 0 {
        let rest = pending.drop_last();
        lemma_later_than(rest, serial);
        let f = later_than(rest, serial);
        assert forall|c: DecorationSurfaceConfigure| #[trigger]
            later_than(pending, serial).contains(c) implies pending.contains(c) && c.serial > serial by {
            if f.contains(c) {
                let j = choose|j: int| 0 <= j < rest.len() && rest[j] == c;
                assert(pending[j] == c);
            } else {
                assert(c == pending.last());
                assert(pending[pending.len() - 1] == c);
            }
        }
        if serials_increasing(pending) {
            assert(serials_increasing(rest)) by {
                assert forall|i: int, j: int| 0 <= i < j < rest.len() implies rest[i].serial
                    < rest[j].serial by {
                    assert(rest[i] == pending[i] && rest[j] == pending[j]);
                }
            }
            if pending.last().serial > serial {
                let g = f.push(pending.last());
                assert forall|i: int, j: int| 0 <= i < j < g.len() implies g[i].serial
                    < g[j].serial by {
                    if j == f.len() {
                        assert(f.contains(f[i]));
                        let x = choose|x: int| 0 <= x < rest.len() && rest[x] == f[i];
                        assert(pending[x] == f[i]);
                        assert(pending[x].serial < pending[pending.len() - 1].serial);
                    } else {
                        assert(g[i] == f[i] && g[j] == f[j]);
                    }
                }
            }
        }
    }
}

/// The position of the configure sent under `serial`, if one waits.
fn find_serial(pending: &Vec<DecorationSurfaceConfigure>, serial: u32) -> (r: Option<usize>)
    ensures
        r is None ==> forall|i: int| 0 <= i < pending@.len() ==> #[trigger] pending@[i].serial != serial,
        r is Some ==> r->0 < pending@.len() && pending@[r->0 as int].serial == serial,
{
    let mut i: usize = 0;
    while i < pending.len()
        invariant
            0 <= i <= pending@.len(),
            forall|j: int| 0 <= j < i ==> #[trigger] pending@[j].serial != serial,
        decreases pending@.len() - i,
    {
        if pending[i].serial == serial {
            return Some(i);
        }
        i = i + 1;
    }
    None
}

/// The exchange of configures of one decoration surface.
#[derive(Debug)]
pub struct DecorationSurfaceAttributes {
    pub initial_configure_sent: bool,
    /// The configures sent and not yet acknowledged, oldest first.
    pub pending_configures: Vec<DecorationSurfaceConfigure>,
    /// The state the compositor means to send next, if it changed anything.
    pub server_pending: Option<DecorationSurfaceState>,
    pub last_acked: Option<DecorationSurfaceConfigure>,
}

impl DecorationSurfaceAttributes {
    /// The configures sent and not yet acknowledged, oldest first.
    pub open spec fn pending(&self) -> Seq<DecorationSurfaceConfigure> {
        self.pending_configures@
    }

    /// The serials of the waiting configures increase.
    pub open spec fn wf(&self) -> bool {
        serials_increasing(self.pending())
    }

    /// The state last sent.
    pub open spec fn spec_current(&self) -> DecorationSurfaceState {
        current_state(self.pending(), self.last_acked)
    }

    /// Whether the state to send differs from the state last sent.
    pub open spec fn spec_has_pending_changes(&self) -> bool {
        self.server_pending is Some && self.server_pending->0 != self.spec_current()
    }

    /// A surface that was never configured.
    pub fn new() -> (r: Self)
        ensures
            r.wf(),
            !r.initial_configure_sent,
            r.pending().len() == 0,
            r.server_pending is None,
            r.last_acked is None,
    {
        DecorationSurfaceAttributes {
            initial_configure_sent: false,
            pending_configures: Vec::new(),
            server_pending: None,
            last_acked: None,
        }
    }

    /// Forgets everything, as for a surface that was never configured.
    pub fn reset(&mut self)
        ensures
            final(self).wf(),
            !final(self).initial_configure_sent,
            final(self).pending().len() == 0,
            final(self).server_pending is None,
            final(self).last_acked is None,
    {
        self.initial_configure_sent = false;
        self.pending_configures = Vec::new();
        self.server_pending = None;
        self.last_acked = None;
    }

    /// The state last sent.
    pub fn current_server_state(&self) -> (r: DecorationSurfaceState)
        ensures
            r == self.spec_current(),
    {
        let n = self.pending_configures.len();
        if n > 0 {
            self.pending_configures[n - 1].state
        } else {
            match self.last_acked {
                Some(c) => c.state,
                None => DecorationSurfaceState { toplevel_size: None },
            }
        }
    }

    /// Whether the state to send differs from the state last sent.
    pub fn has_pending_changes(&self) -> (r: bool)
        ensures
            r == self.spec_has_pending_changes(),
    {
        match self.server_pending {
            Some(s) => s != self.current_server_state(),
            None => false,
        }
    }

    /// Sets the toplevel size in the state to send next.
    pub fn set_pending_toplevel_size(&mut self, toplevel_size: Option<Size>)
        requires
            old(self).wf(),
        ensures
            final(self).wf(),
            final(self).server_pending == Some(DecorationSurfaceState { toplevel_size }),
            final(self).pending() == old(self).pending(),
            final(self).last_acked == old(self).last_acked,
            final(self).initial_configure_sent == old(self).initial_configure_sent,
    {
        self.server_pending = Some(DecorationSurfaceState { toplevel_size });
    }

    /// Takes the state to send: before the first configure, the state to
    /// send or else the state last sent; afterwards the state to send, only
    /// where it differs from the state last sent.
    pub fn get_pending_state(&mut self) -> (r: Option<DecorationSurfaceState>)
        requires
            old(self).wf(),
        ensures
            final(self).wf(),
            final(self).pending() == old(self).pending(),
            final(self).last_acked == old(self).last_acked,
            final(self).initial_configure_sent == old(self).initial_configure_sent,
            !old(self).initial_configure_sent ==> r == Some(
                match old(self).server_pending {
                    Some(p) => p,
                    None => old(self).spec_current(),
                },
            ) && final(self).server_pending is None,
            old(self).initial_configure_sent && !old(self).spec_has_pending_changes() ==> r is None
                && final(self).server_pending == old(self).server_pending,
            old(self).initial_configure_sent && old(self).spec_has_pending_changes() ==> r == old(
                self,
            ).server_pending && final(self).server_pending is None,
    {
        if !self.initial_configure_sent {
            let current = self.current_server_state();
            let taken = self.server_pending.take();
            return Some(
                match taken {
                    Some(p) => p,
                    None => current,
                },
            );
        }
        if !self.has_pending_changes() {
            return None;
        }
        self.server_pending.take()
    }

    /// Whether the surface needs a configure: it never had one, or the state
    /// to send differs from the state last sent.
    pub fn needs_configure(&self) -> (r: bool)
        ensures
            r == (!self.initial_configure_sent || self.spec_has_pending_changes()),
    {
        !self.initial_configure_sent || self.has_pending_changes()
    }

    /// Sends a configure under `serial`, newer than every configure still
    /// waiting: the state to send if there is one to take, else the state
    /// last sent. Returns what was sent.
    pub fn send_configure(&mut self, serial: u32) -> (r: DecorationSurfaceConfigure)
        requires
            old(self).wf(),
            old(self).pending().len() > 0 ==> old(self).pending().last().serial < serial,
        ensures
            final(self).wf(),
            r.serial == serial,
            final(self).pending() == old(self).pending().push(r),
            final(self).initial_configure_sent,
            final(self).last_acked == old(self).last_acked,
            final(self).spec_current() == r.state,
            !final(self).spec_has_pending_changes(),
            r.state == if !old(self).initial_configure_sent {
                match old(self).server_pending {
                    Some(p) => p,
                    None => old(self).spec_current(),
                }
            } else if old(self).spec_has_pending_changes() {
                old(self).server_pending->0
            } else {
                old(self).spec_current()
            },
    {
        let current = self.current_server_state();
        let state = match self.get_pending_state() {
            Some(s) => s,
            None => current,
        };
        let configure = DecorationSurfaceConfigure { state, serial };
        self.pending_configures.push(configure);
        self.initial_configure_sent = true;
        proof {
            assert(self.pending().last() == configure);
        }
        configure
    }

    /// Sends a configure under `serial` where the surface needs one.
    pub fn send_pending_configure(&mut self, serial: u32) -> (r: Option<DecorationSurfaceConfigure>)
        requires
            old(self).wf(),
            old(self).pending().len() > 0 ==> old(self).pending().last().serial < serial,
        ensures
            final(self).wf(),
            !(!old(self).initial_configure_sent || old(self).spec_has_pending_changes()) ==> r is None
                && final(self).pending() == old(self).pending() && final(self).server_pending
                == old(self).server_pending,
            (!old(self).initial_configure_sent || old(self).spec_has_pending_changes()) ==> r is Some
                && r->0.serial == serial && final(self).pending() == old(self).pending().push(r->0)
                && final(self).spec_current() == r->0.state,
    {
        if self.needs_configure() {
            Some(self.send_configure(serial))
        } else {
            None
        }
    }

    /// The client acknowledges the configure with `serial`: where one was
    /// sent under it, it becomes the last acknowledged one, and it and all
    /// configures sent before it stop waiting.
    pub fn ack_configure(&mut self, serial: u32) -> (r: Option<DecorationSurfaceConfigure>)
        requires
            old(self).wf(),
        ensures
            final(self).wf(),
            final(self).initial_configure_sent == old(self).initial_configure_sent,
            final(self).server_pending == old(self).server_pending,
            (forall|i: int| 0 <= i < old(self).pending().len() ==> #[trigger] old(self).pending()[i].serial
                != serial) ==> r is None && final(self).pending() == old(self).pending()
                && final(self).last_acked == old(self).last_acked,
            (exists|i: int| 0 <= i < old(self).pending().len() && #[trigger] old(self).pending()[i].serial
                == serial) ==> {
                &&& r is Some
                &&& r->0.serial == serial
                &&& old(self).pending().contains(r->0)
                &&& final(self).last_acked == r
                &&& final(self).pending() == later_than(old(self).pending(), serial)
            },
    {
        let configure = match find_serial(&self.pending_configures, serial) {
            Some(i) => {
                assert(self.pending_configures@.contains(self.pending_configures@[i as int]));
                self.pending_configures[i]
            },
            None => {
                return None;
            },
        };
        self.last_acked = Some(configure);
        let ghost before = self.pending_configures@;
        let mut kept: Vec<DecorationSurfaceConfigure> = Vec::new();
        let mut k: usize = 0;
        while k < self.pending_configures.len()
            invariant
                before == self.pending_configures@,
                0 <= k <= before.len(),
                kept@ == later_than(before.subrange(0, k as int), serial),
            decreases before.len() - k,
        {
            let c = self.pending_configures[k];
            proof {
                let sub = before.subrange(0, k as int + 1);
                assert(sub.drop_last() =~= before.subrange(0, k as int));
            }
            if c.serial > serial {
                kept.push(c);
            }
            k = k + 1;
        }
        proof {
            assert(before.subrange(0, k as int) =~= before);
            lemma_later_than(before, serial);
        }
        self.pending_configures = kept;
        Some(configure)
    }
}

/// Acknowledging the newest configure sent leaves nothing waiting and makes
/// it the last acknowledged one: what the compositor sent is what the client
/// has.
pub proof fn law_ack_of_newest_configure(
    pending: Seq<DecorationSurfaceConfigure>,
    last: DecorationSurfaceConfigure,
)
    requires
        serials_increasing(pending.push(last)),
    ensures
        later_than(pending.push(last), last.serial) == Seq::<DecorationSurfaceConfigure>::empty(),
        pending.push(last).contains(last),
{
    let s = pending.push(last);
    assert(s[pending.len() as int] == last);
    lemma_later_than(s, last.serial);
    let f = later_than(s, last.serial);
    if f.len() > 0 {
        assert(f.contains(f[0]));
        let k = choose|k: int| 0 <= k < s.len() && s[k] == f[0];
        if k < pending.len() {
            assert(s[k].serial < s[pending.len() as int].serial);
        }
    }
    assert(f =~= Seq::<DecorationSurfaceConfigure>::empty());
}

} // verus!
