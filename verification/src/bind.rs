//! Key, mouse and gesture bindings, and the decision of what happens to an input
//! event that may trigger them.
//!
//! A binding lives in an id map (its owner) and is reachable from a trigger map
//! (key, button or gesture) through its id. An id in a trigger list whose binding
//! is gone from the id map is stale and is dropped the next time the list is walked.
use vstd::prelude::*;

use std::collections::HashMap;

use indexmap::IndexMap;
use tokio::sync::mpsc::{UnboundedReceiver, UnboundedSender};

use crate::keyed::{
    has_key, key_index, keys_distinct, lemma_key_index_unique, lemma_push_fresh,
    lemma_remove_at, lemma_update_value, lookup,
};
use crate::tag::wrapping_succ;

pub mod channel;
pub mod laws;
pub mod maps;

use channel::{edge_channel, send_edge};
use maps::{
    gesturebind_entries, gesturebind_map_get_index, gesturebind_map_get_index_mut,
    gesturebind_map_index_of, gesturebind_map_insert, gesturebind_map_new,
    gesturebind_map_shift_remove, keybind_entries, keybind_map_clear, keybind_map_get_index,
    keybind_map_get_index_mut, keybind_map_index_of, keybind_map_insert, keybind_map_new,
    keybind_map_shift_remove, mousebind_entries, mousebind_map_clear, mousebind_map_get_index,
    mousebind_map_get_index_mut, mousebind_map_index_of, mousebind_map_insert,
    mousebind_map_new, mousebind_map_shift_remove, trigger_entries, trigger_map_clear,
    trigger_map_get_index, trigger_map_index_of, trigger_map_insert, trigger_map_new,
};

verus! {

broadcast use vstd::std_specs::hash::group_hash_axioms;

/// Whether an input was pressed or released.
#[derive(Debug, Clone, Copy, Hash, PartialEq, Eq, Structural)]
pub enum Edge {
    Press,
    Release,
}

/// The modifiers held down when an input event happens.
#[derive(Debug, Clone, Copy, PartialEq, Eq, Structural, Default)]
pub struct ModifiersState {
    pub ctrl: bool,
    pub alt: bool,
    pub shift: bool,
    pub caps_lock: bool,
    pub logo: bool,
    pub num_lock: bool,
    pub iso_level3_shift: bool,
    pub iso_level5_shift: bool,
}

/// Which modifiers a binding needs: `Some(b)` means the modifier must be held
/// exactly when `b`, `None` means it does not matter.
#[derive(Debug, Copy, Clone, PartialEq, Eq, Structural)]
pub struct ModMask {
    pub shift: Option<bool>,
    pub ctrl: Option<bool>,
    pub alt: Option<bool>,
    pub super_: Option<bool>,
    pub iso_level3_shift: Option<bool>,
    pub iso_level5_shift: Option<bool>,
}

/// A mask entry accepts the state of one modifier.
pub open spec fn modifier_accepts(required: Option<bool>, held: bool) -> bool {
    match required {
        Some(b) => b == held,
        None => true,
    }
}

fn modifier_matches(required: Option<bool>, held: bool) -> (r: bool)
    ensures
        r == modifier_accepts(required, held),
{
    match required {
        Some(b) => b == held,
        None => true,
    }
}

impl ModMask {
    /// Every modifier the mask cares about accepts the held state.
    pub open spec fn spec_matches(self, state: ModifiersState) -> bool {
        &&& modifier_accepts(self.shift, state.shift)
        &&& modifier_accepts(self.ctrl, state.ctrl)
        &&& modifier_accepts(self.alt, state.alt)
        &&& modifier_accepts(self.super_, state.logo)
        &&& modifier_accepts(self.iso_level3_shift, state.iso_level3_shift)
        &&& modifier_accepts(self.iso_level5_shift, state.iso_level5_shift)
    }

    /// A mask that requires every modifier to be released.
    pub fn new() -> (r: Self)
        ensures
            r == (ModMask {
                shift: Some(false),
                ctrl: Some(false),
                alt: Some(false),
                super_: Some(false),
                iso_level3_shift: Some(false),
                iso_level5_shift: Some(false),
            }),
    {
        Self {
            shift: Some(false),
            ctrl: Some(false),
            alt: Some(false),
            super_: Some(false),
            iso_level3_shift: Some(false),
            iso_level5_shift: Some(false),
        }
    }

    /// Whether the held modifiers satisfy this mask.
    pub fn matches(&self, mod_state: ModifiersState) -> (r: bool)
        ensures
            r == self.spec_matches(mod_state),
    {
        let shift = modifier_matches(self.shift, mod_state.shift);
        let ctrl = modifier_matches(self.ctrl, mod_state.ctrl);
        let alt = modifier_matches(self.alt, mod_state.alt);
        let super_ = modifier_matches(self.super_, mod_state.logo);
        let iso_level3_shift = modifier_matches(self.iso_level3_shift, mod_state.iso_level3_shift);
        let iso_level5_shift = modifier_matches(self.iso_level5_shift, mod_state.iso_level5_shift);

        shift && ctrl && alt && super_ && iso_level3_shift && iso_level5_shift
    }
}

/// The view of an optional layer name.
pub open spec fn layer_view(layer: Option<String>) -> Option<Seq<char>> {
    match layer {
        Some(s) => Some(s@),
        None => None,
    }
}

fn same_layer(a: &Option<String>, b: &Option<String>) -> (r: bool)
    ensures
        r == (layer_view(*a) == layer_view(*b)),
{
    match (a, b) {
        (Some(x), Some(y)) => x.eq(y),
        (None, None) => true,
        _ => false,
    }
}

/// What every binding holds, whatever triggers it.
#[derive(Debug)]
pub struct BindData {
    pub id: u32,
    pub mods: ModMask,
    pub layer: Option<String>,
    pub group: String,
    pub desc: String,
    pub is_quit_bind: bool,
    pub is_reload_config_bind: bool,
    pub allow_when_locked: bool,
}

/// What becomes of an input event that may trigger bindings.
#[derive(Debug, Copy, Clone, PartialEq, Eq, Hash, Structural)]
pub enum BindAction {
    /// Send the event on to the focused client.
    Forward,
    /// A binding handled the event; do not send it on.
    Suppress,
    /// Quit the compositor.
    Quit,
    /// Reload the config.
    ReloadConfig,
}

/// One field of a binding's data, with its new value.
pub enum BindField {
    Group(String),
    Desc(String),
    IsQuitBind(bool),
    IsReloadConfigBind(bool),
    AllowWhenLocked(bool),
}

/// A binding's view with one field of its data set.
pub open spec fn field_applied(v: BindView, field: BindField) -> BindView {
    match field {
        BindField::Group(g) => BindView { group: g@, ..v },
        BindField::Desc(d) => BindView { desc: d@, ..v },
        BindField::IsQuitBind(b) => BindView { is_quit_bind: b, ..v },
        BindField::IsReloadConfigBind(b) => BindView { is_reload_config_bind: b, ..v },
        BindField::AllowWhenLocked(b) => BindView { allow_when_locked: b, ..v },
    }
}

fn apply_field(data: &mut BindData, field: BindField)
    ensures
        bind_data_view(*final(data), false) == field_applied(bind_data_view(*old(data), false), field),
        final(data).id == old(data).id,
{
    match field {
        BindField::Group(g) => data.group = g,
        BindField::Desc(d) => data.desc = d,
        BindField::IsQuitBind(b) => data.is_quit_bind = b,
        BindField::IsReloadConfigBind(b) => data.is_reload_config_bind = b,
        BindField::AllowWhenLocked(b) => data.allow_when_locked = b,
    }
}

/// The source of binding ids, shared by keybinds, mousebinds and gesturebinds.
///
/// It wraps around after `u32::MAX`, like an atomic counter incremented with `fetch_add`.
#[derive(Debug, Clone, Copy, PartialEq, Eq, Structural, Default)]
pub struct BindIdCounter {
    pub next: u32,
}

impl BindIdCounter {
    /// Hands out the next id.
    pub fn take(&mut self) -> (id: u32)
        ensures
            id == old(self).next,
            final(self).next == wrapping_succ(old(self).next),
    {
        let id = self.next;
        self.next = self.next.wrapping_add(1);
        id
    }
}

/// The plain content of a binding that decides what its trigger does.
pub struct BindView {
    pub id: u32,
    pub mods: ModMask,
    pub layer: Option<Seq<char>>,
    pub group: Seq<char>,
    pub desc: Seq<char>,
    pub is_quit_bind: bool,
    pub is_reload_config_bind: bool,
    pub allow_when_locked: bool,
    /// For keybinds and mousebinds, whether the config listens for presses;
    /// for gesturebinds, whether it listens for the start of the gesture.
    pub has_on_press: bool,
}

pub open spec fn bind_data_view(d: BindData, has_on_press: bool) -> BindView {
    BindView {
        id: d.id,
        mods: d.mods,
        layer: layer_view(d.layer),
        group: d.group@,
        desc: d.desc@,
        is_quit_bind: d.is_quit_bind,
        is_reload_config_bind: d.is_reload_config_bind,
        allow_when_locked: d.allow_when_locked,
        has_on_press,
    }
}

/// The same view with another press (or gesture begin) flag.
pub open spec fn with_has_on_press(v: BindView, has_on_press: bool) -> BindView {
    BindView { has_on_press, ..v }
}

/// The progress of walking a trigger's bindings on a press.
pub struct PressScan {
    /// What the event has come to so far.
    pub action: BindAction,
    /// The ids of the bindings whose modifiers matched, in order.
    pub pushed: Seq<u32>,
    /// Some matching binding listens for presses, so that presses of
    /// other triggers are forgotten.
    pub clear_others: bool,
}

/// A quit or reload binding has already decided the event.
pub open spec fn decided(action: BindAction) -> bool {
    action == BindAction::Quit || action == BindAction::ReloadConfig
}

/// A matching, non-quit, non-reload binding forwards a press to the config.
pub open spec fn sends_press(
    b: BindView,
    layer: Option<Seq<char>>,
    inhibited: bool,
    locked: bool,
) -> bool {
    &&& !b.is_quit_bind
    &&& !b.is_reload_config_bind
    &&& b.has_on_press
    &&& layer == b.layer
    &&& !inhibited
    &&& (!locked || b.allow_when_locked)
}

/// Walks the ids of a trigger's bindings, in order, on a press.
pub open spec fn press_scan(
    views: Seq<(u32, BindView)>,
    ids: Seq<u32>,
    mods: ModifiersState,
    layer: Option<Seq<char>>,
    inhibited: bool,
    locked: bool,
) -> PressScan
    decreases ids.len(),
{
    if ids.len() == 0 {
        PressScan { action: BindAction::Forward, pushed: Seq::empty(), clear_others: false }
    } else {
        let prev = press_scan(views, ids.drop_last(), mods, layer, inhibited, locked);
        match lookup(views, ids.last()) {
            None => prev,
            Some(b) => if decided(prev.action) || !b.mods.spec_matches(mods) {
                prev
            } else {
                PressScan {
                    action: if b.is_quit_bind {
                        BindAction::Quit
                    } else if b.is_reload_config_bind {
                        BindAction::ReloadConfig
                    } else if sends_press(b, layer, inhibited, locked) {
                        BindAction::Suppress
                    } else {
                        prev.action
                    },
                    pushed: prev.pushed.push(ids.last()),
                    clear_others: prev.clear_others || b.has_on_press,
                }
            },
        }
    }
}

/// The binding at position `i` of the trigger's list forwards the press to the config.
pub open spec fn press_sends_at(
    views: Seq<(u32, BindView)>,
    ids: Seq<u32>,
    i: int,
    mods: ModifiersState,
    layer: Option<Seq<char>>,
    inhibited: bool,
    locked: bool,
) -> bool {
    let prev = press_scan(views, ids.take(i), mods, layer, inhibited, locked);
    match lookup(views, ids[i]) {
        None => false,
        Some(b) => !decided(prev.action) && b.mods.spec_matches(mods) && sends_press(
            b,
            layer,
            inhibited,
            locked,
        ),
    }
}

/// The ids that stay in a trigger's list: those of live bindings whose
/// press, if sent, was accepted (`failed[i]` marks a refused send at `i`).
pub open spec fn retained_ids(views: Seq<(u32, BindView)>, ids: Seq<u32>, failed: Seq<bool>) -> Seq<
    u32,
>
    decreases ids.len(),
{
    if ids.len() == 0 {
        Seq::empty()
    } else {
        let rest = retained_ids(views, ids.drop_last(), failed.take(ids.len() - 1));
        if has_key(views, ids.last()) && !failed[ids.len() - 1] {
            rest.push(ids.last())
        } else {
            rest
        }
    }
}

/// Which positions of a trigger's list a press was refused at, given the
/// outcome of each send in the order sent (`outcomes[n]` is that of the
/// `n`-th send): a position whose binding was sent the press, and whose send
/// came back `false`.
pub open spec fn press_failures(
    views: Seq<(u32, BindView)>,
    ids: Seq<u32>,
    mods: ModifiersState,
    layer: Option<Seq<char>>,
    inhibited: bool,
    locked: bool,
    outcomes: Seq<bool>,
) -> Seq<bool>
    decreases ids.len(),
{
    if ids.len() == 0 {
        Seq::empty()
    } else {
        let prev = press_failures(views, ids.drop_last(), mods, layer, inhibited, locked, outcomes);
        let n = press_sends(views, ids.drop_last(), mods, layer, inhibited, locked).len() as int;
        prev.push(
            press_sends_at(views, ids, ids.len() - 1, mods, layer, inhibited, locked)
                && !outcomes[n],
        )
    }
}

/// There is one failure mark per position, and more outcomes than sends change
/// none of them.
proof fn lemma_press_failures(
    views: Seq<(u32, BindView)>,
    ids: Seq<u32>,
    mods: ModifiersState,
    layer: Option<Seq<char>>,
    inhibited: bool,
    locked: bool,
    outcomes: Seq<bool>,
    more: Seq<bool>,
)
    requires
        press_sends(views, ids, mods, layer, inhibited, locked).len() <= outcomes.len(),
    ensures
        press_failures(views, ids, mods, layer, inhibited, locked, outcomes).len() == ids.len(),
        press_failures(views, ids, mods, layer, inhibited, locked, outcomes + more)
            == press_failures(views, ids, mods, layer, inhibited, locked, outcomes),
    decreases ids.len(),
{
    if ids.len() > 0 {
        lemma_press_failures(views, ids.drop_last(), mods, layer, inhibited, locked, outcomes, more);
        let n = press_sends(views, ids.drop_last(), mods, layer, inhibited, locked).len() as int;
        if press_sends_at(views, ids, ids.len() - 1, mods, layer, inhibited, locked) {
            assert((outcomes + more)[n] == outcomes[n]);
        }
    }
}

/// The sends of one edge to the bindings `ids`, in order, each with whether
/// it was delivered (`outcomes[i]` for the send to `ids[i]`).
pub open spec fn with_outcomes(ids: Seq<u32>, edge: Edge, outcomes: Seq<bool>) -> Seq<(u32, Edge, bool)> {
    Seq::new(ids.len(), |i: int| (ids[i], edge, outcomes[i]))
}

/// The outcomes of the sends that `after` logged beyond `before`, in order.
pub open spec fn outcomes_of(before: Seq<(u32, Edge, bool)>, after: Seq<(u32, Edge, bool)>) -> Seq<bool> {
    after.skip(before.len() as int).map_values(|e: (u32, Edge, bool)| e.2)
}

/// Logging sends with their outcomes: the outcomes read back from the log
/// are those that were logged.
proof fn lemma_outcomes_of(log: Seq<(u32, Edge, bool)>, ids: Seq<u32>, edge: Edge, outcomes: Seq<bool>)
    requires
        outcomes.len() == ids.len(),
    ensures
        outcomes_of(log, log + with_outcomes(ids, edge, outcomes)) == outcomes,
{
    assert(outcomes_of(log, log + with_outcomes(ids, edge, outcomes)) =~= outcomes);
}

/// How the pressed-bindings record changes after a press that matched `pushed`.
pub open spec fn pressed_after(
    pressed: Map<u32, Seq<u32>>,
    trigger: u32,
    scan: PressScan,
) -> Map<u32, Seq<u32>> {
    if scan.pushed.len() == 0 {
        pressed
    } else {
        let list = if pressed.contains_key(trigger) {
            pressed[trigger]
        } else {
            Seq::empty()
        } + scan.pushed;
        if scan.clear_others {
            Map::empty().insert(trigger, list)
        } else {
            pressed.insert(trigger, list)
        }
    }
}

/// What the release of a trigger comes to: the answer, the ids the release
/// was sent to in order, and the ids of the bindings whose config refused it,
/// in the order refused.
pub struct ReleaseWalk {
    pub action: BindAction,
    pub sent: Seq<u32>,
    pub refused: Seq<u32>,
}

/// Walks the ids of the bindings pressed with a trigger, on its release,
/// given the outcome of each send in the order sent. A binding that is gone,
/// or whose config already refused the release, is passed over. The walk stops
/// at the first quit binding, reload binding, or binding that may not run
/// now; each other binding is sent the release, and one whose config refuses
/// it is unbound.
pub open spec fn release_walk(
    views: Seq<(u32, BindView)>,
    ids: Seq<u32>,
    outcomes: Seq<bool>,
    acc: BindAction,
    refused: Seq<u32>,
    inhibited: bool,
    locked: bool,
) -> ReleaseWalk
    decreases ids.len(),
{
    if ids.len() == 0 {
        ReleaseWalk { action: acc, sent: Seq::empty(), refused }
    } else {
        let rest = ids.drop_first();
        match lookup(views, ids[0]) {
            None => release_walk(views, rest, outcomes, acc, refused, inhibited, locked),
            Some(b) => if refused.contains(ids[0]) {
                release_walk(views, rest, outcomes, acc, refused, inhibited, locked)
            } else if b.is_quit_bind {
                ReleaseWalk { action: BindAction::Quit, sent: Seq::empty(), refused }
            } else if b.is_reload_config_bind {
                ReleaseWalk { action: BindAction::ReloadConfig, sent: Seq::empty(), refused }
            } else if inhibited || (locked && !b.allow_when_locked) {
                ReleaseWalk { action: BindAction::Forward, sent: Seq::empty(), refused }
            } else {
                let after = release_walk(
                    views,
                    rest,
                    outcomes.drop_first(),
                    if b.has_on_press {
                        BindAction::Suppress
                    } else {
                        acc
                    },
                    if outcomes[0] {
                        refused
                    } else {
                        refused.push(ids[0])
                    },
                    inhibited,
                    locked,
                );
                ReleaseWalk { sent: seq![ids[0]] + after.sent, ..after }
            },
        }
    }
}

/// `s` without the entries under `ids`, taken out one id after another.
pub open spec fn without_ids<V>(s: Seq<(u32, V)>, ids: Seq<u32>) -> Seq<(u32, V)>
    decreases ids.len(),
{
    if ids.len() == 0 {
        s
    } else {
        let r = without_ids(s, ids.drop_last());
        if has_key(r, ids.last()) {
            r.remove(key_index(r, ids.last()))
        } else {
            r
        }
    }
}

/// The ids of the bindings a press is sent to, in the order of the
/// trigger's list: those at the positions where `press_sends_at` holds.
pub open spec fn press_sends(
    views: Seq<(u32, BindView)>,
    ids: Seq<u32>,
    mods: ModifiersState,
    layer: Option<Seq<char>>,
    inhibited: bool,
    locked: bool,
) -> Seq<u32>
    decreases ids.len(),
{
    if ids.len() == 0 {
        Seq::empty()
    } else {
        let prev = press_sends(views, ids.drop_last(), mods, layer, inhibited, locked);
        if press_sends_at(views, ids, ids.len() - 1, mods, layer, inhibited, locked) {
            prev.push(ids.last())
        } else {
            prev
        }
    }
}

/// Whether the binding at `i` is sent the press depends only on the list up
/// to `i`.
proof fn lemma_press_sends_at_prefix(
    views: Seq<(u32, BindView)>,
    ids: Seq<u32>,
    n: int,
    i: int,
    mods: ModifiersState,
    layer: Option<Seq<char>>,
    inhibited: bool,
    locked: bool,
)
    requires
        0 <= i < n <= ids.len(),
    ensures
        press_sends_at(views, ids.take(n), i, mods, layer, inhibited, locked) == press_sends_at(
            views,
            ids,
            i,
            mods,
            layer,
            inhibited,
            locked,
        ),
{
    assert(ids.take(n).take(i) =~= ids.take(i));
}

/// The ids listed for a trigger, if it was ever bound.
pub open spec fn trigger_view(s: Seq<(u64, Vec<u32>)>, trigger: u64) -> Option<Seq<u32>> {
    match lookup(s, trigger) {
        Some(v) => Some(v@),
        None => None,
    }
}

/// Each binding is stored under its own id.
pub open spec fn ids_match_keys<V>(s: Seq<(u32, V)>, id_of: spec_fn(V) -> u32) -> bool {
    forall|i: int| 0 <= i < s.len() ==> #[trigger] s[i].0 == id_of(s[i].1)
}

fn copy_ids(v: &Vec<u32>) -> (r: Vec<u32>)
    ensures
        r@ == v@,
{
    let mut r: Vec<u32> = Vec::new();
    let mut i: usize = 0;
    while i < v.len()
        invariant
            i <= v.len(),
            r@ == v@.take(i as int),
        decreases v.len() - i,
    {
        r.push(v[i]);
        i = i + 1;
        assert(r@ =~= v@.take(i as int));
    }
    assert(v@.take(v.len() as int) =~= v@);
    r
}

/// Appends `id` to the list of bindings of `trigger`, creating the list if needed.
fn push_trigger(m: &mut IndexMap<u64, Vec<u32>>, trigger: u64, id: u32)
    requires
        keys_distinct(trigger_entries(*old(m))),
    ensures
        keys_distinct(trigger_entries(*final(m))),
        forall|t: u64| #[trigger]
            trigger_view(trigger_entries(*final(m)), t) == if t == trigger {
                Some(
                    match trigger_view(trigger_entries(*old(m)), t) {
                        Some(ids) => ids,
                        None => Seq::empty(),
                    }.push(id),
                )
            } else {
                trigger_view(trigger_entries(*old(m)), t)
            },
{
    let ghost before = trigger_entries(*m);
    match trigger_map_index_of(m, trigger) {
        Some(i) => {
            let mut ids = copy_ids(trigger_map_get_index(m, i));
            ids.push(id);
            proof {
                lemma_key_index_unique(before, i as int);
                lemma_update_value(before, i as int, ids);
            }
            trigger_map_insert(m, trigger, ids);
        },
        None => {
            let mut ids: Vec<u32> = Vec::new();
            ids.push(id);
            proof {
                lemma_push_fresh(before, trigger, ids);
            }
            trigger_map_insert(m, trigger, ids);
        },
    }
}

/// Replaces the list of bindings of a trigger that has one.
fn set_trigger(m: &mut IndexMap<u64, Vec<u32>>, trigger: u64, ids: Vec<u32>)
    requires
        keys_distinct(trigger_entries(*old(m))),
        has_key(trigger_entries(*old(m)), trigger),
    ensures
        keys_distinct(trigger_entries(*final(m))),
        forall|t: u64| #[trigger]
            trigger_view(trigger_entries(*final(m)), t) == if t == trigger {
                Some(ids@)
            } else {
                trigger_view(trigger_entries(*old(m)), t)
            },
{
    let ghost before = trigger_entries(*m);
    proof {
        let i = key_index(before, trigger);
        lemma_key_index_unique(before, i);
        lemma_update_value(before, i, ids);
    }
    trigger_map_insert(m, trigger, ids);
}

// Keybinds

/// A binding of a key.
#[derive(Debug)]
pub struct Keybind {
    pub bind_data: BindData,
    /// The raw keysym.
    pub key: u32,
    sender: UnboundedSender<Edge>,
    pub recv: Option<UnboundedReceiver<Edge>>,
    pub has_on_press: bool,
}

impl Keybind {
    /// The binding holds the receiving end of its channel, for the config to take.
    pub closed spec fn has_receiver(self) -> bool {
        self.recv is Some
    }

    pub closed spec fn bind_view(self) -> BindView {
        bind_data_view(self.bind_data, self.has_on_press)
    }

    pub closed spec fn id_of(self) -> u32 {
        self.bind_data.id
    }
}

pub open spec fn keybind_views(s: Seq<(u32, Keybind)>) -> Seq<(u32, BindView)> {
    s.map_values(|e: (u32, Keybind)| (e.0, e.1.bind_view()))
}

proof fn lemma_keybind_views(s: Seq<(u32, Keybind)>)
    requires
        keys_distinct(s),
    ensures
        keys_distinct(keybind_views(s)),
        forall|k: u32| #[trigger]
            lookup(keybind_views(s), k) == match lookup(s, k) {
                Some(b) => Some(b.bind_view()),
                None => None::<BindView>,
            },
{
    let v = keybind_views(s);
    assert forall|i: int, j: int|
        0 <= i < v.len() && 0 <= j < v.len() && i != j implies #[trigger] v[i].0
        != #[trigger] v[j].0 by {
        assert(v[i].0 == s[i].0 && v[j].0 == s[j].0);
    }
    assert forall|k: u32| #[trigger]
        lookup(v, k) == match lookup(s, k) {
            Some(b) => Some(b.bind_view()),
            None => None::<BindView>,
        } by {
        if has_key(s, k) {
            let i = key_index(s, k);
            lemma_key_index_unique(s, i);
            lemma_key_index_unique(v, i);
        } else if has_key(v, k) {
            let i = key_index(v, k);
            assert(s[i].0 == k);
        }
    }
}

/// What a key event does to the keybinds (`before` to `after`) and what it
/// answers (`action`): nothing where the key is not bound; on a press, the
/// matching binds are scanned in order, and a bind whose config refused the
/// press leaves the key's list; on a release, the binds its press matched are
/// walked, and those whose config refused the release are unbound. Each send
/// is logged with whether it was delivered.
pub open spec fn key_outcome(
    before: Keybinds,
    after: Keybinds,
    key: u32,
    mods: ModifiersState,
    edge: Edge,
    current_layer: Option<String>,
    shortcuts_inhibited: bool,
    is_locked: bool,
    action: BindAction,
) -> bool {
    let outcomes = outcomes_of(before.sent_log(), after.sent_log());
    &&& (before.trigger_list(key) is None ==> action == BindAction::Forward && after == before)
    &&& (before.trigger_list(key) is Some && edge == Edge::Press ==> {
        let ids = before.trigger_list(key).unwrap();
        let layer = layer_view(current_layer);
        let scan = press_scan(
            before.views(),
            ids,
            mods,
            layer,
            shortcuts_inhibited,
            is_locked,
        );
        let sends = press_sends(before.views(), ids, mods, layer, shortcuts_inhibited, is_locked);
        &&& action == scan.action
        &&& after.binds() == before.binds()
        &&& after.sent_log() == before.sent_log() + with_outcomes(sends, Edge::Press, outcomes)
        &&& after.pressed() == pressed_after(before.pressed(), key, scan)
        &&& after.trigger_list(key) == Some(
            retained_ids(
                before.views(),
                ids,
                press_failures(
                    before.views(),
                    ids,
                    mods,
                    layer,
                    shortcuts_inhibited,
                    is_locked,
                    outcomes,
                ),
            ),
        )
        &&& forall|k: u32|
            k != key ==> #[trigger] after.trigger_list(k) == before.trigger_list(k)
    })
    &&& (before.trigger_list(key) is Some && edge == Edge::Release ==> {
        &&& forall|k: u32| #[trigger]
            after.trigger_list(k) == before.trigger_list(k)
        &&& after.pressed() == before.pressed().remove(key)
        &&& if before.pressed().contains_key(key) {
            let walk = release_walk(
                before.views(),
                before.pressed()[key],
                outcomes,
                BindAction::Forward,
                Seq::empty(),
                shortcuts_inhibited,
                is_locked,
            );
            &&& action == walk.action
            &&& after.sent_log() == before.sent_log() + with_outcomes(
                walk.sent,
                Edge::Release,
                outcomes,
            )
            &&& after.binds() == without_ids(before.binds(), walk.refused)
            &&& forall|k: u32| #[trigger]
                lookup(after.binds(), k) == if walk.refused.contains(k) {
                    None
                } else {
                    lookup(before.binds(), k)
                }
        } else {
            &&& action == BindAction::Forward
            &&& after.binds() == before.binds()
            &&& after.sent_log() == before.sent_log()
        }
    })
}

/// The keybinds, by id and by keysym, and the bindings whose button is held down.
pub struct Keybinds {
    pub id_map: IndexMap<u32, Keybind>,
    keysym_map: IndexMap<u64, Vec<u32>>,
    pub last_pressed_triggered_binds: HashMap<u32, Vec<u32>>,
    /// Every edge sent to a keybind's config so far, with the keybind's id
    /// and whether it was delivered, in the order sent.
    sent: Ghost<Seq<(u32, Edge, bool)>>,
}

impl Keybinds {
    /// The keybinds, in the order they were added.
    pub closed spec fn binds(self) -> Seq<(u32, Keybind)> {
        keybind_entries(self.id_map)
    }

    /// Every edge sent to a keybind's config so far, with whether it was
    /// delivered, in order.
    pub closed spec fn sent_log(self) -> Seq<(u32, Edge, bool)> {
        self.sent@
    }

    pub closed spec fn views(self) -> Seq<(u32, BindView)> {
        keybind_views(self.binds())
    }

    /// The views are those of the bindings, under the same ids, in order.
    pub proof fn lemma_views_of_binds(self)
        ensures
            self.views() == keybind_views(self.binds()),
    {
    }

    /// The ids of the keybinds of a keysym, if the keysym was ever bound.
    pub closed spec fn trigger_list(self, key: u32) -> Option<Seq<u32>> {
        trigger_view(trigger_entries(self.keysym_map), key as u64)
    }

    /// For each keysym held down, the ids of the keybinds its press matched.
    pub closed spec fn pressed(self) -> Map<u32, Seq<u32>> {
        self.last_pressed_triggered_binds@.map_values(|v: Vec<u32>| v@)
    }

    /// Ids are distinct, and each keybind is stored under its own id.
    pub closed spec fn wf(self) -> bool {
        &&& keys_distinct(self.binds())
        &&& keys_distinct(trigger_entries(self.keysym_map))
        &&& ids_match_keys(self.binds(), |b: Keybind| b.id_of())
    }

    /// No keybinds.
    pub fn new() -> (r: Self)
        ensures
            r.wf(),
            r.binds() == Seq::<(u32, Keybind)>::empty(),
            r.pressed() == Map::<u32, Seq<u32>>::empty(),
            forall|k: u32| #[trigger] r.trigger_list(k) is None,
            r.sent_log() == Seq::<(u32, Edge, bool)>::empty(),
    {
        let r = Self {
            id_map: keybind_map_new(),
            keysym_map: trigger_map_new(),
            last_pressed_triggered_binds: HashMap::new(),
            sent: Ghost(Seq::empty()),
        };
        assert(r.pressed() =~= Map::<u32, Seq<u32>>::empty());
        r
    }

    /// Adds a keybind with a fresh id from `ids` and returns the id.
    ///
    /// The keybind does not listen for presses yet.
    pub fn add_keybind(
        &mut self,
        ids: &mut BindIdCounter,
        key: u32,
        mods: ModMask,
        layer: Option<String>,
        group: String,
        desc: String,
        is_quit_bind: bool,
        is_reload_config_bind: bool,
        allow_when_locked: bool,
    ) -> (id: u32)
        requires
            old(self).wf(),
            !has_key(old(self).binds(), old(ids).next),
        ensures
            final(self).wf(),
            id == old(ids).next,
            final(self).binds().len() == old(self).binds().len() + 1,
            final(self).binds().drop_last() == old(self).binds(),
            final(self).binds().last().0 == id,
            final(self).binds().last().1.has_receiver(),
            final(self).sent_log() == old(self).sent_log(),
            final(ids).next == wrapping_succ(old(ids).next),
            final(self).views() == old(self).views().push(
                (
                    id,
                    BindView {
                        id,
                        mods,
                        layer: layer_view(layer),
                        group: group@,
                        desc: desc@,
                        is_quit_bind,
                        is_reload_config_bind,
                        allow_when_locked,
                        has_on_press: false,
                    },
                ),
            ),
            forall|k: u32| #[trigger]
                final(self).trigger_list(k) == if k == key {
                    Some(
                        match old(self).trigger_list(k) {
                            Some(l) => l,
                            None => Seq::empty(),
                        }.push(id),
                    )
                } else {
                    old(self).trigger_list(k)
                },
            final(self).pressed() == old(self).pressed(),
    {
        let id = ids.take();
        let (sender, recv) = edge_channel();
        let keybind = Keybind {
            bind_data: BindData {
                id,
                mods,
                layer,
                group,
                desc,
                is_quit_bind,
                is_reload_config_bind,
                allow_when_locked,
            },
            key,
            sender,
            recv: Some(recv),
            has_on_press: false,
        };
        let ghost before = self.binds();
        let ghost kb = keybind;
        proof {
            lemma_push_fresh(before, id, keybind);
        }
        let _ = keybind_map_insert(&mut self.id_map, id, keybind);
        proof {
            assert(self.binds() == before.push((id, kb)));
            assert forall|i: int| 0 <= i < self.binds().len() implies #[trigger] self.binds()[i].0
                == self.binds()[i].1.id_of() by {
                if i < before.len() {
                    assert(self.binds()[i] == before[i]);
                }
            }
            assert(self.views() =~= old(self).views().push((id, kb.bind_view())));
        }
        push_trigger(&mut self.keysym_map, key as u64, id);
        proof {
            assert forall|k: u32| #[trigger]
                self.trigger_list(k) == if k == key {
                    Some(
                        match old(self).trigger_list(k) {
                            Some(l) => l,
                            None => Seq::empty(),
                        }.push(id),
                    )
                } else {
                    old(self).trigger_list(k)
                } by {
                assert((k as u64 == key as u64) == (k == key));
            }
        }
        id
    }

    /// Removes the keybind with the given id, if there is one.
    ///
    /// Its id stays in its keysym's list until a press of that keysym drops it.
    pub fn remove_keybind(&mut self, keybind_id: u32)
        requires
            old(self).wf(),
        ensures
            final(self).wf(),
            has_key(old(self).binds(), keybind_id) ==> final(self).binds() == old(self).binds().remove(
                key_index(old(self).binds(), keybind_id),
            ),
            has_key(old(self).binds(), keybind_id) ==> final(self).views() == old(self).views().remove(
                key_index(old(self).views(), keybind_id),
            ),
            !has_key(old(self).binds(), keybind_id) ==> final(self).binds() == old(self).binds(),
            forall|k: u32| #[trigger] final(self).trigger_list(k) == old(self).trigger_list(k),
            final(self).pressed() == old(self).pressed(),
    {
        let ghost before = self.binds();
        proof {
            if has_key(before, keybind_id) {
                lemma_remove_at(before, key_index(before, keybind_id));
            }
        }
        let _ = keybind_map_shift_remove(&mut self.id_map, keybind_id);
        proof {
            lemma_keybind_views(before);
            if has_key(before, keybind_id) {
                let r = key_index(before, keybind_id);
                lemma_key_index_unique(before, r);
                lemma_key_index_unique(keybind_views(before), r);
                assert(self.views() =~= old(self).views().remove(r));
            }
            if has_key(before, keybind_id) {
                let r = key_index(before, keybind_id);
                assert forall|i: int| 0 <= i < self.binds().len() implies #[trigger] self.binds()[
                    i].0 == self.binds()[i].1.id_of() by {
                    if i < r {
                        assert(self.binds()[i] == before[i]);
                    } else {
                        assert(self.binds()[i] == before[i + 1]);
                    }
                }
            }
        }
    }

    /// Whether there is a keybind with the given id.
    pub fn contains_bind(&self, bind_id: u32) -> (r: bool)
        requires
            self.wf(),
        ensures
            r == has_key(self.binds(), bind_id),
    {
        keybind_map_index_of(&self.id_map, bind_id).is_some()
    }

    /// Sets one field of the data of the keybind with the given id, if there is one.
    pub fn set_bind_field(&mut self, bind_id: u32, field: BindField)
        requires
            old(self).wf(),
        ensures
            final(self).wf(),
            has_key(old(self).binds(), bind_id) ==> {
                let i = key_index(old(self).binds(), bind_id);
                final(self).views() == old(self).views().update(
                    i,
                    (bind_id, field_applied(old(self).views()[i].1, field)),
                )
            },
            !has_key(old(self).binds(), bind_id) ==> final(self).binds() == old(self).binds(),
            forall|k: u32| #[trigger] final(self).trigger_list(k) == old(self).trigger_list(k),
            final(self).pressed() == old(self).pressed(),
    {
        let ghost before = self.binds();
        match keybind_map_index_of(&self.id_map, bind_id) {
            Some(i) => {
                proof {
                    lemma_key_index_unique(before, i as int);
                }
                let keybind = keybind_map_get_index_mut(&mut self.id_map, i);
                apply_field(&mut keybind.bind_data, field);
                proof {
                    lemma_update_value(before, i as int, self.binds()[i as int].1);
                    assert forall|j: int| 0 <= j < self.binds().len() implies #[trigger] self.binds()[
                        j].0 == self.binds()[j].1.id_of() by {
                        if j != i {
                            assert(self.binds()[j] == before[j]);
                        }
                    }
                    assert(self.views() =~= old(self).views().update(
                        i as int,
                        (bind_id, field_applied(old(self).views()[i as int].1, field)),
                    ));
                }
            },
            None => {},
        }
    }

    /// Walks the keybinds listed for a pressed keysym: what the press comes to,
    /// which ids it matched, whether other pressed keysyms are forgotten, and
    /// which ids stay listed (a keybind whose config stopped listening is dropped).
    fn scan_press(
        &self,
        ids: &Vec<u32>,
        mods: ModifiersState,
        current_layer: &Option<String>,
        shortcuts_inhibited: bool,
        is_locked: bool,
    ) -> (r: (BindAction, Vec<u32>, Vec<u32>, bool, Ghost<Seq<u32>>, Ghost<Seq<bool>>))
        requires
            self.wf(),
        ensures
            r.4@ == press_sends(
                self.views(),
                ids@,
                mods,
                layer_view(*current_layer),
                shortcuts_inhibited,
                is_locked,
            ),
            r.5@.len() == r.4@.len(),
            r.2@ == retained_ids(
                self.views(),
                ids@,
                press_failures(
                    self.views(),
                    ids@,
                    mods,
                    layer_view(*current_layer),
                    shortcuts_inhibited,
                    is_locked,
                    r.5@,
                ),
            ),
            ({
                let scan = press_scan(
                    self.views(),
                    ids@,
                    mods,
                    layer_view(*current_layer),
                    shortcuts_inhibited,
                    is_locked,
                );
                &&& r.0 == scan.action
                &&& r.1@ == scan.pushed
                &&& r.3 == scan.clear_others
            }),
    {
        let ghost views = self.views();
        let ghost layer = layer_view(*current_layer);
        proof {
            lemma_keybind_views(self.binds());
        }
        let mut action = BindAction::Forward;
        let mut pushed: Vec<u32> = Vec::new();
        let mut kept: Vec<u32> = Vec::new();
        let mut should_clear_releases = false;
        let ghost mut outs: Seq<bool> = Seq::empty();
        let ghost mut sends: Seq<u32> = Seq::empty();
        let mut j: usize = 0;
        while j < ids.len()
            invariant
                self.wf(),
                sends == press_sends(
                    views,
                    ids@.take(j as int),
                    mods,
                    layer,
                    shortcuts_inhibited,
                    is_locked,
                ),
                outs.len() == sends.len(),
                views == self.views(),
                layer == layer_view(*current_layer),
                keys_distinct(views),
                forall|k: u32| #[trigger]
                    lookup(views, k) == match lookup(self.binds(), k) {
                        Some(b) => Some(b.bind_view()),
                        None => None::<BindView>,
                    },
                j <= ids.len(),
                ({
                    let scan = press_scan(
                        views,
                        ids@.take(j as int),
                        mods,
                        layer,
                        shortcuts_inhibited,
                        is_locked,
                    );
                    &&& action == scan.action
                    &&& pushed@ == scan.pushed
                    &&& should_clear_releases == scan.clear_others
                }),
                kept@ == retained_ids(
                    views,
                    ids@.take(j as int),
                    press_failures(
                        views,
                        ids@.take(j as int),
                        mods,
                        layer,
                        shortcuts_inhibited,
                        is_locked,
                        outs,
                    ),
                ),
            decreases ids.len() - j,
        {
            let id = ids[j];
            let ghost prefix = ids@.take(j as int);
            let ghost next = ids@.take(j + 1);
            assert(next.drop_last() =~= prefix);
            assert(next.last() == id);
            let ghost mut send_now = false;
            let ghost mut delivered_now = true;
            match keybind_map_index_of(&self.id_map, id) {
                None => {
                    assert(!has_key(views, id));
                },
                Some(bi) => {
                    let keybind = keybind_map_get_index(&self.id_map, bi);
                    proof {
                        lemma_key_index_unique(self.binds(), bi as int);
                        assert(lookup(views, id) == Some(keybind.bind_view()));
                    }
                    if action == BindAction::Quit || action == BindAction::ReloadConfig {
                        kept.push(id);
                    } else if keybind.bind_data.mods.matches(mods) {
                        if keybind.has_on_press {
                            should_clear_releases = true;
                        }
                        pushed.push(id);
                        let mut retain = true;
                        if keybind.bind_data.is_quit_bind {
                            action = BindAction::Quit;
                        } else if keybind.bind_data.is_reload_config_bind {
                            action = BindAction::ReloadConfig;
                        } else if keybind.has_on_press && same_layer(
                            current_layer,
                            &keybind.bind_data.layer,
                        ) && (!shortcuts_inhibited && (!is_locked
                            || keybind.bind_data.allow_when_locked)) {
                            let delivered = send_edge(&keybind.sender, Edge::Press);
                            proof {
                                send_now = true;
                                delivered_now = delivered;
                            }
                            retain = delivered;
                            action = BindAction::Suppress;
                        }
                        if retain {
                            kept.push(id);
                        }
                    } else {
                        kept.push(id);
                    }
                },
            }
            proof {
                lemma_press_sends_at_prefix(
                    views,
                    ids@,
                    j + 1,
                    j as int,
                    mods,
                    layer,
                    shortcuts_inhibited,
                    is_locked,
                );
                assert(send_now == press_sends_at(
                    views,
                    ids@,
                    j as int,
                    mods,
                    layer,
                    shortcuts_inhibited,
                    is_locked,
                ));
                let outs0 = outs;
                lemma_press_failures(
                    views,
                    prefix,
                    mods,
                    layer,
                    shortcuts_inhibited,
                    is_locked,
                    outs0,
                    seq![delivered_now],
                );
                if send_now {
                    sends = sends.push(id);
                    outs = outs0 + seq![delivered_now];
                }
                lemma_press_failures(
                    views,
                    next,
                    mods,
                    layer,
                    shortcuts_inhibited,
                    is_locked,
                    outs,
                    Seq::empty(),
                );
                let f = press_failures(views, next, mods, layer, shortcuts_inhibited, is_locked, outs);
                assert(f.take(j as int) =~= press_failures(
                    views,
                    prefix,
                    mods,
                    layer,
                    shortcuts_inhibited,
                    is_locked,
                    outs0,
                ));
                assert(f[j as int] == (send_now && !delivered_now));
            }
            j = j + 1;
        }
        assert(ids@.take(ids.len() as int) =~= ids@);
        (action, pushed, kept, should_clear_releases, Ghost(sends), Ghost(outs))
    }

    /// Walks the keybinds that the press of a keysym matched, on its release:
    /// what the release comes to, which ids it was sent to, and whether each
    /// send was delivered. A keybind whose config refused it is unbound at once.
    fn scan_release(&mut self, ids: &Vec<u32>, shortcuts_inhibited: bool, is_locked: bool) -> (r: (
        BindAction,
        Ghost<Seq<u32>>,
        Ghost<Seq<bool>>,
    ))
        requires
            old(self).wf(),
        ensures
            final(self).wf(),
            final(self).keysym_map == old(self).keysym_map,
            final(self).last_pressed_triggered_binds == old(self).last_pressed_triggered_binds,
            final(self).sent == old(self).sent,
            r.2@.len() == r.1@.len(),
            ({
                let walk = release_walk(
                    old(self).views(),
                    ids@,
                    r.2@,
                    BindAction::Forward,
                    Seq::empty(),
                    shortcuts_inhibited,
                    is_locked,
                );
                &&& r.0 == walk.action
                &&& r.1@ == walk.sent
                &&& final(self).binds() == without_ids(old(self).binds(), walk.refused)
                &&& forall|k: u32| #[trigger]
                    lookup(final(self).binds(), k) == if walk.refused.contains(k) {
                        None
                    } else {
                        lookup(old(self).binds(), k)
                    }
            }),
    {
        let ghost views = self.views();
        let ghost before = self.binds();
        proof {
            lemma_keybind_views(self.binds());
        }
        let mut action = BindAction::Forward;
        let ghost mut refused: Seq<u32> = Seq::empty();
        let ghost mut sends: Seq<u32> = Seq::empty();
        let ghost mut outs: Seq<bool> = Seq::empty();
        let mut j: usize = 0;
        proof {
            assert(ids@.skip(0) =~= ids@);
            assert forall|f: Seq<bool>| #[trigger]
                release_walk(
                    views,
                    ids@,
                    outs + f,
                    BindAction::Forward,
                    Seq::empty(),
                    shortcuts_inhibited,
                    is_locked,
                ) == ({
                    let r = release_walk(
                        views,
                        ids@.skip(0),
                        f,
                        action,
                        refused,
                        shortcuts_inhibited,
                        is_locked,
                    );
                    ReleaseWalk { sent: sends + r.sent, ..r }
                }) by {
                assert(outs + f =~= f);
                let r = release_walk(views, ids@, f, action, refused, shortcuts_inhibited, is_locked);
                assert(sends + r.sent =~= r.sent);
            }
        }
        while j < ids.len()
            invariant
                self.wf(),
                self.keysym_map == old(self).keysym_map,
                self.last_pressed_triggered_binds == old(self).last_pressed_triggered_binds,
                self.sent == old(self).sent,
                views == old(self).views(),
                before == old(self).binds(),
                forall|k: u32| #[trigger]
                    lookup(views, k) == match lookup(before, k) {
                        Some(b) => Some(b.bind_view()),
                        None => None::<BindView>,
                    },
                self.binds() == without_ids(before, refused),
                forall|k: u32| #[trigger]
                    lookup(self.binds(), k) == if refused.contains(k) {
                        None
                    } else {
                        lookup(before, k)
                    },
                j <= ids.len(),
                outs.len() == sends.len(),
                forall|f: Seq<bool>| #[trigger]
                    release_walk(
                        views,
                        ids@,
                        outs + f,
                        BindAction::Forward,
                        Seq::empty(),
                        shortcuts_inhibited,
                        is_locked,
                    ) == ({
                        let r = release_walk(
                            views,
                            ids@.skip(j as int),
                            f,
                            action,
                            refused,
                            shortcuts_inhibited,
                            is_locked,
                        );
                        ReleaseWalk { sent: sends + r.sent, ..r }
                    }),
            decreases ids.len() - j,
        {
            let id = ids[j];
            let ghost rest = ids@.skip(j as int);
            assert(rest.drop_first() =~= ids@.skip(j + 1));
            assert(rest[0] == id);
            let ghost outs0 = outs;
            let ghost sends0 = sends;
            let ghost refused0 = refused;
            let ghost action0 = action;
            match keybind_map_index_of(&self.id_map, id) {
                None => {
                    assert(!has_key(self.binds(), id));
                    assert forall|f: Seq<bool>| #[trigger]
                        release_walk(
                            views,
                            ids@,
                            outs + f,
                            BindAction::Forward,
                            Seq::empty(),
                            shortcuts_inhibited,
                            is_locked,
                        ) == ({
                            let r = release_walk(
                                views,
                                ids@.skip(j + 1),
                                f,
                                action,
                                refused,
                                shortcuts_inhibited,
                                is_locked,
                            );
                            ReleaseWalk { sent: sends + r.sent, ..r }
                        }) by {
                        assert(lookup(self.binds(), id) is None);
                    }
                },
                Some(bi) => {
                    let keybind = keybind_map_get_index(&self.id_map, bi);
                    proof {
                        lemma_key_index_unique(self.binds(), bi as int);
                        assert(lookup(self.binds(), id) == Some(*keybind));
                        assert(!refused.contains(id));
                        assert(lookup(views, id) == Some(keybind.bind_view()));
                    }
                    if keybind.bind_data.is_quit_bind {
                        proof {
                            let r = release_walk(views, rest, Seq::empty(), action, refused, shortcuts_inhibited, is_locked);
                            assert(r.sent =~= Seq::<u32>::empty());
                            assert(outs + Seq::<bool>::empty() =~= outs);
                            assert(sends + r.sent =~= sends);
                        }
                        return (BindAction::Quit, Ghost(sends), Ghost(outs));
                    }
                    if keybind.bind_data.is_reload_config_bind {
                        proof {
                            let r = release_walk(views, rest, Seq::empty(), action, refused, shortcuts_inhibited, is_locked);
                            assert(outs + Seq::<bool>::empty() =~= outs);
                            assert(sends + r.sent =~= sends);
                        }
                        return (BindAction::ReloadConfig, Ghost(sends), Ghost(outs));
                    }
                    if shortcuts_inhibited || (is_locked && !keybind.bind_data.allow_when_locked) {
                        proof {
                            let r = release_walk(views, rest, Seq::empty(), action, refused, shortcuts_inhibited, is_locked);
                            assert(outs + Seq::<bool>::empty() =~= outs);
                            assert(sends + r.sent =~= sends);
                        }
                        return (BindAction::Forward, Ghost(sends), Ghost(outs));
                    }
                    if keybind.has_on_press {
                        action = BindAction::Suppress;
                    }
                    let delivered = send_edge(&keybind.sender, Edge::Release);
                    if !delivered {
                        let ghost cur = self.binds();
                        proof {
                            lemma_remove_at(cur, key_index(cur, id));
                        }
                        let _ = keybind_map_shift_remove(&mut self.id_map, id);
                        proof {
                            let r = key_index(cur, id);
                            assert forall|i: int| 0 <= i < self.binds().len() implies #[trigger] self.binds()[i].0
                                == self.binds()[i].1.id_of() by {
                                if i < r {
                                    assert(self.binds()[i] == cur[i]);
                                } else {
                                    assert(self.binds()[i] == cur[i + 1]);
                                }
                            }
                            assert(refused.push(id).drop_last() =~= refused);
                            refused = refused.push(id);
                        }
                    }
                    proof {
                        sends = sends.push(id);
                        outs = outs.push(delivered);
                        assert forall|f: Seq<bool>| #[trigger]
                            release_walk(
                                views,
                                ids@,
                                outs + f,
                                BindAction::Forward,
                                Seq::empty(),
                                shortcuts_inhibited,
                                is_locked,
                            ) == ({
                                let r = release_walk(
                                    views,
                                    ids@.skip(j + 1),
                                    f,
                                    action,
                                    refused,
                                    shortcuts_inhibited,
                                    is_locked,
                                );
                                ReleaseWalk { sent: sends + r.sent, ..r }
                            }) by {
                            let f2 = seq![delivered] + f;
                            assert(outs + f =~= outs0 + f2);
                            assert(f2.drop_first() =~= f);
                            let w = release_walk(
                                views,
                                ids@,
                                outs0 + f2,
                                BindAction::Forward,
                                Seq::empty(),
                                shortcuts_inhibited,
                                is_locked,
                            );
                            let r = release_walk(
                                views,
                                ids@.skip(j + 1),
                                f,
                                action,
                                refused,
                                shortcuts_inhibited,
                                is_locked,
                            );
                            assert(sends0 + (seq![id] + r.sent) =~= sends + r.sent);
                        }
                    }
                },
            }
            j = j + 1;
        }
        proof {
            let r = release_walk(
                views,
                ids@.skip(j as int),
                Seq::empty(),
                action,
                refused,
                shortcuts_inhibited,
                is_locked,
            );
            assert(ids@.skip(j as int) =~= Seq::<u32>::empty());
            assert(outs + Seq::<bool>::empty() =~= outs);
            assert(sends + r.sent =~= sends);
        }
        (action, Ghost(sends), Ghost(outs))
    }

    /// Notifies configs that a key was pressed or released.
    ///
    /// Returns what becomes of the key event: whether it is forwarded to the
    /// client, suppressed, or quits or reloads the compositor's config.
    pub fn key(
        &mut self,
        key: u32,
        mods: ModifiersState,
        edge: Edge,
        current_layer: Option<String>,
        shortcuts_inhibited: bool,
        is_locked: bool,
    ) -> (action: BindAction)
        requires
            old(self).wf(),
        ensures
            final(self).wf(),
            key_outcome(
                *old(self),
                *final(self),
                key,
                mods,
                edge,
                current_layer,
                shortcuts_inhibited,
                is_locked,
                action,
            ),
    {
        let trigger = key as u64;
        let pos = match trigger_map_index_of(&self.keysym_map, trigger) {
            Some(pos) => pos,
            None => {
                proof {
                    assert(!has_key(trigger_entries(self.keysym_map), key as u64));
                }
                return BindAction::Forward;
            },
        };
        proof {
            lemma_key_index_unique(trigger_entries(self.keysym_map), pos as int);
        }

        if edge == Edge::Release {
            let last_triggered_binds_on_press = self.last_pressed_triggered_binds.remove(&key);
            proof {
                assert(self.pressed() =~= old(self).pressed().remove(key));
            }
            match last_triggered_binds_on_press {
                None => {
                    return BindAction::Forward;
                },
                Some(bind_ids) => {
                    let (bind_action, sends, outs) = self.scan_release(
                        &bind_ids,
                        shortcuts_inhibited,
                        is_locked,
                    );
                    self.sent = Ghost(self.sent@ + with_outcomes(sends@, Edge::Release, outs@));
                    proof {
                        lemma_outcomes_of(old(self).sent@, sends@, Edge::Release, outs@);
                    }
                    return bind_action;
                },
            }
        }

        let ids = trigger_map_get_index(&self.keysym_map, pos);
        let ghost ids_view = ids@;
        let (bind_action, pushed, kept, should_clear_releases, sends, outs) = self.scan_press(
            ids,
            mods,
            &current_layer,
            shortcuts_inhibited,
            is_locked,
        );
        self.sent = Ghost(self.sent@ + with_outcomes(sends@, Edge::Press, outs@));
        proof {
            lemma_outcomes_of(old(self).sent@, sends@, Edge::Press, outs@);
        }
        let ghost scan = press_scan(
            old(self).views(),
            ids_view,
            mods,
            layer_view(current_layer),
            shortcuts_inhibited,
            is_locked,
        );

        if pushed.len() > 0 {
            let mut list = match self.last_pressed_triggered_binds.remove(&key) {
                Some(list) => list,
                None => Vec::new(),
            };
            let ghost prior = list@;
            let mut i: usize = 0;
            while i < pushed.len()
                invariant
                    i <= pushed.len(),
                    list@ == prior + pushed@.take(i as int),
                decreases pushed.len() - i,
            {
                list.push(pushed[i]);
                i = i + 1;
                assert(list@ =~= prior + pushed@.take(i as int));
            }
            assert(pushed@.take(pushed.len() as int) =~= pushed@);
            if should_clear_releases {
                self.last_pressed_triggered_binds.clear();
            }
            self.last_pressed_triggered_binds.insert(key, list);
            proof {
                assert(self.pressed() =~= pressed_after(old(self).pressed(), key, scan));
            }
        } else {
            assert(pressed_after(old(self).pressed(), key, scan) == old(self).pressed());
        }

        set_trigger(&mut self.keysym_map, trigger, kept);
        proof {
            assert forall|k: u32| k != key implies #[trigger] self.trigger_list(k)
                == old(self).trigger_list(k) by {
                assert(k as u64 != key as u64);
            }
        }
        bind_action
    }

    /// Makes the keybind with the given id listen for presses, if there is one.
    pub fn set_keybind_has_on_press(&mut self, keybind_id: u32)
        requires
            old(self).wf(),
        ensures
            final(self).wf(),
            has_key(old(self).binds(), keybind_id) ==> {
                let i = key_index(old(self).binds(), keybind_id);
                final(self).views() == old(self).views().update(
                    i,
                    (keybind_id, with_has_on_press(old(self).views()[i].1, true)),
                )
            },
            !has_key(old(self).binds(), keybind_id) ==> final(self).binds() == old(self).binds(),
            forall|k: u32| #[trigger] final(self).trigger_list(k) == old(self).trigger_list(k),
            final(self).pressed() == old(self).pressed(),
    {
        let ghost before = self.binds();
        match keybind_map_index_of(&self.id_map, keybind_id) {
            Some(i) => {
                proof {
                    lemma_key_index_unique(before, i as int);
                }
                let keybind = keybind_map_get_index_mut(&mut self.id_map, i);
                keybind.has_on_press = true;
                proof {
                    lemma_update_value(before, i as int, self.binds()[i as int].1);
                    assert forall|j: int| 0 <= j < self.binds().len() implies #[trigger] self.binds()[
                        j].0 == self.binds()[j].1.id_of() by {
                        if j != i {
                            assert(self.binds()[j] == before[j]);
                        }
                    }
                    assert(self.views() =~= old(self).views().update(
                        i as int,
                        (keybind_id, with_has_on_press(old(self).views()[i as int].1, true)),
                    ));
                }
            },
            None => {},
        }
    }
}

// Mousebinds

/// A binding of a mouse button.
#[derive(Debug)]
pub struct Mousebind {
    pub bind_data: BindData,
    pub button: u32,
    sender: UnboundedSender<Edge>,
    pub recv: Option<UnboundedReceiver<Edge>>,
    pub has_on_press: bool,
}

impl Mousebind {
    /// The binding holds the receiving end of its channel, for the config to take.
    pub closed spec fn has_receiver(self) -> bool {
        self.recv is Some
    }

    pub closed spec fn bind_view(self) -> BindView {
        bind_data_view(self.bind_data, self.has_on_press)
    }

    pub closed spec fn id_of(self) -> u32 {
        self.bind_data.id
    }
}

pub open spec fn mousebind_views(s: Seq<(u32, Mousebind)>) -> Seq<(u32, BindView)> {
    s.map_values(|e: (u32, Mousebind)| (e.0, e.1.bind_view()))
}

proof fn lemma_mousebind_views(s: Seq<(u32, Mousebind)>)
    requires
        keys_distinct(s),
    ensures
        keys_distinct(mousebind_views(s)),
        forall|k: u32| #[trigger]
            lookup(mousebind_views(s), k) == match lookup(s, k) {
                Some(b) => Some(b.bind_view()),
                None => None::<BindView>,
            },
{
    let v = mousebind_views(s);
    assert forall|i: int, j: int|
        0 <= i < v.len() && 0 <= j < v.len() && i != j implies #[trigger] v[i].0
        != #[trigger] v[j].0 by {
        assert(v[i].0 == s[i].0 && v[j].0 == s[j].0);
    }
    assert forall|k: u32| #[trigger]
        lookup(v, k) == match lookup(s, k) {
            Some(b) => Some(b.bind_view()),
            None => None::<BindView>,
        } by {
        if has_key(s, k) {
            let i = key_index(s, k);
            lemma_key_index_unique(s, i);
            lemma_key_index_unique(v, i);
        } else if has_key(v, k) {
            let i = key_index(v, k);
            assert(s[i].0 == k);
        }
    }
}

/// The mousebinds, by id and by button, and the bindings whose button is held down.
pub struct Mousebinds {
    /// Every edge sent to a mousebind's config so far, with the mousebind's
    /// id and whether it was delivered, in the order sent.
    sent: Ghost<Seq<(u32, Edge, bool)>>,
    pub id_map: IndexMap<u32, Mousebind>,
    button_map: IndexMap<u64, Vec<u32>>,
    pub last_pressed_triggered_binds: HashMap<u32, Vec<u32>>,
}

impl Mousebinds {
    /// The mousebinds, in the order they were added.
    pub closed spec fn binds(self) -> Seq<(u32, Mousebind)> {
        mousebind_entries(self.id_map)
    }

    /// Every edge sent to a mousebind's config so far, with whether it was
    /// delivered, in order.
    pub closed spec fn sent_log(self) -> Seq<(u32, Edge, bool)> {
        self.sent@
    }

    pub closed spec fn views(self) -> Seq<(u32, BindView)> {
        mousebind_views(self.binds())
    }

    /// The views are those of the bindings, under the same ids, in order.
    pub proof fn lemma_views_of_binds(self)
        ensures
            self.views() == mousebind_views(self.binds()),
    {
    }

    /// The ids of the mousebinds of a button, if the button was ever bound.
    pub closed spec fn trigger_list(self, button: u32) -> Option<Seq<u32>> {
        trigger_view(trigger_entries(self.button_map), button as u64)
    }

    /// For each button held down, the ids of the mousebinds its press matched.
    pub closed spec fn pressed(self) -> Map<u32, Seq<u32>> {
        self.last_pressed_triggered_binds@.map_values(|v: Vec<u32>| v@)
    }

    /// Ids are distinct, and each mousebind is stored under its own id.
    pub closed spec fn wf(self) -> bool {
        &&& keys_distinct(self.binds())
        &&& keys_distinct(trigger_entries(self.button_map))
        &&& ids_match_keys(self.binds(), |b: Mousebind| b.id_of())
    }

    /// No mousebinds.
    pub fn new() -> (r: Self)
        ensures
            r.wf(),
            r.binds() == Seq::<(u32, Mousebind)>::empty(),
            r.pressed() == Map::<u32, Seq<u32>>::empty(),
            forall|k: u32| #[trigger] r.trigger_list(k) is None,
            r.sent_log() == Seq::<(u32, Edge, bool)>::empty(),
    {
        let r = Self {
            sent: Ghost(Seq::empty()),
            id_map: mousebind_map_new(),
            button_map: trigger_map_new(),
            last_pressed_triggered_binds: HashMap::new(),
        };
        assert(r.pressed() =~= Map::<u32, Seq<u32>>::empty());
        r
    }

    /// Adds a mousebind with a fresh id from `ids` and returns the id.
    ///
    /// The mousebind does not listen for presses yet.
    pub fn add_mousebind(
        &mut self,
        ids: &mut BindIdCounter,
        button: u32,
        mods: ModMask,
        layer: Option<String>,
        group: String,
        desc: String,
        is_quit_bind: bool,
        is_reload_config_bind: bool,
        allow_when_locked: bool,
    ) -> (id: u32)
        requires
            old(self).wf(),
            !has_key(old(self).binds(), old(ids).next),
        ensures
            final(self).wf(),
            id == old(ids).next,
            final(self).binds().len() == old(self).binds().len() + 1,
            final(self).binds().drop_last() == old(self).binds(),
            final(self).binds().last().0 == id,
            final(self).binds().last().1.has_receiver(),
            final(self).sent_log() == old(self).sent_log(),
            final(ids).next == wrapping_succ(old(ids).next),
            final(self).views() == old(self).views().push(
                (
                    id,
                    BindView {
                        id,
                        mods,
                        layer: layer_view(layer),
                        group: group@,
                        desc: desc@,
                        is_quit_bind,
                        is_reload_config_bind,
                        allow_when_locked,
                        has_on_press: false,
                    },
                ),
            ),
            forall|k: u32| #[trigger]
                final(self).trigger_list(k) == if k == button {
                    Some(
                        match old(self).trigger_list(k) {
                            Some(l) => l,
                            None => Seq::empty(),
                        }.push(id),
                    )
                } else {
                    old(self).trigger_list(k)
                },
            final(self).pressed() == old(self).pressed(),
    {
        let id = ids.take();
        let (sender, recv) = edge_channel();
        let mousebind = Mousebind {
            bind_data: BindData {
                id,
                mods,
                layer,
                group,
                desc,
                is_quit_bind,
                is_reload_config_bind,
                allow_when_locked,
            },
            button,
            sender,
            recv: Some(recv),
            has_on_press: false,
        };
        let ghost before = self.binds();
        let ghost kb = mousebind;
        proof {
            lemma_push_fresh(before, id, mousebind);
        }
        let _ = mousebind_map_insert(&mut self.id_map, id, mousebind);
        proof {
            assert(self.binds() == before.push((id, kb)));
            assert forall|i: int| 0 <= i < self.binds().len() implies #[trigger] self.binds()[i].0
                == self.binds()[i].1.id_of() by {
                if i < before.len() {
                    assert(self.binds()[i] == before[i]);
                }
            }
            assert(self.views() =~= old(self).views().push((id, kb.bind_view())));
        }
        push_trigger(&mut self.button_map, button as u64, id);
        proof {
            assert forall|k: u32| #[trigger]
                self.trigger_list(k) == if k == button {
                    Some(
                        match old(self).trigger_list(k) {
                            Some(l) => l,
                            None => Seq::empty(),
                        }.push(id),
                    )
                } else {
                    old(self).trigger_list(k)
                } by {
                assert((k as u64 == button as u64) == (k == button));
            }
        }
        id
    }

    /// Removes the mousebind with the given id, if there is one.
    ///
    /// Its id stays in its button's list until a press of that button drops it.
    pub fn remove_mousebind(&mut self, mousebind_id: u32)
        requires
            old(self).wf(),
        ensures
            final(self).wf(),
            has_key(old(self).binds(), mousebind_id) ==> final(self).binds() == old(self).binds().remove(
                key_index(old(self).binds(), mousebind_id),
            ),
            has_key(old(self).binds(), mousebind_id) ==> final(self).views() == old(self).views().remove(
                key_index(old(self).views(), mousebind_id),
            ),
            !has_key(old(self).binds(), mousebind_id) ==> final(self).binds() == old(self).binds(),
            forall|k: u32| #[trigger] final(self).trigger_list(k) == old(self).trigger_list(k),
            final(self).pressed() == old(self).pressed(),
    {
        let ghost before = self.binds();
        proof {
            if has_key(before, mousebind_id) {
                lemma_remove_at(before, key_index(before, mousebind_id));
            }
        }
        let _ = mousebind_map_shift_remove(&mut self.id_map, mousebind_id);
        proof {
            lemma_mousebind_views(before);
            if has_key(before, mousebind_id) {
                let r = key_index(before, mousebind_id);
                lemma_key_index_unique(before, r);
                lemma_key_index_unique(mousebind_views(before), r);
                assert(self.views() =~= old(self).views().remove(r));
            }
            if has_key(before, mousebind_id) {
                let r = key_index(before, mousebind_id);
                assert forall|i: int| 0 <= i < self.binds().len() implies #[trigger] self.binds()[
                    i].0 == self.binds()[i].1.id_of() by {
                    if i < r {
                        assert(self.binds()[i] == before[i]);
                    } else {
                        assert(self.binds()[i] == before[i + 1]);
                    }
                }
            }
        }
    }

    /// Whether there is a mousebind with the given id.
    pub fn contains_bind(&self, bind_id: u32) -> (r: bool)
        requires
            self.wf(),
        ensures
            r == has_key(self.binds(), bind_id),
    {
        mousebind_map_index_of(&self.id_map, bind_id).is_some()
    }

    /// Sets one field of the data of the mousebind with the given id, if there is one.
    pub fn set_bind_field(&mut self, bind_id: u32, field: BindField)
        requires
            old(self).wf(),
        ensures
            final(self).wf(),
            has_key(old(self).binds(), bind_id) ==> {
                let i = key_index(old(self).binds(), bind_id);
                final(self).views() == old(self).views().update(
                    i,
                    (bind_id, field_applied(old(self).views()[i].1, field)),
                )
            },
            !has_key(old(self).binds(), bind_id) ==> final(self).binds() == old(self).binds(),
            forall|k: u32| #[trigger] final(self).trigger_list(k) == old(self).trigger_list(k),
            final(self).pressed() == old(self).pressed(),
    {
        let ghost before = self.binds();
        match mousebind_map_index_of(&self.id_map, bind_id) {
            Some(i) => {
                proof {
                    lemma_key_index_unique(before, i as int);
                }
                let mousebind = mousebind_map_get_index_mut(&mut self.id_map, i);
                apply_field(&mut mousebind.bind_data, field);
                proof {
                    lemma_update_value(before, i as int, self.binds()[i as int].1);
                    assert forall|j: int| 0 <= j < self.binds().len() implies #[trigger] self.binds()[
                        j].0 == self.binds()[j].1.id_of() by {
                        if j != i {
                            assert(self.binds()[j] == before[j]);
                        }
                    }
                    assert(self.views() =~= old(self).views().update(
                        i as int,
                        (bind_id, field_applied(old(self).views()[i as int].1, field)),
                    ));
                }
            },
            None => {},
        }
    }

    /// Walks the mousebinds listed for a pressed button: what the press comes to,
    /// which ids it matched, whether other pressed buttons are forgotten, and
    /// which ids stay listed (a mousebind whose config stopped listening is dropped).
    fn scan_press(
        &self,
        ids: &Vec<u32>,
        mods: ModifiersState,
        current_layer: &Option<String>,
        shortcuts_inhibited: bool,
        is_locked: bool,
    ) -> (r: (BindAction, Vec<u32>, Vec<u32>, bool, Ghost<Seq<u32>>, Ghost<Seq<bool>>))
        requires
            self.wf(),
        ensures
            r.4@ == press_sends(
                self.views(),
                ids@,
                mods,
                layer_view(*current_layer),
                shortcuts_inhibited,
                is_locked,
            ),
            r.5@.len() == r.4@.len(),
            r.2@ == retained_ids(
                self.views(),
                ids@,
                press_failures(
                    self.views(),
                    ids@,
                    mods,
                    layer_view(*current_layer),
                    shortcuts_inhibited,
                    is_locked,
                    r.5@,
                ),
            ),
            ({
                let scan = press_scan(
                    self.views(),
                    ids@,
                    mods,
                    layer_view(*current_layer),
                    shortcuts_inhibited,
                    is_locked,
                );
                &&& r.0 == scan.action
                &&& r.1@ == scan.pushed
                &&& r.3 == scan.clear_others
            }),
    {
        let ghost views = self.views();
        let ghost layer = layer_view(*current_layer);
        proof {
            lemma_mousebind_views(self.binds());
        }
        let mut action = BindAction::Forward;
        let mut pushed: Vec<u32> = Vec::new();
        let mut kept: Vec<u32> = Vec::new();
        let mut should_clear_releases = false;
        let ghost mut outs: Seq<bool> = Seq::empty();
        let ghost mut sends: Seq<u32> = Seq::empty();
        let mut j: usize = 0;
        while j < ids.len()
            invariant
                self.wf(),
                sends == press_sends(
                    views,
                    ids@.take(j as int),
                    mods,
                    layer,
                    shortcuts_inhibited,
                    is_locked,
                ),
                outs.len() == sends.len(),
                views == self.views(),
                layer == layer_view(*current_layer),
                keys_distinct(views),
                forall|k: u32| #[trigger]
                    lookup(views, k) == match lookup(self.binds(), k) {
                        Some(b) => Some(b.bind_view()),
                        None => None::<BindView>,
                    },
                j <= ids.len(),
                ({
                    let scan = press_scan(
                        views,
                        ids@.take(j as int),
                        mods,
                        layer,
                        shortcuts_inhibited,
                        is_locked,
                    );
                    &&& action == scan.action
                    &&& pushed@ == scan.pushed
                    &&& should_clear_releases == scan.clear_others
                }),
                kept@ == retained_ids(
                    views,
                    ids@.take(j as int),
                    press_failures(
                        views,
                        ids@.take(j as int),
                        mods,
                        layer,
                        shortcuts_inhibited,
                        is_locked,
                        outs,
                    ),
                ),
            decreases ids.len() - j,
        {
            let id = ids[j];
            let ghost prefix = ids@.take(j as int);
            let ghost next = ids@.take(j + 1);
            assert(next.drop_last() =~= prefix);
            assert(next.last() == id);
            let ghost mut send_now = false;
            let ghost mut delivered_now = true;
            match mousebind_map_index_of(&self.id_map, id) {
                None => {
                    assert(!has_key(views, id));
                },
                Some(bi) => {
                    let mousebind = mousebind_map_get_index(&self.id_map, bi);
                    proof {
                        lemma_key_index_unique(self.binds(), bi as int);
                        assert(lookup(views, id) == Some(mousebind.bind_view()));
                    }
                    if action == BindAction::Quit || action == BindAction::ReloadConfig {
                        kept.push(id);
                    } else if mousebind.bind_data.mods.matches(mods) {
                        if mousebind.has_on_press {
                            should_clear_releases = true;
                        }
                        pushed.push(id);
                        let mut retain = true;
                        if mousebind.bind_data.is_quit_bind {
                            action = BindAction::Quit;
                        } else if mousebind.bind_data.is_reload_config_bind {
                            action = BindAction::ReloadConfig;
                        } else if mousebind.has_on_press && same_layer(
                            current_layer,
                            &mousebind.bind_data.layer,
                        ) && (!shortcuts_inhibited && (!is_locked
                            || mousebind.bind_data.allow_when_locked)) {
                            let delivered = send_edge(&mousebind.sender, Edge::Press);
                            proof {
                                send_now = true;
                                delivered_now = delivered;
                            }
                            retain = delivered;
                            action = BindAction::Suppress;
                        }
                        if retain {
                            kept.push(id);
                        }
                    } else {
                        kept.push(id);
                    }
                },
            }
            proof {
                lemma_press_sends_at_prefix(
                    views,
                    ids@,
                    j + 1,
                    j as int,
                    mods,
                    layer,
                    shortcuts_inhibited,
                    is_locked,
                );
                assert(send_now == press_sends_at(
                    views,
                    ids@,
                    j as int,
                    mods,
                    layer,
                    shortcuts_inhibited,
                    is_locked,
                ));
                let outs0 = outs;
                lemma_press_failures(
                    views,
                    prefix,
                    mods,
                    layer,
                    shortcuts_inhibited,
                    is_locked,
                    outs0,
                    seq![delivered_now],
                );
                if send_now {
                    sends = sends.push(id);
                    outs = outs0 + seq![delivered_now];
                }
                lemma_press_failures(
                    views,
                    next,
                    mods,
                    layer,
                    shortcuts_inhibited,
                    is_locked,
                    outs,
                    Seq::empty(),
                );
                let f = press_failures(views, next, mods, layer, shortcuts_inhibited, is_locked, outs);
                assert(f.take(j as int) =~= press_failures(
                    views,
                    prefix,
                    mods,
                    layer,
                    shortcuts_inhibited,
                    is_locked,
                    outs0,
                ));
                assert(f[j as int] == (send_now && !delivered_now));
            }
            j = j + 1;
        }
        assert(ids@.take(ids.len() as int) =~= ids@);
        (action, pushed, kept, should_clear_releases, Ghost(sends), Ghost(outs))
    }

    /// Walks the mousebinds that the press of a button matched, on its release:
    /// what the release comes to, which ids it was sent to, and whether each
    /// send was delivered. A mousebind whose config refused it is unbound at once.
    fn scan_release(&mut self, ids: &Vec<u32>, shortcuts_inhibited: bool, is_locked: bool) -> (r: (
        BindAction,
        Ghost<Seq<u32>>,
        Ghost<Seq<bool>>,
    ))
        requires
            old(self).wf(),
        ensures
            final(self).wf(),
            final(self).button_map == old(self).button_map,
            final(self).last_pressed_triggered_binds == old(self).last_pressed_triggered_binds,
            final(self).sent == old(self).sent,
            r.2@.len() == r.1@.len(),
            ({
                let walk = release_walk(
                    old(self).views(),
                    ids@,
                    r.2@,
                    BindAction::Forward,
                    Seq::empty(),
                    shortcuts_inhibited,
                    is_locked,
                );
                &&& r.0 == walk.action
                &&& r.1@ == walk.sent
                &&& final(self).binds() == without_ids(old(self).binds(), walk.refused)
                &&& forall|k: u32| #[trigger]
                    lookup(final(self).binds(), k) == if walk.refused.contains(k) {
                        None
                    } else {
                        lookup(old(self).binds(), k)
                    }
            }),
    {
        let ghost views = self.views();
        let ghost before = self.binds();
        proof {
            lemma_mousebind_views(self.binds());
        }
        let mut action = BindAction::Forward;
        let ghost mut refused: Seq<u32> = Seq::empty();
        let ghost mut sends: Seq<u32> = Seq::empty();
        let ghost mut outs: Seq<bool> = Seq::empty();
        let mut j: usize = 0;
        proof {
            assert(ids@.skip(0) =~= ids@);
            assert forall|f: Seq<bool>| #[trigger]
                release_walk(
                    views,
                    ids@,
                    outs + f,
                    BindAction::Forward,
                    Seq::empty(),
                    shortcuts_inhibited,
                    is_locked,
                ) == ({
                    let r = release_walk(
                        views,
                        ids@.skip(0),
                        f,
                        action,
                        refused,
                        shortcuts_inhibited,
                        is_locked,
                    );
                    ReleaseWalk { sent: sends + r.sent, ..r }
                }) by {
                assert(outs + f =~= f);
                let r = release_walk(views, ids@, f, action, refused, shortcuts_inhibited, is_locked);
                assert(sends + r.sent =~= r.sent);
            }
        }
        while j < ids.len()
            invariant
                self.wf(),
                self.button_map == old(self).button_map,
                self.last_pressed_triggered_binds == old(self).last_pressed_triggered_binds,
                self.sent == old(self).sent,
                views == old(self).views(),
                before == old(self).binds(),
                forall|k: u32| #[trigger]
                    lookup(views, k) == match lookup(before, k) {
                        Some(b) => Some(b.bind_view()),
                        None => None::<BindView>,
                    },
                self.binds() == without_ids(before, refused),
                forall|k: u32| #[trigger]
                    lookup(self.binds(), k) == if refused.contains(k) {
                        None
                    } else {
                        lookup(before, k)
                    },
                j <= ids.len(),
                outs.len() == sends.len(),
                forall|f: Seq<bool>| #[trigger]
                    release_walk(
                        views,
                        ids@,
                        outs + f,
                        BindAction::Forward,
                        Seq::empty(),
                        shortcuts_inhibited,
                        is_locked,
                    ) == ({
                        let r = release_walk(
                            views,
                            ids@.skip(j as int),
                            f,
                            action,
                            refused,
                            shortcuts_inhibited,
                            is_locked,
                        );
                        ReleaseWalk { sent: sends + r.sent, ..r }
                    }),
            decreases ids.len() - j,
        {
            let id = ids[j];
            let ghost rest = ids@.skip(j as int);
            assert(rest.drop_first() =~= ids@.skip(j + 1));
            assert(rest[0] == id);
            let ghost outs0 = outs;
            let ghost sends0 = sends;
            let ghost refused0 = refused;
            let ghost action0 = action;
            match mousebind_map_index_of(&self.id_map, id) {
                None => {
                    assert(!has_key(self.binds(), id));
                    assert forall|f: Seq<bool>| #[trigger]
                        release_walk(
                            views,
                            ids@,
                            outs + f,
                            BindAction::Forward,
                            Seq::empty(),
                            shortcuts_inhibited,
                            is_locked,
                        ) == ({
                            let r = release_walk(
                                views,
                                ids@.skip(j + 1),
                                f,
                                action,
                                refused,
                                shortcuts_inhibited,
                                is_locked,
                            );
                            ReleaseWalk { sent: sends + r.sent, ..r }
                        }) by {
                        assert(lookup(self.binds(), id) is None);
                    }
                },
                Some(bi) => {
                    let mousebind = mousebind_map_get_index(&self.id_map, bi);
                    proof {
                        lemma_key_index_unique(self.binds(), bi as int);
                        assert(lookup(self.binds(), id) == Some(*mousebind));
                        assert(!refused.contains(id));
                        assert(lookup(views, id) == Some(mousebind.bind_view()));
                    }
                    if mousebind.bind_data.is_quit_bind {
                        proof {
                            let r = release_walk(views, rest, Seq::empty(), action, refused, shortcuts_inhibited, is_locked);
                            assert(r.sent =~= Seq::<u32>::empty());
                            assert(outs + Seq::<bool>::empty() =~= outs);
                            assert(sends + r.sent =~= sends);
                        }
                        return (BindAction::Quit, Ghost(sends), Ghost(outs));
                    }
                    if mousebind.bind_data.is_reload_config_bind {
                        proof {
                            let r = release_walk(views, rest, Seq::empty(), action, refused, shortcuts_inhibited, is_locked);
                            assert(outs + Seq::<bool>::empty() =~= outs);
                            assert(sends + r.sent =~= sends);
                        }
                        return (BindAction::ReloadConfig, Ghost(sends), Ghost(outs));
                    }
                    if shortcuts_inhibited || (is_locked && !mousebind.bind_data.allow_when_locked) {
                        proof {
                            let r = release_walk(views, rest, Seq::empty(), action, refused, shortcuts_inhibited, is_locked);
                            assert(outs + Seq::<bool>::empty() =~= outs);
                            assert(sends + r.sent =~= sends);
                        }
                        return (BindAction::Forward, Ghost(sends), Ghost(outs));
                    }
                    if mousebind.has_on_press {
                        action = BindAction::Suppress;
                    }
                    let delivered = send_edge(&mousebind.sender, Edge::Release);
                    if !delivered {
                        let ghost cur = self.binds();
                        proof {
                            lemma_remove_at(cur, key_index(cur, id));
                        }
                        let _ = mousebind_map_shift_remove(&mut self.id_map, id);
                        proof {
                            let r = key_index(cur, id);
                            assert forall|i: int| 0 <= i < self.binds().len() implies #[trigger] self.binds()[i].0
                                == self.binds()[i].1.id_of() by {
                                if i < r {
                                    assert(self.binds()[i] == cur[i]);
                                } else {
                                    assert(self.binds()[i] == cur[i + 1]);
                                }
                            }
                            assert(refused.push(id).drop_last() =~= refused);
                            refused = refused.push(id);
                        }
                    }
                    proof {
                        sends = sends.push(id);
                        outs = outs.push(delivered);
                        assert forall|f: Seq<bool>| #[trigger]
                            release_walk(
                                views,
                                ids@,
                                outs + f,
                                BindAction::Forward,
                                Seq::empty(),
                                shortcuts_inhibited,
                                is_locked,
                            ) == ({
                                let r = release_walk(
                                    views,
                                    ids@.skip(j + 1),
                                    f,
                                    action,
                                    refused,
                                    shortcuts_inhibited,
                                    is_locked,
                                );
                                ReleaseWalk { sent: sends + r.sent, ..r }
                            }) by {
                            let f2 = seq![delivered] + f;
                            assert(outs + f =~= outs0 + f2);
                            assert(f2.drop_first() =~= f);
                            let w = release_walk(
                                views,
                                ids@,
                                outs0 + f2,
                                BindAction::Forward,
                                Seq::empty(),
                                shortcuts_inhibited,
                                is_locked,
                            );
                            let r = release_walk(
                                views,
                                ids@.skip(j + 1),
                                f,
                                action,
                                refused,
                                shortcuts_inhibited,
                                is_locked,
                            );
                            assert(sends0 + (seq![id] + r.sent) =~= sends + r.sent);
                        }
                    }
                },
            }
            j = j + 1;
        }
        proof {
            let r = release_walk(
                views,
                ids@.skip(j as int),
                Seq::empty(),
                action,
                refused,
                shortcuts_inhibited,
                is_locked,
            );
            assert(ids@.skip(j as int) =~= Seq::<u32>::empty());
            assert(outs + Seq::<bool>::empty() =~= outs);
            assert(sends + r.sent =~= sends);
        }
        (action, Ghost(sends), Ghost(outs))
    }

    /// Notifies configs that a button was pressed or released.
    ///
    /// Returns what becomes of the button event: whether it is forwarded to the
    /// client, suppressed, or quits or reloads the compositor's config.
    pub fn btn(
        &mut self,
        button: u32,
        mods: ModifiersState,
        edge: Edge,
        current_layer: Option<String>,
        is_locked: bool,
    ) -> (action: BindAction)
        requires
            old(self).wf(),
        ensures
            final(self).wf(),
            old(self).trigger_list(button) is None ==> action == BindAction::Forward && *final(self)
                == *old(self),
            old(self).trigger_list(button) is Some && edge == Edge::Press ==> {
                let ids = old(self).trigger_list(button).unwrap();
                let layer = layer_view(current_layer);
                let scan = press_scan(
                    old(self).views(),
                    ids,
                    mods,
                    layer,
                    false,
                    is_locked,
                );
                let sends = press_sends(old(self).views(), ids, mods, layer, false, is_locked);
                let outcomes = outcomes_of(old(self).sent_log(), final(self).sent_log());
                &&& action == scan.action
                &&& final(self).binds() == old(self).binds()
                &&& final(self).sent_log() == old(self).sent_log() + with_outcomes(
                    sends,
                    Edge::Press,
                    outcomes,
                )
                &&& final(self).pressed() == pressed_after(old(self).pressed(), button, scan)
                &&& final(self).trigger_list(button) == Some(
                    retained_ids(
                        old(self).views(),
                        ids,
                        press_failures(old(self).views(), ids, mods, layer, false, is_locked, outcomes),
                    ),
                )
                &&& forall|k: u32|
                    k != button ==> #[trigger] final(self).trigger_list(k) == old(self).trigger_list(k)
            },
            old(self).trigger_list(button) is Some && edge == Edge::Release ==> {
                &&& forall|k: u32| #[trigger]
                    final(self).trigger_list(k) == old(self).trigger_list(k)
                &&& final(self).pressed() == old(self).pressed().remove(button)
                &&& if old(self).pressed().contains_key(button) {
                    let outcomes = outcomes_of(old(self).sent_log(), final(self).sent_log());
                    let walk = release_walk(
                        old(self).views(),
                        old(self).pressed()[button],
                        outcomes,
                        BindAction::Forward,
                        Seq::empty(),
                        false,
                        is_locked,
                    );
                    &&& action == walk.action
                    &&& final(self).sent_log() == old(self).sent_log() + with_outcomes(
                        walk.sent,
                        Edge::Release,
                        outcomes,
                    )
                    &&& final(self).binds() == without_ids(old(self).binds(), walk.refused)
                    &&& forall|k: u32| #[trigger]
                        lookup(final(self).binds(), k) == if walk.refused.contains(k) {
                            None
                        } else {
                            lookup(old(self).binds(), k)
                        }
                } else {
                    &&& action == BindAction::Forward
                    &&& final(self).binds() == old(self).binds()
                    &&& final(self).sent_log() == old(self).sent_log()
                }
            },
    {
        let trigger = button as u64;
        let pos = match trigger_map_index_of(&self.button_map, trigger) {
            Some(pos) => pos,
            None => {
                proof {
                    assert(!has_key(trigger_entries(self.button_map), button as u64));
                }
                return BindAction::Forward;
            },
        };
        proof {
            lemma_key_index_unique(trigger_entries(self.button_map), pos as int);
        }

        if edge == Edge::Release {
            let last_triggered_binds_on_press = self.last_pressed_triggered_binds.remove(&button);
            proof {
                assert(self.pressed() =~= old(self).pressed().remove(button));
            }
            match last_triggered_binds_on_press {
                None => {
                    return BindAction::Forward;
                },
                Some(bind_ids) => {
                    let (bind_action, sends, outs) = self.scan_release(
                        &bind_ids,
                        false,
                        is_locked,
                    );
                    self.sent = Ghost(self.sent@ + with_outcomes(sends@, Edge::Release, outs@));
                    proof {
                        lemma_outcomes_of(old(self).sent@, sends@, Edge::Release, outs@);
                    }
                    return bind_action;
                },
            }
        }

        let ids = trigger_map_get_index(&self.button_map, pos);
        let ghost ids_view = ids@;
        let (bind_action, pushed, kept, should_clear_releases, sends, outs) = self.scan_press(
            ids,
            mods,
            &current_layer,
            false,
            is_locked,
        );
        self.sent = Ghost(self.sent@ + with_outcomes(sends@, Edge::Press, outs@));
        proof {
            lemma_outcomes_of(old(self).sent@, sends@, Edge::Press, outs@);
        }
        let ghost scan = press_scan(
            old(self).views(),
            ids_view,
            mods,
            layer_view(current_layer),
            false,
            is_locked,
        );

        if pushed.len() > 0 {
            let mut list = match self.last_pressed_triggered_binds.remove(&button) {
                Some(list) => list,
                None => Vec::new(),
            };
            let ghost prior = list@;
            let mut i: usize = 0;
            while i < pushed.len()
                invariant
                    i <= pushed.len(),
                    list@ == prior + pushed@.take(i as int),
                decreases pushed.len() - i,
            {
                list.push(pushed[i]);
                i = i + 1;
                assert(list@ =~= prior + pushed@.take(i as int));
            }
            assert(pushed@.take(pushed.len() as int) =~= pushed@);
            if should_clear_releases {
                self.last_pressed_triggered_binds.clear();
            }
            self.last_pressed_triggered_binds.insert(button, list);
            proof {
                assert(self.pressed() =~= pressed_after(old(self).pressed(), button, scan));
            }
        } else {
            assert(pressed_after(old(self).pressed(), button, scan) == old(self).pressed());
        }

        set_trigger(&mut self.button_map, trigger, kept);
        proof {
            assert forall|k: u32| k != button implies #[trigger] self.trigger_list(k)
                == old(self).trigger_list(k) by {
                assert(k as u64 != button as u64);
            }
        }
        bind_action
    }

    /// Makes the mousebind with the given id listen for presses, if there is one.
    pub fn set_mousebind_has_on_press(&mut self, mousebind_id: u32)
        requires
            old(self).wf(),
        ensures
            final(self).wf(),
            has_key(old(self).binds(), mousebind_id) ==> {
                let i = key_index(old(self).binds(), mousebind_id);
                final(self).views() == old(self).views().update(
                    i,
                    (mousebind_id, with_has_on_press(old(self).views()[i].1, true)),
                )
            },
            !has_key(old(self).binds(), mousebind_id) ==> final(self).binds() == old(self).binds(),
            forall|k: u32| #[trigger] final(self).trigger_list(k) == old(self).trigger_list(k),
            final(self).pressed() == old(self).pressed(),
    {
        let ghost before = self.binds();
        match mousebind_map_index_of(&self.id_map, mousebind_id) {
            Some(i) => {
                proof {
                    lemma_key_index_unique(before, i as int);
                }
                let mousebind = mousebind_map_get_index_mut(&mut self.id_map, i);
                mousebind.has_on_press = true;
                proof {
                    lemma_update_value(before, i as int, self.binds()[i as int].1);
                    assert forall|j: int| 0 <= j < self.binds().len() implies #[trigger] self.binds()[
                        j].0 == self.binds()[j].1.id_of() by {
                        if j != i {
                            assert(self.binds()[j] == before[j]);
                        }
                    }
                    assert(self.views() =~= old(self).views().update(
                        i as int,
                        (mousebind_id, with_has_on_press(old(self).views()[i as int].1, true)),
                    ));
                }
            },
            None => {},
        }
    }
}


// Gesturebinds

/// The trigger key of a gesture: its direction and finger count, packed.
pub open spec fn spec_gesture_key(direction: i32, fingers: i32) -> u64 {
    ((direction - i32::MIN) * 0x1_0000_0000 + (fingers - i32::MIN)) as u64
}

fn gesture_key(direction: i32, fingers: i32) -> (r: u64)
    ensures
        r == spec_gesture_key(direction, fingers),
{
    let d = (direction as i64 - i32::MIN as i64) as u64;
    let f = (fingers as i64 - i32::MIN as i64) as u64;
    d * 0x1_0000_0000 + f
}

/// Two gestures share a trigger key only if they are the same gesture.
pub proof fn lemma_gesture_key_injective(d1: i32, f1: i32, d2: i32, f2: i32)
    ensures
        (spec_gesture_key(d1, f1) == spec_gesture_key(d2, f2)) == (d1 == d2 && f1 == f2),
{
    let a1 = d1 - i32::MIN;
    let b1 = f1 - i32::MIN;
    let a2 = d2 - i32::MIN;
    let b2 = f2 - i32::MIN;
    assert(0 <= a1 * 0x1_0000_0000 + b1 <= u64::MAX) by (nonlinear_arith)
        requires
            0 <= a1 < 0x1_0000_0000,
            0 <= b1 < 0x1_0000_0000,
    ;
    assert(0 <= a2 * 0x1_0000_0000 + b2 <= u64::MAX) by (nonlinear_arith)
        requires
            0 <= a2 < 0x1_0000_0000,
            0 <= b2 < 0x1_0000_0000,
    ;
    if a1 * 0x1_0000_0000 + b1 == a2 * 0x1_0000_0000 + b2 {
        assert(a1 == a2 && b1 == b2) by (nonlinear_arith)
            requires
                a1 * 0x1_0000_0000 + b1 == a2 * 0x1_0000_0000 + b2,
                0 <= b1 < 0x1_0000_0000,
                0 <= b2 < 0x1_0000_0000,
        ;
    }
}

fn gesturebind_trigger_index(m: &IndexMap<u64, Vec<u32>>, direction: i32, fingers: i32) -> (r: Option<usize>)
    ensures
        match r {
            Some(i) => i < trigger_entries(*m).len() && trigger_entries(*m)[i as int].0 == spec_gesture_key(direction, fingers),
            None => !has_key(trigger_entries(*m), spec_gesture_key(direction, fingers)),
        },
{
    trigger_map_index_of(m, gesture_key(direction, fingers))
}

/// Walks the ids of a gesture's bindings on its end. Bindings whose
/// modifiers do not match are skipped; the walk stops at the first quit
/// binding, reload binding, or binding that may not run while locked.
pub open spec fn gesture_release_scan(
    views: Seq<(u32, BindView)>,
    ids: Seq<u32>,
    mods: ModifiersState,
    acc: BindAction,
    locked: bool,
) -> BindAction
    decreases ids.len(),
{
    if ids.len() == 0 {
        acc
    } else {
        match lookup(views, ids[0]) {
            None => gesture_release_scan(views, ids.drop_first(), mods, acc, locked),
            Some(b) => if !b.mods.spec_matches(mods) {
                gesture_release_scan(views, ids.drop_first(), mods, acc, locked)
            } else if b.is_quit_bind {
                BindAction::Quit
            } else if b.is_reload_config_bind {
                BindAction::ReloadConfig
            } else if locked && !b.allow_when_locked {
                BindAction::Forward
            } else {
                gesture_release_scan(
                    views,
                    ids.drop_first(),
                    mods,
                    if b.has_on_press {
                        BindAction::Suppress
                    } else {
                        acc
                    },
                    locked,
                )
            },
        }
    }
}

/// The ids of the gesturebinds a gesture's end is sent to, in order: the
/// walk of `gesture_release_scan`, over the bindings whose modifiers match,
/// up to the first quit binding, reload binding, or binding that may not run
/// now.
pub open spec fn gesture_release_sends(
    views: Seq<(u32, BindView)>,
    ids: Seq<u32>,
    mods: ModifiersState,
    locked: bool,
) -> Seq<u32>
    decreases ids.len(),
{
    if ids.len() == 0 {
        Seq::empty()
    } else {
        match lookup(views, ids[0]) {
            None => gesture_release_sends(views, ids.drop_first(), mods, locked),
            Some(b) => if !b.mods.spec_matches(mods) {
                gesture_release_sends(views, ids.drop_first(), mods, locked)
            } else if b.is_quit_bind || b.is_reload_config_bind || (locked && !b.allow_when_locked) {
                Seq::empty()
            } else {
                seq![ids[0]] + gesture_release_sends(views, ids.drop_first(), mods, locked)
            },
        }
    }
}

/// A binding of a touchpad swipe gesture.
///
/// `direction` and `fingers` hold the numeric values of the config protocol's
/// gesture direction and finger count.
#[derive(Debug)]
pub struct Gesturebind {
    pub bind_data: BindData,
    pub direction: i32,
    pub fingers: i32,
    sender: UnboundedSender<Edge>,
    pub recv: Option<UnboundedReceiver<Edge>>,
    pub has_on_begin: bool,
}

impl Gesturebind {
    /// The binding holds the receiving end of its channel, for the config to take.
    pub closed spec fn has_receiver(self) -> bool {
        self.recv is Some
    }

    pub closed spec fn bind_view(self) -> BindView {
        bind_data_view(self.bind_data, self.has_on_begin)
    }

    pub closed spec fn id_of(self) -> u32 {
        self.bind_data.id
    }
}

pub open spec fn gesturebind_views(s: Seq<(u32, Gesturebind)>) -> Seq<(u32, BindView)> {
    s.map_values(|e: (u32, Gesturebind)| (e.0, e.1.bind_view()))
}

proof fn lemma_gesturebind_views(s: Seq<(u32, Gesturebind)>)
    requires
        keys_distinct(s),
    ensures
        keys_distinct(gesturebind_views(s)),
        forall|k: u32| #[trigger]
            lookup(gesturebind_views(s), k) == match lookup(s, k) {
                Some(b) => Some(b.bind_view()),
                None => None::<BindView>,
            },
{
    let v = gesturebind_views(s);
    assert forall|i: int, j: int|
        0 <= i < v.len() && 0 <= j < v.len() && i != j implies #[trigger] v[i].0
        != #[trigger] v[j].0 by {
        assert(v[i].0 == s[i].0 && v[j].0 == s[j].0);
    }
    assert forall|k: u32| #[trigger]
        lookup(v, k) == match lookup(s, k) {
            Some(b) => Some(b.bind_view()),
            None => None::<BindView>,
        } by {
        if has_key(s, k) {
            let i = key_index(s, k);
            lemma_key_index_unique(s, i);
            lemma_key_index_unique(v, i);
        } else if has_key(v, k) {
            let i = key_index(v, k);
            assert(s[i].0 == k);
        }
    }
}

/// The gesturebinds, by id and by gesture.
pub struct Gesturebinds {
    /// Every edge sent to a gesturebind's config so far, with the
    /// gesturebind's id and whether it was delivered, in the order sent.
    sent: Ghost<Seq<(u32, Edge, bool)>>,
    pub id_map: IndexMap<u32, Gesturebind>,
    gesture_map: IndexMap<u64, Vec<u32>>,
    /// Kept for the config protocol; gesturebinds do not record presses.
    pub last_pressed_triggered_binds: HashMap<u64, Vec<u32>>,
}

impl Gesturebinds {
    /// The gesturebinds, in the order they were added.
    pub closed spec fn binds(self) -> Seq<(u32, Gesturebind)> {
        gesturebind_entries(self.id_map)
    }

    /// Every edge sent to a gesturebind's config so far, with whether it was
    /// delivered, in order.
    pub closed spec fn sent_log(self) -> Seq<(u32, Edge, bool)> {
        self.sent@
    }

    pub closed spec fn views(self) -> Seq<(u32, BindView)> {
        gesturebind_views(self.binds())
    }

    /// The views are those of the bindings, under the same ids, in order.
    pub proof fn lemma_views_of_binds(self)
        ensures
            self.views() == gesturebind_views(self.binds()),
    {
    }

    /// The ids of the gesturebinds of a gesture, if the gesture was ever bound.
    pub closed spec fn trigger_list(self, direction: i32, fingers: i32) -> Option<Seq<u32>> {
        trigger_view(trigger_entries(self.gesture_map), spec_gesture_key(direction, fingers))
    }

    /// The recorded presses (never written by gesturebinds).
    pub closed spec fn pressed(self) -> Map<u64, Seq<u32>> {
        self.last_pressed_triggered_binds@.map_values(|v: Vec<u32>| v@)
    }

    /// Ids are distinct, and each gesturebind is stored under its own id.
    pub closed spec fn wf(self) -> bool {
        &&& keys_distinct(self.binds())
        &&& keys_distinct(trigger_entries(self.gesture_map))
        &&& ids_match_keys(self.binds(), |b: Gesturebind| b.id_of())
    }


    /// No gesturebinds.
    pub fn new() -> (r: Self)
        ensures
            r.wf(),
            r.binds() == Seq::<(u32, Gesturebind)>::empty(),
            r.pressed() == Map::<u64, Seq<u32>>::empty(),
            forall|d: i32, f: i32| #[trigger] r.trigger_list(d, f) is None,
            r.sent_log() == Seq::<(u32, Edge, bool)>::empty(),
    {
        let r = Self {
            sent: Ghost(Seq::empty()),
            id_map: gesturebind_map_new(),
            gesture_map: trigger_map_new(),
            last_pressed_triggered_binds: HashMap::new(),
        };
        assert(r.pressed() =~= Map::<u64, Seq<u32>>::empty());
        r
    }

    /// Adds a gesturebind with a fresh id from `ids` and returns the id.
    ///
    /// The gesturebind does not listen for the start of its gesture yet.
    pub fn add_gesturebind(
        &mut self,
        ids: &mut BindIdCounter,
        direction: i32,
        fingers: i32,
        mods: ModMask,
        layer: Option<String>,
        group: String,
        desc: String,
        is_quit_bind: bool,
        is_reload_config_bind: bool,
        allow_when_locked: bool,
    ) -> (id: u32)
        requires
            old(self).wf(),
            !has_key(old(self).binds(), old(ids).next),
        ensures
            final(self).wf(),
            id == old(ids).next,
            final(self).binds().len() == old(self).binds().len() + 1,
            final(self).binds().drop_last() == old(self).binds(),
            final(self).binds().last().0 == id,
            final(self).binds().last().1.has_receiver(),
            final(self).sent_log() == old(self).sent_log(),
            final(ids).next == wrapping_succ(old(ids).next),
            final(self).views() == old(self).views().push(
                (
                    id,
                    BindView {
                        id,
                        mods,
                        layer: layer_view(layer),
                        group: group@,
                        desc: desc@,
                        is_quit_bind,
                        is_reload_config_bind,
                        allow_when_locked,
                        has_on_press: false,
                    },
                ),
            ),
            forall|d: i32, f: i32| #[trigger]
                final(self).trigger_list(d, f) == if d == direction && f == fingers {
                    Some(
                        match old(self).trigger_list(d, f) {
                            Some(l) => l,
                            None => Seq::empty(),
                        }.push(id),
                    )
                } else {
                    old(self).trigger_list(d, f)
                },
            final(self).pressed() == old(self).pressed(),
    {
        let id = ids.take();
        let (sender, recv) = edge_channel();
        let gesturebind = Gesturebind {
            bind_data: BindData {
                id,
                mods,
                layer,
                group,
                desc,
                is_quit_bind,
                is_reload_config_bind,
                allow_when_locked,
            },
            direction,
            fingers,
            sender,
            recv: Some(recv),
            has_on_begin: false,
        };
        let ghost before = self.binds();
        let ghost kb = gesturebind;
        proof {
            lemma_push_fresh(before, id, gesturebind);
        }
        let _ = gesturebind_map_insert(&mut self.id_map, id, gesturebind);
        proof {
            assert(self.binds() == before.push((id, kb)));
            assert forall|i: int| 0 <= i < self.binds().len() implies #[trigger] self.binds()[i].0
                == self.binds()[i].1.id_of() by {
                if i < before.len() {
                    assert(self.binds()[i] == before[i]);
                }
            }
            assert(self.views() =~= old(self).views().push((id, kb.bind_view())));
        }
        push_trigger(&mut self.gesture_map, gesture_key(direction, fingers), id);
        proof {
            assert forall|d: i32, f: i32| #[trigger]
                self.trigger_list(d, f) == if d == direction && f == fingers {
                    Some(
                        match old(self).trigger_list(d, f) {
                            Some(l) => l,
                            None => Seq::empty(),
                        }.push(id),
                    )
                } else {
                    old(self).trigger_list(d, f)
                } by {
                lemma_gesture_key_injective(d, f, direction, fingers);
            }
        }
        id
    }

    /// Removes the gesturebind with the given id, if there is one.
    ///
    /// Its id stays in its gesture's list, where it is skipped.
    pub fn remove_gesturebind(&mut self, gesturebind_id: u32)
        requires
            old(self).wf(),
        ensures
            final(self).wf(),
            has_key(old(self).binds(), gesturebind_id) ==> final(self).binds() == old(self).binds().remove(
                key_index(old(self).binds(), gesturebind_id),
            ),
            has_key(old(self).binds(), gesturebind_id) ==> final(self).views() == old(self).views().remove(
                key_index(old(self).views(), gesturebind_id),
            ),
            !has_key(old(self).binds(), gesturebind_id) ==> final(self).binds() == old(self).binds(),
            forall|d: i32, f: i32| #[trigger] final(self).trigger_list(d, f) == old(self).trigger_list(d, f),
            final(self).pressed() == old(self).pressed(),
    {
        let ghost before = self.binds();
        proof {
            if has_key(before, gesturebind_id) {
                lemma_remove_at(before, key_index(before, gesturebind_id));
            }
        }
        let _ = gesturebind_map_shift_remove(&mut self.id_map, gesturebind_id);
        proof {
            lemma_gesturebind_views(before);
            if has_key(before, gesturebind_id) {
                let r = key_index(before, gesturebind_id);
                lemma_key_index_unique(before, r);
                lemma_key_index_unique(gesturebind_views(before), r);
                assert(self.views() =~= old(self).views().remove(r));
            }
            if has_key(before, gesturebind_id) {
                let r = key_index(before, gesturebind_id);
                assert forall|i: int| 0 <= i < self.binds().len() implies #[trigger] self.binds()[
                    i].0 == self.binds()[i].1.id_of() by {
                    if i < r {
                        assert(self.binds()[i] == before[i]);
                    } else {
                        assert(self.binds()[i] == before[i + 1]);
                    }
                }
            }
        }
    }

    /// Makes the gesturebind with the given id listen for the start of its gesture,
    /// if there is one.
    pub fn set_gesturebind_has_on_begin(&mut self, gesturebind_id: u32)
        requires
            old(self).wf(),
        ensures
            final(self).wf(),
            has_key(old(self).binds(), gesturebind_id) ==> {
                let i = key_index(old(self).binds(), gesturebind_id);
                final(self).views() == old(self).views().update(
                    i,
                    (gesturebind_id, with_has_on_press(old(self).views()[i].1, true)),
                )
            },
            !has_key(old(self).binds(), gesturebind_id) ==> final(self).binds() == old(self).binds(),
            forall|d: i32, f: i32| #[trigger] final(self).trigger_list(d, f) == old(self).trigger_list(d, f),
            final(self).pressed() == old(self).pressed(),
    {
        let ghost before = self.binds();
        match gesturebind_map_index_of(&self.id_map, gesturebind_id) {
            Some(i) => {
                proof {
                    lemma_key_index_unique(before, i as int);
                }
                let gesturebind = gesturebind_map_get_index_mut(&mut self.id_map, i);
                gesturebind.has_on_begin = true;
                proof {
                    lemma_update_value(before, i as int, self.binds()[i as int].1);
                    assert forall|j: int| 0 <= j < self.binds().len() implies #[trigger] self.binds()[
                        j].0 == self.binds()[j].1.id_of() by {
                        if j != i {
                            assert(self.binds()[j] == before[j]);
                        }
                    }
                    assert(self.views() =~= old(self).views().update(
                        i as int,
                        (gesturebind_id, with_has_on_press(old(self).views()[i as int].1, true)),
                    ));
                }
            },
            None => {},
        }
    }

    /// Makes the gesturebind with the given id stop listening for the start of its
    /// gesture, if there is one.
    pub fn set_gesturebind_has_on_finish(&mut self, gesturebind_id: u32)
        requires
            old(self).wf(),
        ensures
            final(self).wf(),
            has_key(old(self).binds(), gesturebind_id) ==> {
                let i = key_index(old(self).binds(), gesturebind_id);
                final(self).views() == old(self).views().update(
                    i,
                    (gesturebind_id, with_has_on_press(old(self).views()[i].1, false)),
                )
            },
            !has_key(old(self).binds(), gesturebind_id) ==> final(self).binds() == old(self).binds(),
            forall|d: i32, f: i32| #[trigger] final(self).trigger_list(d, f) == old(self).trigger_list(d, f),
            final(self).pressed() == old(self).pressed(),
    {
        let ghost before = self.binds();
        match gesturebind_map_index_of(&self.id_map, gesturebind_id) {
            Some(i) => {
                proof {
                    lemma_key_index_unique(before, i as int);
                }
                let gesturebind = gesturebind_map_get_index_mut(&mut self.id_map, i);
                gesturebind.has_on_begin = false;
                proof {
                    lemma_update_value(before, i as int, self.binds()[i as int].1);
                    assert forall|j: int| 0 <= j < self.binds().len() implies #[trigger] self.binds()[
                        j].0 == self.binds()[j].1.id_of() by {
                        if j != i {
                            assert(self.binds()[j] == before[j]);
                        }
                    }
                    assert(self.views() =~= old(self).views().update(
                        i as int,
                        (gesturebind_id, with_has_on_press(old(self).views()[i as int].1, false)),
                    ));
                }
            },
            None => {},
        }
    }

    /// Notifies configs that a gesture was executed.
    ///
    /// Only the end of a gesture can trigger a gesturebind; the start is
    /// always forwarded. Returns what becomes of the gesture event.
    pub fn gesture(
        &mut self,
        direction: i32,
        fingers: i32,
        mods: ModifiersState,
        edge: Edge,
        _current_layer: Option<String>,
        is_locked: bool,
    ) -> (action: BindAction)
        requires
            old(self).wf(),
        ensures
            final(self).wf(),
            final(self).binds() == old(self).binds(),
            final(self).pressed() == old(self).pressed(),
            forall|d: i32, f: i32| #[trigger]
                final(self).trigger_list(d, f) == old(self).trigger_list(d, f),
            final(self).sent_log() == match old(self).trigger_list(direction, fingers) {
                Some(ids) => if edge == Edge::Release {
                    old(self).sent_log() + with_outcomes(
                        gesture_release_sends(old(self).views(), ids, mods, is_locked),
                        Edge::Release,
                        outcomes_of(old(self).sent_log(), final(self).sent_log()),
                    )
                } else {
                    old(self).sent_log()
                },
                None => old(self).sent_log(),
            },
            old(self).trigger_list(direction, fingers) is None || edge == Edge::Press ==> *final(self)
                == *old(self),
            action == match old(self).trigger_list(direction, fingers) {
                Some(ids) => if edge == Edge::Release {
                    gesture_release_scan(old(self).views(), ids, mods, BindAction::Forward, is_locked)
                } else {
                    BindAction::Forward
                },
                None => BindAction::Forward,
            },
    {
        let pos = match gesturebind_trigger_index(&self.gesture_map, direction, fingers) {
            Some(pos) => pos,
            None => {
                return BindAction::Forward;
            },
        };
        proof {
            lemma_key_index_unique(trigger_entries(self.gesture_map), pos as int);
        }
        if edge == Edge::Release {
            let ids = trigger_map_get_index(&self.gesture_map, pos);
            let ghost views = self.views();
            proof {
                lemma_gesturebind_views(self.binds());
            }
            let ghost whole = gesture_release_scan(views, ids@, mods, BindAction::Forward, is_locked);
            assert(old(self).trigger_list(direction, fingers) == Some(ids@));
            let mut bind_action = BindAction::Forward;
            let ghost whole_sends = gesture_release_sends(views, ids@, mods, is_locked);
            let ghost mut sends: Seq<u32> = Seq::empty();
            let ghost mut outs: Seq<bool> = Seq::empty();
            let mut j: usize = 0;
            assert(ids@.skip(0) =~= ids@);
            assert(old(self).sent@ + with_outcomes(sends, Edge::Release, outs) =~= old(self).sent@);
            while j < ids.len()
                invariant
                    self.wf(),
                    self.id_map == old(self).id_map,
                    self.gesture_map == old(self).gesture_map,
                    self.last_pressed_triggered_binds == old(self).last_pressed_triggered_binds,
                    self.sent@ == old(self).sent@ + with_outcomes(sends, Edge::Release, outs),
                    outs.len() == sends.len(),
                    whole_sends == gesture_release_sends(views, ids@, mods, is_locked),
                    whole_sends == sends + gesture_release_sends(
                        views,
                        ids@.skip(j as int),
                        mods,
                        is_locked,
                    ),
                    views == self.views(),
                    keys_distinct(views),
                    forall|k: u32| #[trigger]
                        lookup(views, k) == match lookup(self.binds(), k) {
                            Some(b) => Some(b.bind_view()),
                            None => None::<BindView>,
                        },
                    j <= ids.len(),
                    whole == gesture_release_scan(views, ids@.skip(j as int), mods, bind_action, is_locked),
                    whole == gesture_release_scan(views, ids@, mods, BindAction::Forward, is_locked),
                    old(self).trigger_list(direction, fingers) == Some(ids@),
                    edge == Edge::Release,
                decreases ids.len() - j,
            {
                let id = ids[j];
                assert(ids@.skip(j as int).drop_first() =~= ids@.skip(j + 1));
                match gesturebind_map_index_of(&self.id_map, id) {
                    None => {
                        assert(!has_key(views, id));
                    },
                    Some(bi) => {
                        let gesturebind = gesturebind_map_get_index(&self.id_map, bi);
                        proof {
                            lemma_key_index_unique(self.binds(), bi as int);
                            assert(lookup(views, id) == Some(gesturebind.bind_view()));
                        }
                        if gesturebind.bind_data.mods.matches(mods) {
                            let ghost rest = ids@.skip(j as int);
                            assert(rest[0] == id);
                            if gesturebind.bind_data.is_quit_bind {
                                assert(whole == BindAction::Quit);
                                assert(whole_sends =~= sends);
                                proof {
                                    lemma_outcomes_of(old(self).sent@, sends, Edge::Release, outs);
                                }
                                return BindAction::Quit;
                            }
                            if gesturebind.bind_data.is_reload_config_bind {
                                assert(whole == BindAction::ReloadConfig);
                                assert(whole_sends =~= sends);
                                proof {
                                    lemma_outcomes_of(old(self).sent@, sends, Edge::Release, outs);
                                }
                                return BindAction::ReloadConfig;
                            }
                            if is_locked && !gesturebind.bind_data.allow_when_locked {
                                assert(whole == BindAction::Forward);
                                assert(whole_sends =~= sends);
                                proof {
                                    lemma_outcomes_of(old(self).sent@, sends, Edge::Release, outs);
                                }
                                return BindAction::Forward;
                            }
                            if gesturebind.has_on_begin {
                                bind_action = BindAction::Suppress;
                            }
                            let delivered = send_edge(&gesturebind.sender, Edge::Release);
                            proof {
                                let rs = gesture_release_sends(
                                    views,
                                    ids@.skip(j + 1),
                                    mods,
                                    is_locked,
                                );
                                assert(sends + (seq![id] + rs) =~= sends.push(id) + rs);
                                assert(with_outcomes(sends.push(id), Edge::Release, outs.push(delivered))
                                    =~= with_outcomes(sends, Edge::Release, outs).push(
                                    (id, Edge::Release, delivered),
                                ));
                                sends = sends.push(id);
                                outs = outs.push(delivered);
                            }
                            self.sent = Ghost(self.sent@.push((id, Edge::Release, delivered)));
                        }
                    },
                }
                j = j + 1;
            }
            assert(ids@.skip(j as int) =~= Seq::<u32>::empty());
            assert(whole_sends =~= sends);
            proof {
                lemma_outcomes_of(old(self).sent@, sends, Edge::Release, outs);
            }
            return bind_action;
        }
        BindAction::Forward
    }
}


// The binding state

/// The layers entered so far, in order; the last one is current.
pub open spec fn layers_of(stack: Seq<String>) -> Seq<Seq<char>> {
    stack.map_values(|l: String| l@)
}

/// `layers` without any occurrence of `layer`, in order.
pub open spec fn without_layer(layers: Seq<Seq<char>>, layer: Seq<char>) -> Seq<Seq<char>>
    decreases layers.len(),
{
    if layers.len() == 0 {
        Seq::empty()
    } else {
        let rest = without_layer(layers.drop_last(), layer);
        if layers.last() == layer {
            rest
        } else {
            rest.push(layers.last())
        }
    }
}

/// All bindings, the stack of bind layers, and the source of binding ids.
pub struct BindState {
    pub layer_stack: Vec<String>,
    pub keybinds: Keybinds,
    pub mousebinds: Mousebinds,
    pub gesturebinds: Gesturebinds,
    pub bind_ids: BindIdCounter,
}

impl BindState {
    pub open spec fn layers(self) -> Seq<Seq<char>> {
        layers_of(self.layer_stack@)
    }

    pub open spec fn wf(self) -> bool {
        &&& self.keybinds.wf()
        &&& self.mousebinds.wf()
        &&& self.gesturebinds.wf()
    }

    /// No bindings, no layers, and binding ids starting at 0.
    pub fn new() -> (r: Self)
        ensures
            r.wf(),
            r.layers() == Seq::<Seq<char>>::empty(),
            r.keybinds.binds() == Seq::<(u32, Keybind)>::empty(),
            r.mousebinds.binds() == Seq::<(u32, Mousebind)>::empty(),
            r.gesturebinds.binds() == Seq::<(u32, Gesturebind)>::empty(),
            r.keybinds.pressed() == Map::<u32, Seq<u32>>::empty(),
            r.mousebinds.pressed() == Map::<u32, Seq<u32>>::empty(),
            r.gesturebinds.pressed() == Map::<u64, Seq<u32>>::empty(),
            forall|k: u32| #[trigger] r.keybinds.trigger_list(k) is None,
            forall|b: u32| #[trigger] r.mousebinds.trigger_list(b) is None,
            forall|d: i32, f: i32| #[trigger] r.gesturebinds.trigger_list(d, f) is None,
            r.bind_ids.next == 0,
    {
        let r = Self {
            layer_stack: Vec::new(),
            keybinds: Keybinds::new(),
            mousebinds: Mousebinds::new(),
            gesturebinds: Gesturebinds::new(),
            bind_ids: BindIdCounter { next: 0 },
        };
        assert(r.layers() =~= Seq::<Seq<char>>::empty());
        r
    }

    /// Removes all keybinds and mousebinds (gesturebinds and layers stay).
    pub fn clear(&mut self)
        requires
            old(self).wf(),
        ensures
            final(self).wf(),
            final(self).keybinds.binds() == Seq::<(u32, Keybind)>::empty(),
            final(self).mousebinds.binds() == Seq::<(u32, Mousebind)>::empty(),
            forall|k: u32| #[trigger] final(self).keybinds.trigger_list(k) is None,
            forall|b: u32| #[trigger] final(self).mousebinds.trigger_list(b) is None,
            final(self).keybinds.pressed() == old(self).keybinds.pressed(),
            final(self).mousebinds.pressed() == old(self).mousebinds.pressed(),
            final(self).gesturebinds == old(self).gesturebinds,
            final(self).layer_stack == old(self).layer_stack,
            final(self).bind_ids == old(self).bind_ids,
    {
        keybind_map_clear(&mut self.keybinds.id_map);
        trigger_map_clear(&mut self.keybinds.keysym_map);
        mousebind_map_clear(&mut self.mousebinds.id_map);
        trigger_map_clear(&mut self.mousebinds.button_map);
    }

    /// Enters `layer`, moving it to the top of the stack, or leaves every
    /// layer when `layer` is `None`.
    pub fn enter_layer(&mut self, layer: Option<String>)
        ensures
            final(self).layers() == match layer {
                Some(l) => without_layer(old(self).layers(), l@).push(l@),
                None => Seq::<Seq<char>>::empty(),
            },
            final(self).keybinds == old(self).keybinds,
            final(self).mousebinds == old(self).mousebinds,
            final(self).gesturebinds == old(self).gesturebinds,
            final(self).bind_ids == old(self).bind_ids,
    {
        match layer {
            Some(layer) => {
                let ghost old_layers = self.layers();
                let mut kept: Vec<String> = Vec::new();
                let mut i: usize = 0;
                while i < self.layer_stack.len()
                    invariant
                        self.layers() == old_layers,
                        i <= self.layer_stack.len(),
                        layers_of(kept@) == without_layer(old_layers.take(i as int), layer@),
                    decreases self.layer_stack.len() - i,
                {
                    let ghost prefix = old_layers.take(i as int);
                    assert(old_layers.take(i + 1).drop_last() =~= prefix);
                    if !self.layer_stack[i].eq(&layer) {
                        kept.push(self.layer_stack[i].clone());
                    }
                    i = i + 1;
                    assert(layers_of(kept@) =~= without_layer(old_layers.take(i as int), layer@));
                }
                assert(old_layers.take(i as int) =~= old_layers);
                kept.push(layer);
                self.layer_stack = kept;
                assert(self.layers() =~= without_layer(old_layers, layer@).push(layer@));
            },
            None => {
                self.layer_stack.clear();
                assert(self.layers() =~= Seq::<Seq<char>>::empty());
            },
        }
    }

    /// The current layer: the top of the stack, if any.
    pub fn current_layer(&self) -> (r: Option<String>)
        ensures
            layer_view(r) == if self.layers().len() == 0 {
                None
            } else {
                Some(self.layers().last())
            },
    {
        let n = self.layer_stack.len();
        if n == 0 {
            None
        } else {
            Some(self.layer_stack[n - 1].clone())
        }
    }

    /// Leaves the current layer, if any.
    pub fn enter_previous_layer(&mut self)
        ensures
            final(self).layers() == if old(self).layers().len() == 0 {
                old(self).layers()
            } else {
                old(self).layers().drop_last()
            },
            final(self).keybinds == old(self).keybinds,
            final(self).mousebinds == old(self).mousebinds,
            final(self).gesturebinds == old(self).gesturebinds,
            final(self).bind_ids == old(self).bind_ids,
    {
        let _ = self.layer_stack.pop();
        assert(old(self).layers().len() > 0 ==> self.layers() =~= old(self).layers().drop_last());
    }

    /// `after` is `before` with one field of the keybind `bind_id`, or else of
    /// the mousebind `bind_id`, set; nothing else changes.
    pub open spec fn field_set(before: Self, after: Self, bind_id: u32, field: BindField) -> bool {
        &&& after.wf()
        &&& has_key(before.keybinds.binds(), bind_id) ==> {
            let i = key_index(before.keybinds.binds(), bind_id);
            &&& after.keybinds.views() == before.keybinds.views().update(
                i,
                (bind_id, field_applied(before.keybinds.views()[i].1, field)),
            )
            &&& after.mousebinds == before.mousebinds
        }
        &&& !has_key(before.keybinds.binds(), bind_id) ==> {
            &&& after.keybinds == before.keybinds
            &&& has_key(before.mousebinds.binds(), bind_id) ==> {
                let i = key_index(before.mousebinds.binds(), bind_id);
                after.mousebinds.views() == before.mousebinds.views().update(
                    i,
                    (bind_id, field_applied(before.mousebinds.views()[i].1, field)),
                )
            }
            &&& !has_key(before.mousebinds.binds(), bind_id) ==> after.mousebinds
                == before.mousebinds
        }
        &&& forall|k: u32| #[trigger]
            after.keybinds.trigger_list(k) == before.keybinds.trigger_list(k)
        &&& forall|b: u32| #[trigger]
            after.mousebinds.trigger_list(b) == before.mousebinds.trigger_list(b)
        &&& after.keybinds.pressed() == before.keybinds.pressed()
        &&& after.mousebinds.pressed() == before.mousebinds.pressed()
        &&& after.gesturebinds == before.gesturebinds
        &&& after.layer_stack == before.layer_stack
        &&& after.bind_ids == before.bind_ids
    }

    /// Sets one field of the keybind with the given id, or else of the
    /// mousebind with it; gesturebinds are not affected.
    fn set_field(&mut self, bind_id: u32, field: BindField)
        requires
            old(self).wf(),
        ensures
            BindState::field_set(*old(self), *final(self), bind_id, field),
    {
        if self.keybinds.contains_bind(bind_id) {
            self.keybinds.set_bind_field(bind_id, field);
        } else if self.mousebinds.contains_bind(bind_id) {
            self.mousebinds.set_bind_field(bind_id, field);
        }
    }

    /// Sets the group of the keybind or mousebind with the given id.
    pub fn set_bind_group(&mut self, bind_id: u32, group: String)
        requires
            old(self).wf(),
        ensures
            BindState::field_set(*old(self), *final(self), bind_id, BindField::Group(group)),
    {
        self.set_field(bind_id, BindField::Group(group));
    }

    /// Sets the description of the keybind or mousebind with the given id.
    pub fn set_bind_desc(&mut self, bind_id: u32, desc: String)
        requires
            old(self).wf(),
        ensures
            BindState::field_set(*old(self), *final(self), bind_id, BindField::Desc(desc)),
    {
        self.set_field(bind_id, BindField::Desc(desc));
    }

    /// Sets the quit flag of the keybind or mousebind with the given id.
    pub fn set_quit(&mut self, bind_id: u32, quit: bool)
        requires
            old(self).wf(),
        ensures
            BindState::field_set(*old(self), *final(self), bind_id, BindField::IsQuitBind(quit)),
    {
        self.set_field(bind_id, BindField::IsQuitBind(quit));
    }

    /// Sets the reload-config flag of the keybind or mousebind with the given id.
    pub fn set_reload_config(&mut self, bind_id: u32, reload_config: bool)
        requires
            old(self).wf(),
        ensures
            BindState::field_set(*old(self), *final(self), bind_id, BindField::IsReloadConfigBind(reload_config)),
    {
        self.set_field(bind_id, BindField::IsReloadConfigBind(reload_config));
    }

    /// Sets the allow-when-locked flag of the keybind or mousebind with the given id.
    pub fn set_allow_when_locked(&mut self, bind_id: u32, allow_when_locked: bool)
        requires
            old(self).wf(),
        ensures
            BindState::field_set(*old(self), *final(self), bind_id, BindField::AllowWhenLocked(allow_when_locked)),
    {
        self.set_field(bind_id, BindField::AllowWhenLocked(allow_when_locked));
    }
}

impl Default for Keybinds {
    fn default() -> (r: Self)
        ensures
            r.wf(),
            r.binds() == Seq::<(u32, Keybind)>::empty(),
            r.pressed() == Map::<u32, Seq<u32>>::empty(),
            forall|k: u32| #[trigger] r.trigger_list(k) is None,
            r.sent_log() == Seq::<(u32, Edge, bool)>::empty(),
    {
        Keybinds::new()
    }
}

impl Default for Mousebinds {
    fn default() -> (r: Self)
        ensures
            r.wf(),
            r.binds() == Seq::<(u32, Mousebind)>::empty(),
            r.pressed() == Map::<u32, Seq<u32>>::empty(),
            forall|k: u32| #[trigger] r.trigger_list(k) is None,
            r.sent_log() == Seq::<(u32, Edge, bool)>::empty(),
    {
        Mousebinds::new()
    }
}

impl Default for Gesturebinds {
    fn default() -> (r: Self)
        ensures
            r.wf(),
            r.binds() == Seq::<(u32, Gesturebind)>::empty(),
            r.pressed() == Map::<u64, Seq<u32>>::empty(),
            forall|d: i32, f: i32| #[trigger] r.trigger_list(d, f) is None,
            r.sent_log() == Seq::<(u32, Edge, bool)>::empty(),
    {
        Gesturebinds::new()
    }
}

impl Default for BindState {
    fn default() -> (r: Self)
        ensures
            r.wf(),
            r.layers() == Seq::<Seq<char>>::empty(),
            r.bind_ids.next == 0,
    {
        BindState::new()
    }
}

} // verus!
