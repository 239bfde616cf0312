//! What holds of bindings whatever their configuration.
use vstd::prelude::*;

use super::{
    decided, gesture_release_scan, gesture_release_sends, press_scan, press_sends, press_sends_at, release_walk,
    without_layer, BindAction, BindView, ModMask, ModifiersState,
};
use crate::keyed::{has_key, key_index, keys_distinct, lemma_key_index_unique, lemma_push_fresh, lookup};

verus! {

/// A live binding at position `i` of `ids` whose modifiers match and that quits
/// or reloads the config.
pub open spec fn quits_or_reloads_at(
    views: Seq<(u32, BindView)>,
    ids: Seq<u32>,
    i: int,
    mods: ModifiersState,
) -> bool {
    &&& 0 <= i < ids.len()
    &&& lookup(views, ids[i]) matches Some(b)
    &&& b.mods.spec_matches(mods)
    &&& (b.is_quit_bind || b.is_reload_config_bind)
}

/// The binding with id `id` is live and its modifiers match.
pub open spec fn live_match(views: Seq<(u32, BindView)>, id: u32, mods: ModifiersState) -> bool {
    match lookup(views, id) {
        Some(b) => b.mods.spec_matches(mods),
        None => false,
    }
}

/// A live binding in `ids` whose modifiers match.
pub open spec fn some_match(views: Seq<(u32, BindView)>, ids: Seq<u32>, mods: ModifiersState) -> bool {
    exists|i: int| 0 <= i < ids.len() && #[trigger] live_match(views, ids[i], mods)
}

proof fn lemma_press_scan_lock_independent(
    views: Seq<(u32, BindView)>,
    ids: Seq<u32>,
    mods: ModifiersState,
    layer: Option<Seq<char>>,
    inhibited1: bool,
    locked1: bool,
    inhibited2: bool,
    locked2: bool,
)
    ensures
        ({
            let a = press_scan(views, ids, mods, layer, inhibited1, locked1);
            let b = press_scan(views, ids, mods, layer, inhibited2, locked2);
            &&& decided(a.action) == decided(b.action)
            &&& decided(a.action) ==> a.action == b.action
            &&& a.pushed == b.pushed
            &&& (exists|i: int| quits_or_reloads_at(views, ids, i, mods)) ==> decided(a.action)
        }),
    decreases ids.len(),
{
    if ids.len() > 0 {
        lemma_press_scan_lock_independent(
            views,
            ids.drop_last(),
            mods,
            layer,
            inhibited1,
            locked1,
            inhibited2,
            locked2,
        );
        let prefix = ids.drop_last();
        let a = press_scan(views, ids, mods, layer, inhibited1, locked1);
        if exists|i: int| quits_or_reloads_at(views, ids, i, mods) {
            let i = choose|i: int| quits_or_reloads_at(views, ids, i, mods);
            if i < ids.len() - 1 {
                assert(prefix[i] == ids[i]);
                assert(quits_or_reloads_at(views, prefix, i, mods));
            }
        }
    }
}

/// The quit and reload bindings cannot be blocked: when a binding of the
/// pressed trigger quits or reloads the config and its modifiers match, the
/// press quits or reloads, whether shortcuts are inhibited or the session is
/// locked, and the outcome is the same in every such state.
pub proof fn law_quit_and_reload_binds_cannot_be_blocked(
    views: Seq<(u32, BindView)>,
    ids: Seq<u32>,
    mods: ModifiersState,
    layer: Option<Seq<char>>,
    i: int,
    inhibited1: bool,
    locked1: bool,
    inhibited2: bool,
    locked2: bool,
)
    requires
        quits_or_reloads_at(views, ids, i, mods),
    ensures
        decided(press_scan(views, ids, mods, layer, inhibited1, locked1).action),
        press_scan(views, ids, mods, layer, inhibited1, locked1).action == press_scan(
            views,
            ids,
            mods,
            layer,
            inhibited2,
            locked2,
        ).action,
{
    lemma_press_scan_lock_independent(
        views,
        ids,
        mods,
        layer,
        inhibited1,
        locked1,
        inhibited2,
        locked2,
    );
}

/// A press that matches no live binding of its trigger is forwarded to the
/// client and records nothing.
pub proof fn law_unmatched_press_is_forwarded(
    views: Seq<(u32, BindView)>,
    ids: Seq<u32>,
    mods: ModifiersState,
    layer: Option<Seq<char>>,
    inhibited: bool,
    locked: bool,
)
    requires
        !some_match(views, ids, mods),
    ensures
        press_scan(views, ids, mods, layer, inhibited, locked).action == BindAction::Forward,
        press_scan(views, ids, mods, layer, inhibited, locked).pushed.len() == 0,
        !press_scan(views, ids, mods, layer, inhibited, locked).clear_others,
    decreases ids.len(),
{
    if ids.len() > 0 {
        let prefix = ids.drop_last();
        assert forall|i: int| 0 <= i < prefix.len() implies !#[trigger] live_match(
            views,
            prefix[i],
            mods,
        ) by {
            assert(prefix[i] == ids[i]);
        }
        assert(!live_match(views, ids[ids.len() - 1], mods));
        law_unmatched_press_is_forwarded(views, prefix, mods, layer, inhibited, locked);
        assert(ids.last() == ids[ids.len() - 1]);
    }
}

/// The release of a trigger whose first live pressed binding quits (or
/// reloads) the config quits (or reloads), whatever else holds, and is sent
/// to no binding.
pub proof fn law_release_of_quit_bind_quits(
    views: Seq<(u32, BindView)>,
    ids: Seq<u32>,
    outcomes: Seq<bool>,
    acc: BindAction,
    inhibited: bool,
    locked: bool,
)
    requires
        ids.len() > 0,
        lookup(views, ids[0]) matches Some(b) && (b.is_quit_bind || b.is_reload_config_bind),
    ensures
        decided(release_walk(views, ids, outcomes, acc, Seq::empty(), inhibited, locked).action),
        release_walk(views, ids, outcomes, acc, Seq::empty(), inhibited, locked).sent
            == Seq::<u32>::empty(),
        release_walk(views, ids, outcomes, acc, Seq::empty(), inhibited, locked).refused
            == Seq::<u32>::empty(),
{
}

/// The mask of a new binding matches exactly when none of shift, ctrl, alt,
/// super, ISO level 3 shift and ISO level 5 shift is held; caps lock and num
/// lock do not matter.
pub proof fn law_new_mask_matches_only_unmodified(state: ModifiersState)
    ensures
        (ModMask {
            shift: Some(false),
            ctrl: Some(false),
            alt: Some(false),
            super_: Some(false),
            iso_level3_shift: Some(false),
            iso_level5_shift: Some(false),
        }).spec_matches(state) <==> (!state.shift && !state.ctrl && !state.alt && !state.logo
            && !state.iso_level3_shift && !state.iso_level5_shift),
{
}

/// A mask that cares about no modifier matches every state.
pub proof fn law_empty_mask_matches_everything(state: ModifiersState)
    ensures
        (ModMask {
            shift: None,
            ctrl: None,
            alt: None,
            super_: None,
            iso_level3_shift: None,
            iso_level5_shift: None,
        }).spec_matches(state),
{
}

proof fn lemma_without_layer(layers: Seq<Seq<char>>, layer: Seq<char>)
    ensures
        forall|i: int|
            0 <= i < without_layer(layers, layer).len() ==> #[trigger] without_layer(
                layers,
                layer,
            )[i] != layer,
        forall|x: Seq<char>|
            x != layer ==> (without_layer(layers, layer).contains(x) == layers.contains(x)),
        without_layer(layers, layer).len() <= layers.len(),
    decreases layers.len(),
{
    if layers.len() > 0 {
        let prefix = layers.drop_last();
        lemma_without_layer(prefix, layer);
        assert forall|x: Seq<char>|
            x != layer implies (without_layer(layers, layer).contains(x) == layers.contains(
                x,
            )) by {
            let w = without_layer(layers, layer);
            let rest = without_layer(prefix, layer);
            if layers.contains(x) {
                let i = choose|i: int| 0 <= i < layers.len() && layers[i] == x;
                if i < layers.len() - 1 {
                    assert(prefix[i] == x);
                    assert(prefix.contains(x));
                    assert(rest.contains(x));
                    let k = choose|k: int| 0 <= k < rest.len() && rest[k] == x;
                    assert(w[k] == x);
                } else {
                    assert(w[w.len() - 1] == x);
                }
                assert(w.contains(x));
            }
            if without_layer(layers, layer).contains(x) {
                let w = without_layer(layers, layer);
                let i = choose|i: int| 0 <= i < w.len() && w[i] == x;
                if layers.last() != layer && i == w.len() - 1 {
                    assert(layers[layers.len() - 1] == x);
                } else {
                    assert(without_layer(prefix, layer)[i] == x);
                    assert(without_layer(prefix, layer).contains(x));
                    assert(prefix.contains(x));
                    let j = choose|j: int| 0 <= j < prefix.len() && prefix[j] == x;
                    assert(layers[j] == x);
                }
            }
        }
    }
}

/// Entering a layer makes it the current one, leaves it on the stack exactly
/// once, and keeps every other layer that was entered.
pub proof fn law_entered_layer_is_current_once(layers: Seq<Seq<char>>, layer: Seq<char>)
    ensures
        without_layer(layers, layer).push(layer).last() == layer,
        forall|i: int|
            0 <= i < without_layer(layers, layer).len() ==> #[trigger] without_layer(
                layers,
                layer,
            ).push(layer)[i] != layer,
        forall|x: Seq<char>|
            x != layer ==> (without_layer(layers, layer).push(layer).contains(x)
                == layers.contains(x)),
{
    lemma_without_layer(layers, layer);
    let w = without_layer(layers, layer);
    assert forall|i: int| 0 <= i < w.len() implies #[trigger] w.push(layer)[i] != layer by {
        assert(w.push(layer)[i] == w[i]);
    }
    assert forall|x: Seq<char>| x != layer implies (w.push(layer).contains(x) == layers.contains(
        x,
    )) by {
        if w.push(layer).contains(x) {
            let i = choose|i: int| 0 <= i < w.push(layer).len() && w.push(layer)[i] == x;
            assert(w[i] == x);
        }
        if w.contains(x) {
            let i = choose|i: int| 0 <= i < w.len() && w[i] == x;
            assert(w.push(layer)[i] == x);
        }
    }
}

/// Removing a binding right after adding it gives back the bindings as they
/// were, in the same order (of the bindings themselves, or of their views).
pub proof fn law_remove_undoes_add<V>(views: Seq<(u32, V)>, id: u32, v: V)
    requires
        keys_distinct(views),
        !has_key(views, id),
    ensures
        views.push((id, v)).remove(key_index(views.push((id, v)), id)) == views,
{
    lemma_push_fresh(views, id, v);
    lemma_key_index_unique(views.push((id, v)), views.len() as int);
    assert(views.push((id, v)).remove(views.len() as int) =~= views);
}

/// A release walk never sends to a binding that is not bound.
proof fn lemma_release_walk_skips_unbound(
    views: Seq<(u32, BindView)>,
    ids: Seq<u32>,
    id: u32,
    outcomes: Seq<bool>,
    acc: BindAction,
    refused: Seq<u32>,
    inhibited: bool,
    locked: bool,
)
    requires
        lookup(views, id) is None,
    ensures
        !release_walk(views, ids, outcomes, acc, refused, inhibited, locked).sent.contains(id),
    decreases ids.len(),
{
    if ids.len() > 0 {
        match lookup(views, ids[0]) {
            None => {
                lemma_release_walk_skips_unbound(views, ids.drop_first(), id, outcomes, acc, refused, inhibited, locked);
            },
            Some(b) => {
                let acc2 = if b.has_on_press {
                    BindAction::Suppress
                } else {
                    acc
                };
                let refused2 = if outcomes[0] {
                    refused
                } else {
                    refused.push(ids[0])
                };
                lemma_release_walk_skips_unbound(views, ids.drop_first(), id, outcomes, acc, refused, inhibited, locked);
                lemma_release_walk_skips_unbound(
                    views,
                    ids.drop_first(),
                    id,
                    outcomes.drop_first(),
                    acc2,
                    refused2,
                    inhibited,
                    locked,
                );
                let r = release_walk(views, ids.drop_first(), outcomes.drop_first(), acc2, refused2, inhibited, locked).sent;
                if (seq![ids[0]] + r).contains(id) {
                    let k = choose|k: int| 0 <= k < r.len() + 1 && (seq![ids[0]] + r)[k] == id;
                    if k > 0 {
                        assert(r[k - 1] == id);
                    }
                }
            },
        }
    }
}

/// A binding that is not bound (removed, or cleared with all others) is
/// sent nothing: neither a press, nor a release (whatever the configs answer
/// to the sends before it), nor the end of a gesture.
pub proof fn law_unbound_binding_is_sent_nothing(
    views: Seq<(u32, BindView)>,
    ids: Seq<u32>,
    id: u32,
    mods: ModifiersState,
    layer: Option<Seq<char>>,
    inhibited: bool,
    locked: bool,
    outcomes: Seq<bool>,
)
    requires
        lookup(views, id) is None,
    ensures
        !press_sends(views, ids, mods, layer, inhibited, locked).contains(id),
        !release_walk(views, ids, outcomes, BindAction::Forward, Seq::empty(), inhibited, locked).sent.contains(id),
        !gesture_release_sends(views, ids, mods, locked).contains(id),
    decreases ids.len(),
{
    lemma_release_walk_skips_unbound(views, ids, id, outcomes, BindAction::Forward, Seq::empty(), inhibited, locked);
    if ids.len() > 0 {
        law_unbound_binding_is_sent_nothing(views, ids.drop_last(), id, mods, layer, inhibited, locked, outcomes);
        law_unbound_binding_is_sent_nothing(views, ids.drop_first(), id, mods, layer, inhibited, locked, outcomes);
        let prev = press_sends(views, ids.drop_last(), mods, layer, inhibited, locked);
        if press_sends_at(views, ids, ids.len() - 1, mods, layer, inhibited, locked) {
            assert(ids.last() != id);
            if prev.push(ids.last()).contains(id) {
                let k = choose|k: int| 0 <= k < prev.len() + 1 && prev.push(ids.last())[k] == id;
                assert(prev[k] == id);
            }
        }
        let g = gesture_release_sends(views, ids.drop_first(), mods, locked);
        if (seq![ids[0]] + g).contains(id) {
            let k = choose|k: int| 0 <= k < g.len() + 1 && (seq![ids[0]] + g)[k] == id;
            if k > 0 {
                assert(g[k - 1] == id);
            }
        }
    }
}

/// An id in a trigger's list that names no binding (one removed, or never
/// added) decides nothing: the press comes to the same, is sent to the same
/// bindings, and the release walk is the same, as with the id left out.
pub proof fn law_unbound_binding_decides_nothing(
    views: Seq<(u32, BindView)>,
    a: Seq<u32>,
    b: Seq<u32>,
    id: u32,
    mods: ModifiersState,
    layer: Option<Seq<char>>,
    inhibited: bool,
    locked: bool,
    outcomes: Seq<bool>,
    acc: BindAction,
    refused: Seq<u32>,
)
    requires
        lookup(views, id) is None,
    ensures
        press_scan(views, a + seq![id] + b, mods, layer, inhibited, locked) == press_scan(
            views,
            a + b,
            mods,
            layer,
            inhibited,
            locked,
        ),
        press_sends(views, a + seq![id] + b, mods, layer, inhibited, locked) == press_sends(
            views,
            a + b,
            mods,
            layer,
            inhibited,
            locked,
        ),
        release_walk(views, a + seq![id] + b, outcomes, acc, refused, inhibited, locked)
            == release_walk(views, a + b, outcomes, acc, refused, inhibited, locked),
{
    lemma_unbound_press(views, a, b, id, mods, layer, inhibited, locked);
    lemma_unbound_release(views, a, b, id, outcomes, acc, refused, inhibited, locked);
}

proof fn lemma_unbound_press(
    views: Seq<(u32, BindView)>,
    a: Seq<u32>,
    b: Seq<u32>,
    id: u32,
    mods: ModifiersState,
    layer: Option<Seq<char>>,
    inhibited: bool,
    locked: bool,
)
    requires
        lookup(views, id) is None,
    ensures
        press_scan(views, a + seq![id] + b, mods, layer, inhibited, locked) == press_scan(
            views,
            a + b,
            mods,
            layer,
            inhibited,
            locked,
        ),
        press_sends(views, a + seq![id] + b, mods, layer, inhibited, locked) == press_sends(
            views,
            a + b,
            mods,
            layer,
            inhibited,
            locked,
        ),
    decreases b.len(),
{
    let with = a + seq![id] + b;
    let without = a + b;
    if b.len() == 0 {
        assert(with.drop_last() =~= a);
        assert(without =~= a);
        let prefix = with.take(with.len() - 1);
        assert(prefix =~= a);
        assert(!press_sends_at(views, with, with.len() - 1, mods, layer, inhibited, locked));
    } else {
        lemma_unbound_press(views, a, b.drop_last(), id, mods, layer, inhibited, locked);
        assert(with.drop_last() =~= a + seq![id] + b.drop_last());
        assert(without.drop_last() =~= a + b.drop_last());
        assert(with.last() == without.last());
        assert(with.take(with.len() - 1) =~= with.drop_last());
        assert(without.take(without.len() - 1) =~= without.drop_last());
    }
}

proof fn lemma_unbound_release(
    views: Seq<(u32, BindView)>,
    a: Seq<u32>,
    b: Seq<u32>,
    id: u32,
    outcomes: Seq<bool>,
    acc: BindAction,
    refused: Seq<u32>,
    inhibited: bool,
    locked: bool,
)
    requires
        lookup(views, id) is None,
    ensures
        release_walk(views, a + seq![id] + b, outcomes, acc, refused, inhibited, locked)
            == release_walk(views, a + b, outcomes, acc, refused, inhibited, locked),
    decreases a.len(),
{
    let with = a + seq![id] + b;
    let without = a + b;
    if a.len() == 0 {
        assert(with.drop_first() =~= b);
        assert(without =~= b);
    } else {
        assert(with.drop_first() =~= a.drop_first() + seq![id] + b);
        assert(without.drop_first() =~= a.drop_first() + b);
        assert(with[0] == without[0]);
        lemma_unbound_release(views, a.drop_first(), b, id, outcomes, acc, refused, inhibited, locked);
        lemma_unbound_release(views, a.drop_first(), b, id, outcomes.drop_first(), BindAction::Suppress, refused, inhibited, locked);
        lemma_unbound_release(views, a.drop_first(), b, id, outcomes.drop_first(), BindAction::Suppress, refused.push(a[0]), inhibited, locked);
        lemma_unbound_release(views, a.drop_first(), b, id, outcomes.drop_first(), acc, refused, inhibited, locked);
        lemma_unbound_release(views, a.drop_first(), b, id, outcomes.drop_first(), acc, refused.push(a[0]), inhibited, locked);
    }
}

/// The end of a gesture is sent only to live gesturebinds of the gesture
/// whose modifier mask matches the held modifiers and that may run now
/// (neither quit nor reload bindings, and allowed while locked where the
/// session is locked).
pub proof fn law_gesture_end_goes_only_to_matching_binds(
    views: Seq<(u32, BindView)>,
    ids: Seq<u32>,
    mods: ModifiersState,
    locked: bool,
)
    ensures
        forall|k: int|
            0 <= k < gesture_release_sends(views, ids, mods, locked).len() ==> {
                let id = #[trigger] gesture_release_sends(views, ids, mods, locked)[k];
                &&& ids.contains(id)
                &&& lookup(views, id) matches Some(b) && b.mods.spec_matches(mods) && !b.is_quit_bind
                    && !b.is_reload_config_bind && (!locked || b.allow_when_locked)
            },
    decreases ids.len(),
{
    if ids.len() > 0 {
        let rest = ids.drop_first();
        law_gesture_end_goes_only_to_matching_binds(views, rest, mods, locked);
        let g = gesture_release_sends(views, rest, mods, locked);
        let all = gesture_release_sends(views, ids, mods, locked);
        assert forall|k: int| 0 <= k < all.len() implies {
            let id = #[trigger] all[k];
            &&& ids.contains(id)
            &&& lookup(views, id) matches Some(b) && b.mods.spec_matches(mods) && !b.is_quit_bind
                && !b.is_reload_config_bind && (!locked || b.allow_when_locked)
        } by {
            if all == g {
                let id = g[k];
                let j = choose|j: int| 0 <= j < rest.len() && rest[j] == id;
                assert(ids[j + 1] == id);
            } else {
                assert(all == seq![ids[0]] + g);
                if k == 0 {
                    assert(all[0] == ids[0]);
                    assert(ids.contains(ids[0]));
                } else {
                    assert(all[k] == g[k - 1]);
                    let id = g[k - 1];
                    let j = choose|j: int| 0 <= j < rest.len() && rest[j] == id;
                    assert(ids[j + 1] == id);
                }
            }
        }
    }
}

/// A gesture that matches no live gesturebind's modifier mask is sent to
/// none of them and its end comes to what it came to before (forwarded, for
/// a fresh gesture).
pub proof fn law_unmatched_gesture_is_forwarded(
    views: Seq<(u32, BindView)>,
    ids: Seq<u32>,
    mods: ModifiersState,
    acc: BindAction,
    locked: bool,
)
    requires
        forall|i: int|
            0 <= i < ids.len() ==> (lookup(views, #[trigger] ids[i]) matches Some(b) ==> !b.mods.spec_matches(
                mods,
            )),
    ensures
        gesture_release_scan(views, ids, mods, acc, locked) == acc,
        gesture_release_sends(views, ids, mods, locked) == Seq::<u32>::empty(),
    decreases ids.len(),
{
    if ids.len() > 0 {
        let rest = ids.drop_first();
        assert forall|i: int| 0 <= i < rest.len() implies (lookup(views, #[trigger] rest[i]) matches Some(
            b,
        ) ==> !b.mods.spec_matches(mods)) by {
            assert(rest[i] == ids[i + 1]);
        }
        law_unmatched_gesture_is_forwarded(views, rest, mods, acc, locked);
        assert(lookup(views, ids[0]) matches Some(b) ==> !b.mods.spec_matches(mods));
    }
}

/// The gesturebind with id `id` is live and its modifiers match.
pub open spec fn live_gesture_match(views: Seq<(u32, BindView)>, id: u32, mods: ModifiersState) -> bool {
    lookup(views, id) matches Some(b) && b.mods.spec_matches(mods)
}

/// Where every live gesturebind of a gesture that matches the held modifiers
/// may run (none quits or reloads, and each is allowed while locked where the
/// session is locked), the end of the gesture is sent to each of them, and it
/// is suppressed exactly when one of them listens for the gesture's begin.
pub proof fn law_plain_gesture_binds_all_get_the_end(
    views: Seq<(u32, BindView)>,
    ids: Seq<u32>,
    mods: ModifiersState,
    acc: BindAction,
    locked: bool,
)
    requires
        forall|i: int|
            0 <= i < ids.len() && live_gesture_match(views, #[trigger] ids[i], mods) ==> {
                let b = lookup(views, ids[i])->Some_0;
                !b.is_quit_bind && !b.is_reload_config_bind && (!locked || b.allow_when_locked)
            },
    ensures
        gesture_release_scan(views, ids, mods, acc, locked) == if exists|i: int|
            0 <= i < ids.len() && live_gesture_match(views, #[trigger] ids[i], mods) && lookup(
                views,
                ids[i],
            )->Some_0.has_on_press {
            BindAction::Suppress
        } else {
            acc
        },
        forall|id: u32|
            #[trigger] gesture_release_sends(views, ids, mods, locked).contains(id) <==> (ids.contains(id)
                && live_gesture_match(views, id, mods)),
    decreases ids.len(),
{
    if ids.len() > 0 {
        let rest = ids.drop_first();
        assert forall|i: int|
            0 <= i < rest.len() && live_gesture_match(views, #[trigger] rest[i], mods) implies {
            let b = lookup(views, rest[i])->Some_0;
            !b.is_quit_bind && !b.is_reload_config_bind && (!locked || b.allow_when_locked)
        } by {
            assert(rest[i] == ids[i + 1]);
        }
        let m0 = live_gesture_match(views, ids[0], mods);
        let acc2 = if m0 && lookup(views, ids[0])->Some_0.has_on_press {
            BindAction::Suppress
        } else {
            acc
        };
        law_plain_gesture_binds_all_get_the_end(views, rest, mods, acc2, locked);
        let ex = exists|i: int|
            0 <= i < ids.len() && live_gesture_match(views, #[trigger] ids[i], mods) && lookup(
                views,
                ids[i],
            )->Some_0.has_on_press;
        let ex2 = exists|i: int|
            0 <= i < rest.len() && live_gesture_match(views, #[trigger] rest[i], mods) && lookup(
                views,
                rest[i],
            )->Some_0.has_on_press;
        if ex2 {
            let i = choose|i: int|
                0 <= i < rest.len() && live_gesture_match(views, #[trigger] rest[i], mods) && lookup(
                    views,
                    rest[i],
                )->Some_0.has_on_press;
            assert(ids[i + 1] == rest[i]);
        }
        if ex && !(m0 && lookup(views, ids[0])->Some_0.has_on_press) {
            let i = choose|i: int|
                0 <= i < ids.len() && live_gesture_match(views, #[trigger] ids[i], mods) && lookup(
                    views,
                    ids[i],
                )->Some_0.has_on_press;
            assert(i != 0);
            assert(rest[i - 1] == ids[i]);
        }
        let g = gesture_release_sends(views, rest, mods, locked);
        let all = gesture_release_sends(views, ids, mods, locked);
        assert forall|id: u32| #[trigger] all.contains(id) <==> (ids.contains(id) && live_gesture_match(views, id, mods)) by {
            if ids.contains(id) && live_gesture_match(views, id, mods) {
                let k = choose|k: int| 0 <= k < ids.len() && ids[k] == id;
                if k > 0 {
                    assert(rest[k - 1] == id);
                    assert(g.contains(id));
                    if m0 {
                        let k3 = choose|k3: int| 0 <= k3 < g.len() && g[k3] == id;
                        assert((seq![ids[0]] + g)[k3 + 1] == id);
                    }
                } else {
                    if m0 {
                        assert((seq![ids[0]] + g)[0] == id);
                    }
                }
            }
            if all.contains(id) {
                let k = choose|k: int| 0 <= k < all.len() && all[k] == id;
                if m0 && k == 0 {
                    assert(ids[0] == id);
                } else {
                    let kk = if m0 { k - 1 } else { k };
                    assert(g[kk] == id);
                    assert(g.contains(id));
                    let j = choose|j: int| 0 <= j < rest.len() && rest[j] == id;
                    assert(ids[j + 1] == id);
                }
            }
        }
    }
}

} // verus!
