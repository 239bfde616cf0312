//! What holds of configurations and advertised modes across requests.
use vstd::prelude::*;

use crate::keyed::{has_key, key_index, keys_distinct, lookup};
use crate::output_management::{
    configuration_action, fresh_modes, head_request_result, kept_modes, next_configuration,
    next_head_configuration, passes_checks, ActionView, ConfigurationRequest, ConfigurationView,
    HeadError, HeadRequest, Mode, PendingHead, PendingOutputHeadConfiguration, Transform,
    is_flipped, quarter_turns, spec_transform_from_wire,
};

verus! {

/// A cancelled configuration ignores every request: nothing changes and
/// nothing is sent.
pub proof fn law_cancelled_configuration_ignores_requests(
    c: ConfigurationView,
    request: ConfigurationRequest,
    manager_serial: Option<u32>,
)
    requires
        c.cancelled,
    ensures
        next_configuration(c, request, manager_serial) == c,
        configuration_action(c, request, manager_serial) == ActionView::Nothing,
{
}

/// A configuration that was applied or tested (and not cancelled) refuses
/// every further request but its destruction with `AlreadyUsed`, and stays
/// as it is.
pub proof fn law_used_configuration_refuses_requests(
    c: ConfigurationView,
    request: ConfigurationRequest,
    manager_serial: Option<u32>,
)
    requires
        !c.cancelled,
        c.used,
        request != ConfigurationRequest::Destroy,
    ensures
        next_configuration(c, request, manager_serial) == c,
        configuration_action(c, request, manager_serial) == ActionView::AlreadyUsed,
{
}

/// A request on a live, unused configuration whose serial is no longer the
/// manager's cancels it, and from then on every request is ignored.
pub proof fn law_stale_serial_cancels_for_good(
    c: ConfigurationView,
    request: ConfigurationRequest,
    manager_serial: Option<u32>,
    later: ConfigurationRequest,
    later_serial: Option<u32>,
)
    requires
        !c.cancelled,
        !c.used,
        manager_serial != Some(c.serial),
        request != ConfigurationRequest::Destroy,
    ensures
        configuration_action(c, request, manager_serial) == ActionView::Cancelled,
        next_configuration(c, request, manager_serial).cancelled,
        configuration_action(next_configuration(c, request, manager_serial), later, later_serial)
            == ActionView::Nothing,
        next_configuration(next_configuration(c, request, manager_serial), later, later_serial)
            == next_configuration(c, request, manager_serial),
{
}

/// Whether a request enables or disables `head`.
pub open spec fn configures_head(request: ConfigurationRequest, head: u64) -> bool {
    match request {
        ConfigurationRequest::EnableHead { head: h, .. } => h == head,
        ConfigurationRequest::DisableHead { head: h } => h == head,
        _ => false,
    }
}

/// A head of the configuration is enabled or disabled at most once: once a
/// request to do so has been handled, the next one is refused with
/// `AlreadyConfiguredHead`.
pub proof fn law_head_configured_at_most_once(
    c: ConfigurationView,
    head: u64,
    first: ConfigurationRequest,
    second: ConfigurationRequest,
    manager_serial: Option<u32>,
)
    requires
        keys_distinct(c.heads),
        has_key(c.heads, head),
        passes_checks(c, manager_serial),
        configures_head(first, head),
        configures_head(second, head),
    ensures
        configuration_action(next_configuration(c, first, manager_serial), second, manager_serial)
            == (ActionView::AlreadyConfiguredHead { head }),
{
    let i = key_index(c.heads, head);
    let c1 = next_configuration(c, first, manager_serial);
    if lookup(c.heads, head) == Some(PendingHead::NotConfigured) {
        let v = c1.heads[i].1;
        crate::keyed::lemma_key_index_unique(c.heads, i);
        crate::keyed::lemma_update_value(c.heads, i, v);
        assert(c1.heads =~= c.heads.update(i, (c.heads[i].0, v)));
        assert(lookup(c1.heads, head) == Some(v));
    }
}

/// A configuration runs (is applied or tested) at most once: after it has
/// run, every further request but its destruction is refused with
/// `AlreadyUsed`.
pub proof fn law_configuration_runs_at_most_once(
    c: ConfigurationView,
    request: ConfigurationRequest,
    manager_serial: Option<u32>,
    later: ConfigurationRequest,
    later_serial: Option<u32>,
)
    requires
        configuration_action(c, request, manager_serial) is Run,
        later != ConfigurationRequest::Destroy,
    ensures
        configuration_action(next_configuration(c, request, manager_serial), later, later_serial)
            == ActionView::AlreadyUsed,
{
}

/// Whether two head requests set the same setting.
pub open spec fn same_setting(a: HeadRequest, b: HeadRequest) -> bool {
    match a {
        HeadRequest::SetMode { .. } | HeadRequest::SetCustomMode { .. } => b is SetMode
            || b is SetCustomMode,
        HeadRequest::SetPosition { .. } => b is SetPosition,
        HeadRequest::SetTransform { .. } => b is SetTransform,
        HeadRequest::SetScale { .. } => b is SetScale,
        HeadRequest::SetAdaptiveSync { .. } => b is SetAdaptiveSync,
    }
}

/// Each setting of a configuration head is set at most once: after a request
/// has set it, any request for the same setting fails with `AlreadySet`.
pub proof fn law_head_setting_set_once(
    c: PendingOutputHeadConfiguration,
    first: HeadRequest,
    second: HeadRequest,
)
    requires
        head_request_result(c, first) is Ok,
        same_setting(first, second),
    ensures
        head_request_result(next_head_configuration(c, first), second) == Err::<(), HeadError>(
            HeadError::AlreadySet,
        ),
{
}

proof fn lemma_fresh_modes(known: Seq<Mode>, modes: Seq<Mode>)
    ensures
        fresh_modes(known, modes).no_duplicates(),
        forall|m: Mode| #[trigger]
            fresh_modes(known, modes).contains(m) ==> modes.contains(m) && !known.contains(m),
        forall|m: Mode| #[trigger]
            modes.contains(m) ==> known.contains(m) || fresh_modes(known, modes).contains(m),
    decreases modes.len(),
{
    if modes.len() > 0 {
        let rest = modes.drop_last();
        lemma_fresh_modes(known, rest);
        let earlier = fresh_modes(known, rest);
        let last = modes.last();
        assert forall|m: Mode| #[trigger] modes.contains(m) implies known.contains(m)
            || fresh_modes(known, modes).contains(m) by {
            let j = choose|j: int| 0 <= j < modes.len() && modes[j] == m;
            let pushed = !known.contains(last) && !earlier.contains(last);
            if pushed {
                assert(earlier.push(last)[earlier.len() as int] == last);
                assert forall|x: Mode| earlier.contains(x) implies earlier.push(last).contains(x) by {
                    let k = choose|k: int| 0 <= k < earlier.len() && earlier[k] == x;
                    assert(earlier.push(last)[k] == x);
                }
            }
            if j < modes.len() - 1 {
                assert(rest[j] == m);
                assert(rest.contains(m));
            }
        }
        assert forall|m: Mode| #[trigger]
            fresh_modes(known, modes).contains(m) implies modes.contains(m) && !known.contains(m) by {
            if earlier.contains(m) {
                let j = choose|j: int| 0 <= j < rest.len() && rest[j] == m;
                assert(modes[j] == m);
            } else {
                assert(m == last);
                assert(modes[modes.len() - 1] == m);
            }
        }
    }
}

proof fn lemma_kept_modes_kept(advertised: Seq<Mode>, keep: Seq<bool>)
    requires
        keep.len() >= advertised.len(),
    ensures
        forall|m: Mode| #[trigger]
            kept_modes(advertised, keep).contains(m) ==> exists|i: int|
                0 <= i < advertised.len() && keep[i] && advertised[i] == m,
    decreases advertised.len(),
{
    if advertised.len() > 0 {
        let rest = advertised.drop_last();
        lemma_kept_modes_kept(rest, keep);
        assert forall|m: Mode| #[trigger] kept_modes(advertised, keep).contains(m) implies exists|
            i: int,
        | 0 <= i < advertised.len() && keep[i] && advertised[i] == m by {
            if kept_modes(rest, keep).contains(m) {
                let i = choose|i: int| 0 <= i < rest.len() && keep[i] && rest[i] == m;
                assert(advertised[i] == m);
            } else {
                let i = advertised.len() - 1;
                assert(keep[i] && advertised[i] == m);
            }
        }
    }
}

/// After the advertised modes of a head are brought in line with the
/// output's modes, a mode is advertised exactly where the output has it: the
/// modes that stay and the new ones are together the output's modes, and no
/// new mode is advertised twice or beside one that stays.
pub proof fn law_synced_modes_are_the_output_modes(
    advertised: Seq<Mode>,
    modes: Seq<Mode>,
    keep: Seq<bool>,
)
    requires
        keep.len() == advertised.len(),
        forall|i: int| 0 <= i < advertised.len() ==> keep[i] == modes.contains(advertised[i]),
    ensures
        ({
            let kept = kept_modes(advertised, keep);
            let created = fresh_modes(kept, modes);
            &&& forall|m: Mode|
                modes.contains(m) <==> (#[trigger] kept.contains(m) || #[trigger] created.contains(m))
            &&& created.no_duplicates()
            &&& forall|m: Mode| #[trigger] created.contains(m) ==> !kept.contains(m)
        }),
{
    let kept = kept_modes(advertised, keep);
    lemma_fresh_modes(kept, modes);
    lemma_kept_modes_kept(advertised, keep);
}

/// The protocol numbers transforms as wl_output does: number `v` below 8
/// turns the output by `v % 4` quarter turns, flipped when `v` is 4 or more;
/// no other number is a transform, and each transform has one number.
pub proof fn law_transform_numbers(v: u32, w: u32)
    ensures
        v < 8 ==> (spec_transform_from_wire(v) matches Some(t) && quarter_turns(t) == v % 4
            && is_flipped(t) == (v >= 4)),
        v >= 8 ==> spec_transform_from_wire(v) is None,
        spec_transform_from_wire(v) is Some && spec_transform_from_wire(v)
            == spec_transform_from_wire(w) ==> v == w,
{
}

/// Every transform is read from the protocol number of its turns and flip.
pub proof fn law_every_transform_has_a_number(t: Transform)
    ensures
        spec_transform_from_wire((quarter_turns(t) + if is_flipped(t) { 4int } else { 0int }) as u32)
            == Some(t),
{
}

} // verus!
