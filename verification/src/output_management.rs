//! Output management: the configurations that clients build head by head and
//! then apply or test, and the modes advertised for each head.
//!
//! Protocol objects (managers, heads, modes, configuration heads) are named by
//! integer handles; the Wayland plumbing maps handles to objects.
use vstd::prelude::*;

use crate::keyed::{has_key, key_index, keys_distinct, lookup};

pub mod laws;

verus! {

/// How a configuration treats one head so far.
#[derive(Debug, Clone, Copy, PartialEq, Eq, Structural)]
pub enum PendingHead {
    NotConfigured,
    /// Enabled, with the handle of the configuration head that carries its
    /// settings.
    Enabled(u64),
    Disabled,
}

/// An output configuration that a client is building.
///
/// `pending_heads` holds one entry per head (by handle) that the manager knew
/// when the configuration was created.
#[derive(Debug)]
pub struct PendingOutputConfiguration {
    pub serial: u32,
    pub cancelled: bool,
    pub used: bool,
    pub pending_heads: Vec<(u64, PendingHead)>,
}

/// The mathematical value of a configuration.
pub struct ConfigurationView {
    pub serial: u32,
    pub cancelled: bool,
    pub used: bool,
    pub heads: Seq<(u64, PendingHead)>,
}

impl View for PendingOutputConfiguration {
    type V = ConfigurationView;

    open spec fn view(&self) -> ConfigurationView {
        ConfigurationView {
            serial: self.serial,
            cancelled: self.cancelled,
            used: self.used,
            heads: self.pending_heads@,
        }
    }
}

impl PendingOutputConfiguration {
    /// Each head occurs once.
    pub open spec fn wf(&self) -> bool {
        keys_distinct(self.pending_heads@)
    }
}

/// A request that a client makes on a configuration.
#[derive(Debug, Clone, Copy, PartialEq, Eq, Structural)]
pub enum ConfigurationRequest {
    /// Enable `head`, with its settings carried by the new configuration head
    /// `config_head`.
    EnableHead { head: u64, config_head: u64 },
    DisableHead { head: u64 },
    Apply,
    Test,
    Destroy,
}

/// What answers a configuration request.
#[derive(Debug, Clone, PartialEq, Eq)]
pub enum ConfigurationAction {
    /// Nothing is sent.
    Nothing,
    /// The configuration was already applied or tested: a protocol error.
    AlreadyUsed,
    /// The configuration is out of date: the client is told it was cancelled.
    Cancelled,
    /// The head was already enabled or disabled: a protocol error on the head.
    AlreadyConfiguredHead { head: u64 },
    /// Some head is neither enabled nor disabled: a protocol error.
    UnconfiguredHead,
    /// Apply (or only test) the configuration: each head with the handle of
    /// its configuration head where it is enabled, `None` where it is
    /// disabled. Success or failure is reported back to the client.
    Run { apply: bool, heads: Vec<(u64, Option<u64>)> },
}

/// The mathematical value of an action.
pub enum ActionView {
    Nothing,
    AlreadyUsed,
    Cancelled,
    AlreadyConfiguredHead { head: u64 },
    UnconfiguredHead,
    Run { apply: bool, heads: Seq<(u64, Option<u64>)> },
}

impl View for ConfigurationAction {
    type V = ActionView;

    open spec fn view(&self) -> ActionView {
        match self {
            ConfigurationAction::Nothing => ActionView::Nothing,
            ConfigurationAction::AlreadyUsed => ActionView::AlreadyUsed,
            ConfigurationAction::Cancelled => ActionView::Cancelled,
            ConfigurationAction::AlreadyConfiguredHead { head } => ActionView::AlreadyConfiguredHead {
                head: *head,
            },
            ConfigurationAction::UnconfiguredHead => ActionView::UnconfiguredHead,
            ConfigurationAction::Run { apply, heads } => ActionView::Run { apply: *apply, heads: heads@ },
        }
    }
}

/// How a configured head goes into an applied configuration.
pub open spec fn run_entry(e: (u64, PendingHead)) -> (u64, Option<u64>) {
    match e.1 {
        PendingHead::Enabled(c) => (e.0, Some(c)),
        _ => (e.0, None),
    }
}

/// Every head has been enabled or disabled.
pub open spec fn all_configured(heads: Seq<(u64, PendingHead)>) -> bool {
    forall|i: int| 0 <= i < heads.len() ==> heads[i].1 != PendingHead::NotConfigured
}

/// Whether the request passes the checks that every request but `Destroy`
/// goes through: the configuration is live, unused, and of the manager's
/// current serial.
pub open spec fn passes_checks(c: ConfigurationView, manager_serial: Option<u32>) -> bool {
    !c.cancelled && !c.used && manager_serial == Some(c.serial)
}

/// The new state of `head` that a request to enable or disable it sets.
pub open spec fn head_setting(request: ConfigurationRequest) -> PendingHead {
    match request {
        ConfigurationRequest::EnableHead { head, config_head } => PendingHead::Enabled(config_head),
        _ => PendingHead::Disabled,
    }
}

/// The configuration after `request`, where the configuration's manager (if
/// it still has one) is at `manager_serial`.
pub open spec fn next_configuration(
    c: ConfigurationView,
    request: ConfigurationRequest,
    manager_serial: Option<u32>,
) -> ConfigurationView {
    match request {
        ConfigurationRequest::Destroy => c,
        _ => if c.cancelled || c.used {
            c
        } else if manager_serial != Some(c.serial) {
            ConfigurationView { cancelled: true, ..c }
        } else {
            match request {
                ConfigurationRequest::EnableHead { head, .. } | ConfigurationRequest::DisableHead {
                    head,
                } => {
                    if has_key(c.heads, head) && lookup(c.heads, head) == Some(
                        PendingHead::NotConfigured,
                    ) {
                        ConfigurationView {
                            heads: c.heads.update(
                                key_index(c.heads, head),
                                (head, head_setting(request)),
                            ),
                            ..c
                        }
                    } else {
                        c
                    }
                },
                _ => if all_configured(c.heads) {
                    ConfigurationView { used: true, ..c }
                } else {
                    c
                },
            }
        },
    }
}

/// What answers `request`.
pub open spec fn configuration_action(
    c: ConfigurationView,
    request: ConfigurationRequest,
    manager_serial: Option<u32>,
) -> ActionView {
    match request {
        ConfigurationRequest::Destroy => ActionView::Nothing,
        _ => if c.cancelled {
            ActionView::Nothing
        } else if c.used {
            ActionView::AlreadyUsed
        } else if manager_serial != Some(c.serial) {
            ActionView::Cancelled
        } else {
            match request {
                ConfigurationRequest::EnableHead { head, .. } | ConfigurationRequest::DisableHead {
                    head,
                } => {
                    if has_key(c.heads, head) && lookup(c.heads, head) != Some(
                        PendingHead::NotConfigured,
                    ) {
                        ActionView::AlreadyConfiguredHead { head }
                    } else {
                        ActionView::Nothing
                    }
                },
                ConfigurationRequest::Apply => if all_configured(c.heads) {
                    ActionView::Run { apply: true, heads: c.heads.map_values(|e| run_entry(e)) }
                } else {
                    ActionView::UnconfiguredHead
                },
                _ => if all_configured(c.heads) {
                    ActionView::Run { apply: false, heads: c.heads.map_values(|e| run_entry(e)) }
                } else {
                    ActionView::UnconfiguredHead
                },
            }
        },
    }
}

/// The position of `head` among the entries, if it has one.
fn find_head(heads: &Vec<(u64, PendingHead)>, head: u64) -> (r: Option<usize>)
    requires
        keys_distinct(heads@),
    ensures
        match r {
            Some(i) => has_key(heads@, head) && i == key_index(heads@, head) && i < heads@.len()
                && lookup(heads@, head) == Some(heads@[i as int].1),
            None => !has_key(heads@, head),
        },
{
    let mut i: usize = 0;
    while i < heads.len()
        invariant
            keys_distinct(heads@),
            0 <= i <= heads@.len(),
            forall|j: int| 0 <= j < i ==> heads@[j].0 != head,
        decreases heads@.len() - i,
    {
        if heads[i].0 == head {
            proof {
                crate::keyed::lemma_key_index_unique(heads@, i as int);
            }
            return Some(i);
        }
        i = i + 1;
    }
    None
}

impl PendingOutputConfiguration {
    /// Handles a request on this configuration. `manager_serial` is the
    /// current serial of the manager that tracks the configuration, `None`
    /// where no manager does.
    pub fn request(&mut self, request: ConfigurationRequest, manager_serial: Option<u32>) -> (action:
        ConfigurationAction)
        requires
            old(self).wf(),
        ensures
            final(self).wf(),
            final(self)@ == next_configuration(old(self)@, request, manager_serial),
            action@ == configuration_action(old(self)@, request, manager_serial),
    {
        if let ConfigurationRequest::Destroy = request {
            return ConfigurationAction::Nothing;
        }
        if self.cancelled {
            return ConfigurationAction::Nothing;
        }
        if self.used {
            return ConfigurationAction::AlreadyUsed;
        }
        let current = match manager_serial {
            Some(s) => s == self.serial,
            None => false,
        };
        if !current {
            self.cancelled = true;
            return ConfigurationAction::Cancelled;
        }
        match request {
            ConfigurationRequest::EnableHead { head, config_head } => {
                self.configure_head(head, PendingHead::Enabled(config_head))
            },
            ConfigurationRequest::DisableHead { head } => {
                self.configure_head(head, PendingHead::Disabled)
            },
            ConfigurationRequest::Apply => self.run(true),
            _ => self.run(false),
        }
    }

    /// Sets the state of `head` where it is not configured yet.
    fn configure_head(&mut self, head: u64, setting: PendingHead) -> (action: ConfigurationAction)
        requires
            old(self).wf(),
        ensures
            final(self).wf(),
            final(self).serial == old(self).serial,
            final(self).cancelled == old(self).cancelled,
            final(self).used == old(self).used,
            final(self).pending_heads@ == if has_key(old(self).pending_heads@, head) && lookup(
                old(self).pending_heads@,
                head,
            ) == Some(PendingHead::NotConfigured) {
                old(self).pending_heads@.update(
                    key_index(old(self).pending_heads@, head),
                    (head, setting),
                )
            } else {
                old(self).pending_heads@
            },
            action@ == if has_key(old(self).pending_heads@, head) && lookup(
                old(self).pending_heads@,
                head,
            ) != Some(PendingHead::NotConfigured) {
                ActionView::AlreadyConfiguredHead { head }
            } else {
                ActionView::Nothing
            },
    {
        match find_head(&self.pending_heads, head) {
            None => ConfigurationAction::Nothing,
            Some(i) => {
                if self.pending_heads[i].1 != PendingHead::NotConfigured {
                    ConfigurationAction::AlreadyConfiguredHead { head }
                } else {
                    proof {
                        crate::keyed::lemma_update_value(self.pending_heads@, i as int, setting);
                    }
                    self.pending_heads.set(i, (head, setting));
                    ConfigurationAction::Nothing
                }
            },
        }
    }

    /// Applies or tests the configuration where every head is configured.
    fn run(&mut self, apply: bool) -> (action: ConfigurationAction)
        requires
            old(self).wf(),
        ensures
            final(self).wf(),
            final(self).serial == old(self).serial,
            final(self).cancelled == old(self).cancelled,
            final(self).pending_heads@ == old(self).pending_heads@,
            final(self).used == (old(self).used || all_configured(old(self).pending_heads@)),
            action@ == if all_configured(old(self).pending_heads@) {
                ActionView::Run {
                    apply,
                    heads: old(self).pending_heads@.map_values(|e| run_entry(e)),
                }
            } else {
                ActionView::UnconfiguredHead
            },
    {
        let mut heads: Vec<(u64, Option<u64>)> = Vec::new();
        let mut i: usize = 0;
        while i < self.pending_heads.len()
            invariant
                self.wf(),
                self.serial == old(self).serial,
                self.cancelled == old(self).cancelled,
                self.used == old(self).used,
                self.pending_heads@ == old(self).pending_heads@,
                0 <= i <= self.pending_heads@.len(),
                heads@ == self.pending_heads@.subrange(0, i as int).map_values(|e| run_entry(e)),
                forall|j: int| 0 <= j < i ==> self.pending_heads@[j].1 != PendingHead::NotConfigured,
            decreases self.pending_heads@.len() - i,
        {
            let (head, setting) = self.pending_heads[i];
            let entry = match setting {
                PendingHead::NotConfigured => {
                    return ConfigurationAction::UnconfiguredHead;
                },
                PendingHead::Enabled(c) => (head, Some(c)),
                PendingHead::Disabled => (head, None),
            };
            heads.push(entry);
            proof {
                assert(self.pending_heads@.subrange(0, i as int + 1).map_values(|e| run_entry(e))
                    =~= self.pending_heads@.subrange(0, i as int).map_values(|e| run_entry(e)).push(
                    run_entry(self.pending_heads@[i as int]),
                ));
            }
            i = i + 1;
        }
        proof {
            assert(self.pending_heads@.subrange(0, i as int) =~= self.pending_heads@);
        }
        self.used = true;
        ConfigurationAction::Run { apply, heads }
    }
}

/// How a newly created configuration starts: whether the manager tracks it,
/// or the client is told at once that it was cancelled.
#[derive(Debug, Clone, Copy, PartialEq, Eq, Structural)]
pub enum CreateOutcome {
    Accepted,
    Cancelled,
}

/// The entries of a fresh configuration: every head not configured.
pub open spec fn fresh_heads(heads: Seq<u64>) -> Seq<(u64, PendingHead)> {
    heads.map_values(|h: u64| (h, PendingHead::NotConfigured))
}

impl PendingOutputConfiguration {
    /// Creates the configuration that a client asks for under `serial`.
    /// `manager_serial` is the serial of the manager it is asked of, `None`
    /// where that manager is gone; `manager_heads` are that manager's heads.
    ///
    /// Where the manager is gone, the configuration starts empty and the
    /// client is told it was cancelled. Where the serial is out of date, the
    /// configuration starts cancelled. Otherwise the manager tracks it.
    pub fn create(serial: u32, manager_serial: Option<u32>, manager_heads: &Vec<u64>) -> (r: (
        PendingOutputConfiguration,
        CreateOutcome,
    ))
        requires
            manager_heads@.no_duplicates(),
        ensures
            r.0.wf(),
            r.0@ == (ConfigurationView {
                serial,
                cancelled: manager_serial.is_some() && manager_serial != Some(serial),
                used: false,
                heads: if manager_serial.is_some() {
                    fresh_heads(manager_heads@)
                } else {
                    Seq::empty()
                },
            }),
            r.1 == if manager_serial == Some(serial) {
                CreateOutcome::Accepted
            } else {
                CreateOutcome::Cancelled
            },
    {
        match manager_serial {
            None => (
                PendingOutputConfiguration {
                    serial,
                    cancelled: false,
                    used: false,
                    pending_heads: Vec::new(),
                },
                CreateOutcome::Cancelled,
            ),
            Some(current) => {
                let mut pending_heads: Vec<(u64, PendingHead)> = Vec::new();
                let mut i: usize = 0;
                while i < manager_heads.len()
                    invariant
                        manager_heads@.no_duplicates(),
                        0 <= i <= manager_heads@.len(),
                        pending_heads@ == fresh_heads(manager_heads@.subrange(0, i as int)),
                    decreases manager_heads@.len() - i,
                {
                    pending_heads.push((manager_heads[i], PendingHead::NotConfigured));
                    proof {
                        assert(fresh_heads(manager_heads@.subrange(0, i as int + 1)) =~= fresh_heads(
                            manager_heads@.subrange(0, i as int),
                        ).push((manager_heads@[i as int], PendingHead::NotConfigured)));
                    }
                    i = i + 1;
                }
                proof {
                    assert(manager_heads@.subrange(0, i as int) =~= manager_heads@);
                    assert(keys_distinct(pending_heads@)) by {
                        assert forall|a: int, b: int|
                            0 <= a < pending_heads@.len() && 0 <= b < pending_heads@.len() && a
                                != b implies #[trigger] pending_heads@[a].0
                            != #[trigger] pending_heads@[b].0 by {
                            assert(pending_heads@[a].0 == manager_heads@[a]);
                            assert(pending_heads@[b].0 == manager_heads@[b]);
                        }
                    }
                }
                let accepted_now = current == serial;
                (
                    PendingOutputConfiguration {
                        serial,
                        cancelled: !accepted_now,
                        used: false,
                        pending_heads,
                    },
                    if accepted_now {
                        CreateOutcome::Accepted
                    } else {
                        CreateOutcome::Cancelled
                    },
                )
            },
        }
    }
}

/// An output's transform, as the protocol numbers them.
#[derive(Debug, Clone, Copy, PartialEq, Eq, Structural)]
pub enum Transform {
    Normal,
    _90,
    _180,
    _270,
    Flipped,
    Flipped90,
    Flipped180,
    Flipped270,
}

/// How many quarter turns counter-clockwise a transform turns the output by.
pub open spec fn quarter_turns(t: Transform) -> int {
    match t {
        Transform::Normal | Transform::Flipped => 0,
        Transform::_90 | Transform::Flipped90 => 1,
        Transform::_180 | Transform::Flipped180 => 2,
        Transform::_270 | Transform::Flipped270 => 3,
    }
}

/// Whether a transform flips the output around its vertical axis.
pub open spec fn is_flipped(t: Transform) -> bool {
    match t {
        Transform::Flipped | Transform::Flipped90 | Transform::Flipped180 | Transform::Flipped270 => true,
        _ => false,
    }
}

/// The transform that the protocol's number `v` stands for, if any.
pub open spec fn spec_transform_from_wire(v: u32) -> Option<Transform> {
    if v == 0 {
        Some(Transform::Normal)
    } else if v == 1 {
        Some(Transform::_90)
    } else if v == 2 {
        Some(Transform::_180)
    } else if v == 3 {
        Some(Transform::_270)
    } else if v == 4 {
        Some(Transform::Flipped)
    } else if v == 5 {
        Some(Transform::Flipped90)
    } else if v == 6 {
        Some(Transform::Flipped180)
    } else if v == 7 {
        Some(Transform::Flipped270)
    } else {
        None
    }
}

/// Reads a transform from its protocol number.
pub fn transform_from_wire(v: u32) -> (r: Option<Transform>)
    ensures
        r == spec_transform_from_wire(v),
{
    match v {
        0 => Some(Transform::Normal),
        1 => Some(Transform::_90),
        2 => Some(Transform::_180),
        3 => Some(Transform::_270),
        4 => Some(Transform::Flipped),
        5 => Some(Transform::Flipped90),
        6 => Some(Transform::Flipped180),
        7 => Some(Transform::Flipped270),
        _ => None,
    }
}

/// A mode of an output: its size in physical pixels and its refresh rate in
/// mHz.
#[derive(Debug, Clone, Copy, PartialEq, Eq, Structural)]
pub struct Mode {
    pub width: i32,
    pub height: i32,
    pub refresh: i32,
}

/// The mode a configuration head asks for: a size, and a refresh rate in mHz
/// where one is given (not zero).
#[derive(Debug, Clone, Copy, PartialEq, Eq, Structural)]
pub struct HeadMode {
    pub width: i32,
    pub height: i32,
    pub refresh: Option<u32>,
}

/// A position in the global space.
#[derive(Debug, Clone, Copy, PartialEq, Eq, Structural)]
pub struct HeadPosition {
    pub x: i32,
    pub y: i32,
}

/// The settings that a configuration head collects for an enabled head, each
/// at most once. The scale is the protocol's fixed-point number (in 256ths).
#[derive(Debug, Clone, Copy, PartialEq, Eq, Structural)]
pub struct PendingOutputHeadConfiguration {
    pub mode: Option<HeadMode>,
    pub position: Option<HeadPosition>,
    pub transform: Option<Transform>,
    pub scale: Option<i32>,
    pub adaptive_sync: Option<bool>,
}

/// A configuration head that has set nothing.
pub open spec fn unset_head_configuration() -> PendingOutputHeadConfiguration {
    PendingOutputHeadConfiguration {
        mode: None,
        position: None,
        transform: None,
        scale: None,
        adaptive_sync: None,
    }
}

impl Default for PendingOutputHeadConfiguration {
    fn default() -> (r: Self)
        ensures
            r == unset_head_configuration(),
    {
        PendingOutputHeadConfiguration {
            mode: None,
            position: None,
            transform: None,
            scale: None,
            adaptive_sync: None,
        }
    }
}

/// A request that a client makes on a configuration head.
#[derive(Debug, Clone, Copy, PartialEq, Eq, Structural)]
pub enum HeadRequest {
    /// One of the modes that the head advertised.
    SetMode { mode: Mode },
    SetCustomMode { width: i32, height: i32, refresh: i32 },
    SetPosition { x: i32, y: i32 },
    /// The transform by its protocol number.
    SetTransform { transform: u32 },
    /// The scale as the protocol's fixed-point number.
    SetScale { scale: i32 },
    /// The adaptive sync state by its protocol number: zero disabled, one
    /// enabled.
    SetAdaptiveSync { state: u32 },
}

/// The protocol errors that a configuration head request can raise.
#[derive(Debug, Clone, Copy, PartialEq, Eq, Structural)]
pub enum HeadError {
    AlreadySet,
    InvalidCustomMode,
    InvalidTransform,
    InvalidAdaptiveSyncState,
}

/// A refresh rate read as unsigned, where it is not zero.
pub open spec fn nonzero_refresh(refresh: u32) -> Option<u32> {
    if refresh == 0 { None } else { Some(refresh) }
}

/// Whether the setting that `request` sets is set already.
pub open spec fn already_set(c: PendingOutputHeadConfiguration, request: HeadRequest) -> bool {
    match request {
        HeadRequest::SetMode { .. } | HeadRequest::SetCustomMode { .. } => c.mode.is_some(),
        HeadRequest::SetPosition { .. } => c.position.is_some(),
        HeadRequest::SetTransform { .. } => c.transform.is_some(),
        HeadRequest::SetScale { .. } => c.scale.is_some(),
        HeadRequest::SetAdaptiveSync { .. } => c.adaptive_sync.is_some(),
    }
}

/// What `request` answers: `AlreadySet` where its setting is set, else an
/// error for an invalid value, else success.
pub open spec fn head_request_result(c: PendingOutputHeadConfiguration, request: HeadRequest) -> Result<
    (),
    HeadError,
> {
    if already_set(c, request) {
        Err(HeadError::AlreadySet)
    } else {
        match request {
            HeadRequest::SetCustomMode { width, height, refresh } => if width <= 0 || height <= 0
                || refresh < 0 {
                Err(HeadError::InvalidCustomMode)
            } else {
                Ok(())
            },
            HeadRequest::SetTransform { transform } => if spec_transform_from_wire(
                transform,
            ).is_none() {
                Err(HeadError::InvalidTransform)
            } else {
                Ok(())
            },
            HeadRequest::SetAdaptiveSync { state } => if state > 1 {
                Err(HeadError::InvalidAdaptiveSyncState)
            } else {
                Ok(())
            },
            _ => Ok(()),
        }
    }
}

/// The configuration head after `request`: the setting is recorded where the
/// request succeeds, and nothing changes where it fails.
pub open spec fn next_head_configuration(
    c: PendingOutputHeadConfiguration,
    request: HeadRequest,
) -> PendingOutputHeadConfiguration {
    if head_request_result(c, request).is_err() {
        c
    } else {
        match request {
            HeadRequest::SetMode { mode } => PendingOutputHeadConfiguration {
                mode: Some(
                    HeadMode {
                        width: mode.width,
                        height: mode.height,
                        refresh: nonzero_refresh(mode.refresh as u32),
                    },
                ),
                ..c
            },
            HeadRequest::SetCustomMode { width, height, refresh } => PendingOutputHeadConfiguration {
                mode: Some(
                    HeadMode { width, height, refresh: nonzero_refresh(refresh as u32) },
                ),
                ..c
            },
            HeadRequest::SetPosition { x, y } => PendingOutputHeadConfiguration {
                position: Some(HeadPosition { x, y }),
                ..c
            },
            HeadRequest::SetTransform { transform } => PendingOutputHeadConfiguration {
                transform: spec_transform_from_wire(transform),
                ..c
            },
            HeadRequest::SetScale { scale } => PendingOutputHeadConfiguration {
                scale: Some(scale),
                ..c
            },
            HeadRequest::SetAdaptiveSync { state } => PendingOutputHeadConfiguration {
                adaptive_sync: Some(state == 1),
                ..c
            },
        }
    }
}

/// A refresh rate read as unsigned, where it is not zero.
fn nonzero(refresh: u32) -> (r: Option<u32>)
    ensures
        r == nonzero_refresh(refresh),
{
    if refresh == 0 { None } else { Some(refresh) }
}

impl PendingOutputHeadConfiguration {
    /// Handles a request on this configuration head.
    pub fn request(&mut self, request: HeadRequest) -> (r: Result<(), HeadError>)
        ensures
            r == head_request_result(*old(self), request),
            *final(self) == next_head_configuration(*old(self), request),
    {
        match request {
            HeadRequest::SetMode { mode } => {
                if self.mode.is_some() {
                    return Err(HeadError::AlreadySet);
                }
                self.mode = Some(
                    HeadMode {
                        width: mode.width,
                        height: mode.height,
                        refresh: nonzero(mode.refresh as u32),
                    },
                );
                Ok(())
            },
            HeadRequest::SetCustomMode { width, height, refresh } => {
                if self.mode.is_some() {
                    return Err(HeadError::AlreadySet);
                }
                if width <= 0 || height <= 0 || refresh < 0 {
                    return Err(HeadError::InvalidCustomMode);
                }
                self.mode = Some(HeadMode { width, height, refresh: nonzero(refresh as u32) });
                Ok(())
            },
            HeadRequest::SetPosition { x, y } => {
                if self.position.is_some() {
                    return Err(HeadError::AlreadySet);
                }
                self.position = Some(HeadPosition { x, y });
                Ok(())
            },
            HeadRequest::SetTransform { transform } => {
                if self.transform.is_some() {
                    return Err(HeadError::AlreadySet);
                }
                let t = match transform_from_wire(transform) {
                    Some(t) => t,
                    None => {
                        return Err(HeadError::InvalidTransform);
                    },
                };
                self.transform = Some(t);
                Ok(())
            },
            HeadRequest::SetScale { scale } => {
                if self.scale.is_some() {
                    return Err(HeadError::AlreadySet);
                }
                self.scale = Some(scale);
                Ok(())
            },
            HeadRequest::SetAdaptiveSync { state } => {
                if self.adaptive_sync.is_some() {
                    return Err(HeadError::AlreadySet);
                }
                let adaptive_sync = match state {
                    0 => false,
                    1 => true,
                    _ => {
                        return Err(HeadError::InvalidAdaptiveSyncState);
                    },
                };
                self.adaptive_sync = Some(adaptive_sync);
                Ok(())
            },
        }
    }
}

/// The modes of `modes` that are neither `known` nor seen earlier in
/// `modes`, in order.
pub open spec fn fresh_modes(known: Seq<Mode>, modes: Seq<Mode>) -> Seq<Mode>
    decreases modes.len(),
{
    if modes.len() == 0 {
        Seq::empty()
    } else {
        let earlier = fresh_modes(known, modes.drop_last());
        let m = modes.last();
        if known.contains(m) || earlier.contains(m) {
            earlier
        } else {
            earlier.push(m)
        }
    }
}

/// The advertised modes that `keep` marks.
pub open spec fn kept_modes(advertised: Seq<Mode>, keep: Seq<bool>) -> Seq<Mode>
    decreases advertised.len(),
{
    if advertised.len() == 0 {
        Seq::empty()
    } else {
        let rest = kept_modes(advertised.drop_last(), keep);
        if keep[advertised.len() - 1] {
            rest.push(advertised.last())
        } else {
            rest
        }
    }
}

/// How the modes advertised for a head follow the output's modes: which
/// advertised modes stay (the others are withdrawn) and which modes are
/// advertised anew.
pub struct ModeSync {
    pub keep: Vec<bool>,
    pub create: Vec<Mode>,
}

/// Whether `m` is among `modes`.
fn contains_mode(modes: &Vec<Mode>, m: Mode) -> (r: bool)
    ensures
        r == modes@.contains(m),
{
    let mut i: usize = 0;
    while i < modes.len()
        invariant
            0 <= i <= modes@.len(),
            forall|j: int| 0 <= j < i ==> modes@[j] != m,
        decreases modes@.len() - i,
    {
        if modes[i] == m {
            assert(modes@[i as int] == m);
            return true;
        }
        i = i + 1;
    }
    false
}

/// Brings the modes advertised for a head (`advertised`, in order) in line
/// with the output's `modes`: an advertised mode stays where the output
/// still has it, and each mode of the output that does not stay is
/// advertised anew, once, in the output's order.
pub fn sync_modes(advertised: &Vec<Mode>, modes: &Vec<Mode>) -> (r: ModeSync)
    ensures
        r.keep@.len() == advertised@.len(),
        forall|i: int| 0 <= i < advertised@.len() ==> r.keep@[i] == modes@.contains(advertised@[i]),
        r.create@ == fresh_modes(kept_modes(advertised@, r.keep@), modes@),
{
    let mut keep: Vec<bool> = Vec::new();
    let mut kept: Vec<Mode> = Vec::new();
    let mut i: usize = 0;
    while i < advertised.len()
        invariant
            0 <= i <= advertised@.len(),
            keep@.len() == i,
            forall|j: int| 0 <= j < i ==> keep@[j] == modes@.contains(advertised@[j]),
            kept@ == kept_modes(advertised@.subrange(0, i as int), keep@),
        decreases advertised@.len() - i,
    {
        let k = contains_mode(modes, advertised[i]);
        let ghost keep_before = keep@;
        keep.push(k);
        if k {
            kept.push(advertised[i]);
        }
        proof {
            let a = advertised@.subrange(0, i as int + 1);
            assert(a.drop_last() =~= advertised@.subrange(0, i as int));
            lemma_kept_modes_prefix(advertised@.subrange(0, i as int), keep_before, keep@);
            assert(a.last() == advertised@[i as int]);
            assert(keep@[i as int] == k);
        }
        i = i + 1;
    }
    proof {
        assert(advertised@.subrange(0, i as int) =~= advertised@);
    }
    let mut create: Vec<Mode> = Vec::new();
    let mut n: usize = 0;
    while n < modes.len()
        invariant
            0 <= n <= modes@.len(),
            create@ == fresh_modes(kept@, modes@.subrange(0, n as int)),
        decreases modes@.len() - n,
    {
        let m = modes[n];
        proof {
            let p = modes@.subrange(0, n as int + 1);
            assert(p.drop_last() =~= modes@.subrange(0, n as int));
            assert(p.last() == m);
        }
        if !contains_mode(&kept, m) && !contains_mode(&create, m) {
            create.push(m);
        }
        n = n + 1;
    }
    proof {
        assert(modes@.subrange(0, n as int) =~= modes@);
    }
    ModeSync { keep, create }
}

/// Which marks `kept_modes` reads: only those of the advertised modes.
proof fn lemma_kept_modes_prefix(advertised: Seq<Mode>, keep: Seq<bool>, longer: Seq<bool>)
    requires
        keep.len() >= advertised.len(),
        longer.len() >= advertised.len(),
        forall|j: int| 0 <= j < advertised.len() ==> keep[j] == longer[j],
    ensures
        kept_modes(advertised, keep) == kept_modes(advertised, longer),
    decreases advertised.len(),
{
    if advertised.len() > 0 {
        lemma_kept_modes_prefix(advertised.drop_last(), keep, longer);
    }
}

/// Which mode object a head reports as current.
#[derive(Debug, Clone, Copy, PartialEq, Eq, Structural)]
pub enum CurrentModeChoice {
    /// The output has no current mode: nothing is reported.
    NoMode,
    /// The advertised mode at this position.
    Existing(usize),
    /// The mode is not advertised: it is advertised anew and reported.
    Create(Mode),
}

/// Picks the mode object to report as the head's current mode: the first
/// advertised one equal to the output's current mode, or a new one.
pub fn choose_current_mode(advertised: &Vec<Mode>, current: Option<Mode>) -> (r: CurrentModeChoice)
    ensures
        current is None ==> r == CurrentModeChoice::NoMode,
        current is Some && advertised@.contains(current->0) ==> {
            &&& r is Existing
            &&& r->Existing_0 < advertised@.len()
            &&& advertised@[r->Existing_0 as int] == current->0
            &&& forall|j: int| 0 <= j < r->Existing_0 ==> advertised@[j] != current->0
        },
        current is Some && !advertised@.contains(current->0) ==> r == CurrentModeChoice::Create(
            current->0,
        ),
{
    match current {
        None => CurrentModeChoice::NoMode,
        Some(m) => {
            let mut i: usize = 0;
            while i < advertised.len()
                invariant
                    current == Some(m),
                    0 <= i <= advertised@.len(),
                    forall|j: int| 0 <= j < i ==> advertised@[j] != m,
                decreases advertised@.len() - i,
            {
                if advertised[i] == m {
                    assert(advertised@[i as int] == m);
                    assert(advertised@.contains(m));
                    return CurrentModeChoice::Existing(i);
                }
                i = i + 1;
            }
            CurrentModeChoice::Create(m)
        },
    }
}

/// What output management last told clients of an output (its scale is
/// kept beside it, as a floating-point number).
#[derive(Debug, Clone, Copy, PartialEq, Eq, Structural)]
pub struct OutputData {
    pub enabled: bool,
    pub current_mode: Option<Mode>,
    pub position: HeadPosition,
    pub transform: Transform,
}

/// What a head is told after an output changed: its new current mode,
/// position and transform, each where it changed.
#[derive(Debug, Clone, Copy, PartialEq, Eq, Structural)]
pub struct HeadChanges {
    pub current_mode: Option<Mode>,
    pub position: Option<HeadPosition>,
    pub transform: Option<Transform>,
}

impl OutputData {
    /// Compares an enabled output's current state with what clients were
    /// told, records the new state, and returns what changed. A disabled
    /// output reports nothing; an output that lost its mode keeps the mode
    /// last told.
    pub fn observe(&mut self, current_mode: Option<Mode>, position: HeadPosition, transform: Transform) -> (r:
        HeadChanges)
        ensures
            !old(self).enabled ==> *final(self) == *old(self) && r == (HeadChanges {
                current_mode: None,
                position: None,
                transform: None,
            }),
            old(self).enabled ==> {
                &&& r.current_mode == if current_mode is Some && current_mode != old(self).current_mode {
                    current_mode
                } else {
                    None::<Mode>
                }
                &&& r.position == if position != old(self).position {
                    Some(position)
                } else {
                    None::<HeadPosition>
                }
                &&& r.transform == if transform != old(self).transform {
                    Some(transform)
                } else {
                    None::<Transform>
                }
                &&& final(self).enabled
                &&& final(self).current_mode == if current_mode is Some {
                    current_mode
                } else {
                    old(self).current_mode
                }
                &&& final(self).position == position
                &&& final(self).transform == transform
            },
    {
        let mut changes = HeadChanges { current_mode: None, position: None, transform: None };
        if !self.enabled {
            return changes;
        }
        let mode_changed = match (current_mode, self.current_mode) {
            (Some(new), Some(old)) => new != old,
            (Some(_), None) => true,
            (None, _) => false,
        };
        if mode_changed {
            self.current_mode = current_mode;
            changes.current_mode = current_mode;
        }
        if position != self.position {
            self.position = position;
            changes.position = Some(position);
        }
        if transform != self.transform {
            self.transform = transform;
            changes.transform = Some(transform);
        }
        changes
    }
}

} // verus!
