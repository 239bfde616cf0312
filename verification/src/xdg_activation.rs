//! Activation requests: which tokens may focus a window, and what an
//! activation request does.
use vstd::prelude::*;

verus! {

/// How long an activation token stays valid, in seconds.
pub const XDG_ACTIVATION_TOKEN_TIMEOUT_SECS: u64 = 10;

/// What an activation token allows.
#[derive(Debug, Clone, Copy, PartialEq, Eq, Structural)]
pub enum ActivationContext {
    FocusIfPossible,
    UrgentOnly,
}

/// The seat and serial that a token was created with, as far as the
/// decision reads them.
#[derive(Debug, Clone, Copy, PartialEq, Eq, Structural)]
pub enum TokenOrigin {
    /// The token came with no serial and seat.
    NoSerial,
    /// The token's seat is not known.
    UnknownSeat,
    /// The token's serial is no older than the last keyboard enter on its
    /// seat (`true`), or it is older, or the keyboard never entered (`false`).
    Seat { serial_current: bool },
}

/// Decides on a new token: returns whether it is valid and the context it
/// carries, if any. Tokens without a usable seat and serial may only mark a
/// window urgent; a current serial lets the token focus.
pub fn token_created(origin: TokenOrigin) -> (r: (bool, Option<ActivationContext>))
    ensures
        r == match origin {
            TokenOrigin::NoSerial | TokenOrigin::UnknownSeat => (
                true,
                Some(ActivationContext::UrgentOnly),
            ),
            TokenOrigin::Seat { serial_current } => if serial_current {
                (true, Some(ActivationContext::FocusIfPossible))
            } else {
                (false, None)
            },
        },
{
    match origin {
        TokenOrigin::NoSerial => (true, Some(ActivationContext::UrgentOnly)),
        TokenOrigin::UnknownSeat => (true, Some(ActivationContext::UrgentOnly)),
        TokenOrigin::Seat { serial_current } => {
            if serial_current {
                (true, Some(ActivationContext::FocusIfPossible))
            } else {
                (false, None)
            }
        },
    }
}

/// The surface that an activation request names.
#[derive(Debug, Clone, Copy, PartialEq, Eq, Structural)]
pub enum ActivationTarget {
    /// A mapped window, whether it is on an active tag, and whether it is on
    /// an output.
    Window { on_active_tag: bool, has_output: bool },
    /// A window that is not mapped yet.
    Unmapped,
    /// No window.
    Nothing,
}

/// What an activation request does.
#[derive(Debug, Clone, Copy, PartialEq, Eq, Structural)]
pub enum ActivationAction {
    Ignore,
    /// Raise and focus the window on its output.
    Focus,
    /// Keep the token for the window until it maps.
    StoreToken,
}

/// Decides an activation request with a token that is `expired` or not and
/// carries `context`, on `target`. The token is used up either way.
pub fn activation_action(
    expired: bool,
    context: Option<ActivationContext>,
    target: ActivationTarget,
) -> (r: ActivationAction)
    ensures
        r == if expired || context is None {
            ActivationAction::Ignore
        } else {
            match target {
                ActivationTarget::Window { on_active_tag, has_output } => if context
                    == Some(ActivationContext::FocusIfPossible) && on_active_tag && has_output {
                    ActivationAction::Focus
                } else {
                    ActivationAction::Ignore
                },
                ActivationTarget::Unmapped => ActivationAction::StoreToken,
                ActivationTarget::Nothing => ActivationAction::Ignore,
            }
        },
{
    if expired {
        return ActivationAction::Ignore;
    }
    let context = match context {
        Some(c) => c,
        None => {
            return ActivationAction::Ignore;
        },
    };
    match target {
        ActivationTarget::Window { on_active_tag, has_output } => match context {
            ActivationContext::FocusIfPossible => {
                if on_active_tag && has_output {
                    ActivationAction::Focus
                } else {
                    ActivationAction::Ignore
                }
            },
            ActivationContext::UrgentOnly => ActivationAction::Ignore,
        },
        ActivationTarget::Unmapped => ActivationAction::StoreToken,
        ActivationTarget::Nothing => ActivationAction::Ignore,
    }
}

} // verus!
