//! Decisions of the input path: what a key or button event turns into once
//! the bindings have seen it, and where keyboard focus goes on a click.
use vstd::prelude::*;

use crate::bind::{key_outcome, BindAction, Edge, Keybinds, ModifiersState};

pub mod pointer;

verus! {

/// The keysym that switches to the first virtual terminal.
pub const KEY_XF86_SWITCH_VT_1: u32 = 0x1008FE01;

/// The keysym that switches to the twelfth virtual terminal.
pub const KEY_XF86_SWITCH_VT_12: u32 = 0x1008FE0C;

/// What the compositor does with an intercepted key.
#[derive(Debug, Clone, Copy, PartialEq, Eq, Structural)]
pub enum KeyAction {
    Quit,
    SwitchVt(i32),
    ReloadConfig,
    Suppress,
}

/// Whether a key goes on to the focused client or is intercepted.
#[derive(Debug, Clone, Copy, PartialEq, Eq, Structural)]
pub enum FilterResult {
    Forward,
    Intercept(KeyAction),
}

/// The virtual terminal that a pressed keysym switches to, if it is one of
/// the terminal switching keysyms.
pub open spec fn spec_vt_switch(pressed: bool, modified_sym: u32) -> Option<i32> {
    if pressed && KEY_XF86_SWITCH_VT_1 <= modified_sym <= KEY_XF86_SWITCH_VT_12 {
        Some((modified_sym - KEY_XF86_SWITCH_VT_1 + 1) as i32)
    } else {
        None
    }
}

/// The virtual terminal that a key press asks for, if any.
pub fn vt_switch(pressed: bool, modified_sym: u32) -> (r: Option<i32>)
    ensures
        r == spec_vt_switch(pressed, modified_sym),
{
    if pressed && KEY_XF86_SWITCH_VT_1 <= modified_sym && modified_sym <= KEY_XF86_SWITCH_VT_12 {
        Some((modified_sym - KEY_XF86_SWITCH_VT_1 + 1) as i32)
    } else {
        None
    }
}

/// How a binding's answer to a key filters the key.
pub open spec fn spec_filter_of(action: BindAction) -> FilterResult {
    match action {
        BindAction::Forward => FilterResult::Forward,
        BindAction::Suppress => FilterResult::Intercept(KeyAction::Suppress),
        BindAction::Quit => FilterResult::Intercept(KeyAction::Quit),
        BindAction::ReloadConfig => FilterResult::Intercept(KeyAction::ReloadConfig),
    }
}

/// Turns a binding's answer into a key filter result.
pub fn filter_of(action: BindAction) -> (r: FilterResult)
    ensures
        r == spec_filter_of(action),
{
    match action {
        BindAction::Forward => FilterResult::Forward,
        BindAction::Suppress => FilterResult::Intercept(KeyAction::Suppress),
        BindAction::Quit => FilterResult::Intercept(KeyAction::Quit),
        BindAction::ReloadConfig => FilterResult::Intercept(KeyAction::ReloadConfig),
    }
}

/// The edge of a key or button state.
pub open spec fn edge_of(pressed: bool) -> Edge {
    if pressed { Edge::Press } else { Edge::Release }
}

/// Filters a key event: a press of a terminal switching keysym switches
/// terminals; a key without a keysym goes on to the client; any other key
/// goes through the keybinds (with `raw_sym`, its latin or raw keysym), whose
/// answer decides.
pub fn filter_key(
    keybinds: &mut Keybinds,
    pressed: bool,
    modified_sym: u32,
    raw_sym: Option<u32>,
    mods: ModifiersState,
    current_layer: Option<String>,
    shortcuts_inhibited: bool,
    is_locked: bool,
) -> (r: FilterResult)
    requires
        old(keybinds).wf(),
    ensures
        final(keybinds).wf(),
        spec_vt_switch(pressed, modified_sym) is Some ==> r == FilterResult::Intercept(
            KeyAction::SwitchVt(spec_vt_switch(pressed, modified_sym)->0),
        ) && *final(keybinds) == *old(keybinds),
        spec_vt_switch(pressed, modified_sym) is None && raw_sym is None ==> r
            == FilterResult::Forward && *final(keybinds) == *old(keybinds),
        spec_vt_switch(pressed, modified_sym) is None && raw_sym is Some ==> exists|action: BindAction|
            {
                &&& r == spec_filter_of(action)
                &&& key_outcome(
                    *old(keybinds),
                    *final(keybinds),
                    raw_sym->0,
                    mods,
                    edge_of(pressed),
                    current_layer,
                    shortcuts_inhibited,
                    is_locked,
                    action,
                )
            },
{
    if let Some(vt) = vt_switch(pressed, modified_sym) {
        return FilterResult::Intercept(KeyAction::SwitchVt(vt));
    }
    let raw_sym = match raw_sym {
        Some(sym) => sym,
        None => {
            return FilterResult::Forward;
        },
    };
    let edge = if pressed { Edge::Press } else { Edge::Release };
    let action = keybinds.key(
        raw_sym,
        mods,
        edge,
        current_layer,
        shortcuts_inhibited,
        is_locked,
    );
    filter_of(action)
}

/// What a mouse button event does once the mousebinds have answered.
#[derive(Debug, Clone, Copy, PartialEq, Eq, Structural)]
pub enum ButtonStep {
    /// The event goes on: focus is updated on a press and the button is sent
    /// to the client.
    Continue,
    /// The event stops here.
    Stop,
    Quit,
    ReloadConfig,
}

/// Decides a button event from the mousebinds' answer: a suppressed button
/// still goes on while the pointer is grabbed.
pub fn button_step(action: BindAction, pointer_grabbed: bool) -> (r: ButtonStep)
    ensures
        r == match action {
            BindAction::Forward => ButtonStep::Continue,
            BindAction::Suppress => if pointer_grabbed {
                ButtonStep::Continue
            } else {
                ButtonStep::Stop
            },
            BindAction::Quit => ButtonStep::Quit,
            BindAction::ReloadConfig => ButtonStep::ReloadConfig,
        },
{
    match action {
        BindAction::Forward => ButtonStep::Continue,
        BindAction::Suppress => {
            if pointer_grabbed {
                ButtonStep::Continue
            } else {
                ButtonStep::Stop
            }
        },
        BindAction::Quit => ButtonStep::Quit,
        BindAction::ReloadConfig => ButtonStep::ReloadConfig,
    }
}

/// What lies under the pointer when a button is pressed.
#[derive(Debug, Clone, Copy, PartialEq, Eq, Structural)]
pub enum FocusUnder {
    Nothing,
    /// A window; whether it is an X11 override-redirect window.
    Window { override_redirect: bool },
    /// A layer surface; whether it can take keyboard focus.
    Layer { can_receive_keyboard_focus: bool },
    /// A surface of the session lock.
    LockSurface,
    /// Some other surface.
    Other,
}

/// Where keyboard focus goes on a button press.
#[derive(Debug, Clone, Copy, PartialEq, Eq, Structural)]
pub enum FocusChange {
    /// Nothing changes.
    Keep,
    /// The keyboard focus is unset.
    Unset,
    /// The window is raised; focus stays.
    Raise,
    /// The window is raised and takes the keyboard focus.
    RaiseAndFocus,
    /// The layer surface takes the keyboard focus.
    FocusLayer,
    /// The lock surface takes the keyboard focus.
    FocusLockSurface,
}

/// Decides where keyboard focus goes when a button is pressed over `focus`,
/// with the session locked or not.
pub fn press_focus(focus: FocusUnder, is_locked: bool) -> (r: FocusChange)
    ensures
        r == match focus {
            FocusUnder::Nothing => FocusChange::Unset,
            FocusUnder::Window { override_redirect } => if override_redirect {
                FocusChange::Raise
            } else {
                FocusChange::RaiseAndFocus
            },
            FocusUnder::Layer { can_receive_keyboard_focus } => if can_receive_keyboard_focus {
                FocusChange::FocusLayer
            } else {
                FocusChange::Unset
            },
            FocusUnder::LockSurface => if is_locked {
                FocusChange::FocusLockSurface
            } else {
                FocusChange::Keep
            },
            FocusUnder::Other => if is_locked {
                FocusChange::Unset
            } else {
                FocusChange::Keep
            },
        },
{
    match focus {
        FocusUnder::Nothing => FocusChange::Unset,
        FocusUnder::Window { override_redirect } => {
            if override_redirect {
                FocusChange::Raise
            } else {
                FocusChange::RaiseAndFocus
            }
        },
        FocusUnder::Layer { can_receive_keyboard_focus } => {
            if can_receive_keyboard_focus {
                FocusChange::FocusLayer
            } else {
                FocusChange::Unset
            }
        },
        FocusUnder::LockSurface => {
            if is_locked {
                FocusChange::FocusLockSurface
            } else {
                FocusChange::Keep
            }
        },
        FocusUnder::Other => {
            if is_locked {
                FocusChange::Unset
            } else {
                FocusChange::Keep
            }
        },
    }
}

} // verus!
