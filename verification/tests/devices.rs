use pinnacle::libinput::{device_type, DeviceTraits, DeviceType};
use pinnacle::render::SplitRenderElements;
use pinnacle::snowcap_decoration::{Bounds, DecorationSurfaceCachedState};
use pinnacle::xdg_activation::{
    activation_action, token_created, ActivationAction, ActivationContext, ActivationTarget,
    TokenOrigin,
};

fn traits() -> DeviceTraits {
    DeviceTraits {
        tap_finger_count: 0,
        trackball: false,
        trackpoint: false,
        pointer: false,
        tablet_tool: false,
        switch: false,
        keyboard: false,
    }
}

#[test]
fn device_types() {
    assert_eq!(device_type(&traits()), DeviceType::Unknown);
    assert_eq!(device_type(&DeviceTraits { pointer: true, keyboard: true, ..traits() }), DeviceType::Mouse);
    assert_eq!(device_type(&DeviceTraits { pointer: true, tap_finger_count: 3, ..traits() }), DeviceType::Touchpad);
    assert_eq!(device_type(&DeviceTraits { pointer: true, trackball: true, ..traits() }), DeviceType::Trackball);
    assert_eq!(device_type(&DeviceTraits { pointer: true, trackpoint: true, ..traits() }), DeviceType::Trackpoint);
    assert_eq!(device_type(&DeviceTraits { tablet_tool: true, keyboard: true, ..traits() }), DeviceType::Tablet);
    assert_eq!(device_type(&DeviceTraits { switch: true, keyboard: true, ..traits() }), DeviceType::Switch);
    assert_eq!(device_type(&DeviceTraits { keyboard: true, ..traits() }), DeviceType::Keyboard);
}

#[test]
fn activation_tokens() {
    assert_eq!(token_created(TokenOrigin::NoSerial), (true, Some(ActivationContext::UrgentOnly)));
    assert_eq!(token_created(TokenOrigin::UnknownSeat), (true, Some(ActivationContext::UrgentOnly)));
    assert_eq!(
        token_created(TokenOrigin::Seat { serial_current: true }),
        (true, Some(ActivationContext::FocusIfPossible))
    );
    assert_eq!(token_created(TokenOrigin::Seat { serial_current: false }), (false, None));
}

#[test]
fn activation_requests() {
    let focus = Some(ActivationContext::FocusIfPossible);
    let window = ActivationTarget::Window { on_active_tag: true, has_output: true };
    assert_eq!(activation_action(false, focus, window), ActivationAction::Focus);
    assert_eq!(activation_action(true, focus, window), ActivationAction::Ignore);
    assert_eq!(activation_action(false, None, window), ActivationAction::Ignore);
    assert_eq!(
        activation_action(false, Some(ActivationContext::UrgentOnly), window),
        ActivationAction::Ignore
    );
    assert_eq!(
        activation_action(false, focus, ActivationTarget::Window { on_active_tag: false, has_output: true }),
        ActivationAction::Ignore
    );
    assert_eq!(
        activation_action(false, focus, ActivationTarget::Window { on_active_tag: true, has_output: false }),
        ActivationAction::Ignore
    );
    assert_eq!(activation_action(false, focus, ActivationTarget::Unmapped), ActivationAction::StoreToken);
    assert_eq!(activation_action(false, focus, ActivationTarget::Nothing), ActivationAction::Ignore);
}

#[test]
fn decoration_bounds() {
    assert_eq!(Bounds::default(), Bounds { top: 0, bottom: 0, left: 0, right: 0 });
    let mut state = DecorationSurfaceCachedState::default();
    state.z_index = 3;
    state.set_bounds(1, 2, 3, 4);
    assert_eq!(state.bounds, Bounds { left: 1, right: 2, top: 3, bottom: 4 });
    assert_eq!(state.z_index, 3);
}

#[test]
fn split_render_elements_stack_popups_first() {
    let empty: SplitRenderElements<u8> = SplitRenderElements::default();
    assert!(empty.surface_elements.is_empty() && empty.popup_elements.is_empty());
    let split = SplitRenderElements { surface_elements: vec![1, 2], popup_elements: vec![9] };
    assert_eq!(split.into_stacked(), vec![9, 1, 2]);
}

use pinnacle::geometry::Size;
use pinnacle::snowcap_decoration::{DecorationSurfaceAttributes, DecorationSurfaceState};

#[test]
fn decoration_configure_and_ack() {
    let mut attrs = DecorationSurfaceAttributes::new();
    assert!(attrs.needs_configure());
    let first = attrs.send_configure(10);
    assert_eq!(first.serial, 10);
    assert_eq!(first.state, DecorationSurfaceState { toplevel_size: None });
    assert!(!attrs.needs_configure());
    assert_eq!(attrs.send_pending_configure(11), None);

    let size = Some(Size { w: 800, h: 600 });
    attrs.set_pending_toplevel_size(size);
    assert!(attrs.has_pending_changes());
    let second = attrs.send_pending_configure(12).unwrap();
    assert_eq!(second.state.toplevel_size, size);
    assert_eq!(attrs.current_server_state().toplevel_size, size);
    assert_eq!(attrs.pending_configures.len(), 2);

    assert_eq!(attrs.ack_configure(99), None);
    assert_eq!(attrs.ack_configure(10), Some(first));
    assert_eq!(attrs.last_acked, Some(first));
    assert_eq!(attrs.pending_configures, vec![second]);
    assert_eq!(attrs.ack_configure(12), Some(second));
    assert!(attrs.pending_configures.is_empty());
    assert_eq!(attrs.current_server_state().toplevel_size, size);

    attrs.set_pending_toplevel_size(size);
    assert!(!attrs.has_pending_changes());
    attrs.reset();
    assert!(attrs.needs_configure());
    assert_eq!(attrs.last_acked, None);
}
