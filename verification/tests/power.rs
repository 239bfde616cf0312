use pinnacle::output_power_management::{OutputPowerManagementState, PowerGrant, PowerModeChange};

#[test]
fn power_control_is_exclusive_per_output() {
    let mut state = OutputPowerManagementState::new();
    assert_eq!(state.get_output_power(None, 1, true), PowerGrant::Failed);
    assert_eq!(state.get_output_power(Some(10), 1, true), PowerGrant::Granted { on: true });
    assert_eq!(state.get_output_power(Some(10), 2, true), PowerGrant::Failed);
    assert_eq!(state.get_output_power(Some(11), 3, false), PowerGrant::Granted { on: false });
}

#[test]
fn power_modes() {
    let mut state = OutputPowerManagementState::new();
    state.get_output_power(Some(10), 1, true);
    assert_eq!(state.set_mode(1, 0), PowerModeChange::Apply { output: 10, powered: false });
    assert_eq!(state.set_mode(1, 1), PowerModeChange::Apply { output: 10, powered: true });
    assert_eq!(state.set_mode(1, 2), PowerModeChange::InvalidMode);
    assert_eq!(state.set_mode(9, 1), PowerModeChange::Ignore);
}

#[test]
fn removing_output_fails_its_control() {
    let mut state = OutputPowerManagementState::new();
    state.get_output_power(Some(10), 1, true);
    assert_eq!(state.output_removed(10), Some(1));
    assert_eq!(state.output_removed(10), None);
    assert_eq!(state.get_output_power(Some(10), 2, true), PowerGrant::Granted { on: true });
}

#[test]
fn destroying_a_control_keeps_only_that_control() {
    let mut state = OutputPowerManagementState::new();
    state.get_output_power(Some(10), 1, true);
    state.get_output_power(Some(11), 2, true);
    state.destroyed(1);
    assert_eq!(state.set_mode(2, 1), PowerModeChange::Ignore);
    assert_eq!(state.set_mode(1, 1), PowerModeChange::Apply { output: 10, powered: true });
}
