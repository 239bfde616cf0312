use pinnacle::output_management::{
    choose_current_mode, sync_modes, transform_from_wire, ConfigurationAction,
    ConfigurationRequest, CreateOutcome, CurrentModeChoice, HeadError, HeadMode, HeadPosition,
    HeadRequest, Mode, PendingHead, PendingOutputConfiguration, PendingOutputHeadConfiguration,
    Transform,
};

fn live_config(serial: u32, heads: &[u64]) -> PendingOutputConfiguration {
    let (config, outcome) = PendingOutputConfiguration::create(serial, Some(serial), &heads.to_vec());
    assert_eq!(outcome, CreateOutcome::Accepted);
    config
}

#[test]
fn create_with_current_serial_lists_heads_unconfigured() {
    let config = live_config(5, &[10, 11]);
    assert!(!config.cancelled && !config.used);
    assert_eq!(config.pending_heads, vec![(10, PendingHead::NotConfigured), (11, PendingHead::NotConfigured)]);
}

#[test]
fn create_with_stale_serial_is_cancelled() {
    let (config, outcome) = PendingOutputConfiguration::create(4, Some(5), &vec![10]);
    assert_eq!(outcome, CreateOutcome::Cancelled);
    assert!(config.cancelled);
    assert_eq!(config.pending_heads, vec![(10, PendingHead::NotConfigured)]);
}

#[test]
fn create_without_manager_is_empty_and_reported_cancelled() {
    let (config, outcome) = PendingOutputConfiguration::create(4, None, &vec![10]);
    assert_eq!(outcome, CreateOutcome::Cancelled);
    assert!(!config.cancelled);
    assert!(config.pending_heads.is_empty());
}

#[test]
fn enable_disable_then_apply_runs_configuration() {
    let mut config = live_config(5, &[10, 11]);
    let s = Some(5);
    assert_eq!(config.request(ConfigurationRequest::EnableHead { head: 10, config_head: 100 }, s), ConfigurationAction::Nothing);
    assert_eq!(config.request(ConfigurationRequest::Apply, s), ConfigurationAction::UnconfiguredHead);
    assert!(!config.used);
    assert_eq!(config.request(ConfigurationRequest::DisableHead { head: 11 }, s), ConfigurationAction::Nothing);
    assert_eq!(
        config.request(ConfigurationRequest::Apply, s),
        ConfigurationAction::Run { apply: true, heads: vec![(10, Some(100)), (11, None)] }
    );
    assert!(config.used);
    assert_eq!(config.request(ConfigurationRequest::Test, s), ConfigurationAction::AlreadyUsed);
    assert_eq!(config.request(ConfigurationRequest::Destroy, s), ConfigurationAction::Nothing);
}

#[test]
fn test_request_runs_without_applying() {
    let mut config = live_config(1, &[3]);
    config.request(ConfigurationRequest::DisableHead { head: 3 }, Some(1));
    assert_eq!(
        config.request(ConfigurationRequest::Test, Some(1)),
        ConfigurationAction::Run { apply: false, heads: vec![(3, None)] }
    );
}

#[test]
fn head_is_configured_once() {
    let mut config = live_config(5, &[10]);
    assert_eq!(config.request(ConfigurationRequest::DisableHead { head: 10 }, Some(5)), ConfigurationAction::Nothing);
    assert_eq!(
        config.request(ConfigurationRequest::EnableHead { head: 10, config_head: 7 }, Some(5)),
        ConfigurationAction::AlreadyConfiguredHead { head: 10 }
    );
    assert_eq!(config.pending_heads, vec![(10, PendingHead::Disabled)]);
    assert_eq!(config.request(ConfigurationRequest::DisableHead { head: 99 }, Some(5)), ConfigurationAction::Nothing);
}

#[test]
fn stale_serial_cancels_and_then_ignores() {
    let mut config = live_config(5, &[10]);
    assert_eq!(config.request(ConfigurationRequest::DisableHead { head: 10 }, Some(6)), ConfigurationAction::Cancelled);
    assert!(config.cancelled);
    assert_eq!(config.request(ConfigurationRequest::Apply, Some(5)), ConfigurationAction::Nothing);
    assert_eq!(config.pending_heads, vec![(10, PendingHead::NotConfigured)]);
}

#[test]
fn head_settings_are_set_once() {
    let mut head = PendingOutputHeadConfiguration::default();
    assert_eq!(head.request(HeadRequest::SetMode { mode: Mode { width: 1920, height: 1080, refresh: 60000 } }), Ok(()));
    assert_eq!(head.mode, Some(HeadMode { width: 1920, height: 1080, refresh: Some(60000) }));
    assert_eq!(
        head.request(HeadRequest::SetCustomMode { width: 800, height: 600, refresh: 0 }),
        Err(HeadError::AlreadySet)
    );
    assert_eq!(head.request(HeadRequest::SetPosition { x: -5, y: 7 }), Ok(()));
    assert_eq!(head.position, Some(HeadPosition { x: -5, y: 7 }));
    assert_eq!(head.request(HeadRequest::SetPosition { x: 0, y: 0 }), Err(HeadError::AlreadySet));
    assert_eq!(head.request(HeadRequest::SetScale { scale: 384 }), Ok(()));
    assert_eq!(head.scale, Some(384));
}

#[test]
fn custom_mode_is_checked() {
    let mut head = PendingOutputHeadConfiguration::default();
    assert_eq!(
        head.request(HeadRequest::SetCustomMode { width: 0, height: 600, refresh: 0 }),
        Err(HeadError::InvalidCustomMode)
    );
    assert_eq!(
        head.request(HeadRequest::SetCustomMode { width: 800, height: 600, refresh: -1 }),
        Err(HeadError::InvalidCustomMode)
    );
    assert_eq!(head.mode, None);
    assert_eq!(head.request(HeadRequest::SetCustomMode { width: 800, height: 600, refresh: 0 }), Ok(()));
    assert_eq!(head.mode, Some(HeadMode { width: 800, height: 600, refresh: None }));
}

#[test]
fn transform_and_adaptive_sync_are_checked() {
    let mut head = PendingOutputHeadConfiguration::default();
    assert_eq!(head.request(HeadRequest::SetTransform { transform: 8 }), Err(HeadError::InvalidTransform));
    assert_eq!(head.request(HeadRequest::SetTransform { transform: 5 }), Ok(()));
    assert_eq!(head.transform, Some(Transform::Flipped90));
    assert_eq!(head.request(HeadRequest::SetAdaptiveSync { state: 2 }), Err(HeadError::InvalidAdaptiveSyncState));
    assert_eq!(head.request(HeadRequest::SetAdaptiveSync { state: 1 }), Ok(()));
    assert_eq!(head.adaptive_sync, Some(true));
    assert_eq!(transform_from_wire(0), Some(Transform::Normal));
    assert_eq!(transform_from_wire(3), Some(Transform::_270));
}

fn mode(w: i32) -> Mode {
    Mode { width: w, height: 100, refresh: 60000 }
}

#[test]
fn sync_modes_withdraws_and_adds() {
    let advertised = vec![mode(1), mode(2), mode(3)];
    let modes = vec![mode(3), mode(4), mode(1), mode(4), mode(5)];
    let sync = sync_modes(&advertised, &modes);
    assert_eq!(sync.keep, vec![true, false, true]);
    assert_eq!(sync.create, vec![mode(4), mode(5)]);
}

#[test]
fn current_mode_is_found_or_created() {
    let advertised = vec![mode(1), mode(2), mode(2)];
    assert_eq!(choose_current_mode(&advertised, Some(mode(2))), CurrentModeChoice::Existing(1));
    assert_eq!(choose_current_mode(&advertised, Some(mode(9))), CurrentModeChoice::Create(mode(9)));
    assert_eq!(choose_current_mode(&advertised, None), CurrentModeChoice::NoMode);
}

use pinnacle::output_management::{HeadChanges, OutputData};

#[test]
fn output_data_reports_changes_once() {
    let mut data = OutputData {
        enabled: true,
        current_mode: Some(mode(1)),
        position: HeadPosition { x: 0, y: 0 },
        transform: Transform::Normal,
    };
    let changes = data.observe(Some(mode(2)), HeadPosition { x: 5, y: 0 }, Transform::Normal);
    assert_eq!(
        changes,
        HeadChanges { current_mode: Some(mode(2)), position: Some(HeadPosition { x: 5, y: 0 }), transform: None }
    );
    let again = data.observe(Some(mode(2)), HeadPosition { x: 5, y: 0 }, Transform::Normal);
    assert_eq!(again, HeadChanges { current_mode: None, position: None, transform: None });
    let no_mode = data.observe(None, HeadPosition { x: 5, y: 0 }, Transform::_90);
    assert_eq!(no_mode.transform, Some(Transform::_90));
    assert_eq!(data.current_mode, Some(mode(2)));
    data.enabled = false;
    let off = data.observe(Some(mode(3)), HeadPosition { x: 1, y: 1 }, Transform::Normal);
    assert_eq!(off, HeadChanges { current_mode: None, position: None, transform: None });
    assert_eq!(data.current_mode, Some(mode(2)));
}
