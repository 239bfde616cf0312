use pinnacle::bind::{BindAction, BindState, ModMask, ModifiersState};
use pinnacle::ext_workspace::{refresh_workspace, WorkspaceRecord, WorkspaceRefresh};
use pinnacle::input::{
    button_step, filter_key, filter_of, press_focus, vt_switch, ButtonStep, FilterResult,
    FocusChange, FocusUnder, KeyAction,
};
use pinnacle::output::{try_pick_mode, OutputState};
use pinnacle::output_management::Mode;

const KEY_Q: u32 = 0x71;
const VT_1: u32 = 0x1008FE01;

fn no_mods() -> ModifiersState {
    ModifiersState::default()
}

#[test]
fn vt_keysyms_switch_terminals_on_press() {
    assert_eq!(vt_switch(true, VT_1), Some(1));
    assert_eq!(vt_switch(true, VT_1 + 11), Some(12));
    assert_eq!(vt_switch(true, VT_1 + 12), None);
    assert_eq!(vt_switch(false, VT_1), None);
    assert_eq!(vt_switch(true, KEY_Q), None);
}

#[test]
fn bind_actions_filter_keys() {
    assert_eq!(filter_of(BindAction::Forward), FilterResult::Forward);
    assert_eq!(filter_of(BindAction::Suppress), FilterResult::Intercept(KeyAction::Suppress));
    assert_eq!(filter_of(BindAction::Quit), FilterResult::Intercept(KeyAction::Quit));
    assert_eq!(filter_of(BindAction::ReloadConfig), FilterResult::Intercept(KeyAction::ReloadConfig));
}

#[test]
fn filter_key_goes_through_keybinds() {
    let mut state = BindState::new();
    state.keybinds.add_keybind(
        &mut state.bind_ids,
        KEY_Q,
        ModMask::new(),
        None,
        String::new(),
        String::new(),
        true,
        false,
        false,
    );
    assert_eq!(
        filter_key(&mut state.keybinds, true, VT_1 + 2, Some(KEY_Q), no_mods(), None, false, false),
        FilterResult::Intercept(KeyAction::SwitchVt(3))
    );
    assert_eq!(
        filter_key(&mut state.keybinds, true, KEY_Q, None, no_mods(), None, false, false),
        FilterResult::Forward
    );
    assert_eq!(
        filter_key(&mut state.keybinds, true, KEY_Q, Some(KEY_Q), no_mods(), None, false, false),
        FilterResult::Intercept(KeyAction::Quit)
    );
}

#[test]
fn button_steps() {
    assert_eq!(button_step(BindAction::Forward, false), ButtonStep::Continue);
    assert_eq!(button_step(BindAction::Suppress, false), ButtonStep::Stop);
    assert_eq!(button_step(BindAction::Suppress, true), ButtonStep::Continue);
    assert_eq!(button_step(BindAction::Quit, true), ButtonStep::Quit);
    assert_eq!(button_step(BindAction::ReloadConfig, false), ButtonStep::ReloadConfig);
}

#[test]
fn press_focus_targets() {
    assert_eq!(press_focus(FocusUnder::Nothing, false), FocusChange::Unset);
    assert_eq!(press_focus(FocusUnder::Window { override_redirect: false }, false), FocusChange::RaiseAndFocus);
    assert_eq!(press_focus(FocusUnder::Window { override_redirect: true }, true), FocusChange::Raise);
    assert_eq!(press_focus(FocusUnder::Layer { can_receive_keyboard_focus: true }, false), FocusChange::FocusLayer);
    assert_eq!(press_focus(FocusUnder::Layer { can_receive_keyboard_focus: false }, false), FocusChange::Unset);
    assert_eq!(press_focus(FocusUnder::LockSurface, true), FocusChange::FocusLockSurface);
    assert_eq!(press_focus(FocusUnder::LockSurface, false), FocusChange::Keep);
    assert_eq!(press_focus(FocusUnder::Other, true), FocusChange::Unset);
    assert_eq!(press_focus(FocusUnder::Other, false), FocusChange::Keep);
}

fn mode(w: i32, h: i32, refresh: i32) -> Mode {
    Mode { width: w, height: h, refresh }
}

#[test]
fn try_pick_mode_prefers_highest_refresh() {
    let mut out = OutputState::default();
    out.modes = vec![mode(1920, 1080, 60000), mode(1920, 1080, 144000), mode(1280, 720, 240000), mode(1920, 1080, 75000)];
    assert_eq!(try_pick_mode(&out, 1920, 1080, None), Some(mode(1920, 1080, 144000)));
    assert_eq!(try_pick_mode(&out, 1920, 1080, Some(75000)), Some(mode(1920, 1080, 75000)));
    assert_eq!(try_pick_mode(&out, 1920, 1080, Some(50000)), None);
    assert_eq!(try_pick_mode(&out, 800, 600, None), None);
}

#[test]
fn refresh_workspace_reports_changes() {
    let mut record = None;
    assert_eq!(
        refresh_workspace(&mut record, 1, true),
        WorkspaceRefresh { created: true, state_changed: false, output_changed: false }
    );
    assert_eq!(record, Some(WorkspaceRecord { active: true, output: 1 }));
    let again = refresh_workspace(&mut record, 1, true);
    assert!(!again.changed());
    assert_eq!(
        refresh_workspace(&mut record, 2, false),
        WorkspaceRefresh { created: false, state_changed: true, output_changed: true }
    );
    assert_eq!(record, Some(WorkspaceRecord { active: false, output: 2 }));
}

use pinnacle::ext_workspace::refresh::{TagSnapshot, WorkspaceRecords};
use pinnacle::tag::TagId;

fn snap(output: u64, id: u32, active: bool) -> TagSnapshot {
    TagSnapshot { output, id: TagId::new(id), active }
}

#[test]
fn workspace_refresh_tracks_tags_and_groups() {
    let mut records = WorkspaceRecords::new();
    let first = records.refresh(&vec![1, 2], &vec![snap(1, 10, true), snap(2, 11, false)]);
    assert!(first.changed);
    assert_eq!(first.added_groups, vec![1, 2]);
    assert!(first.removed_workspaces.is_empty());
    assert_eq!(first.refreshed.len(), 2);
    assert!(first.refreshed.iter().all(|(_, r)| r.created));

    let again = records.refresh(&vec![1, 2], &vec![snap(1, 10, true), snap(2, 11, false)]);
    assert!(!again.changed);
    assert!(again.refreshed.iter().all(|(_, r)| !r.changed()));

    let moved = records.refresh(&vec![1], &vec![snap(1, 10, false), snap(1, 11, false)]);
    assert!(moved.changed);
    assert_eq!(moved.removed_groups, vec![2]);
    assert_eq!(moved.refreshed[0].1, WorkspaceRefresh { created: false, state_changed: true, output_changed: false });
    assert_eq!(moved.refreshed[1].1, WorkspaceRefresh { created: false, state_changed: false, output_changed: true });

    let gone = records.refresh(&vec![1], &vec![snap(1, 10, false)]);
    assert!(gone.changed);
    assert_eq!(gone.removed_workspaces.len(), 1);
    assert_eq!(gone.removed_workspaces[0].0, TagId::new(11));
    assert_eq!(records.records.len(), 1);
    assert_eq!(records.groups, vec![1]);
}
