use pinnacle::bind::{BindAction, BindState, Edge, ModMask, ModifiersState};

const KEY_A: u32 = 0x61;
const KEY_Q: u32 = 0x71;
const BTN_LEFT: u32 = 0x110;

fn no_mods() -> ModifiersState {
    ModifiersState::default()
}

fn add_key(state: &mut BindState, key: u32, mods: ModMask, layer: Option<&str>, quit: bool, reload: bool, allow_when_locked: bool) -> u32 {
    state.keybinds.add_keybind(
        &mut state.bind_ids,
        key,
        mods,
        layer.map(|l| l.to_string()),
        "group".to_string(),
        "desc".to_string(),
        quit,
        reload,
        allow_when_locked,
    )
}

#[test]
fn mod_mask_new_needs_no_modifiers() {
    let mask = ModMask::new();
    assert!(mask.matches(no_mods()));
    assert!(mask.matches(ModifiersState { caps_lock: true, num_lock: true, ..no_mods() }));
    assert!(!mask.matches(ModifiersState { ctrl: true, ..no_mods() }));
    assert!(!mask.matches(ModifiersState { logo: true, ..no_mods() }));
}

#[test]
fn mod_mask_none_means_any() {
    let mask = ModMask { shift: None, ctrl: Some(true), ..ModMask::new() };
    assert!(mask.matches(ModifiersState { ctrl: true, ..no_mods() }));
    assert!(mask.matches(ModifiersState { ctrl: true, shift: true, ..no_mods() }));
    assert!(!mask.matches(ModifiersState { shift: true, ..no_mods() }));
}

#[test]
fn unbound_key_is_forwarded() {
    let mut state = BindState::new();
    assert_eq!(state.keybinds.key(KEY_A, no_mods(), Edge::Press, None, false, false), BindAction::Forward);
    assert_eq!(state.keybinds.key(KEY_A, no_mods(), Edge::Release, None, false, false), BindAction::Forward);
}

#[test]
fn bind_ids_are_shared_and_increasing() {
    let mut state = BindState::new();
    let k = add_key(&mut state, KEY_A, ModMask::new(), None, false, false, false);
    let m = state.mousebinds.add_mousebind(&mut state.bind_ids, BTN_LEFT, ModMask::new(), None, String::new(), String::new(), false, false, false);
    let g = state.gesturebinds.add_gesturebind(&mut state.bind_ids, 1, 3, ModMask::new(), None, String::new(), String::new(), false, false, false);
    assert_eq!((k, m, g), (0, 1, 2));
    assert_eq!(state.bind_ids.next, 3);
}

#[test]
fn key_without_press_listener_is_forwarded_but_recorded() {
    let mut state = BindState::new();
    let id = add_key(&mut state, KEY_A, ModMask::new(), None, false, false, false);
    assert_eq!(state.keybinds.key(KEY_A, no_mods(), Edge::Press, None, false, false), BindAction::Forward);
    assert_eq!(state.keybinds.last_pressed_triggered_binds.get(&KEY_A), Some(&vec![id]));
    assert_eq!(state.keybinds.key(KEY_A, no_mods(), Edge::Release, None, false, false), BindAction::Forward);
    assert!(state.keybinds.last_pressed_triggered_binds.get(&KEY_A).is_none());
}

#[test]
fn key_with_press_listener_is_suppressed_and_sent() {
    let mut state = BindState::new();
    let id = add_key(&mut state, KEY_A, ModMask::new(), None, false, false, false);
    state.keybinds.set_keybind_has_on_press(id);
    assert_eq!(state.keybinds.key(KEY_A, no_mods(), Edge::Press, None, false, false), BindAction::Suppress);
    assert_eq!(state.keybinds.key(KEY_A, no_mods(), Edge::Release, None, false, false), BindAction::Suppress);
    let recv = state.keybinds.id_map.get_mut(&id).unwrap().recv.as_mut().unwrap();
    assert_eq!(recv.try_recv().unwrap(), Edge::Press);
    assert_eq!(recv.try_recv().unwrap(), Edge::Release);
    assert!(recv.try_recv().is_err());
}

#[test]
fn second_release_is_forwarded() {
    let mut state = BindState::new();
    let id = add_key(&mut state, KEY_A, ModMask::new(), None, false, false, false);
    state.keybinds.set_keybind_has_on_press(id);
    state.keybinds.key(KEY_A, no_mods(), Edge::Press, None, false, false);
    assert_eq!(state.keybinds.key(KEY_A, no_mods(), Edge::Release, None, false, false), BindAction::Suppress);
    assert_eq!(state.keybinds.key(KEY_A, no_mods(), Edge::Release, None, false, false), BindAction::Forward);
}

#[test]
fn wrong_modifiers_do_not_trigger() {
    let mut state = BindState::new();
    let mask = ModMask { ctrl: Some(true), ..ModMask::new() };
    let id = add_key(&mut state, KEY_A, mask, None, false, false, false);
    state.keybinds.set_keybind_has_on_press(id);
    assert_eq!(state.keybinds.key(KEY_A, no_mods(), Edge::Press, None, false, false), BindAction::Forward);
    let ctrl = ModifiersState { ctrl: true, ..no_mods() };
    assert_eq!(state.keybinds.key(KEY_A, ctrl, Edge::Press, None, false, false), BindAction::Suppress);
}

#[test]
fn quit_and_reload_binds_work_when_locked_and_inhibited() {
    let mut state = BindState::new();
    add_key(&mut state, KEY_Q, ModMask::new(), None, true, false, false);
    assert_eq!(state.keybinds.key(KEY_Q, no_mods(), Edge::Press, None, true, true), BindAction::Quit);
    assert_eq!(state.keybinds.key(KEY_Q, no_mods(), Edge::Release, None, true, true), BindAction::Quit);
    let mut state = BindState::new();
    add_key(&mut state, KEY_Q, ModMask::new(), None, false, true, false);
    assert_eq!(state.keybinds.key(KEY_Q, no_mods(), Edge::Press, None, true, true), BindAction::ReloadConfig);
}

#[test]
fn locked_session_blocks_binds_unless_allowed() {
    let mut state = BindState::new();
    let id = add_key(&mut state, KEY_A, ModMask::new(), None, false, false, false);
    state.keybinds.set_keybind_has_on_press(id);
    assert_eq!(state.keybinds.key(KEY_A, no_mods(), Edge::Press, None, false, true), BindAction::Forward);
    assert_eq!(state.keybinds.key(KEY_A, no_mods(), Edge::Release, None, false, true), BindAction::Forward);
    state.set_allow_when_locked(id, true);
    assert_eq!(state.keybinds.key(KEY_A, no_mods(), Edge::Press, None, false, true), BindAction::Suppress);
}

#[test]
fn inhibited_shortcuts_forward_keys() {
    let mut state = BindState::new();
    let id = add_key(&mut state, KEY_A, ModMask::new(), None, false, false, true);
    state.keybinds.set_keybind_has_on_press(id);
    assert_eq!(state.keybinds.key(KEY_A, no_mods(), Edge::Press, None, true, false), BindAction::Forward);
}

#[test]
fn binds_fire_only_in_their_layer() {
    let mut state = BindState::new();
    let id = add_key(&mut state, KEY_A, ModMask::new(), Some("resize"), false, false, false);
    state.keybinds.set_keybind_has_on_press(id);
    assert_eq!(state.keybinds.key(KEY_A, no_mods(), Edge::Press, None, false, false), BindAction::Forward);
    state.enter_layer(Some("resize".to_string()));
    let layer = state.current_layer();
    assert_eq!(state.keybinds.key(KEY_A, no_mods(), Edge::Press, layer, false, false), BindAction::Suppress);
}

#[test]
fn layers_stack_without_duplicates() {
    let mut state = BindState::new();
    assert_eq!(state.current_layer(), None);
    state.enter_layer(Some("a".to_string()));
    state.enter_layer(Some("b".to_string()));
    state.enter_layer(Some("a".to_string()));
    assert_eq!(state.layer_stack, vec!["b".to_string(), "a".to_string()]);
    assert_eq!(state.current_layer(), Some("a".to_string()));
    state.enter_previous_layer();
    assert_eq!(state.current_layer(), Some("b".to_string()));
    state.enter_layer(None);
    assert!(state.layer_stack.is_empty());
    state.enter_previous_layer();
    assert_eq!(state.current_layer(), None);
}

#[test]
fn dropped_listener_is_unlinked_on_press() {
    let mut state = BindState::new();
    let id = add_key(&mut state, KEY_A, ModMask::new(), None, false, false, false);
    state.keybinds.set_keybind_has_on_press(id);
    drop(state.keybinds.id_map.get_mut(&id).unwrap().recv.take());
    // The press is still suppressed, but the binding stops being reachable from its key.
    assert_eq!(state.keybinds.key(KEY_A, no_mods(), Edge::Press, None, false, false), BindAction::Suppress);
    assert_eq!(state.keybinds.key(KEY_A, no_mods(), Edge::Press, None, false, false), BindAction::Forward);
}

#[test]
fn dropped_listener_is_removed_on_release() {
    let mut state = BindState::new();
    let id = add_key(&mut state, KEY_A, ModMask::new(), None, false, false, false);
    // Not listening for presses, so the press records the binding without sending.
    state.keybinds.key(KEY_A, no_mods(), Edge::Press, None, false, false);
    drop(state.keybinds.id_map.get_mut(&id).unwrap().recv.take());
    assert_eq!(state.keybinds.key(KEY_A, no_mods(), Edge::Release, None, false, false), BindAction::Forward);
    assert!(state.keybinds.id_map.get(&id).is_none());
}

#[test]
fn removed_keybind_no_longer_triggers() {
    let mut state = BindState::new();
    let id = add_key(&mut state, KEY_A, ModMask::new(), None, true, false, false);
    state.keybinds.remove_keybind(id);
    assert_eq!(state.keybinds.key(KEY_A, no_mods(), Edge::Press, None, false, false), BindAction::Forward);
}

#[test]
fn setters_change_keybinds_then_mousebinds() {
    let mut state = BindState::new();
    let k = add_key(&mut state, KEY_A, ModMask::new(), None, false, false, false);
    let m = state.mousebinds.add_mousebind(&mut state.bind_ids, BTN_LEFT, ModMask::new(), None, String::new(), String::new(), false, false, false);
    state.set_bind_group(k, "launch".to_string());
    state.set_bind_desc(m, "drag".to_string());
    state.set_quit(m, true);
    state.set_reload_config(k, true);
    let kb = state.keybinds.id_map.get(&k).unwrap();
    assert_eq!(kb.bind_data.group, "launch");
    assert!(kb.bind_data.is_reload_config_bind);
    let mb = state.mousebinds.id_map.get(&m).unwrap();
    assert_eq!(mb.bind_data.desc, "drag");
    assert!(mb.bind_data.is_quit_bind);
    assert_eq!(state.mousebinds.btn(BTN_LEFT, no_mods(), Edge::Press, None, false), BindAction::Quit);
}

#[test]
fn clear_removes_key_and_mouse_binds() {
    let mut state = BindState::new();
    add_key(&mut state, KEY_A, ModMask::new(), None, true, false, false);
    state.mousebinds.add_mousebind(&mut state.bind_ids, BTN_LEFT, ModMask::new(), None, String::new(), String::new(), true, false, false);
    state.clear();
    assert!(state.keybinds.id_map.is_empty());
    assert!(state.mousebinds.id_map.is_empty());
    assert_eq!(state.keybinds.key(KEY_A, no_mods(), Edge::Press, None, false, false), BindAction::Forward);
    assert_eq!(state.mousebinds.btn(BTN_LEFT, no_mods(), Edge::Press, None, false), BindAction::Forward);
}

#[test]
fn mousebind_press_and_release() {
    let mut state = BindState::new();
    let id = state.mousebinds.add_mousebind(&mut state.bind_ids, BTN_LEFT, ModMask::new(), None, String::new(), String::new(), false, false, false);
    state.mousebinds.set_mousebind_has_on_press(id);
    assert_eq!(state.mousebinds.btn(BTN_LEFT, no_mods(), Edge::Press, None, false), BindAction::Suppress);
    assert_eq!(state.mousebinds.btn(BTN_LEFT, no_mods(), Edge::Release, None, false), BindAction::Suppress);
    assert_eq!(state.mousebinds.btn(BTN_LEFT, no_mods(), Edge::Press, None, true), BindAction::Forward);
    state.mousebinds.remove_mousebind(id);
    assert_eq!(state.mousebinds.btn(BTN_LEFT, no_mods(), Edge::Press, None, false), BindAction::Forward);
}

#[test]
fn gesturebinds_trigger_on_the_end_of_a_gesture() {
    let mut state = BindState::new();
    let id = state.gesturebinds.add_gesturebind(&mut state.bind_ids, 1, 3, ModMask::new(), None, String::new(), String::new(), false, false, false);
    assert_eq!(state.gesturebinds.gesture(1, 3, no_mods(), Edge::Release, None, false), BindAction::Forward);
    state.gesturebinds.set_gesturebind_has_on_begin(id);
    assert_eq!(state.gesturebinds.gesture(1, 3, no_mods(), Edge::Press, None, false), BindAction::Forward);
    assert_eq!(state.gesturebinds.gesture(1, 3, no_mods(), Edge::Release, None, false), BindAction::Suppress);
    assert_eq!(state.gesturebinds.gesture(1, 4, no_mods(), Edge::Release, None, false), BindAction::Forward);
    assert_eq!(state.gesturebinds.gesture(2, 3, no_mods(), Edge::Release, None, false), BindAction::Forward);
    assert_eq!(state.gesturebinds.gesture(1, 3, no_mods(), Edge::Release, None, true), BindAction::Forward);
    state.gesturebinds.set_gesturebind_has_on_finish(id);
    assert_eq!(state.gesturebinds.gesture(1, 3, no_mods(), Edge::Release, None, false), BindAction::Forward);
    state.gesturebinds.remove_gesturebind(id);
    assert_eq!(state.gesturebinds.gesture(1, 3, no_mods(), Edge::Release, None, false), BindAction::Forward);
}

#[test]
fn quit_gesturebind_quits() {
    let mut state = BindState::new();
    state.gesturebinds.add_gesturebind(&mut state.bind_ids, -1, 4, ModMask::new(), None, String::new(), String::new(), true, false, false);
    assert_eq!(state.gesturebinds.gesture(-1, 4, no_mods(), Edge::Release, None, true), BindAction::Quit);
}

#[test]
fn press_clears_other_pressed_keys_when_listened_to() {
    let mut state = BindState::new();
    let a = add_key(&mut state, KEY_A, ModMask::new(), None, false, false, false);
    let q = add_key(&mut state, KEY_Q, ModMask::new(), None, false, false, false);
    state.keybinds.key(KEY_A, no_mods(), Edge::Press, None, false, false);
    assert_eq!(state.keybinds.last_pressed_triggered_binds.get(&KEY_A), Some(&vec![a]));
    state.keybinds.set_keybind_has_on_press(q);
    state.keybinds.key(KEY_Q, no_mods(), Edge::Press, None, false, false);
    assert!(state.keybinds.last_pressed_triggered_binds.get(&KEY_A).is_none());
    assert_eq!(state.keybinds.last_pressed_triggered_binds.get(&KEY_Q), Some(&vec![q]));
}

#[test]
fn bind_of_another_layer_neither_suppresses_nor_fires() {
    let mut state = BindState::new();
    let id = add_key(&mut state, KEY_A, ModMask::new(), Some("resize"), false, false, false);
    state.keybinds.set_keybind_has_on_press(id);
    assert_eq!(state.keybinds.key(KEY_A, no_mods(), Edge::Press, None, false, false), BindAction::Forward);
    let recv = state.keybinds.id_map.get_mut(&id).unwrap().recv.as_mut().unwrap();
    assert!(recv.try_recv().is_err());
    assert_eq!(
        state.keybinds.key(KEY_A, no_mods(), Edge::Press, Some("resize".to_string()), false, false),
        BindAction::Suppress
    );
    let recv = state.keybinds.id_map.get_mut(&id).unwrap().recv.as_mut().unwrap();
    assert_eq!(recv.try_recv().unwrap(), Edge::Press);
}

#[test]
fn delivered_sends_keep_the_binding() {
    let mut state = BindState::new();
    let id = add_key(&mut state, KEY_A, ModMask::new(), None, false, false, false);
    state.keybinds.set_keybind_has_on_press(id);
    for _ in 0..2 {
        assert_eq!(state.keybinds.key(KEY_A, no_mods(), Edge::Press, None, false, false), BindAction::Suppress);
        assert_eq!(state.keybinds.key(KEY_A, no_mods(), Edge::Release, None, false, false), BindAction::Suppress);
    }
    assert!(state.keybinds.id_map.get(&id).is_some());
    let recv = state.keybinds.id_map.get_mut(&id).unwrap().recv.as_mut().unwrap();
    let got: Vec<Edge> = std::iter::from_fn(|| recv.try_recv().ok()).collect();
    assert_eq!(got, vec![Edge::Press, Edge::Release, Edge::Press, Edge::Release]);
}

#[test]
fn refused_mouse_press_unlinks_only_that_binding() {
    let mut state = BindState::new();
    let a = state.mousebinds.add_mousebind(&mut state.bind_ids, BTN_LEFT, ModMask::new(), None, String::new(), String::new(), false, false, false);
    let b = state.mousebinds.add_mousebind(&mut state.bind_ids, BTN_LEFT, ModMask::new(), None, String::new(), String::new(), false, false, false);
    state.mousebinds.set_mousebind_has_on_press(a);
    state.mousebinds.set_mousebind_has_on_press(b);
    drop(state.mousebinds.id_map.get_mut(&a).unwrap().recv.take());
    assert_eq!(state.mousebinds.btn(BTN_LEFT, no_mods(), Edge::Press, None, false), BindAction::Suppress);
    assert_eq!(state.mousebinds.btn(BTN_LEFT, no_mods(), Edge::Release, None, false), BindAction::Suppress);
    assert_eq!(state.mousebinds.btn(BTN_LEFT, no_mods(), Edge::Press, None, false), BindAction::Suppress);
    let recv = state.mousebinds.id_map.get_mut(&b).unwrap().recv.as_mut().unwrap();
    let got: Vec<Edge> = std::iter::from_fn(|| recv.try_recv().ok()).collect();
    assert_eq!(got, vec![Edge::Press, Edge::Release, Edge::Press]);
}
