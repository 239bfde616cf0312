use pinnacle::input::pointer::{pointer_target, LayerLevel, PointerScene, PointerTarget, SurfaceHit, WindowHit};

const MISS: SurfaceHit = SurfaceHit { popup: false, surface: false };
const ON_SURFACE: SurfaceHit = SurfaceHit { popup: false, surface: true };
const ON_POPUP: SurfaceHit = SurfaceHit { popup: true, surface: false };

fn window(hit: SurfaceHit, fullscreen: bool) -> WindowHit {
    WindowHit { hit, fullscreen }
}

fn empty_scene() -> PointerScene {
    PointerScene { overlay: vec![], top: vec![], bottom: vec![], background: vec![], windows: vec![] }
}

#[test]
fn nothing_under_the_pointer() {
    assert_eq!(pointer_target(&empty_scene(), false, true), None);
    let scene = PointerScene { windows: vec![window(MISS, false)], top: vec![MISS], ..empty_scene() };
    assert_eq!(pointer_target(&scene, false, false), None);
}

#[test]
fn locked_session_gives_only_the_lock_surface() {
    let scene = PointerScene { overlay: vec![ON_POPUP], windows: vec![window(ON_SURFACE, false)], ..empty_scene() };
    assert_eq!(pointer_target(&scene, true, true), Some(PointerTarget::LockSurface));
    assert_eq!(pointer_target(&scene, true, false), None);
}

#[test]
fn popups_beat_surfaces_and_layer_popups_beat_window_popups() {
    let scene = PointerScene {
        overlay: vec![ON_SURFACE],
        background: vec![MISS, ON_POPUP],
        windows: vec![window(ON_POPUP, false)],
        ..empty_scene()
    };
    assert_eq!(pointer_target(&scene, false, false), Some(PointerTarget::LayerPopup(LayerLevel::Background, 1)));
    let scene = PointerScene { overlay: vec![ON_SURFACE], windows: vec![window(MISS, false), window(ON_POPUP, false)], ..empty_scene() };
    assert_eq!(pointer_target(&scene, false, false), Some(PointerTarget::WindowPopup(1)));
}

#[test]
fn fullscreen_windows_cover_the_top_layer() {
    // Windows topmost first: the second is fullscreen, so the first two sit above the top layer.
    let windows = vec![window(MISS, false), window(ON_SURFACE, true), window(ON_SURFACE, false)];
    let scene = PointerScene { top: vec![ON_SURFACE], windows: windows.clone(), ..empty_scene() };
    assert_eq!(pointer_target(&scene, false, false), Some(PointerTarget::Window(1)));
    // Without a fullscreen window the top layer comes first.
    let windows = vec![window(MISS, false), window(ON_SURFACE, false), window(ON_SURFACE, false)];
    let scene = PointerScene { top: vec![ON_SURFACE], windows, ..empty_scene() };
    assert_eq!(pointer_target(&scene, false, false), Some(PointerTarget::Layer(LayerLevel::Top, 0)));
}

#[test]
fn overlay_beats_windows_and_windows_beat_bottom_layers() {
    let scene = PointerScene {
        overlay: vec![MISS, ON_SURFACE],
        windows: vec![window(ON_SURFACE, true)],
        ..empty_scene()
    };
    assert_eq!(pointer_target(&scene, false, false), Some(PointerTarget::Layer(LayerLevel::Overlay, 1)));
    let scene = PointerScene {
        bottom: vec![ON_SURFACE],
        background: vec![ON_SURFACE],
        windows: vec![window(MISS, false), window(ON_SURFACE, false)],
        ..empty_scene()
    };
    assert_eq!(pointer_target(&scene, false, false), Some(PointerTarget::Window(1)));
    let scene = PointerScene { bottom: vec![MISS], background: vec![ON_SURFACE], ..empty_scene() };
    assert_eq!(pointer_target(&scene, false, false), Some(PointerTarget::Layer(LayerLevel::Background, 0)));
    let scene = PointerScene { bottom: vec![ON_SURFACE], background: vec![ON_SURFACE], ..empty_scene() };
    assert_eq!(pointer_target(&scene, false, false), Some(PointerTarget::Layer(LayerLevel::Bottom, 0)));
}
