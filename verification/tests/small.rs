use pinnacle::layout::LayoutRequestId;
use pinnacle::metaconfig::Key;
use pinnacle::ext_workspace::{commit_order, Action};
use pinnacle::geometry::{centered_loc, Point, Rectangle, Size};
use pinnacle::state::{
    primary_scanout_output_compare, FrameCallbackSequence, FrameCallbackStamp, ScanoutChoice,
    SurfaceFrameThrottlingState,
};
use pinnacle::tag::TagId;

#[test]
fn frame_callback_sequence_wraps() {
    let mut seq = FrameCallbackSequence(5);
    seq.increment();
    assert_eq!(seq, FrameCallbackSequence(6));
    let mut last = FrameCallbackSequence(u32::MAX);
    last.increment();
    assert_eq!(last, FrameCallbackSequence(0));
}

#[test]
fn centered_loc_centers() {
    let rect = Rectangle { loc: Point { x: 100, y: 50 }, size: Size { w: 1920, h: 1080 } };
    let size = Size { w: 800, h: 600 };
    assert_eq!(centered_loc(rect, size), Point { x: 100 + 960 - 400, y: 50 + 540 - 300 });
}

#[test]
fn centered_loc_rounds_toward_zero() {
    let rect = Rectangle { loc: Point { x: 0, y: 0 }, size: Size { w: 5, h: -5 } };
    let size = Size { w: 3, h: -3 };
    // 5 / 2 == 2, 3 / 2 == 1, -5 / 2 == -2, -3 / 2 == -1
    assert_eq!(centered_loc(rect, size), Point { x: 1, y: -1 });
}

#[test]
fn action_order_ranks() {
    assert_eq!(Action::Remove(TagId::new(0)).order(), 0);
    assert_eq!(Action::Deactivate(TagId::new(0)).order(), 1);
    assert_eq!(Action::Activate(TagId::new(0)).order(), 2);
}

#[test]
fn commit_applies_removals_then_deactivations_then_activations() {
    let t = TagId::new;
    let actions = vec![
        Action::Activate(t(1)),
        Action::Remove(t(2)),
        Action::Deactivate(t(3)),
        Action::Activate(t(4)),
        Action::Remove(t(5)),
    ];
    let ordered = commit_order(actions);
    assert_eq!(
        ordered,
        vec![
            Action::Remove(t(2)),
            Action::Remove(t(5)),
            Action::Deactivate(t(3)),
            Action::Activate(t(1)),
            Action::Activate(t(4)),
        ]
    );
}

#[test]
fn frame_callbacks_are_throttled_per_round() {
    let mut state = SurfaceFrameThrottlingState { last_sent_at: None };
    let seq = FrameCallbackSequence(7);
    assert!(!state.should_send(Some(2), 1, Some(seq)));
    assert!(!state.should_send(None, 1, Some(seq)));
    assert!(state.should_send(Some(1), 1, Some(seq)));
    assert_eq!(state.last_sent_at, Some(FrameCallbackStamp { output: 1, sequence: seq }));
    assert!(!state.should_send(Some(1), 1, Some(seq)));
    assert!(state.should_send(Some(1), 1, None));
    assert!(state.should_send(Some(1), 1, Some(FrameCallbackSequence(8))));
}

#[test]
fn scanout_output_prefers_larger_visible_area() {
    assert_eq!(primary_scanout_output_compare(10, 20, true, true), ScanoutChoice::Next);
    assert_eq!(primary_scanout_output_compare(20, 10, true, true), ScanoutChoice::Current);
    assert_eq!(primary_scanout_output_compare(10, 10, true, true), ScanoutChoice::Current);
    assert_eq!(primary_scanout_output_compare(20, 10, false, true), ScanoutChoice::Next);
    assert_eq!(primary_scanout_output_compare(10, 20, true, false), ScanoutChoice::Next);
}

#[test]
fn metaconfig_keys_have_their_keysyms() {
    assert_eq!(Key::A.keysym(), 0x61);
    assert_eq!(Key::Z.keysym(), 0x7a);
    assert_eq!(Key::Zero.keysym(), 0x30);
    assert_eq!(Key::Nine.keysym(), 0x39);
    assert_eq!(Key::NumZero.keysym(), 0xffb0);
    assert_eq!(Key::NumNine.keysym(), 0xffb9);
    assert_eq!(Key::Escape.keysym(), 0xff1b);
}

#[test]
fn layout_request_ids_are_ordered() {
    assert!(LayoutRequestId(1) < LayoutRequestId(2));
}

#[test]
fn layout_request_ids_order_by_value_and_start_at_zero() {
    assert_eq!(LayoutRequestId::default().to_inner(), 0);
    assert_eq!(LayoutRequestId::default(), LayoutRequestId(0));
    assert!(LayoutRequestId(3) > LayoutRequestId(2));
    assert!(LayoutRequestId(2) <= LayoutRequestId(2));
    assert_eq!(LayoutRequestId(7).cmp(&LayoutRequestId(9)), std::cmp::Ordering::Less);
    assert_eq!(LayoutRequestId(4).partial_cmp(&LayoutRequestId(4)), Some(std::cmp::Ordering::Equal));
}
