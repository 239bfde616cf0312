use pinnacle::geometry::{Point, Rectangle, Size};
use pinnacle::screencopy::{
    buffer_fits, damage_events, region_has_size, shm_buffer_params, CopyAnswer, ScreencopyBuffer,
    ScreencopyFrameState,
};

fn region() -> Rectangle {
    Rectangle { loc: Point { x: 0, y: 0 }, size: Size { w: 100, h: 50 } }
}

#[test]
fn shm_buffer_must_match_region() {
    let size = region().size;
    assert!(buffer_fits(ScreencopyBuffer::Shm { argb8888: true, stride: 400, height: 50, len: 20000 }, size));
    assert!(!buffer_fits(ScreencopyBuffer::Shm { argb8888: false, stride: 400, height: 50, len: 20000 }, size));
    assert!(!buffer_fits(ScreencopyBuffer::Shm { argb8888: true, stride: 404, height: 50, len: 20200 }, size));
    assert!(!buffer_fits(ScreencopyBuffer::Shm { argb8888: true, stride: 400, height: 49, len: 19600 }, size));
    assert!(!buffer_fits(ScreencopyBuffer::Shm { argb8888: true, stride: 400, height: 50, len: 20001 }, size));
}

#[test]
fn dma_buffer_must_match_region() {
    let size = region().size;
    assert!(buffer_fits(ScreencopyBuffer::Dma { argb8888: true, width: 100, height: 50 }, size));
    assert!(!buffer_fits(ScreencopyBuffer::Dma { argb8888: true, width: 101, height: 50 }, size));
    assert!(!buffer_fits(ScreencopyBuffer::DmaUnreadable, size));
    assert!(!buffer_fits(ScreencopyBuffer::Other, size));
}

#[test]
fn frame_copies_once() {
    let mut frame = ScreencopyFrameState::Pending { region: region(), overlay_cursor: false, copied: false };
    let bad = ScreencopyBuffer::Other;
    let good = ScreencopyBuffer::Dma { argb8888: true, width: 100, height: 50 };
    assert_eq!(frame.copy(bad, false), CopyAnswer::InvalidBuffer);
    assert_eq!(frame.copy(good, true), CopyAnswer::Copy { with_damage: true });
    assert_eq!(frame, ScreencopyFrameState::Pending { region: region(), overlay_cursor: false, copied: true });
    assert_eq!(frame.copy(good, false), CopyAnswer::AlreadyUsed);
    let mut failed = ScreencopyFrameState::Failed;
    assert_eq!(failed.copy(good, false), CopyAnswer::Ignore);
}

#[test]
fn buffer_params_and_region_checks() {
    assert_eq!(shm_buffer_params(Size { w: 1920, h: 1080 }), (1920, 1080, 7680));
    assert!(region_has_size(1, 1));
    assert!(!region_has_size(0, 10));
    assert!(!region_has_size(10, -1));
}

#[test]
fn damage_is_sent_only_when_asked() {
    let damage = vec![Rectangle { loc: Point { x: 1, y: 2 }, size: Size { w: 3, h: 4 } }];
    assert_eq!(damage_events(true, &damage), vec![(1, 2, 3, 4)]);
    assert!(damage_events(false, &damage).is_empty());
}
