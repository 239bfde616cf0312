//! Input devices: what kind of device a libinput device is taken for.
use vstd::prelude::*;

verus! {

/// The kind of an input device.
///
/// A device can have several capabilities at once (some have both the
/// pointer and the keyboard capability); it is given the first kind that
/// fits, in the order `device_type` checks them.
#[derive(Debug, Clone, Copy, PartialEq, Eq, Structural)]
pub enum DeviceType {
    Unknown,
    Touchpad,
    Trackball,
    Trackpoint,
    Mouse,
    Tablet,
    Keyboard,
    Switch,
}

/// What is known of a device: its tap finger count, the udev properties
/// that mark trackballs and pointing sticks, and its capabilities.
#[derive(Debug, Clone, Copy, PartialEq, Eq, Structural)]
pub struct DeviceTraits {
    pub tap_finger_count: u32,
    pub trackball: bool,
    pub trackpoint: bool,
    pub pointer: bool,
    pub tablet_tool: bool,
    pub switch: bool,
    pub keyboard: bool,
}

/// The kind of a device: a pointer that is neither a trackball, a
/// trackpoint nor a touchpad is a mouse; otherwise a device with tap fingers
/// is a touchpad, then trackball, trackpoint, tablet, switch and keyboard are
/// tried in turn.
pub open spec fn spec_device_type(d: DeviceTraits) -> DeviceType {
    let is_touchpad = d.tap_finger_count > 0;
    if d.pointer && !d.trackball && !d.trackpoint && !is_touchpad {
        DeviceType::Mouse
    } else if is_touchpad {
        DeviceType::Touchpad
    } else if d.trackball {
        DeviceType::Trackball
    } else if d.trackpoint {
        DeviceType::Trackpoint
    } else if d.tablet_tool {
        DeviceType::Tablet
    } else if d.switch {
        DeviceType::Switch
    } else if d.keyboard {
        DeviceType::Keyboard
    } else {
        DeviceType::Unknown
    }
}

/// Classifies a device.
pub fn device_type(device: &DeviceTraits) -> (r: DeviceType)
    ensures
        r == spec_device_type(*device),
{
    let is_touchpad = device.tap_finger_count > 0;
    if device.pointer && !device.trackball && !device.trackpoint && !is_touchpad {
        DeviceType::Mouse
    } else if is_touchpad {
        DeviceType::Touchpad
    } else if device.trackball {
        DeviceType::Trackball
    } else if device.trackpoint {
        DeviceType::Trackpoint
    } else if device.tablet_tool {
        DeviceType::Tablet
    } else if device.switch {
        DeviceType::Switch
    } else if device.keyboard {
        DeviceType::Keyboard
    } else {
        DeviceType::Unknown
    }
}

} // verus!
