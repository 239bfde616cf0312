//! Verified core logic of the Pinnacle Wayland compositor: tags and outputs,
//! key, mouse and gesture bindings, layout trees (neighbors, the order in which
//! tiles take windows, window placement), the state machines of the Wayland
//! protocols it serves (output management and power, screencopy, image copy
//! capture, gamma control, decorations, workspaces, foreign toplevels), input
//! decisions, and process spawning decisions.
use vstd::prelude::*;

pub mod bind;
pub mod capture_globals;
pub mod decoration;
pub mod ext_workspace;
pub mod foreign_toplevel;
pub mod gamma_control;
pub mod geometry;
pub mod image_copy_capture;
pub mod input;
pub mod keyed;
pub mod libinput;
pub mod metaconfig;
pub mod layout;
pub mod output;
pub mod output_management;
pub mod output_power_management;
pub mod process;
pub mod render;
pub mod screencopy;
pub mod snowcap_decoration;
pub mod state;
pub mod tag;
pub mod xdg_activation;

verus! {

} // verus!
