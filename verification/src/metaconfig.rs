//! The metaconfig: what the compositor needs to start a config (the command
//! to run, its environment, where to put the IPC socket, and two keybinds
//! hardcoded so that a broken config cannot lock the user in).
use vstd::prelude::*;

verus! {

/// A key a metaconfig keybind can name.
#[derive(Debug, Clone, Copy, PartialEq, Eq, Structural)]
pub enum Key {
    A,
    B,
    C,
    D,
    E,
    F,
    G,
    H,
    I,
    J,
    K,
    L,
    M,
    N,
    O,
    P,
    Q,
    R,
    S,
    T,
    U,
    V,
    W,
    X,
    Y,
    Z,
    Zero,
    One,
    Two,
    Three,
    Four,
    Five,
    Six,
    Seven,
    Eight,
    Nine,
    NumZero,
    NumOne,
    NumTwo,
    NumThree,
    NumFour,
    NumFive,
    NumSix,
    NumSeven,
    NumEight,
    NumNine,
    Escape,
}

/// The X keysym of a key.
pub open spec fn spec_keysym(key: Key) -> u32 {
    match key {
        Key::A => 0x61,
        Key::B => 0x62,
        Key::C => 0x63,
        Key::D => 0x64,
        Key::E => 0x65,
        Key::F => 0x66,
        Key::G => 0x67,
        Key::H => 0x68,
        Key::I => 0x69,
        Key::J => 0x6a,
        Key::K => 0x6b,
        Key::L => 0x6c,
        Key::M => 0x6d,
        Key::N => 0x6e,
        Key::O => 0x6f,
        Key::P => 0x70,
        Key::Q => 0x71,
        Key::R => 0x72,
        Key::S => 0x73,
        Key::T => 0x74,
        Key::U => 0x75,
        Key::V => 0x76,
        Key::W => 0x77,
        Key::X => 0x78,
        Key::Y => 0x79,
        Key::Z => 0x7a,
        Key::Zero => 0x30,
        Key::One => 0x31,
        Key::Two => 0x32,
        Key::Three => 0x33,
        Key::Four => 0x34,
        Key::Five => 0x35,
        Key::Six => 0x36,
        Key::Seven => 0x37,
        Key::Eight => 0x38,
        Key::Nine => 0x39,
        Key::NumZero => 0xffb0,
        Key::NumOne => 0xffb1,
        Key::NumTwo => 0xffb2,
        Key::NumThree => 0xffb3,
        Key::NumFour => 0xffb4,
        Key::NumFive => 0xffb5,
        Key::NumSix => 0xffb6,
        Key::NumSeven => 0xffb7,
        Key::NumEight => 0xffb8,
        Key::NumNine => 0xffb9,
        Key::Escape => 0xff1b,
    }
}

impl Key {
    /// The X keysym of this key.
    pub fn keysym(&self) -> (r: u32)
        ensures
            r == spec_keysym(*self),
    {
        match self {
            Key::A => 0x61,
            Key::B => 0x62,
            Key::C => 0x63,
            Key::D => 0x64,
            Key::E => 0x65,
            Key::F => 0x66,
            Key::G => 0x67,
            Key::H => 0x68,
            Key::I => 0x69,
            Key::J => 0x6a,
            Key::K => 0x6b,
            Key::L => 0x6c,
            Key::M => 0x6d,
            Key::N => 0x6e,
            Key::O => 0x6f,
            Key::P => 0x70,
            Key::Q => 0x71,
            Key::R => 0x72,
            Key::S => 0x73,
            Key::T => 0x74,
            Key::U => 0x75,
            Key::V => 0x76,
            Key::W => 0x77,
            Key::X => 0x78,
            Key::Y => 0x79,
            Key::Z => 0x7a,
            Key::Zero => 0x30,
            Key::One => 0x31,
            Key::Two => 0x32,
            Key::Three => 0x33,
            Key::Four => 0x34,
            Key::Five => 0x35,
            Key::Six => 0x36,
            Key::Seven => 0x37,
            Key::Eight => 0x38,
            Key::Nine => 0x39,
            Key::NumZero => 0xffb0,
            Key::NumOne => 0xffb1,
            Key::NumTwo => 0xffb2,
            Key::NumThree => 0xffb3,
            Key::NumFour => 0xffb4,
            Key::NumFive => 0xffb5,
            Key::NumSix => 0xffb6,
            Key::NumSeven => 0xffb7,
            Key::NumEight => 0xffb8,
            Key::NumNine => 0xffb9,
            Key::Escape => 0xff1b,
        }
    }
}

/// A modifier a metaconfig keybind can hold.
#[derive(Debug, Clone, Copy, PartialEq, Eq, Structural)]
pub enum Modifier {
    Shift,
    Ctrl,
    Alt,
    Super,
}

/// A keybind of the metaconfig: the modifiers to hold and the key.
#[derive(Debug)]
pub struct Keybind {
    pub modifiers: Vec<Modifier>,
    pub key: Key,
}

/// The metaconfig.
#[derive(Debug)]
pub struct Metaconfig {
    /// The program and arguments that start the config.
    pub command: Vec<String>,
    /// Environment variables the config is started with.
    pub envs: Vec<(String, String)>,
    /// Restarts the config.
    pub reload_keybind: Keybind,
    /// Quits the compositor.
    pub kill_keybind: Keybind,
    /// Where the IPC socket goes, if not in the runtime directory.
    pub socket_dir: Option<String>,
}

} // verus!
