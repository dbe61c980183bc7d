use vstd::prelude::*;

verus! {

/// A drawing color slot of the console's four-color palette. The first slot
/// draws nothing.
#[derive(Clone, Copy, Debug, PartialEq, Eq, Structural)]
pub enum DrawColor {
    Transparent,
    One,
    Two,
    Three,
    Four,
}

/// A sprite in the console's two-bit-per-pixel format, borrowing its pixel
/// data.
#[derive(Clone, Copy, Debug)]
pub struct TwoBppSprite<'s> {
    pub data: &'s [u8],
    pub width: u32,
    pub height: u32,
}

impl<'s> TwoBppSprite<'s> {
    /// Wrap pixel data of a given size; the data must hold at least two bits
    /// for every pixel.
    pub fn new(data: &'s [u8], width: u32, height: u32) -> (r: Self)
        requires
            data@.len() * 4 >= width * height,
            data@.len() * 4 <= u32::MAX,
        ensures
            r.data == data,
            r.width == width,
            r.height == height,
    {
        Self { data, width, height }
    }
}

/// One gamepad's buttons, a bit per button.
#[derive(Clone, Copy, Debug, PartialEq, Eq, Structural)]
pub struct GamepadState(pub u8);

impl Default for GamepadState {
    /// No button pressed.
    fn default() -> (r: Self)
        ensures
            r == GamepadState(0u8),
    {
        GamepadState(0)
    }
}

impl GamepadState {
    pub fn button_x(&self) -> (r: bool)
        ensures
            r == (self.0 & 0x01u8 != 0),
    {
        (self.0 & 0x01u8) != 0
    }

    pub fn button_z(&self) -> (r: bool)
        ensures
            r == (self.0 & 0x02u8 != 0),
    {
        (self.0 & 0x02u8) != 0
    }

    pub fn left(&self) -> (r: bool)
        ensures
            r == (self.0 & 0x10u8 != 0),
    {
        (self.0 & 0x10u8) != 0
    }

    pub fn right(&self) -> (r: bool)
        ensures
            r == (self.0 & 0x20u8 != 0),
    {
        (self.0 & 0x20u8) != 0
    }

    pub fn up(&self) -> (r: bool)
        ensures
            r == (self.0 & 0x40u8 != 0),
    {
        (self.0 & 0x40u8) != 0
    }

    pub fn down(&self) -> (r: bool)
        ensures
            r == (self.0 & 0x80u8 != 0),
    {
        (self.0 & 0x80u8) != 0
    }

    /// The buttons pressed now that were not pressed in `prev`.
    pub fn newly_pressed(&self, prev: GamepadState) -> (r: GamepadState)
        ensures
            r.0 == self.0 & !prev.0,
    {
        GamepadState(self.0 & !prev.0)
    }
}

/// A sound channel of the console.
#[derive(Clone, Copy, Debug, PartialEq, Eq, Structural)]
pub enum Channel {
    PulseOne,
    PulseTwo,
    Triangle,
    Noise,
}

/// A tone request: a frequency sweep and an envelope on one channel.
#[derive(Clone, Copy, Debug)]
pub struct Tone {
    pub start_freq: u16,
    pub end_freq: u16,
    pub attack: u16,
    pub decay: u16,
    pub sustain: u16,
    pub release: u16,
    pub channel: Channel,
}

} // verus!
