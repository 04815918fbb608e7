//! What the plot is set up with: the grid, the scale of each channel, the colours and
//! the size of the window.

use crate::rational::Rational;
use vstd::prelude::*;

verus! {

/// A colour as it is written down: red, green and blue from 0 to 255, and an opacity
/// from zero to one where it is not one.
pub struct Color {
    pub rgb: [u8; 3],
    pub opacity: Option<Rational>,
}

/// The colours of the plot.
pub struct ColorScheme {
    pub background: Color,
    pub labels: Color,
    pub grid: Color,
    pub fit: Color,
    pub channel: Vec<Color>,
}

/// The time axis measured in milliseconds.
#[derive(Clone, Copy, Debug, PartialEq, Eq, Structural)]
pub struct X {
    pub divisions: u32,
    pub milliseconds_per_division: u32,
}

/// The time axis: the number of divisions across the plot, the ticks of time in one
/// division, and the ticks of time in one second.
pub struct Time {
    pub divisions: u32,
    pub ticks_per_division: u32,
    pub ticks_per_second: u32,
    pub label: String,
}

/// The data axis: the number of divisions up the plot, and how many divisions above the
/// middle of the plot the value zero is drawn.
pub struct Data {
    pub divisions: u32,
    pub zero_shift: Rational,
    pub label: String,
}

/// The grid of the plot.
pub struct Grid {
    pub label: String,
    pub time: Time,
    pub data: Data,
}

/// The scale of one channel: the raw value that stands for zero, and the raw units in
/// one division.
#[derive(Clone, Copy, Debug, PartialEq, Eq, Structural)]
pub struct Y {
    pub raw_offset: i64,
    pub raw_per_division: i64,
}

/// The grid and the scale of each channel.
pub struct DataConfig {
    pub grid: Grid,
    pub y: Vec<Y>,
}

/// What the program is started with, where the samples come from a serial port.
pub struct Options {
    pub data_config: String,
    pub color_scheme: String,
    pub serial_port: String,
    pub width: u32,
    pub height: u32,
}

/// What the program is started with.
pub struct Settings {
    pub data_config: String,
    pub color_scheme: String,
    pub width: u32,
    pub height: u32,
    pub padding: u32,
}

/// Why a configuration cannot be used.
#[derive(Clone, Copy, Debug, PartialEq, Eq, Structural)]
pub enum ConfigError {
    /// The colour scheme has fewer channel colours than there are channels.
    ConfigMismatch,
    /// An axis has no divisions, a division of time has no ticks, or a division of a
    /// channel has no raw units.
    EmptyScale,
}

impl DataConfig {
    /// Whether every scale of the configuration can be divided by.
    pub open spec fn scales_usable(&self) -> bool {
        &&& self.grid.time.divisions > 0
        &&& self.grid.time.ticks_per_division > 0
        &&& self.grid.data.divisions > 0
        &&& forall|i: int| 0 <= i < self.y@.len() ==> (#[trigger] self.y@[i]).raw_per_division != 0
    }

    /// Checks the configuration against a number of channel colours.
    pub fn validate(&self, channel_colors: usize) -> (r: Result<(), ConfigError>)
        ensures
            r is Ok <==> self.scales_usable() && self.y@.len() <= channel_colors,
            r == Err::<(), ConfigError>(ConfigError::EmptyScale) <==> !self.scales_usable(),
    {
        if self.grid.time.divisions == 0 || self.grid.time.ticks_per_division == 0
            || self.grid.data.divisions == 0 {
            return Err(ConfigError::EmptyScale);
        }
        let mut i: usize = 0;
        while i < self.y.len()
            invariant
                i <= self.y@.len(),
                forall|k: int| 0 <= k < i ==> (#[trigger] self.y@[k]).raw_per_division != 0,
            decreases self.y.len() - i,
        {
            if self.y[i].raw_per_division == 0 {
                return Err(ConfigError::EmptyScale);
            }
            i += 1;
        }
        if self.y.len() > channel_colors {
            return Err(ConfigError::ConfigMismatch);
        }
        Ok(())
    }
}

} // verus!
