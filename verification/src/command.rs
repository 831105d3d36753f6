//! The controller commands that a refresh is made of.
use vstd::prelude::*;

verus! {

/// One of the two controllers of a cascaded panel.
#[derive(Debug, Clone, Copy, PartialEq, Eq, Structural)]
pub enum Chip {
    /// The controller behind the left half of the frame buffer.
    Master,
    /// The controller behind the right half of the frame buffer.
    Slave,
}

/// Direction in which the RAM address counters move.
#[derive(Debug, Clone, Copy, PartialEq, Eq, Structural)]
pub enum DataEntryMode {
    /// X and Y both count up.
    IncrementYIncrementX,
    /// X counts down, Y counts up.
    DecrementXIncrementY,
}

/// Axis along which the address counter moves first.
#[derive(Debug, Clone, Copy, PartialEq, Eq, Structural)]
pub enum IncrementAxis {
    Horizontal,
}

/// What the controller keeps while it sleeps.
#[derive(Debug, Clone, Copy, PartialEq, Eq, Structural)]
pub enum DeepSleepMode {
    PreserveRAM,
    DiscardRAM,
}

/// A controller command with its parameters.
#[derive(Debug, Clone, Copy, PartialEq, Eq, Structural)]
pub enum Command {
    SoftReset,
    /// Gate lines and scan configuration.
    DriverOutputControl(u16, u8),
    DisplayUpdateControl1(u16),
    DisplayUpdateControl2(u8),
    MasterActivation,
    BorderWaveform(u8),
    DataEntryMode(DataEntryMode, IncrementAxis),
    /// First and last RAM byte column of the window.
    StartEndXPosition(u8, u8),
    /// First and last RAM row of the window.
    StartEndYPosition(u16, u16),
    /// Byte column at which the next data byte is stored.
    XAddress(u8),
    /// Row at which the next data byte is stored.
    YAddress(u16),
    WriteRamBW,
    WriteRamRed,
    ReadTemperatureSensor(u8),
    WriteTemperatureSensor(u8),
    WriteTemperatureRegister(u8, u8),
    DeepSleepMode(DeepSleepMode),
}

} // verus!
