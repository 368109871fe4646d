use vstd::prelude::*;

verus! {

/// Everything that can go wrong while framing a request or reading back a response.
#[derive(Clone, Copy, Debug, PartialEq, Eq, Structural)]
pub enum Error {
    /// The batch does not fit in one report.
    PacketTooLong,
    /// A value cannot be written to the register it is paired with.
    UnencodableValue,
    /// The batch would need a command id above 255.
    CommandIdOverflow,
    /// The response carries another command id than the one that was sent.
    BadCommandId { expected: u8, found: u8 },
    /// The response ends before every command has been accounted for.
    ResponseTooShort,
    /// A product name without a terminating NUL byte.
    NoNulByte,
    /// A product name that is not valid UTF-8.
    InvalidUtf8,
    /// An LED mode byte whose high nibble names no mode.
    InvalidLedMode,
    /// A temperature channel that is neither the internal sensor nor manual.
    InvalidTempChannel,
    /// The LED mode has no cycle speed.
    NoCycleSpeed,
    /// The LED mode has no temperature channel.
    NoTempChannel,
    /// The LED index is beyond the device's LED count.
    InvalidLed,
}

} // verus!
