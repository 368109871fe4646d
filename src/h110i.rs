//! The Corsair H110i liquid cooler: its registers, the values they hold, and
//! the session state that a host keeps for it.

use vstd::prelude::*;
use vstd::utf8::*;
use byteorder::{ByteOrder, LittleEndian};
use crate::errors::Error;
use crate::protocol;
use crate::protocol::{Command, TxPacket, FIRST_COMMAND_ID};

verus! {

pub const VENDOR_ID: u16 = 0x1b1c;

pub const PRODUCT_ID: u16 = 0x0c04;

/// Relies on byteorder's `LittleEndian::read_u16`: the first two bytes of
/// `buf`, low byte first. It panics on fewer than two bytes.
#[verifier::external_body]
fn read_u16_le(buf: &[u8]) -> (r: u16)
    requires
        buf@.len() >= 2,
    ensures
        r as int == buf@[0] as int + 256 * buf@[1] as int,
{
    LittleEndian::read_u16(buf)
}

/// Relies on `String::from_utf8`: the bytes become a string exactly when they
/// are valid UTF-8, and the string holds the characters they encode.
#[verifier::external_body]
fn string_from_utf8(bytes: Vec<u8>) -> (r: Option<String>)
    ensures
        valid_utf8(bytes@) ==> r is Some && r->0@ == decode_utf8(bytes@),
        !valid_utf8(bytes@) ==> r is None,
{
    String::from_utf8(bytes).ok()
}

/// Bytes below 0x80 are valid UTF-8.
pub proof fn lemma_ascii_valid_utf8(bytes: Seq<u8>)
    requires
        forall|i: int| 0 <= i < bytes.len() ==> bytes[i] <= 0x7f,
    ensures
        valid_utf8(bytes),
    decreases bytes.len(),
{
    if bytes.len() > 0 {
        let b = bytes[0];
        assert(b & 0x7f <= 0x7f) by (bit_vector);
        assert(valid_first_scalar(bytes));
        let rest = pop_first_scalar(bytes);
        assert(rest =~= bytes.subrange(1, bytes.len() as int));
        lemma_ascii_valid_utf8(rest);
    }
}

/// A temperature as the sensor reports it, in 1/256 degrees Celsius.
#[derive(Clone, Copy, Debug, PartialEq, Eq, Structural)]
pub struct Temperature(pub u16);

impl From<Temperature> for u16 {
    fn from(t: Temperature) -> (r: u16)
        ensures
            r == t.0,
    {
        t.0
    }
}

impl vstd::std_specs::convert::FromSpecImpl<Temperature> for u16 {
    open spec fn obeys_from_spec() -> bool {
        true
    }

    open spec fn from_spec(t: Temperature) -> u16 {
        t.0
    }
}

/// The cooler's registers.
#[derive(Clone, Copy, Debug, PartialEq, Eq, Structural)]
pub enum Register {
    DeviceId,
    FirmwareVersion,
    ProductName,
    Status,
    LedSelect,
    LedCount,
    LedMode,
    LedColor,
    LedCycleColors,
    TempSensorSelect,
    TempSensorCount,
    TempSensorValue,
    TempSensorLimit,
    FanSelect,
    FanCount,
    FanRPM,
}

impl protocol::Register for Register {
    open spec fn spec_wire_id(&self) -> u8 {
        match *self {
            Register::DeviceId => 0x00,
            Register::FirmwareVersion => 0x01,
            Register::ProductName => 0x02,
            Register::Status => 0x03,
            Register::LedSelect => 0x04,
            Register::LedCount => 0x05,
            Register::LedMode => 0x06,
            Register::LedColor => 0x07,
            Register::LedCycleColors => 0x0b,
            Register::TempSensorSelect => 0x0c,
            Register::TempSensorCount => 0x0d,
            Register::TempSensorValue => 0x0e,
            Register::TempSensorLimit => 0x0f,
            Register::FanSelect => 0x10,
            Register::FanCount => 0x11,
            Register::FanRPM => 0x16,
        }
    }

    open spec fn spec_size(&self) -> nat {
        match *self {
            Register::DeviceId => 1,
            Register::FirmwareVersion => 2,
            Register::ProductName => 8,
            Register::Status => 1,
            Register::LedSelect => 1,
            Register::LedCount => 1,
            Register::LedMode => 1,
            Register::LedColor => 3,
            Register::LedCycleColors => 12,
            Register::TempSensorSelect => 1,
            Register::TempSensorCount => 1,
            Register::TempSensorValue => 2,
            Register::TempSensorLimit => 2,
            Register::FanSelect => 1,
            Register::FanCount => 1,
            Register::FanRPM => 2,
        }
    }

    fn wire_id(&self) -> (r: u8) {
        match self {
            Register::DeviceId => 0x00,
            Register::FirmwareVersion => 0x01,
            Register::ProductName => 0x02,
            Register::Status => 0x03,
            Register::LedSelect => 0x04,
            Register::LedCount => 0x05,
            Register::LedMode => 0x06,
            Register::LedColor => 0x07,
            Register::LedCycleColors => 0x0b,
            Register::TempSensorSelect => 0x0c,
            Register::TempSensorCount => 0x0d,
            Register::TempSensorValue => 0x0e,
            Register::TempSensorLimit => 0x0f,
            Register::FanSelect => 0x10,
            Register::FanCount => 0x11,
            Register::FanRPM => 0x16,
        }
    }

    fn size(&self) -> (r: usize) {
        match self {
            Register::DeviceId => 1,
            Register::FirmwareVersion => 2,
            Register::ProductName => 8,
            Register::Status => 1,
            Register::LedSelect => 1,
            Register::LedCount => 1,
            Register::LedMode => 1,
            Register::LedColor => 3,
            Register::LedCycleColors => 12,
            Register::TempSensorSelect => 1,
            Register::TempSensorCount => 1,
            Register::TempSensorValue => 2,
            Register::TempSensorLimit => 2,
            Register::FanSelect => 1,
            Register::FanCount => 1,
            Register::FanRPM => 2,
        }
    }
}

/// The temperature source that an LED in temperature mode follows.
#[derive(Clone, Copy, Debug, PartialEq, Eq, Structural)]
pub enum TempChannel {
    InternalSensor,
    Manual,
}

impl TempChannel {
    pub open spec fn spec_byte(self) -> u8 {
        match self {
            TempChannel::InternalSensor => 0x0,
            TempChannel::Manual => 0x7,
        }
    }

    pub open spec fn spec_decode(data: u8) -> Result<TempChannel, Error> {
        if data == 0x0 {
            Ok(TempChannel::InternalSensor)
        } else if data == 0x7 {
            Ok(TempChannel::Manual)
        } else {
            Err(Error::InvalidTempChannel)
        }
    }

    /// The channel's number: 0 for the internal sensor, 7 for manual.
    pub fn byte(self) -> (r: u8)
        ensures
            r == self.spec_byte(),
    {
        match self {
            TempChannel::InternalSensor => 0x0,
            TempChannel::Manual => 0x7,
        }
    }

    /// The channel numbered `data`.
    pub fn decode(data: u8) -> (r: Result<TempChannel, Error>)
        ensures
            r == Self::spec_decode(data),
    {
        match data {
            0x0 => Ok(TempChannel::InternalSensor),
            0x7 => Ok(TempChannel::Manual),
            _ => Err(Error::InvalidTempChannel),
        }
    }
}

/// How an LED lights: one color, cycling through two or four colors at a
/// speed, or following a temperature.
#[derive(Clone, Copy, Debug, PartialEq, Eq, Structural)]
pub enum LedMode {
    Static,
    TwoColorCycle(u8),
    FourColorCycle(u8),
    Temperature(TempChannel),
}

impl LedMode {
    /// The mode byte: the high nibble names the mode, the low nibble holds
    /// the speed or the channel.
    pub open spec fn spec_encode(self) -> u8 {
        match self {
            LedMode::Static => 0x00,
            LedMode::TwoColorCycle(speed) => 0x40 | (speed & 0x0f),
            LedMode::FourColorCycle(speed) => 0x80 | (speed & 0x0f),
            LedMode::Temperature(channel) => 0xc0 | channel.spec_byte(),
        }
    }

    pub open spec fn spec_decode(data: u8) -> Result<LedMode, Error> {
        let mode = data & 0xf0;
        let low = data & 0x0f;
        if mode == 0x00 {
            Ok(LedMode::Static)
        } else if mode == 0x40 {
            Ok(LedMode::TwoColorCycle(low))
        } else if mode == 0x80 {
            Ok(LedMode::FourColorCycle(low))
        } else if mode == 0xc0 {
            match TempChannel::spec_decode(low) {
                Ok(channel) => Ok(LedMode::Temperature(channel)),
                Err(e) => Err(e),
            }
        } else {
            Err(Error::InvalidLedMode)
        }
    }

    pub fn static_mode() -> (r: LedMode)
        ensures
            r == LedMode::Static,
    {
        LedMode::Static
    }

    pub fn two_color_cycle_mode(speed: u8) -> (r: LedMode)
        ensures
            r == LedMode::TwoColorCycle(speed),
    {
        LedMode::TwoColorCycle(speed)
    }

    pub fn four_color_cycle_mode(speed: u8) -> (r: LedMode)
        ensures
            r == LedMode::FourColorCycle(speed),
    {
        LedMode::FourColorCycle(speed)
    }

    pub fn temperature_mode(channel: TempChannel) -> (r: LedMode)
        ensures
            r == LedMode::Temperature(channel),
    {
        LedMode::Temperature(channel)
    }

    /// The mode a mode byte stands for.
    pub fn decode(data: u8) -> (r: Result<LedMode, Error>)
        ensures
            r == Self::spec_decode(data),
    {
        let mode = data & 0xf0;
        let low = data & 0x0f;
        if mode == 0x00 {
            Ok(LedMode::Static)
        } else if mode == 0x40 {
            Ok(LedMode::TwoColorCycle(low))
        } else if mode == 0x80 {
            Ok(LedMode::FourColorCycle(low))
        } else if mode == 0xc0 {
            match TempChannel::decode(low) {
                Ok(channel) => Ok(LedMode::Temperature(channel)),
                Err(e) => Err(e),
            }
        } else {
            Err(Error::InvalidLedMode)
        }
    }

    /// The mode byte; a speed keeps only its low four bits.
    pub fn encode(&self) -> (r: u8)
        ensures
            r == self.spec_encode(),
    {
        match self {
            LedMode::Static => 0x00,
            LedMode::TwoColorCycle(speed) => 0x40 | (*speed & 0x0f),
            LedMode::FourColorCycle(speed) => 0x80 | (*speed & 0x0f),
            LedMode::Temperature(channel) => 0xc0 | channel.byte(),
        }
    }

    /// The speed of a cycling mode.
    pub fn cycle_speed(&self) -> (r: Result<u8, Error>)
        ensures
            r == match *self {
                LedMode::TwoColorCycle(speed) => Ok(speed),
                LedMode::FourColorCycle(speed) => Ok(speed),
                _ => Err::<u8, Error>(Error::NoCycleSpeed),
            },
    {
        match self {
            LedMode::TwoColorCycle(speed) => Ok(*speed),
            LedMode::FourColorCycle(speed) => Ok(*speed),
            _ => Err(Error::NoCycleSpeed),
        }
    }

    /// The channel of a temperature mode.
    pub fn temp_channel(&self) -> (r: Result<TempChannel, Error>)
        ensures
            r == match *self {
                LedMode::Temperature(channel) => Ok(channel),
                _ => Err::<TempChannel, Error>(Error::NoTempChannel),
            },
    {
        match self {
            LedMode::Temperature(channel) => Ok(*channel),
            _ => Err(Error::NoTempChannel),
        }
    }
}

/// A color, as red, green and blue intensities.
#[derive(Clone, Copy, Debug, PartialEq, Eq, Structural)]
pub struct RgbColor(pub u8, pub u8, pub u8);

/// Counts command ids on by `i` for the next exchange, starting over from the
/// first id where the count would pass 255.
pub fn increment_command_id(command_id: u8, i: u8) -> (r: u8)
    ensures
        command_id as int + i as int > 255 ==> r == FIRST_COMMAND_ID,
        command_id as int + i as int <= 255 ==> r == command_id + i,
{
    if command_id as u64 + i as u64 > 255 {
        FIRST_COMMAND_ID
    } else {
        command_id + i
    }
}

/// The ASCII hex digit for `n` below 16, in lower case.
pub open spec fn hex_digit(n: u8) -> u8 {
    if n < 10 {
        (0x30 + n) as u8
    } else {
        (0x57 + n) as u8
    }
}

/// The firmware version as ASCII text: the high byte's two nibbles and the
/// low byte in two hex digits, dot-separated, as in `1.2.0a`.
pub open spec fn firmware_version_bytes(lb: u8, hb: u8) -> Seq<u8> {
    seq![
        hex_digit((hb & 0xf0) >> 4),
        0x2e,
        hex_digit(hb & 0x0f),
        0x2e,
        hex_digit(lb >> 4),
        hex_digit(lb & 0x0f),
    ]
}

/// Whether `n` is the position of the first NUL byte of `data`.
pub open spec fn is_first_nul(data: Seq<u8>, n: int) -> bool {
    &&& 0 <= n < data.len()
    &&& data[n] == 0
    &&& forall|j: int| 0 <= j < n ==> data[j] != 0
}

/// A product name: the UTF-8 text before the first NUL byte.
pub open spec fn spec_product_name(data: Seq<u8>) -> Result<Seq<char>, Error> {
    if exists|n: int| is_first_nul(data, n) {
        let n = choose|n: int| is_first_nul(data, n);
        if valid_utf8(data.take(n)) {
            Ok(decode_utf8(data.take(n)))
        } else {
            Err(Error::InvalidUtf8)
        }
    } else {
        Err(Error::NoNulByte)
    }
}

/// The twelve bytes of four colors, red, green and blue of each in turn.
pub open spec fn cycle_color_bytes(c: Seq<RgbColor>) -> Seq<u8> {
    seq![c[0].0, c[0].1, c[0].2, c[1].0, c[1].1, c[1].2, c[2].0, c[2].1, c[2].2, c[3].0, c[3].1, c[3].2]
}

/// The contents of one register.
#[derive(Clone, Debug, PartialEq, Eq)]
pub enum RegisterValue {
    DeviceId(u8),
    FirmwareVersion(String),
    ProductName(String),
    Status(u8),
    LedSelect(u8),
    LedCount(u8),
    LedMode(LedMode),
    LedColor(RgbColor),
    LedCycleColors([RgbColor; 4]),
    TempSensorSelect(u8),
    TempSensorCount(u8),
    TempSensorValue(u8, u8),
    TempSensorLimit(u8, u8),
    FanSelect(u8),
    FanCount(u8),
    FanRPM(u16),
}

/// A register's contents with its text as characters.
pub enum RegisterValueView {
    DeviceId(u8),
    FirmwareVersion(Seq<char>),
    ProductName(Seq<char>),
    Status(u8),
    LedSelect(u8),
    LedCount(u8),
    LedMode(LedMode),
    LedColor(RgbColor),
    LedCycleColors(Seq<RgbColor>),
    TempSensorSelect(u8),
    TempSensorCount(u8),
    TempSensorValue(u8, u8),
    TempSensorLimit(u8, u8),
    FanSelect(u8),
    FanCount(u8),
    FanRPM(u16),
}

impl View for RegisterValue {
    type V = RegisterValueView;

    open spec fn view(&self) -> RegisterValueView {
        match self {
            RegisterValue::DeviceId(x) => RegisterValueView::DeviceId(*x),
            RegisterValue::FirmwareVersion(s) => RegisterValueView::FirmwareVersion(s@),
            RegisterValue::ProductName(s) => RegisterValueView::ProductName(s@),
            RegisterValue::Status(x) => RegisterValueView::Status(*x),
            RegisterValue::LedSelect(x) => RegisterValueView::LedSelect(*x),
            RegisterValue::LedCount(x) => RegisterValueView::LedCount(*x),
            RegisterValue::LedMode(m) => RegisterValueView::LedMode(*m),
            RegisterValue::LedColor(c) => RegisterValueView::LedColor(*c),
            RegisterValue::LedCycleColors(c) => RegisterValueView::LedCycleColors(c@),
            RegisterValue::TempSensorSelect(x) => RegisterValueView::TempSensorSelect(*x),
            RegisterValue::TempSensorCount(x) => RegisterValueView::TempSensorCount(*x),
            RegisterValue::TempSensorValue(a, b) => RegisterValueView::TempSensorValue(*a, *b),
            RegisterValue::TempSensorLimit(a, b) => RegisterValueView::TempSensorLimit(*a, *b),
            RegisterValue::FanSelect(x) => RegisterValueView::FanSelect(*x),
            RegisterValue::FanCount(x) => RegisterValueView::FanCount(*x),
            RegisterValue::FanRPM(x) => RegisterValueView::FanRPM(*x),
        }
    }
}

fn hex_digit_byte(n: u8) -> (r: u8)
    requires
        n < 16,
    ensures
        r == hex_digit(n),
{
    if n < 10 {
        0x30 + n
    } else {
        0x57 + n
    }
}

impl RegisterValue {
    /// The firmware version in text, from the register's low and high byte.
    pub fn decode_firmware_version(lb: u8, hb: u8) -> (r: String)
        ensures
            r@ == decode_utf8(firmware_version_bytes(lb, hb)),
    {
        let major = (hb & 0xf0) >> 4;
        let minor = hb & 0x0f;
        let high = lb >> 4;
        let low = lb & 0x0f;
        assert(((hb & 0xf0) >> 4) < 16 && (hb & 0x0f) < 16 && (lb >> 4) < 16 && (lb & 0x0f) < 16) by (bit_vector);
        let bytes = vec![
            hex_digit_byte(major),
            0x2e,
            hex_digit_byte(minor),
            0x2e,
            hex_digit_byte(high),
            hex_digit_byte(low),
        ];
        assert(bytes@ =~= firmware_version_bytes(lb, hb));
        proof {
            lemma_ascii_valid_utf8(bytes@);
        }
        match string_from_utf8(bytes) {
            Some(s) => s,
            None => String::new(),
        }
    }

    /// A product name from the register's bytes: the text before the first NUL.
    fn decode_product_name(data: &[u8]) -> (r: Result<String, Error>)
        ensures
            match spec_product_name(data@) {
                Ok(s) => r is Ok && r->Ok_0@ == s,
                Err(e) => r is Err && r->Err_0 == e,
            },
    {
        let mut n: usize = 0;
        while n < data.len() && data[n] != 0
            invariant
                n <= data@.len(),
                forall|j: int| 0 <= j < n ==> data@[j] != 0,
            decreases data@.len() - n,
        {
            n += 1;
        }
        if n == data.len() {
            assert forall|m: int| !is_first_nul(data@, m) by {
                if 0 <= m < data@.len() {
                    assert(data@[m] != 0);
                }
            }
            return Err(Error::NoNulByte);
        }
        assert(is_first_nul(data@, n as int));
        proof {
            let m = choose|m: int| is_first_nul(data@, m);
            if m < n {
                assert(data@[m] != 0);
            } else if m > n {
                assert(data@[n as int] != 0);
            }
            assert(m == n);
        }
        let mut name: Vec<u8> = Vec::new();
        let mut i: usize = 0;
        while i < n
            invariant
                i <= n <= data@.len(),
                name@ == data@.take(i as int),
            decreases n - i,
        {
            name.push(data[i]);
            i += 1;
            assert(name@ =~= data@.take(i as int));
        }
        match string_from_utf8(name) {
            Some(s) => Ok(s),
            None => Err(Error::InvalidUtf8),
        }
    }
}

impl protocol::Value<Register> for RegisterValue {
    open spec fn spec_encoding(&self) -> Option<Seq<u8>> {
        match self {
            RegisterValue::LedSelect(led) => Some(seq![*led]),
            RegisterValue::LedMode(mode) => Some(seq![mode.spec_encode()]),
            RegisterValue::LedCycleColors(colors) => Some(cycle_color_bytes(colors@)),
            RegisterValue::TempSensorSelect(sensor) => Some(seq![*sensor]),
            RegisterValue::TempSensorLimit(lb, hb) => Some(seq![*lb, *hb]),
            RegisterValue::FanSelect(fan) => Some(seq![*fan]),
            _ => None,
        }
    }

    open spec fn spec_decode(register: Register, data: Seq<u8>) -> Result<RegisterValueView, Error> {
        match register {
            Register::DeviceId => Ok(RegisterValueView::DeviceId(data[0])),
            Register::FirmwareVersion => Ok(
                RegisterValueView::FirmwareVersion(decode_utf8(firmware_version_bytes(data[0], data[1]))),
            ),
            Register::ProductName => match spec_product_name(data) {
                Ok(s) => Ok(RegisterValueView::ProductName(s)),
                Err(e) => Err(e),
            },
            Register::Status => Ok(RegisterValueView::Status(data[0])),
            Register::LedSelect => Ok(RegisterValueView::LedSelect(data[0])),
            Register::LedCount => Ok(RegisterValueView::LedCount(data[0])),
            Register::LedMode => match LedMode::spec_decode(data[0]) {
                Ok(m) => Ok(RegisterValueView::LedMode(m)),
                Err(e) => Err(e),
            },
            Register::LedColor => Ok(RegisterValueView::LedColor(RgbColor(data[0], data[1], data[2]))),
            Register::LedCycleColors => Ok(
                RegisterValueView::LedCycleColors(
                    seq![
                        RgbColor(data[0], data[1], data[2]),
                        RgbColor(data[3], data[4], data[5]),
                        RgbColor(data[6], data[7], data[8]),
                        RgbColor(data[9], data[10], data[11]),
                    ],
                ),
            ),
            Register::TempSensorSelect => Ok(RegisterValueView::TempSensorSelect(data[0])),
            Register::TempSensorCount => Ok(RegisterValueView::TempSensorCount(data[0])),
            Register::TempSensorValue => Ok(RegisterValueView::TempSensorValue(data[0], data[1])),
            Register::TempSensorLimit => Ok(RegisterValueView::TempSensorLimit(data[0], data[1])),
            Register::FanSelect => Ok(RegisterValueView::FanSelect(data[0])),
            Register::FanCount => Ok(RegisterValueView::FanCount(data[0])),
            Register::FanRPM => Ok(RegisterValueView::FanRPM((data[0] + 256 * data[1]) as u16)),
        }
    }

    fn decode(register: Register, data: &[u8]) -> (r: Result<RegisterValue, Error>) {
        match register {
            Register::DeviceId => Ok(RegisterValue::DeviceId(data[0])),
            Register::FirmwareVersion => Ok(
                RegisterValue::FirmwareVersion(RegisterValue::decode_firmware_version(data[0], data[1])),
            ),
            Register::ProductName => match RegisterValue::decode_product_name(data) {
                Ok(s) => Ok(RegisterValue::ProductName(s)),
                Err(e) => Err(e),
            },
            Register::Status => Ok(RegisterValue::Status(data[0])),
            Register::LedSelect => Ok(RegisterValue::LedSelect(data[0])),
            Register::LedCount => Ok(RegisterValue::LedCount(data[0])),
            Register::LedMode => match LedMode::decode(data[0]) {
                Ok(m) => Ok(RegisterValue::LedMode(m)),
                Err(e) => Err(e),
            },
            Register::LedColor => Ok(RegisterValue::LedColor(RgbColor(data[0], data[1], data[2]))),
            Register::LedCycleColors => {
                let colors = [
                    RgbColor(data[0], data[1], data[2]),
                    RgbColor(data[3], data[4], data[5]),
                    RgbColor(data[6], data[7], data[8]),
                    RgbColor(data[9], data[10], data[11]),
                ];
                assert(colors@ =~= seq![
                    RgbColor(data@[0], data@[1], data@[2]),
                    RgbColor(data@[3], data@[4], data@[5]),
                    RgbColor(data@[6], data@[7], data@[8]),
                    RgbColor(data@[9], data@[10], data@[11]),
                ]);
                Ok(RegisterValue::LedCycleColors(colors))
            },
            Register::TempSensorSelect => Ok(RegisterValue::TempSensorSelect(data[0])),
            Register::TempSensorCount => Ok(RegisterValue::TempSensorCount(data[0])),
            Register::TempSensorValue => Ok(RegisterValue::TempSensorValue(data[0], data[1])),
            Register::TempSensorLimit => Ok(RegisterValue::TempSensorLimit(data[0], data[1])),
            Register::FanSelect => Ok(RegisterValue::FanSelect(data[0])),
            Register::FanCount => Ok(RegisterValue::FanCount(data[0])),
            Register::FanRPM => Ok(RegisterValue::FanRPM(read_u16_le(data))),
        }
    }

    fn encode(&self, buf: &mut Vec<u8>) -> (r: Option<usize>) {
        match self {
            RegisterValue::LedSelect(led) => {
                buf.push(*led);
                Some(1)
            },
            RegisterValue::LedMode(mode) => {
                buf.push(mode.encode());
                Some(1)
            },
            RegisterValue::LedCycleColors(colors) => {
                let ghost start = buf@;
                let mut k: usize = 0;
                while k < 4
                    invariant
                        k <= 4,
                        buf@ == start + cycle_color_bytes(colors@).take(3 * k as int),
                    decreases 4 - k,
                {
                    let c = colors[k];
                    buf.push(c.0);
                    buf.push(c.1);
                    buf.push(c.2);
                    k += 1;
                    assert(buf@ =~= start + cycle_color_bytes(colors@).take(3 * k as int));
                }
                assert(cycle_color_bytes(colors@).take(12) =~= cycle_color_bytes(colors@));
                Some(12)
            },
            RegisterValue::TempSensorSelect(sensor) => {
                buf.push(*sensor);
                Some(1)
            },
            RegisterValue::TempSensorLimit(lb, hb) => {
                buf.push(*lb);
                buf.push(*hb);
                Some(2)
            },
            RegisterValue::FanSelect(fan) => {
                buf.push(*fan);
                Some(1)
            },
            _ => None,
        }
    }
}

/// The values that `f` keeps out of `s`, in order.
pub open spec fn filter_map<A, B>(s: Seq<A>, f: spec_fn(A) -> Option<B>) -> Seq<B>
    decreases s.len(),
{
    if s.len() == 0 {
        Seq::empty()
    } else {
        let prev = filter_map(s.drop_last(), f);
        match f(s.last()) {
            Some(b) => prev.push(b),
            None => prev,
        }
    }
}

/// What the host knows of the cooler as a whole.
pub struct Metadata {
    pub device_id: u8,
    pub firmware_version: Seq<char>,
    pub product_name: Seq<char>,
    pub led_count: u8,
    pub temp_sensor_count: u8,
    pub fan_count: u8,
}

/// `m` after the values read back for the metadata, the last of each kind winning.
pub open spec fn metadata_after(m: Metadata, values: Seq<RegisterValueView>) -> Metadata
    decreases values.len(),
{
    if values.len() == 0 {
        m
    } else {
        let prev = metadata_after(m, values.drop_last());
        match values.last() {
            RegisterValueView::DeviceId(x) => Metadata { device_id: x, ..prev },
            RegisterValueView::FirmwareVersion(s) => Metadata { firmware_version: s, ..prev },
            RegisterValueView::ProductName(s) => Metadata { product_name: s, ..prev },
            RegisterValueView::LedCount(x) => Metadata { led_count: x, ..prev },
            RegisterValueView::TempSensorCount(x) => Metadata { temp_sensor_count: x, ..prev },
            RegisterValueView::FanCount(x) => Metadata { fan_count: x, ..prev },
            _ => prev,
        }
    }
}

pub open spec fn temperature_of(v: RegisterValueView) -> Option<Temperature> {
    match v {
        RegisterValueView::TempSensorValue(lb, hb) => Some(Temperature((lb + 256 * hb) as u16)),
        _ => None,
    }
}

pub open spec fn led_mode_of(v: RegisterValueView) -> Option<LedMode> {
    match v {
        RegisterValueView::LedMode(m) => Some(m),
        _ => None,
    }
}

pub open spec fn led_color_of(v: RegisterValueView) -> Option<RgbColor> {
    match v {
        RegisterValueView::LedColor(c) => Some(c),
        _ => None,
    }
}

pub open spec fn led_cycle_colors_of(v: RegisterValueView) -> Option<Seq<RgbColor>> {
    match v {
        RegisterValueView::LedCycleColors(c) => Some(c),
        _ => None,
    }
}

pub open spec fn fan_speed_of(v: RegisterValueView) -> Option<u16> {
    match v {
        RegisterValueView::FanRPM(rpm) => Some(rpm),
        _ => None,
    }
}

pub open spec fn values_view(values: Seq<RegisterValue>) -> Seq<RegisterValueView> {
    values.map_values(|v: RegisterValue| v@)
}

/// The commands that read the cooler's metadata.
pub open spec fn spec_metadata_commands() -> Seq<Command<Register, RegisterValue>> {
    seq![
        Command::Read(Register::DeviceId),
        Command::Read(Register::FirmwareVersion),
        Command::Read(Register::ProductName),
        Command::Read(Register::LedCount),
        Command::Read(Register::TempSensorCount),
        Command::Read(Register::FanCount),
    ]
}

/// For each of the first `n` sensors: select it, read its temperature.
pub open spec fn spec_temperature_commands(n: nat) -> Seq<Command<Register, RegisterValue>>
    decreases n,
{
    if n == 0 {
        Seq::empty()
    } else {
        spec_temperature_commands((n - 1) as nat) + seq![
            Command::Write(Register::TempSensorSelect, RegisterValue::TempSensorSelect((n - 1) as u8)),
            Command::Read(Register::TempSensorValue),
        ]
    }
}

/// For each of the first `n` LEDs: select it, read its mode, color and cycle colors.
pub open spec fn spec_led_commands(n: nat) -> Seq<Command<Register, RegisterValue>>
    decreases n,
{
    if n == 0 {
        Seq::empty()
    } else {
        spec_led_commands((n - 1) as nat) + seq![
            Command::Write(Register::LedSelect, RegisterValue::LedSelect((n - 1) as u8)),
            Command::Read(Register::LedMode),
            Command::Read(Register::LedColor),
            Command::Read(Register::LedCycleColors),
        ]
    }
}

/// For each of the first `n` fans: select it, read its speed.
pub open spec fn spec_fan_commands(n: nat) -> Seq<Command<Register, RegisterValue>>
    decreases n,
{
    if n == 0 {
        Seq::empty()
    } else {
        spec_fan_commands((n - 1) as nat) + seq![
            Command::Write(Register::FanSelect, RegisterValue::FanSelect((n - 1) as u8)),
            Command::Read(Register::FanRPM),
        ]
    }
}

/// The host's session with one cooler: the next command id, and what was
/// last read from the device. Each operation is split in two: the commands
/// to send, and storing the values that came back.
#[derive(Debug)]
pub struct Device {
    pub command_id: u8,
    pub device_id: u8,
    pub firmware_version: String,
    pub product_name: String,
    pub led_count: u8,
    pub temp_sensor_count: u8,
    pub fan_count: u8,
    pub led_modes: Vec<LedMode>,
    pub led_colors: Vec<RgbColor>,
    pub led_cycle_colors: Vec<[RgbColor; 4]>,
    pub temperatures: Vec<Temperature>,
    pub fan_speeds: Vec<u16>,
}

impl Device {
    pub open spec fn metadata(&self) -> Metadata {
        Metadata {
            device_id: self.device_id,
            firmware_version: self.firmware_version@,
            product_name: self.product_name@,
            led_count: self.led_count,
            temp_sensor_count: self.temp_sensor_count,
            fan_count: self.fan_count,
        }
    }

    pub open spec fn cycle_colors_view(&self) -> Seq<Seq<RgbColor>> {
        self.led_cycle_colors@.map_values(|c: [RgbColor; 4]| c@)
    }

    /// A session that has read nothing yet, with ids from the first one.
    pub fn new() -> (r: Device)
        ensures
            r.command_id == FIRST_COMMAND_ID,
            r.metadata() == (Metadata {
                device_id: 0,
                firmware_version: Seq::empty(),
                product_name: Seq::empty(),
                led_count: 0,
                temp_sensor_count: 0,
                fan_count: 0,
            }),
            r.led_modes@.len() == 0,
            r.led_colors@.len() == 0,
            r.led_cycle_colors@.len() == 0,
            r.temperatures@.len() == 0,
            r.fan_speeds@.len() == 0,
    {
        let d = Device {
            command_id: FIRST_COMMAND_ID,
            device_id: 0,
            firmware_version: String::new(),
            product_name: String::new(),
            led_count: 0,
            temp_sensor_count: 0,
            fan_count: 0,
            led_modes: Vec::new(),
            led_colors: Vec::new(),
            led_cycle_colors: Vec::new(),
            temperatures: Vec::new(),
            fan_speeds: Vec::new(),
        };
        assert(d.firmware_version@ =~= Seq::empty());
        assert(d.product_name@ =~= Seq::empty());
        d
    }

    /// The packet that carries `commands` under the session's next command id.
    pub fn packet(&self, commands: Vec<Command<Register, RegisterValue>>) -> (r: TxPacket<Register, RegisterValue>)
        ensures
            r.first_command_id == self.command_id,
            r.commands@ == commands@,
    {
        TxPacket::new(self.command_id, commands)
    }

    /// Moves the command id past an exchange of `command_count` commands,
    /// starting over from the first id where it would pass 255.
    pub fn advance(&mut self, command_count: usize)
        ensures
            final(self).command_id == (if old(self).command_id as int + command_count as int > 255 {
                FIRST_COMMAND_ID
            } else {
                (old(self).command_id + command_count) as u8
            }),
            final(self).metadata() == old(self).metadata(),
            final(self).led_modes == old(self).led_modes,
            final(self).led_colors == old(self).led_colors,
            final(self).led_cycle_colors == old(self).led_cycle_colors,
            final(self).temperatures == old(self).temperatures,
            final(self).fan_speeds == old(self).fan_speeds,
    {
        if command_count > 255 {
            self.command_id = FIRST_COMMAND_ID;
        } else {
            self.command_id = increment_command_id(self.command_id, command_count as u8);
        }
    }

    /// The commands that read the device id, firmware version, product name
    /// and the numbers of LEDs, temperature sensors and fans.
    pub fn metadata_commands() -> (r: Vec<Command<Register, RegisterValue>>)
        ensures
            r@ == spec_metadata_commands(),
    {
        let r = vec![
            Command::Read(Register::DeviceId),
            Command::Read(Register::FirmwareVersion),
            Command::Read(Register::ProductName),
            Command::Read(Register::LedCount),
            Command::Read(Register::TempSensorCount),
            Command::Read(Register::FanCount),
        ];
        assert(r@ =~= spec_metadata_commands());
        r
    }

    /// Keeps the metadata among `values`; other values are passed over.
    pub fn store_metadata(&mut self, values: Vec<RegisterValue>)
        ensures
            final(self).metadata() == metadata_after(old(self).metadata(), values_view(values@)),
            final(self).command_id == old(self).command_id,
            final(self).led_modes == old(self).led_modes,
            final(self).led_colors == old(self).led_colors,
            final(self).led_cycle_colors == old(self).led_cycle_colors,
            final(self).temperatures == old(self).temperatures,
            final(self).fan_speeds == old(self).fan_speeds,
    {
        let ghost all = values_view(values@);
        let ghost start = self.metadata();
        let mut rest = values;
        let ghost mut k: int = 0;
        assert(all.take(0) =~= Seq::<RegisterValueView>::empty());
        while rest.len() > 0
            invariant
                0 <= k <= all.len(),
                values_view(rest@) == all.skip(k),
                self.metadata() == metadata_after(start, all.take(k)),
                self.command_id == old(self).command_id,
                self.led_modes == old(self).led_modes,
                self.led_colors == old(self).led_colors,
                self.led_cycle_colors == old(self).led_cycle_colors,
                self.temperatures == old(self).temperatures,
                self.fan_speeds == old(self).fan_speeds,
            decreases rest@.len(),
        {
            let ghost before = rest@;
            let v = rest.remove(0);
            proof {
                assert(values_view(before).len() == before.len());
                assert(values_view(before)[0] == v@);
                assert(all.take(k + 1).drop_last() =~= all.take(k));
                assert(all.take(k + 1).last() == v@);
            }
            match v {
                RegisterValue::DeviceId(x) => self.device_id = x,
                RegisterValue::FirmwareVersion(s) => self.firmware_version = s,
                RegisterValue::ProductName(s) => self.product_name = s,
                RegisterValue::LedCount(x) => self.led_count = x,
                RegisterValue::TempSensorCount(x) => self.temp_sensor_count = x,
                RegisterValue::FanCount(x) => self.fan_count = x,
                _ => {},
            }
            proof {
                k = k + 1;
                assert forall|i: int| 0 <= i < rest@.len() implies #[trigger] values_view(rest@)[i] == all.skip(k)[i] by {
                    assert(rest@[i] == before[i + 1]);
                    assert(values_view(before)[i + 1] == before[i + 1]@);
                }
                assert(values_view(rest@) =~= all.skip(k));
            }
        }
        assert(all.take(k) =~= all);
    }

    /// For each temperature sensor: select it, then read its temperature.
    pub fn temperature_commands(&self) -> (r: Vec<Command<Register, RegisterValue>>)
        ensures
            r@ == spec_temperature_commands(self.temp_sensor_count as nat),
    {
        let mut r: Vec<Command<Register, RegisterValue>> = Vec::new();
        let mut i: u8 = 0;
        while i < self.temp_sensor_count
            invariant
                i <= self.temp_sensor_count,
                r@ == spec_temperature_commands(i as nat),
            decreases self.temp_sensor_count - i,
        {
            r.push(Command::Write(Register::TempSensorSelect, RegisterValue::TempSensorSelect(i)));
            r.push(Command::Read(Register::TempSensorValue));
            i += 1;
            assert(r@ =~= spec_temperature_commands(i as nat));
        }
        r
    }

    /// Adds the temperatures among `values` to those already read.
    pub fn store_temperatures(&mut self, values: Vec<RegisterValue>)
        ensures
            final(self).temperatures@ == old(self).temperatures@ + filter_map(values_view(values@), |v| temperature_of(v)),
            final(self).command_id == old(self).command_id,
            final(self).metadata() == old(self).metadata(),
            final(self).led_modes == old(self).led_modes,
            final(self).led_colors == old(self).led_colors,
            final(self).led_cycle_colors == old(self).led_cycle_colors,
            final(self).fan_speeds == old(self).fan_speeds,
    {
        let ghost all = values_view(values@);
        let ghost f = |v| temperature_of(v);
        let ghost start = self.temperatures@;
        let mut rest = values;
        let ghost mut k: int = 0;
        assert(all.take(0) =~= Seq::<RegisterValueView>::empty());
        assert(start + Seq::<Temperature>::empty() =~= start);
        while rest.len() > 0
            invariant
                0 <= k <= all.len(),
                f == (|v| temperature_of(v)),
                values_view(rest@) == all.skip(k),
                self.temperatures@ == start + filter_map(all.take(k), f),
                self.command_id == old(self).command_id,
                self.metadata() == old(self).metadata(),
                self.led_modes == old(self).led_modes,
                self.led_colors == old(self).led_colors,
                self.led_cycle_colors == old(self).led_cycle_colors,
                self.fan_speeds == old(self).fan_speeds,
            decreases rest@.len(),
        {
            let ghost before = rest@;
            let ghost kept = self.temperatures@;
            let v = rest.remove(0);
            proof {
                assert(values_view(before).len() == before.len());
                assert(values_view(before)[0] == v@);
                assert(all.take(k + 1).drop_last() =~= all.take(k));
                assert(all.take(k + 1).last() == v@);
            }
            match v {
                RegisterValue::TempSensorValue(lb, hb) => {
                    let pair = vec![lb, hb];
                    let raw = read_u16_le(pair.as_slice());
                    self.temperatures.push(Temperature(raw));
                    assert(self.temperatures@ =~= kept.push(Temperature(raw)));
                },
                _ => {},
            }
            proof {
                k = k + 1;
                assert forall|i: int| 0 <= i < rest@.len() implies #[trigger] values_view(rest@)[i] == all.skip(k)[i] by {
                    assert(rest@[i] == before[i + 1]);
                    assert(values_view(before)[i + 1] == before[i + 1]@);
                }
                assert(values_view(rest@) =~= all.skip(k));
            }
        }
        assert(all.take(k) =~= all);
    }

    /// For each LED: select it, then read its mode, color and cycle colors.
    pub fn led_commands(&self) -> (r: Vec<Command<Register, RegisterValue>>)
        ensures
            r@ == spec_led_commands(self.led_count as nat),
    {
        let mut r: Vec<Command<Register, RegisterValue>> = Vec::new();
        let mut i: u8 = 0;
        while i < self.led_count
            invariant
                i <= self.led_count,
                r@ == spec_led_commands(i as nat),
            decreases self.led_count - i,
        {
            r.push(Command::Write(Register::LedSelect, RegisterValue::LedSelect(i)));
            r.push(Command::Read(Register::LedMode));
            r.push(Command::Read(Register::LedColor));
            r.push(Command::Read(Register::LedCycleColors));
            i += 1;
            assert(r@ =~= spec_led_commands(i as nat));
        }
        r
    }

    /// Replaces the LED modes, colors and cycle colors with those among `values`.
    pub fn store_leds(&mut self, values: Vec<RegisterValue>)
        ensures
            final(self).led_modes@ == filter_map(values_view(values@), |v| led_mode_of(v)),
            final(self).led_colors@ == filter_map(values_view(values@), |v| led_color_of(v)),
            final(self).cycle_colors_view() == filter_map(values_view(values@), |v| led_cycle_colors_of(v)),
            final(self).command_id == old(self).command_id,
            final(self).metadata() == old(self).metadata(),
            final(self).temperatures == old(self).temperatures,
            final(self).fan_speeds == old(self).fan_speeds,
    {
        let ghost all = values_view(values@);
        let ghost fm = |v| led_mode_of(v);
        let ghost fc = |v| led_color_of(v);
        let ghost fy = |v| led_cycle_colors_of(v);
        self.led_modes.clear();
        self.led_colors.clear();
        self.led_cycle_colors.clear();
        let mut rest = values;
        let ghost mut k: int = 0;
        assert(all.take(0) =~= Seq::<RegisterValueView>::empty());
        assert(self.cycle_colors_view() =~= Seq::<Seq<RgbColor>>::empty());
        while rest.len() > 0
            invariant
                0 <= k <= all.len(),
                fm == (|v| led_mode_of(v)),
                fc == (|v| led_color_of(v)),
                fy == (|v| led_cycle_colors_of(v)),
                values_view(rest@) == all.skip(k),
                self.led_modes@ == filter_map(all.take(k), fm),
                self.led_colors@ == filter_map(all.take(k), fc),
                self.cycle_colors_view() == filter_map(all.take(k), fy),
                self.command_id == old(self).command_id,
                self.metadata() == old(self).metadata(),
                self.temperatures == old(self).temperatures,
                self.fan_speeds == old(self).fan_speeds,
            decreases rest@.len(),
        {
            let ghost before = rest@;
            let ghost modes = self.led_modes@;
            let ghost colors = self.led_colors@;
            let ghost cycles = self.cycle_colors_view();
            let v = rest.remove(0);
            proof {
                assert(values_view(before).len() == before.len());
                assert(values_view(before)[0] == v@);
                assert(all.take(k + 1).drop_last() =~= all.take(k));
                assert(all.take(k + 1).last() == v@);
            }
            match v {
                RegisterValue::LedMode(m) => {
                    self.led_modes.push(m);
                },
                RegisterValue::LedColor(c) => {
                    self.led_colors.push(c);
                },
                RegisterValue::LedCycleColors(c) => {
                    self.led_cycle_colors.push(c);
                    assert(self.cycle_colors_view() =~= cycles.push(c@));
                },
                _ => {},
            }
            proof {
                k = k + 1;
                assert forall|i: int| 0 <= i < rest@.len() implies #[trigger] values_view(rest@)[i] == all.skip(k)[i] by {
                    assert(rest@[i] == before[i + 1]);
                    assert(values_view(before)[i + 1] == before[i + 1]@);
                }
                assert(values_view(rest@) =~= all.skip(k));
            }
        }
        assert(all.take(k) =~= all);
    }

    /// Selects `led` and writes its four cycle colors; an LED beyond the
    /// device's count is refused.
    pub fn led_colors_commands(&self, led: u8, colors: [RgbColor; 4]) -> (r: Result<Vec<Command<Register, RegisterValue>>, Error>)
        ensures
            led > self.led_count ==> r == Err::<Vec<Command<Register, RegisterValue>>, Error>(Error::InvalidLed),
            led <= self.led_count ==> r is Ok && r->Ok_0@ == seq![
                Command::Write(Register::LedSelect, RegisterValue::LedSelect(led)),
                Command::Write(Register::LedCycleColors, RegisterValue::LedCycleColors(colors)),
            ],
    {
        if led > self.led_count {
            return Err(Error::InvalidLed);
        }
        let r = vec![
            Command::Write(Register::LedSelect, RegisterValue::LedSelect(led)),
            Command::Write(Register::LedCycleColors, RegisterValue::LedCycleColors(colors)),
        ];
        assert(r@ =~= seq![
            Command::Write(Register::LedSelect, RegisterValue::LedSelect(led)),
            Command::Write(Register::LedCycleColors, RegisterValue::LedCycleColors(colors)),
        ]);
        Ok(r)
    }

    /// Selects the first LED and writes its mode.
    pub fn led_mode_commands(mode: LedMode) -> (r: Vec<Command<Register, RegisterValue>>)
        ensures
            r@ == seq![
                Command::Write(Register::LedSelect, RegisterValue::LedSelect(0)),
                Command::Write(Register::LedMode, RegisterValue::LedMode(mode)),
            ],
    {
        let r = vec![
            Command::Write(Register::LedSelect, RegisterValue::LedSelect(0)),
            Command::Write(Register::LedMode, RegisterValue::LedMode(mode)),
        ];
        assert(r@ =~= seq![
            Command::Write(Register::LedSelect, RegisterValue::LedSelect(0)),
            Command::Write(Register::LedMode, RegisterValue::LedMode(mode)),
        ]);
        r
    }

    /// For each fan: select it, then read its speed.
    pub fn fan_commands(&self) -> (r: Vec<Command<Register, RegisterValue>>)
        ensures
            r@ == spec_fan_commands(self.fan_count as nat),
    {
        let mut r: Vec<Command<Register, RegisterValue>> = Vec::new();
        let mut i: u8 = 0;
        while i < self.fan_count
            invariant
                i <= self.fan_count,
                r@ == spec_fan_commands(i as nat),
            decreases self.fan_count - i,
        {
            r.push(Command::Write(Register::FanSelect, RegisterValue::FanSelect(i)));
            r.push(Command::Read(Register::FanRPM));
            i += 1;
            assert(r@ =~= spec_fan_commands(i as nat));
        }
        r
    }

    /// Adds the fan speeds among `values` to those already read.
    pub fn store_fans(&mut self, values: Vec<RegisterValue>)
        ensures
            final(self).fan_speeds@ == old(self).fan_speeds@ + filter_map(values_view(values@), |v| fan_speed_of(v)),
            final(self).command_id == old(self).command_id,
            final(self).metadata() == old(self).metadata(),
            final(self).led_modes == old(self).led_modes,
            final(self).led_colors == old(self).led_colors,
            final(self).led_cycle_colors == old(self).led_cycle_colors,
            final(self).temperatures == old(self).temperatures,
    {
        let ghost all = values_view(values@);
        let ghost f = |v| fan_speed_of(v);
        let ghost start = self.fan_speeds@;
        let mut rest = values;
        let ghost mut k: int = 0;
        assert(all.take(0) =~= Seq::<RegisterValueView>::empty());
        assert(start + Seq::<u16>::empty() =~= start);
        while rest.len() > 0
            invariant
                0 <= k <= all.len(),
                f == (|v| fan_speed_of(v)),
                values_view(rest@) == all.skip(k),
                self.fan_speeds@ == start + filter_map(all.take(k), f),
                self.command_id == old(self).command_id,
                self.metadata() == old(self).metadata(),
                self.led_modes == old(self).led_modes,
                self.led_colors == old(self).led_colors,
                self.led_cycle_colors == old(self).led_cycle_colors,
                self.temperatures == old(self).temperatures,
            decreases rest@.len(),
        {
            let ghost before = rest@;
            let ghost kept = self.fan_speeds@;
            let v = rest.remove(0);
            proof {
                assert(values_view(before).len() == before.len());
                assert(values_view(before)[0] == v@);
                assert(all.take(k + 1).drop_last() =~= all.take(k));
                assert(all.take(k + 1).last() == v@);
            }
            match v {
                RegisterValue::FanRPM(rpm) => {
                    self.fan_speeds.push(rpm);
                    assert(self.fan_speeds@ =~= kept.push(rpm));
                },
                _ => {},
            }
            proof {
                k = k + 1;
                assert forall|i: int| 0 <= i < rest@.len() implies #[trigger] values_view(rest@)[i] == all.skip(k)[i] by {
                    assert(rest@[i] == before[i + 1]);
                    assert(values_view(before)[i + 1] == before[i + 1]@);
                }
                assert(values_view(rest@) =~= all.skip(k));
            }
        }
        assert(all.take(k) =~= all);
    }
}

} // verus!
