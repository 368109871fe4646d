use corsairlink::errors::Error;
use corsairlink::h110i::{
    increment_command_id, Device, LedMode, Register, RegisterValue, RgbColor, TempChannel, Temperature,
};
use corsairlink::protocol::{Command, Register as _, Value as _, FIRST_COMMAND_ID};

#[test]
fn register_ids_and_widths() {
    assert_eq!(Register::DeviceId.wire_id(), 0x00);
    assert_eq!(Register::LedCycleColors.wire_id(), 0x0b);
    assert_eq!(Register::FanRPM.wire_id(), 0x16);
    assert_eq!(Register::ProductName.size(), 8);
    assert_eq!(Register::LedCycleColors.size(), 12);
    assert_eq!(Register::LedColor.size(), 3);
    assert_eq!(Register::TempSensorValue.size(), 2);
    assert_eq!(Register::Status.size(), 1);
}

#[test]
fn temp_channel_decodes() {
    assert_eq!(TempChannel::decode(0), Ok(TempChannel::InternalSensor));
    assert_eq!(TempChannel::decode(7), Ok(TempChannel::Manual));
    assert_eq!(TempChannel::decode(3), Err(Error::InvalidTempChannel));
    assert_eq!(TempChannel::Manual.byte(), 7);
}

#[test]
fn led_mode_bytes() {
    assert_eq!(LedMode::static_mode(), LedMode::Static);
    assert_eq!(LedMode::two_color_cycle_mode(3), LedMode::TwoColorCycle(3));
    assert_eq!(LedMode::four_color_cycle_mode(7), LedMode::FourColorCycle(7));
    assert_eq!(LedMode::temperature_mode(TempChannel::Manual), LedMode::Temperature(TempChannel::Manual));
    assert_eq!(LedMode::Static.encode(), 0x00);
    assert_eq!(LedMode::TwoColorCycle(3).encode(), 0x43);
    assert_eq!(LedMode::FourColorCycle(0x17).encode(), 0x87);
    assert_eq!(LedMode::Temperature(TempChannel::Manual).encode(), 0xc7);
    assert_eq!(LedMode::decode(0x05), Ok(LedMode::Static));
    assert_eq!(LedMode::decode(0x4a), Ok(LedMode::TwoColorCycle(0x0a)));
    assert_eq!(LedMode::decode(0x87), Ok(LedMode::FourColorCycle(7)));
    assert_eq!(LedMode::decode(0xc0), Ok(LedMode::Temperature(TempChannel::InternalSensor)));
    assert_eq!(LedMode::decode(0xc3), Err(Error::InvalidTempChannel));
    assert_eq!(LedMode::decode(0x20), Err(Error::InvalidLedMode));
    assert_eq!(LedMode::FourColorCycle(5).cycle_speed(), Ok(5));
    assert_eq!(LedMode::Static.cycle_speed(), Err(Error::NoCycleSpeed));
    assert_eq!(LedMode::Temperature(TempChannel::Manual).temp_channel(), Ok(TempChannel::Manual));
    assert_eq!(LedMode::TwoColorCycle(1).temp_channel(), Err(Error::NoTempChannel));
}

#[test]
fn firmware_version_text() {
    assert_eq!(RegisterValue::decode_firmware_version(0x01, 0x03), "0.3.01");
    assert_eq!(RegisterValue::decode_firmware_version(0x0a, 0x12), "1.2.0a");
    assert_eq!(RegisterValue::decode_firmware_version(0xff, 0xfe), "f.e.ff");
}

#[test]
fn values_decode() {
    assert_eq!(RegisterValue::decode(Register::FanRPM, &[0x34, 0x12]), Ok(RegisterValue::FanRPM(0x1234)));
    assert_eq!(
        RegisterValue::decode(Register::ProductName, b"H110i\0ab"),
        Ok(RegisterValue::ProductName("H110i".to_string()))
    );
    assert_eq!(
        RegisterValue::decode(Register::ProductName, b"\0bcdefgh"),
        Ok(RegisterValue::ProductName(String::new()))
    );
    assert_eq!(RegisterValue::decode(Register::ProductName, b"H110iXYZ"), Err(Error::NoNulByte));
    assert_eq!(
        RegisterValue::decode(Register::ProductName, &[0x48, 0xff, 0, 0, 0, 0, 0, 0]),
        Err(Error::InvalidUtf8)
    );
    assert_eq!(
        RegisterValue::decode(Register::LedCycleColors, &[1, 2, 3, 4, 5, 6, 7, 8, 9, 10, 11, 12]),
        Ok(RegisterValue::LedCycleColors([RgbColor(1, 2, 3), RgbColor(4, 5, 6), RgbColor(7, 8, 9), RgbColor(10, 11, 12)]))
    );
    assert_eq!(RegisterValue::decode(Register::LedMode, &[0x20]), Err(Error::InvalidLedMode));
    assert_eq!(RegisterValue::decode(Register::TempSensorCount, &[2]), Ok(RegisterValue::TempSensorCount(2)));
}

#[test]
fn values_encode() {
    let mut buf = vec![0xaa];
    assert_eq!(RegisterValue::LedMode(LedMode::TwoColorCycle(2)).encode(&mut buf), Some(1));
    assert_eq!(RegisterValue::TempSensorLimit(0x00, 0x1e).encode(&mut buf), Some(2));
    assert_eq!(buf, vec![0xaa, 0x42, 0x00, 0x1e]);
    assert_eq!(RegisterValue::DeviceId(1).encode(&mut buf), None);
    assert_eq!(buf.len(), 4);
    let mut buf = Vec::new();
    let colors = [RgbColor(255, 0, 255), RgbColor(0, 255, 0), RgbColor(0, 0, 255), RgbColor(255, 255, 255)];
    assert_eq!(RegisterValue::LedCycleColors(colors).encode(&mut buf), Some(12));
    assert_eq!(buf, vec![255, 0, 255, 0, 255, 0, 0, 0, 255, 255, 255, 255]);
}

#[test]
fn command_ids_start_over_past_255() {
    assert_eq!(increment_command_id(20, 6), 26);
    assert_eq!(increment_command_id(250, 5), 255);
    assert_eq!(increment_command_id(250, 6), FIRST_COMMAND_ID);
    let mut d = Device::new();
    assert_eq!(d.command_id, 20);
    d.advance(6);
    assert_eq!(d.command_id, 26);
    d.command_id = 254;
    d.advance(2);
    assert_eq!(d.command_id, 20);
    d.advance(300);
    assert_eq!(d.command_id, 20);
}

#[test]
fn metadata_round() {
    let mut d = Device::new();
    d.advance(10);
    let tx = d.packet(Device::metadata_commands());
    assert_eq!(tx.first_command_id, 30);
    assert_eq!(tx.commands.len(), 6);
    assert!(matches!(tx.commands[2], Command::Read(Register::ProductName)));
    d.store_metadata(vec![
        RegisterValue::DeviceId(0x3b),
        RegisterValue::FirmwareVersion("1.2.0a".to_string()),
        RegisterValue::ProductName("H110i".to_string()),
        RegisterValue::LedCount(1),
        RegisterValue::TempSensorCount(2),
        RegisterValue::FanCount(3),
        RegisterValue::Status(9),
    ]);
    assert_eq!(d.device_id, 0x3b);
    assert_eq!(d.firmware_version, "1.2.0a");
    assert_eq!(d.product_name, "H110i");
    assert_eq!((d.led_count, d.temp_sensor_count, d.fan_count), (1, 2, 3));
    assert_eq!(d.command_id, 30);
}

#[test]
fn temperatures_round() {
    let mut d = Device::new();
    d.temp_sensor_count = 2;
    let cmds = d.temperature_commands();
    assert_eq!(cmds.len(), 4);
    assert!(matches!(cmds[0], Command::Write(Register::TempSensorSelect, RegisterValue::TempSensorSelect(0))));
    assert!(matches!(cmds[2], Command::Write(Register::TempSensorSelect, RegisterValue::TempSensorSelect(1))));
    assert!(matches!(cmds[3], Command::Read(Register::TempSensorValue)));
    d.store_temperatures(vec![RegisterValue::TempSensorValue(0x80, 0x1e), RegisterValue::TempSensorValue(0x00, 0x20)]);
    assert_eq!(d.temperatures, vec![Temperature(0x1e80), Temperature(0x2000)]);
    assert_eq!(u16::from(d.temperatures[0]), 0x1e80);
}

#[test]
fn leds_round() {
    let mut d = Device::new();
    d.led_count = 1;
    let cmds = d.led_commands();
    assert_eq!(cmds.len(), 4);
    assert!(matches!(cmds[0], Command::Write(Register::LedSelect, RegisterValue::LedSelect(0))));
    assert!(matches!(cmds[3], Command::Read(Register::LedCycleColors)));
    d.led_modes.push(LedMode::Static);
    let colors = [RgbColor(1, 2, 3); 4];
    d.store_leds(vec![
        RegisterValue::LedMode(LedMode::FourColorCycle(7)),
        RegisterValue::LedColor(RgbColor(9, 8, 7)),
        RegisterValue::LedCycleColors(colors),
    ]);
    assert_eq!(d.led_modes, vec![LedMode::FourColorCycle(7)]);
    assert_eq!(d.led_colors, vec![RgbColor(9, 8, 7)]);
    assert_eq!(d.led_cycle_colors, vec![colors]);

    assert!(matches!(d.led_colors_commands(2, colors), Err(Error::InvalidLed)));
    let cmds = d.led_colors_commands(0, colors).unwrap();
    assert!(matches!(cmds[0], Command::Write(Register::LedSelect, RegisterValue::LedSelect(0))));
    assert!(matches!(cmds[1], Command::Write(Register::LedCycleColors, RegisterValue::LedCycleColors(_))));
    let cmds = Device::led_mode_commands(LedMode::FourColorCycle(7));
    assert!(matches!(cmds[1], Command::Write(Register::LedMode, RegisterValue::LedMode(LedMode::FourColorCycle(7)))));
}

#[test]
fn fans_round() {
    let mut d = Device::new();
    d.fan_count = 3;
    let cmds = d.fan_commands();
    assert_eq!(cmds.len(), 6);
    assert!(matches!(cmds[4], Command::Write(Register::FanSelect, RegisterValue::FanSelect(2))));
    assert!(matches!(cmds[5], Command::Read(Register::FanRPM)));
    d.store_fans(vec![RegisterValue::FanSelect(0), RegisterValue::FanRPM(1500), RegisterValue::FanRPM(900)]);
    assert_eq!(d.fan_speeds, vec![1500, 900]);
}
