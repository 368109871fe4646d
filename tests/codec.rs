use corsairlink::errors::Error;
use corsairlink::h110i::{LedMode, Register, RegisterValue, RgbColor};
use corsairlink::protocol::{Command, Opcode, RxCommand, RxPacket, TxPacket, PACKET_SIZE};

type Cmd = Command<Register, RegisterValue>;

fn padded(prefix: &[u8]) -> Vec<u8> {
    let mut v = prefix.to_vec();
    v.resize(PACKET_SIZE, 0);
    v
}

#[test]
fn encodes_two_reads_into_one_report() {
    let tx = TxPacket::new(20, vec![Cmd::Read(Register::DeviceId), Cmd::Read(Register::FirmwareVersion)]);
    let bytes = tx.encode().unwrap();
    assert_eq!(bytes.len(), 64);
    assert_eq!(bytes, padded(&[0x06, 20, 0x07, 0x00, 21, 0x09, 0x01]));
    assert_eq!(tx.len(), 7);
}

#[test]
fn decodes_two_reads() {
    let tx = TxPacket::new(20, vec![Cmd::Read(Register::DeviceId), Cmd::Read(Register::FirmwareVersion)]);
    let rx = RxPacket::decode(tx, &[20, 0x2a, 21, 0x01, 0x03]).unwrap();
    let values = rx.read_values();
    assert_eq!(values, vec![RegisterValue::DeviceId(0x2a), RegisterValue::FirmwareVersion("0.3.01".to_string())]);
}

#[test]
fn opcode_follows_width() {
    assert_eq!(Opcode::for_width(false, 1), Opcode::ReadByte);
    assert_eq!(Opcode::for_width(true, 1), Opcode::WriteByte);
    assert_eq!(Opcode::for_width(false, 2), Opcode::ReadWord);
    assert_eq!(Opcode::for_width(true, 2), Opcode::WriteWord);
    for w in [0usize, 3, 8, 12, 200] {
        assert_eq!(Opcode::for_width(false, w), Opcode::ReadBlock);
        assert_eq!(Opcode::for_width(true, w), Opcode::WriteBlock);
    }
    let bytes: Vec<u8> = [
        Opcode::WriteByte,
        Opcode::ReadByte,
        Opcode::WriteWord,
        Opcode::ReadWord,
        Opcode::WriteBlock,
        Opcode::ReadBlock,
    ]
    .iter()
    .map(|o| o.byte())
    .collect();
    assert_eq!(bytes, vec![0x06, 0x07, 0x08, 0x09, 0x0a, 0x0b]);
    assert_eq!(Cmd::Read(Register::ProductName).opcode(), Opcode::ReadBlock);
    assert_eq!(Cmd::Write(Register::TempSensorLimit, RegisterValue::TempSensorLimit(1, 2)).opcode(), Opcode::WriteWord);
    assert_eq!(Cmd::Write(Register::LedSelect, RegisterValue::LedSelect(1)).opcode(), Opcode::WriteByte);
}

#[test]
fn command_ids_count_commands_not_bytes() {
    let colors = [RgbColor(1, 2, 3), RgbColor(4, 5, 6), RgbColor(7, 8, 9), RgbColor(10, 11, 12)];
    let tx = TxPacket::new(
        30,
        vec![
            Cmd::Write(Register::LedCycleColors, RegisterValue::LedCycleColors(colors)),
            Cmd::Read(Register::DeviceId),
            Cmd::Write(Register::TempSensorLimit, RegisterValue::TempSensorLimit(0x00, 0x1e)),
            Cmd::Read(Register::ProductName),
        ],
    );
    let b = tx.encode().unwrap();
    assert_eq!(b[0], 14 + 2 + 4 + 2 + 4);
    assert_eq!(&b[1..16], &[30, 0x0a, 0x0b, 1, 2, 3, 4, 5, 6, 7, 8, 9, 10, 11, 12]);
    assert_eq!(&b[16..19], &[31, 0x07, 0x00]);
    assert_eq!(&b[19..24], &[32, 0x08, 0x0f, 0x00, 0x1e]);
    assert_eq!(&b[24..27], &[33, 0x0b, 0x02]);
    assert!(b[27..].iter().all(|x| *x == 0));
}

#[test]
fn batch_of_exactly_one_report_fits() {
    let cmds: Vec<Cmd> = (0..21).map(|_| Cmd::Read(Register::DeviceId)).collect();
    let tx = TxPacket::new(20, cmds);
    assert_eq!(tx.len(), 64);
    let b = tx.encode().unwrap();
    assert_eq!(b[0], 63);
    assert_eq!(b[61..64], [40, 0x07, 0x00]);
}

#[test]
fn oversized_batch_fails() {
    let cmds: Vec<Cmd> = (0..22).map(|_| Cmd::Read(Register::DeviceId)).collect();
    let tx = TxPacket::new(20, cmds);
    assert_eq!(tx.len(), 67);
    assert!(tx.encode().is_none());
    assert_eq!(tx.encode_checked(), Err(Error::PacketTooLong));

    let colors = [RgbColor(0, 0, 0); 4];
    let cmds: Vec<Cmd> = (0..5)
        .map(|_| Cmd::Write(Register::LedCycleColors, RegisterValue::LedCycleColors(colors)))
        .collect();
    assert!(TxPacket::new(20, cmds).encode().is_none());
}

#[test]
fn unencodable_value_fails() {
    let tx = TxPacket::new(20, vec![Cmd::Write(Register::DeviceId, RegisterValue::DeviceId(1))]);
    assert!(tx.encode().is_none());
    assert_eq!(tx.encode_checked(), Err(Error::UnencodableValue));
    let tx = TxPacket::new(20, vec![Cmd::Write(Register::TempSensorLimit, RegisterValue::LedSelect(3))]);
    assert_eq!(tx.encode_checked(), Err(Error::UnencodableValue));
}

#[test]
fn command_id_past_255_fails() {
    let tx = TxPacket::new(255, vec![Cmd::Read(Register::DeviceId)]);
    assert_eq!(tx.encode().unwrap()[..4], [3, 255, 0x07, 0x00]);
    let tx = TxPacket::new(255, vec![Cmd::Read(Register::DeviceId), Cmd::Read(Register::Status)]);
    assert_eq!(tx.encode_checked(), Err(Error::CommandIdOverflow));
}

#[test]
fn empty_batch_is_a_bare_length_byte() {
    let tx: TxPacket<Register, RegisterValue> = TxPacket::new(20, vec![]);
    assert_eq!(tx.encode().unwrap(), padded(&[0]));
    let rx = RxPacket::decode(tx, &[]).unwrap();
    assert!(rx.read_values().is_empty());
}

#[test]
fn bad_first_id_fails_whole_decode() {
    let tx = TxPacket::new(20, vec![Cmd::Read(Register::DeviceId), Cmd::Read(Register::Status)]);
    let r = RxPacket::decode(tx, &padded(&[19, 0x2a, 21, 0x01]));
    assert_eq!(r.err(), Some(Error::BadCommandId { expected: 20, found: 19 }));
}

#[test]
fn bad_later_id_discards_earlier_values() {
    let tx = TxPacket::new(20, vec![Cmd::Read(Register::DeviceId), Cmd::Read(Register::Status)]);
    let r = RxPacket::decode(tx, &padded(&[20, 0x2a, 22, 0x01]));
    assert_eq!(r.err(), Some(Error::BadCommandId { expected: 21, found: 22 }));
}

#[test]
fn short_response_fails() {
    let tx = TxPacket::new(20, vec![Cmd::Read(Register::DeviceId), Cmd::Read(Register::FirmwareVersion)]);
    let r = RxPacket::decode(tx, &[20, 0x2a, 21, 0x01]);
    assert_eq!(r.err(), Some(Error::ResponseTooShort));
    let tx = TxPacket::new(20, vec![Cmd::Read(Register::DeviceId), Cmd::Read(Register::Status)]);
    assert_eq!(RxPacket::decode(tx, &[20, 0x2a]).err(), Some(Error::ResponseTooShort));
}

#[test]
fn write_is_acknowledged_by_its_id_alone() {
    let tx = TxPacket::new(
        20,
        vec![
            Cmd::Write(Register::LedSelect, RegisterValue::LedSelect(0)),
            Cmd::Read(Register::DeviceId),
            Cmd::Write(Register::LedMode, RegisterValue::LedMode(LedMode::Static)),
        ],
    );
    let rx = RxPacket::decode(tx, &padded(&[20, 21, 0x2a, 22])).unwrap();
    assert_eq!(rx.0.len(), 3);
    assert!(matches!(rx.0[0], RxCommand::Write(Register::LedSelect)));
    assert!(matches!(rx.0[1], RxCommand::Read(Register::DeviceId, RegisterValue::DeviceId(0x2a))));
    assert!(matches!(rx.0[2], RxCommand::Write(Register::LedMode)));
    assert_eq!(rx.0[1].len(), 1);
    assert_eq!(rx.0[0].len(), 0);
    assert_eq!(rx.read_values(), vec![RegisterValue::DeviceId(0x2a)]);
}

#[test]
fn round_trip_keeps_values_and_order() {
    let cmds = vec![
        Cmd::Write(Register::TempSensorSelect, RegisterValue::TempSensorSelect(1)),
        Cmd::Read(Register::TempSensorValue),
        Cmd::Read(Register::ProductName),
        Cmd::Read(Register::LedColor),
        Cmd::Write(Register::FanSelect, RegisterValue::FanSelect(2)),
        Cmd::Read(Register::FanRPM),
        Cmd::Read(Register::LedMode),
    ];
    let tx = TxPacket::new(40, cmds);
    let request = tx.encode().unwrap();
    assert_eq!(request[1], 40);
    let payloads: Vec<Vec<u8>> = vec![
        vec![],
        vec![0x00, 0x1e],
        b"H110i\0\0\0".to_vec(),
        vec![0xff, 0x80, 0x00],
        vec![],
        vec![0xdc, 0x05],
        vec![0x47],
    ];
    let mut response = Vec::new();
    for (k, p) in payloads.iter().enumerate() {
        response.push(40 + k as u8);
        response.extend_from_slice(p);
    }
    response.resize(PACKET_SIZE, 0);
    let values = RxPacket::decode(tx, &response).unwrap().read_values();
    assert_eq!(
        values,
        vec![
            RegisterValue::TempSensorValue(0x00, 0x1e),
            RegisterValue::ProductName("H110i".to_string()),
            RegisterValue::LedColor(RgbColor(0xff, 0x80, 0x00)),
            RegisterValue::FanRPM(1500),
            RegisterValue::LedMode(LedMode::TwoColorCycle(7)),
        ]
    );
}

#[test]
fn decode_read_takes_the_register_width() {
    let r: RxCommand<Register, RegisterValue> = RxCommand::decode_read(Register::FanRPM, &[0x34, 0x12, 0x99]).unwrap();
    assert!(matches!(r, RxCommand::Read(Register::FanRPM, RegisterValue::FanRPM(0x1234))));
    let r: Result<RxCommand<Register, RegisterValue>, Error> = RxCommand::decode_read(Register::FanRPM, &[0x34]);
    assert_eq!(r.err(), Some(Error::ResponseTooShort));
}

#[test]
fn value_decode_error_fails_whole_decode() {
    let tx = TxPacket::new(20, vec![Cmd::Read(Register::DeviceId), Cmd::Read(Register::LedMode)]);
    let r = RxPacket::decode(tx, &padded(&[20, 0x2a, 21, 0x20]));
    assert_eq!(r.err(), Some(Error::InvalidLedMode));
}
