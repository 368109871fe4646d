use corsairlink::errors::Error;
use corsairlink::exchange::{Exchange, Step, MAX_READ_ATTEMPTS};
use corsairlink::h110i::{Register, RegisterValue};
use corsairlink::protocol::{Command, TxPacket, PACKET_SIZE};

type Cmd = Command<Register, RegisterValue>;

fn report(prefix: &[u8]) -> Vec<u8> {
    let mut v = prefix.to_vec();
    v.resize(PACKET_SIZE, 0);
    v
}

fn start() -> Exchange<Register, RegisterValue> {
    let tx = TxPacket::new(20, vec![Cmd::Read(Register::DeviceId)]);
    let (ex, request) = Exchange::start(tx).unwrap();
    assert_eq!(request, report(&[3, 20, 0x07, 0x00]));
    assert_eq!(ex.reads, 0);
    ex
}

#[test]
fn stale_report_is_read_past() {
    let ex = start();
    let ex = match ex.on_response(&report(&[19, 0x11])) {
        Step::ReadAgain(ex) => ex,
        Step::Done(_) => panic!("a stale report ended the exchange"),
    };
    assert_eq!(ex.reads, 1);
    match ex.on_response(&report(&[20, 0x2a])) {
        Step::Done(Ok(rx)) => assert_eq!(rx.read_values(), vec![RegisterValue::DeviceId(0x2a)]),
        _ => panic!("the fresh report was not decoded"),
    }
}

#[test]
fn matching_report_is_decoded_at_once() {
    match start().on_response(&report(&[20, 0x05])) {
        Step::Done(Ok(rx)) => assert_eq!(rx.read_values(), vec![RegisterValue::DeviceId(0x05)]),
        _ => panic!("the report was not decoded"),
    }
}

#[test]
fn third_stale_report_ends_in_bad_id() {
    let mut ex = start();
    let mut reads = 0;
    loop {
        reads += 1;
        match ex.on_response(&report(&[19, 0x11])) {
            Step::ReadAgain(next) => ex = next,
            Step::Done(r) => {
                assert_eq!(r.err(), Some(Error::BadCommandId { expected: 20, found: 19 }));
                break;
            }
        }
    }
    assert_eq!(reads, MAX_READ_ATTEMPTS);
}

#[test]
fn unencodable_packet_never_starts() {
    let tx = TxPacket::new(20, vec![Cmd::Write(Register::Status, RegisterValue::Status(1))]);
    match Exchange::start(tx) {
        Err(e) => assert_eq!(e, Error::UnencodableValue),
        Ok(_) => panic!("an unencodable packet started"),
    }
}
