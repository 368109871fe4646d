//! One request/response round trip, as a state machine that the caller
//! drives: the caller writes the request once, then reads reports and hands
//! each to the exchange, which says whether to read again or what the
//! response decoded to.
//!
//! The device sometimes answers with a stale report left over from an earlier
//! exchange. A report whose first byte is not the first command id of the
//! request is read past, up to three reads in all; the last report read is
//! decoded whatever it holds, so a stale one ends in a command id error.

use vstd::prelude::*;
use crate::errors::Error;
use crate::protocol::{Register, Value, TxPacket, RxPacket};

verus! {

/// The number of reports read for one request, at most.
pub const MAX_READ_ATTEMPTS: u8 = 3;

/// A request that was written and waits for its response.
pub struct Exchange<R, V> {
    pub packet: TxPacket<R, V>,
    /// Reports read so far.
    pub reads: u8,
}

/// What to do after a report was read.
pub enum Step<R, V> {
    /// The report was stale: read another one.
    ReadAgain(Exchange<R, V>),
    /// The exchange is over, with the decoded response or why it failed.
    Done(Result<RxPacket<R, V>, Error>),
}

impl<R: Register, V: Value<R>> Exchange<R, V> {
    /// Whether `response` starts with the request's first command id.
    pub open spec fn echoed(self, response: Seq<u8>) -> bool {
        response.len() > 0 && response[0] == self.packet.first_command_id
    }

    /// Encodes `packet`; gives the report to write and the exchange that
    /// waits for its response, or the reason the packet cannot be encoded.
    pub fn start(packet: TxPacket<R, V>) -> (r: Result<(Exchange<R, V>, Vec<u8>), Error>)
        ensures
            match packet.spec_request() {
                Ok(bytes) => r is Ok && r->Ok_0.1@ == bytes && r->Ok_0.0.packet == packet && r->Ok_0.0.reads == 0,
                Err(e) => r is Err && r->Err_0 == e,
            },
    {
        match packet.encode_checked() {
            Ok(bytes) => Ok((Exchange { packet, reads: 0 }, bytes)),
            Err(e) => Err(e),
        }
    }

    /// Takes the report just read. If it echoes the first command id, or if
    /// it was the last read allowed, the exchange ends with the report
    /// decoded; otherwise another report is to be read.
    pub fn on_response(self, response: &[u8]) -> (r: Step<R, V>)
        requires
            self.reads < MAX_READ_ATTEMPTS,
        ensures
            if self.echoed(response@) || self.reads + 1 >= MAX_READ_ATTEMPTS {
                r is Done && match RxPacket::<R, V>::spec_decode(self.packet, response@) {
                    Ok(rx) => r->Done_0 is Ok && r->Done_0->Ok_0@ == rx,
                    Err(e) => r->Done_0 is Err && r->Done_0->Err_0 == e,
                }
            } else {
                r is ReadAgain && r->ReadAgain_0.packet == self.packet && r->ReadAgain_0.reads == self.reads + 1
            },
    {
        let reads = self.reads + 1;
        let echoed = response.len() > 0 && response[0] == self.packet.first_command_id;
        if echoed || reads >= MAX_READ_ATTEMPTS {
            Step::Done(RxPacket::decode(self.packet, response))
        } else {
            Step::ReadAgain(Exchange { packet: self.packet, reads })
        }
    }
}

} // verus!
