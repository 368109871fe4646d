//! The packet codec.
//!
//! The host writes 64-byte reports and reads a 64-byte report back. A request
//! report is laid out as
//!
//!     LEN <id> <opcode> <register> [<data>...] <id> <opcode> ... <zero padding>
//!
//! where LEN counts the bytes after itself up to the end of the last command,
//! and each command carries a command id, counted up by one from the packet's
//! first id. The opcode is picked from the register's width: byte, word
//! (two bytes) or block (any other width). A write carries exactly as many
//! data bytes as the register is wide; no block length byte is sent.
//!
//! A response echoes each command id in order, from its first byte on. A
//! read's id is followed by as many bytes as the register is wide (again with
//! no block length byte); a write's id stands alone as its acknowledgement.

use vstd::prelude::*;
use crate::errors::Error;

verus! {

/// The size of a report, in either direction.
pub const PACKET_SIZE: usize = 64;

/// The command id that a session starts from; ids below it are reserved.
pub const FIRST_COMMAND_ID: u8 = 20;

/// The SMBus-style operations a command can carry.
#[derive(Clone, Copy, Debug, PartialEq, Eq, Structural)]
pub enum Opcode {
    WriteByte,
    ReadByte,
    WriteWord,
    ReadWord,
    WriteBlock,
    ReadBlock,
}

impl Opcode {
    /// The opcode's byte on the wire.
    pub open spec fn spec_byte(self) -> u8 {
        match self {
            Opcode::WriteByte => 0x06,
            Opcode::ReadByte => 0x07,
            Opcode::WriteWord => 0x08,
            Opcode::ReadWord => 0x09,
            Opcode::WriteBlock => 0x0a,
            Opcode::ReadBlock => 0x0b,
        }
    }

    /// The opcode for a read or a write of a register `width` bytes wide.
    pub open spec fn spec_for(write: bool, width: nat) -> Opcode {
        if width == 1 {
            if write { Opcode::WriteByte } else { Opcode::ReadByte }
        } else if width == 2 {
            if write { Opcode::WriteWord } else { Opcode::ReadWord }
        } else {
            if write { Opcode::WriteBlock } else { Opcode::ReadBlock }
        }
    }

    pub fn byte(self) -> (r: u8)
        ensures
            r == self.spec_byte(),
    {
        match self {
            Opcode::WriteByte => 0x06,
            Opcode::ReadByte => 0x07,
            Opcode::WriteWord => 0x08,
            Opcode::ReadWord => 0x09,
            Opcode::WriteBlock => 0x0a,
            Opcode::ReadBlock => 0x0b,
        }
    }

    /// Picks the opcode for a read (`write == false`) or a write of a
    /// register `width` bytes wide: byte for one byte, word for two, block
    /// for any other width.
    pub fn for_width(write: bool, width: usize) -> (r: Opcode)
        ensures
            r == Self::spec_for(write, width as nat),
            width == 1 ==> r == (if write { Opcode::WriteByte } else { Opcode::ReadByte }),
            width == 2 ==> r == (if write { Opcode::WriteWord } else { Opcode::ReadWord }),
            width != 1 && width != 2 ==> r == (if write { Opcode::WriteBlock } else { Opcode::ReadBlock }),
    {
        if width == 1 {
            if write { Opcode::WriteByte } else { Opcode::ReadByte }
        } else if width == 2 {
            if write { Opcode::WriteWord } else { Opcode::ReadWord }
        } else {
            if write { Opcode::WriteBlock } else { Opcode::ReadBlock }
        }
    }
}

/// A device's addressable register: an identifier on the wire and a fixed width.
pub trait Register: Copy {
    spec fn spec_wire_id(&self) -> u8;

    spec fn spec_size(&self) -> nat;

    /// The register's identifier on the wire.
    fn wire_id(&self) -> (r: u8)
        ensures
            r == self.spec_wire_id(),
    ;

    /// The register's width in bytes.
    fn size(&self) -> (r: usize)
        ensures
            r as nat == self.spec_size(),
    ;
}

/// A device's typed register contents, seen through its view.
pub trait Value<R: Register>: Sized + View {
    /// The bytes this value is written as, if it can be written at all.
    spec fn spec_encoding(&self) -> Option<Seq<u8>>;

    /// The value read out of `register` as the bytes `data`.
    spec fn spec_decode(register: R, data: Seq<u8>) -> Result<Self::V, Error>;

    /// Decodes the `register.size()` bytes read out of `register`.
    fn decode(register: R, data: &[u8]) -> (r: Result<Self, Error>)
        requires
            data@.len() == register.spec_size(),
        ensures
            match Self::spec_decode(register, data@) {
                Ok(v) => r is Ok && r->Ok_0@ == v,
                Err(e) => r is Err && r->Err_0 == e,
            },
    ;

    /// Appends the value's bytes to `buf` and returns how many there were,
    /// or returns `None` and leaves `buf` alone if the value cannot be written.
    fn encode(&self, buf: &mut Vec<u8>) -> (r: Option<usize>)
        ensures
            match self.spec_encoding() {
                Some(b) => r matches Some(n) && n == b.len() && final(buf)@ == old(buf)@ + b,
                None => r is None && final(buf)@ == old(buf)@,
            },
    ;
}

/// One register operation of a batch.
#[derive(Debug)]
pub enum Command<R, V> {
    Read(R),
    Write(R, V),
}

impl<R: Register, V: Value<R>> Command<R, V> {
    pub open spec fn spec_register(self) -> R {
        match self {
            Command::Read(r) => r,
            Command::Write(r, _) => r,
        }
    }

    pub open spec fn is_write(self) -> bool {
        self is Write
    }

    pub open spec fn spec_opcode(self) -> Opcode {
        Opcode::spec_for(self.is_write(), self.spec_register().spec_size())
    }

    /// The number of bytes the command takes in a request, its id not counted.
    pub open spec fn spec_len(self) -> nat {
        match self {
            Command::Read(_) => 2,
            Command::Write(r, _) => 2 + r.spec_size(),
        }
    }

    /// The command's bytes in a request, its id not counted: opcode, register
    /// and, for a write, the value, which must be exactly as wide as the register.
    pub open spec fn spec_encoding(self) -> Option<Seq<u8>> {
        match self {
            Command::Read(r) => Some(seq![self.spec_opcode().spec_byte(), r.spec_wire_id()]),
            Command::Write(r, v) => match v.spec_encoding() {
                Some(b) => if b.len() == r.spec_size() {
                    Some(seq![self.spec_opcode().spec_byte(), r.spec_wire_id()] + b)
                } else {
                    None
                },
                None => None,
            },
        }
    }

    /// The opcode the command is sent with.
    pub fn opcode(&self) -> (r: Opcode)
        ensures
            r == self.spec_opcode(),
    {
        match self {
            Command::Read(register) => Opcode::for_width(false, register.size()),
            Command::Write(register, _) => Opcode::for_width(true, register.size()),
        }
    }

    pub fn register(&self) -> (r: R)
        ensures
            r == self.spec_register(),
    {
        match self {
            Command::Read(register) => *register,
            Command::Write(register, _) => *register,
        }
    }

    /// Encodes the command, or returns `None` for a write whose value cannot
    /// be written to its register.
    pub fn encode(&self) -> (r: Option<Vec<u8>>)
        ensures
            match self.spec_encoding() {
                Some(b) => r is Some && r->0@ == b,
                None => r is None,
            },
    {
        let mut buf: Vec<u8> = Vec::new();
        buf.push(self.opcode().byte());
        buf.push(self.register().wire_id());
        assert(buf@ =~= seq![self.spec_opcode().spec_byte(), self.spec_register().spec_wire_id()]);
        match self {
            Command::Read(_) => Some(buf),
            Command::Write(register, value) => {
                match value.encode(&mut buf) {
                    Some(n) => {
                        if n == register.size() {
                            Some(buf)
                        } else {
                            None
                        }
                    },
                    None => None,
                }
            },
        }
    }

    /// The number of bytes the command takes in a request, its id not counted.
    pub fn len(&self) -> (r: usize)
        requires
            self.spec_len() <= usize::MAX,
        ensures
            r == self.spec_len(),
    {
        match self {
            Command::Read(_) => 2,
            Command::Write(register, _) => 2 + register.size(),
        }
    }
}

/// Puts `prefix` in front of a successful result and passes an error on.
pub open spec fn prepend<T>(prefix: Seq<T>, r: Result<Seq<T>, Error>) -> Result<Seq<T>, Error> {
    match r {
        Ok(rest) => Ok(prefix + rest),
        Err(e) => Err(e),
    }
}

pub proof fn lemma_prepend_empty<T>(r: Result<Seq<T>, Error>)
    ensures
        prepend(Seq::empty(), r) == r,
{
    if let Ok(rest) = r {
        assert(Seq::<T>::empty() + rest =~= rest);
    }
}

pub proof fn lemma_prepend_assoc<T>(a: Seq<T>, b: Seq<T>, r: Result<Seq<T>, Error>)
    ensures
        prepend(a, prepend(b, r)) == prepend(a + b, r),
{
    if let Ok(rest) = r {
        assert(a + (b + rest) =~= (a + b) + rest);
    }
}

/// A batch of commands that goes out as one report.
#[derive(Debug)]
pub struct TxPacket<R, V> {
    pub first_command_id: u8,
    pub commands: Vec<Command<R, V>>,
}

impl<R: Register, V: Value<R>> TxPacket<R, V> {
    /// The bytes that follow the length byte, for `cmds` numbered from `id`
    /// with `room` bytes left in the report; the first command that cannot
    /// be encoded, that does not fit, or whose id would pass 255 decides the
    /// error.
    pub open spec fn spec_body(cmds: Seq<Command<R, V>>, id: int, room: int) -> Result<Seq<u8>, Error>
        decreases cmds.len(),
    {
        if cmds.len() == 0 {
            Ok(Seq::empty())
        } else {
            match cmds[0].spec_encoding() {
                None => Err(Error::UnencodableValue),
                Some(b) => if 1 + b.len() > room {
                    Err(Error::PacketTooLong)
                } else if id > 255 {
                    Err(Error::CommandIdOverflow)
                } else {
                    prepend(seq![id as u8] + b, Self::spec_body(cmds.drop_first(), id + 1, room - 1 - b.len()))
                },
            }
        }
    }

    /// The whole report: length byte, commands, zero padding.
    pub open spec fn spec_request(self) -> Result<Seq<u8>, Error> {
        match Self::spec_body(self.commands@, self.first_command_id as int, PACKET_SIZE - 1) {
            Ok(body) => Ok(seq![body.len() as u8] + body + Seq::new((PACKET_SIZE - 1 - body.len()) as nat, |i: int| 0u8)),
            Err(e) => Err(e),
        }
    }

    /// The number of bytes of `cmds` with their ids.
    pub open spec fn spec_commands_len(cmds: Seq<Command<R, V>>) -> nat
        decreases cmds.len(),
    {
        if cmds.len() == 0 {
            0
        } else {
            Self::spec_commands_len(cmds.drop_last()) + 1 + cmds.last().spec_len()
        }
    }

    /// The length of the encoded packet before padding, its length byte included.
    pub open spec fn spec_len(self) -> nat {
        1 + Self::spec_commands_len(self.commands@)
    }

    pub fn new(first_command_id: u8, commands: Vec<Command<R, V>>) -> (r: TxPacket<R, V>)
        ensures
            r.first_command_id == first_command_id,
            r.commands@ == commands@,
    {
        TxPacket { first_command_id, commands }
    }

    /// Encodes the packet into one zero-padded report, or says why it cannot.
    pub fn encode_checked(&self) -> (r: Result<Vec<u8>, Error>)
        ensures
            match self.spec_request() {
                Ok(bytes) => r is Ok && r->Ok_0@ == bytes,
                Err(e) => r == Err::<Vec<u8>, Error>(e),
            },
    {
        let ghost cmds = self.commands@;
        let ghost first = self.first_command_id as int;
        let mut buf: Vec<u8> = Vec::new();
        buf.push(0);
        let mut id: usize = self.first_command_id as usize;
        let mut k: usize = 0;
        proof {
            assert(cmds.skip(0) =~= cmds);
            assert(buf@.drop_first() =~= Seq::<u8>::empty());
            lemma_prepend_empty(Self::spec_body(cmds, first, PACKET_SIZE - 1));
        }
        while k < self.commands.len()
            invariant
                cmds == self.commands@,
                first == self.first_command_id,
                k <= cmds.len(),
                id == first + k,
                1 <= buf@.len() <= PACKET_SIZE,
                buf@[0] == 0,
                Self::spec_body(cmds, first, PACKET_SIZE - 1) == prepend(
                    buf@.drop_first(),
                    Self::spec_body(cmds.skip(k as int), id as int, PACKET_SIZE - buf@.len()),
                ),
            decreases cmds.len() - k,
        {
            let ghost before = buf@;
            let ghost rest = cmds.skip(k as int);
            assert(rest[0] == cmds[k as int]);
            assert(rest.drop_first() =~= cmds.skip(k + 1));
            let bytes = match self.commands[k].encode() {
                Some(b) => b,
                None => {
                    return Err(Error::UnencodableValue);
                },
            };
            if bytes.len() >= PACKET_SIZE - buf.len() {
                return Err(Error::PacketTooLong);
            }
            if id > 255 {
                return Err(Error::CommandIdOverflow);
            }
            buf.push(id as u8);
            let mut j: usize = 0;
            while j < bytes.len()
                invariant
                    buf@ == before + seq![id as u8] + bytes@.take(j as int),
                    j <= bytes@.len(),
                    id <= 255,
                    before.len() + 1 + bytes@.len() <= PACKET_SIZE,
                decreases bytes@.len() - j,
            {
                buf.push(bytes[j]);
                j += 1;
                assert(bytes@.take(j as int) =~= bytes@.take(j - 1) + seq![bytes@[j - 1]]);
            }
            assert(bytes@.take(j as int) =~= bytes@);
            assert(buf@.drop_first() =~= before.drop_first() + (seq![id as u8] + bytes@));
            proof {
                lemma_prepend_assoc(
                    before.drop_first(),
                    seq![id as u8] + bytes@,
                    Self::spec_body(cmds.skip(k + 1), id + 1, PACKET_SIZE - buf@.len()),
                );
            }
            k += 1;
            id += 1;
        }
        assert(cmds.skip(k as int) =~= Seq::<Command<R, V>>::empty());
        let ghost body = buf@.drop_first();
        let n: usize = buf.len() - 1;
        buf.set(0, n as u8);
        while buf.len() < PACKET_SIZE
            invariant
                buf@.len() <= PACKET_SIZE,
                buf@.len() >= 1 + body.len(),
                buf@ =~= seq![body.len() as u8] + body + Seq::new((buf@.len() - 1 - body.len()) as nat, |i: int| 0u8),
            decreases PACKET_SIZE - buf@.len(),
        {
            buf.push(0);
        }
        Ok(buf)
    }

    /// Encodes the packet into one zero-padded report. Fails, rather than
    /// truncating, when the batch does not fit, when a write's value cannot
    /// be written to its register, or when a command id would pass 255.
    pub fn encode(&self) -> (r: Option<Vec<u8>>)
        ensures
            match self.spec_request() {
                Ok(bytes) => r is Some && r->0@ == bytes,
                Err(_) => r is None,
            },
            self.spec_len() > PACKET_SIZE ==> r is None,
    {
        proof {
            if self.spec_len() > PACKET_SIZE {
                Self::lemma_oversized_fails(*self);
            }
        }
        match self.encode_checked() {
            Ok(bytes) => Some(bytes),
            Err(_) => None,
        }
    }

    /// The length of the encoded packet before padding, its length byte included.
    pub fn len(&self) -> (r: usize)
        requires
            self.spec_len() <= usize::MAX,
        ensures
            r == self.spec_len(),
    {
        let ghost cmds = self.commands@;
        let mut total: usize = 1;
        let mut k: usize = 0;
        while k < self.commands.len()
            invariant
                cmds == self.commands@,
                k <= cmds.len(),
                total == 1 + Self::spec_commands_len(cmds.take(k as int)),
                1 + Self::spec_commands_len(cmds) <= usize::MAX,
            decreases cmds.len() - k,
        {
            proof {
                assert(cmds.take(k + 1).drop_last() =~= cmds.take(k as int));
                Self::lemma_commands_len_prefix(cmds, k + 1);
            }
            total = total + 1 + self.commands[k].len();
            k += 1;
        }
        assert(cmds.take(k as int) =~= cmds);
        total
    }

    /// The bytes of a prefix of the commands are no more than those of all of them.
    pub proof fn lemma_commands_len_prefix(cmds: Seq<Command<R, V>>, n: int)
        requires
            0 <= n <= cmds.len(),
        ensures
            Self::spec_commands_len(cmds.take(n)) <= Self::spec_commands_len(cmds),
        decreases cmds.len() - n,
    {
        if n < cmds.len() {
            Self::lemma_commands_len_prefix(cmds, n + 1);
            assert(cmds.take(n + 1).drop_last() =~= cmds.take(n));
        } else {
            assert(cmds.take(n) =~= cmds);
        }
    }
}

/// One command's part of a response: the value a read brought back, or a
/// write's acknowledgement.
#[derive(Debug)]
pub enum RxCommand<R, V> {
    Read(R, V),
    Write(R),
}

impl<R: Copy, V: View> View for RxCommand<R, V> {
    type V = RxCommand<R, V::V>;

    open spec fn view(&self) -> RxCommand<R, V::V> {
        match self {
            RxCommand::Read(r, v) => RxCommand::Read(*r, v@),
            RxCommand::Write(r) => RxCommand::Write(*r),
        }
    }
}

impl<R: Register, V: Value<R>> RxCommand<R, V> {
    /// Decodes a read of `register` from the bytes that follow its echoed id.
    pub open spec fn spec_decode_read(register: R, data: Seq<u8>) -> Result<RxCommand<R, V::V>, Error> {
        if data.len() < register.spec_size() {
            Err(Error::ResponseTooShort)
        } else {
            match V::spec_decode(register, data.take(register.spec_size() as int)) {
                Ok(v) => Ok(RxCommand::Read(register, v)),
                Err(e) => Err(e),
            }
        }
    }

    /// The number of bytes that follow the command's echoed id in a response.
    pub open spec fn spec_len(self) -> nat {
        match self {
            RxCommand::Read(r, _) => r.spec_size(),
            RxCommand::Write(_) => 0,
        }
    }

    /// The views of a sequence of entries.
    pub open spec fn views(s: Seq<RxCommand<R, V>>) -> Seq<RxCommand<R, V::V>> {
        s.map_values(|c: RxCommand<R, V>| c@)
    }

    /// Decodes a read of `register` from the bytes that follow its echoed
    /// id: the first `register.size()` of them are the value.
    pub fn decode_read(register: R, data: &[u8]) -> (r: Result<RxCommand<R, V>, Error>)
        ensures
            match Self::spec_decode_read(register, data@) {
                Ok(c) => r is Ok && r->Ok_0@ == c,
                Err(e) => r is Err && r->Err_0 == e,
            },
    {
        let size = register.size();
        if data.len() < size {
            return Err(Error::ResponseTooShort);
        }
        let payload = &data[0..size];
        assert(payload@ =~= data@.take(size as int));
        match V::decode(register, payload) {
            Ok(v) => Ok(RxCommand::Read(register, v)),
            Err(e) => Err(e),
        }
    }

    /// The number of bytes that follow the command's echoed id in a response.
    pub fn len(&self) -> (r: usize)
        ensures
            r == self.spec_len(),
    {
        match self {
            RxCommand::Read(register, _) => register.size(),
            RxCommand::Write(_) => 0,
        }
    }
}

/// A decoded response: one entry per command of the request, in order.
#[derive(Debug)]
pub struct RxPacket<R, V>(pub Vec<RxCommand<R, V>>);

impl<R: Register, V: Value<R>> View for RxPacket<R, V> {
    type V = Seq<RxCommand<R, V::V>>;

    open spec fn view(&self) -> Seq<RxCommand<R, V::V>> {
        RxCommand::<R, V>::views(self.0@)
    }
}

impl<R: Register, V: Value<R>> RxPacket<R, V> {
    /// Walks `cmds`, numbered from `id`, against the response bytes `data`.
    /// Each command's id must be echoed; a read is followed by its value.
    /// The first failure decides the error and nothing else is kept.
    pub open spec fn spec_walk(cmds: Seq<Command<R, V>>, id: int, data: Seq<u8>) -> Result<Seq<RxCommand<R, V::V>>, Error>
        decreases cmds.len(),
    {
        if cmds.len() == 0 {
            Ok(Seq::empty())
        } else if id > 255 {
            Err(Error::CommandIdOverflow)
        } else if data.len() == 0 {
            Err(Error::ResponseTooShort)
        } else if data[0] != id as u8 {
            Err(Error::BadCommandId { expected: id as u8, found: data[0] })
        } else {
            match cmds[0] {
                Command::Read(r) => match RxCommand::<R, V>::spec_decode_read(r, data.drop_first()) {
                    Ok(rx) => prepend(
                        seq![rx],
                        Self::spec_walk(cmds.drop_first(), id + 1, data.skip(1 + r.spec_size() as int)),
                    ),
                    Err(e) => Err(e),
                },
                Command::Write(r, _) => prepend(
                    seq![RxCommand::Write(r)],
                    Self::spec_walk(cmds.drop_first(), id + 1, data.drop_first()),
                ),
            }
        }
    }

    /// The response to `tx` decoded from `data`.
    pub open spec fn spec_decode(tx: TxPacket<R, V>, data: Seq<u8>) -> Result<Seq<RxCommand<R, V::V>>, Error> {
        Self::spec_walk(tx.commands@, tx.first_command_id as int, data)
    }

    /// The values of the reads among `rx`, in order.
    pub open spec fn spec_values(rx: Seq<RxCommand<R, V::V>>) -> Seq<V::V>
        decreases rx.len(),
    {
        if rx.len() == 0 {
            Seq::empty()
        } else {
            match rx.last() {
                RxCommand::Read(_, v) => Self::spec_values(rx.drop_last()).push(v),
                RxCommand::Write(_) => Self::spec_values(rx.drop_last()),
            }
        }
    }

    /// Decodes the response `data` to the request `tx_packet`. Fails as a
    /// whole, with nothing decoded kept, at the first command whose id is not
    /// echoed, whose value does not decode, or that the response is too short
    /// to hold.
    pub fn decode(tx_packet: TxPacket<R, V>, data: &[u8]) -> (r: Result<RxPacket<R, V>, Error>)
        ensures
            match Self::spec_decode(tx_packet, data@) {
                Ok(rx) => r is Ok && r->Ok_0@ == rx,
                Err(e) => r is Err && r->Err_0 == e,
            },
            tx_packet.commands@.len() > 0 && data@.len() > 0 && data@[0] != tx_packet.first_command_id
                ==> r == Err::<RxPacket<R, V>, Error>(
                Error::BadCommandId { expected: tx_packet.first_command_id, found: data@[0] },
            ),
    {
        let ghost cmds = tx_packet.commands@;
        let ghost first = tx_packet.first_command_id as int;
        let mut commands = tx_packet.commands;
        let mut out: Vec<RxCommand<R, V>> = Vec::new();
        let mut id: usize = tx_packet.first_command_id as usize;
        let mut i: usize = 0;
        let mut k: usize = 0;
        proof {
            assert(RxCommand::<R, V>::views(out@) =~= Seq::<RxCommand<R, V::V>>::empty());
            if cmds.len() > 0 && data@.len() > 0 && data@[0] != first {
                assert(Self::spec_walk(cmds, first, data@) == Err::<Seq<RxCommand<R, V::V>>, Error>(
                    Error::BadCommandId { expected: first as u8, found: data@[0] },
                ));
            }
            assert(cmds.skip(0) =~= cmds);
            assert(data@.skip(0) =~= data@);
            lemma_prepend_empty(Self::spec_walk(cmds, first, data@));
        }
        while commands.len() > 0
            invariant
                cmds == tx_packet.commands@,
                first == tx_packet.first_command_id,
                cmds.len() > 0 && data@.len() > 0 && data@[0] != first ==> Self::spec_walk(cmds, first, data@)
                    == Err::<Seq<RxCommand<R, V::V>>, Error>(
                    Error::BadCommandId { expected: first as u8, found: data@[0] },
                ),
                commands@ == cmds.skip(k as int),
                k <= cmds.len(),
                i <= data@.len(),
                id == first + k,
                Self::spec_walk(cmds, first, data@) == prepend(
                    RxCommand::<R, V>::views(out@),
                    Self::spec_walk(commands@, id as int, data@.skip(i as int)),
                ),
            decreases commands@.len(),
        {
            let ghost rest = data@.skip(i as int);
            let ghost suffix = commands@;
            let c = commands.remove(0);
            assert(commands@ =~= cmds.skip(k + 1));
            assert(suffix[0] == c && suffix.drop_first() =~= commands@);
            if id > 255 {
                return Err(Error::CommandIdOverflow);
            }
            if i >= data.len() {
                return Err(Error::ResponseTooShort);
            }
            if data[i] != id as u8 {
                return Err(Error::BadCommandId { expected: id as u8, found: data[i] });
            }
            let ghost before = RxCommand::<R, V>::views(out@);
            match c {
                Command::Read(register) => {
                    let tail = &data[i + 1..data.len()];
                    assert(tail@ =~= rest.drop_first());
                    let rx = match RxCommand::<R, V>::decode_read(register, tail) {
                        Ok(rx) => rx,
                        Err(e) => {
                            return Err(e);
                        },
                    };
                    let n = rx.len();
                    assert(data@.skip(i + 1 + n) =~= rest.skip(1 + register.spec_size() as int));
                    let ghost rv = rx@;
                    out.push(rx);
                    i = i + 1 + n;
                    proof {
                        lemma_prepend_assoc(before, seq![rv], Self::spec_walk(commands@, id + 1, data@.skip(i as int)));
                        assert(RxCommand::<R, V>::views(out@) =~= before + seq![rv]);
                    }
                },
                Command::Write(register, _) => {
                    assert(data@.skip(i + 1) =~= rest.drop_first());
                    out.push(RxCommand::Write(register));
                    i = i + 1;
                    proof {
                        lemma_prepend_assoc(
                            before,
                            seq![RxCommand::Write(register)],
                            Self::spec_walk(commands@, id + 1, data@.skip(i as int)),
                        );
                        assert(RxCommand::<R, V>::views(out@) =~= before + seq![RxCommand::<R, V::V>::Write(register)]);
                    }
                },
            }
            k += 1;
            id += 1;
        }
        proof {
            let views = RxCommand::<R, V>::views(out@);
            assert(views + Seq::<RxCommand<R, V::V>>::empty() =~= views);
        }
        Ok(RxPacket(out))
    }

    /// The values of the reads, in the order of the commands that made them.
    pub fn read_values(self) -> (r: Vec<V>)
        ensures
            r@.map_values(|v: V| v@) == Self::spec_values(self@),
    {
        let ghost all = self@;
        let mut rest = self.0;
        let mut values: Vec<V> = Vec::new();
        let ghost mut k: int = 0;
        while rest.len() > 0
            invariant
                RxCommand::<R, V>::views(rest@) == all.skip(k),
                0 <= k <= all.len(),
                values@.map_values(|v: V| v@) == Self::spec_values(all.take(k)),
            decreases rest@.len(),
        {
            let ghost before = rest@;
            let ghost prev = values@;
            let c = rest.remove(0);
            assert(RxCommand::<R, V>::views(before).len() == before.len());
            assert(all.skip(k)[0] == all[k]);
            assert(all.take(k + 1).drop_last() =~= all.take(k));
            assert(RxCommand::<R, V>::views(before)[0] == c@);
            assert(all.take(k + 1).last() == c@);
            match c {
                RxCommand::Read(_, v) => {
                    values.push(v);
                    assert(values@.map_values(|v: V| v@) =~= prev.map_values(|v: V| v@).push(v@));
                },
                RxCommand::Write(_) => {},
            }
            proof {
                k = k + 1;
            }
            assert(rest@ =~= before.drop_first());
            assert forall|i: int| 0 <= i < rest@.len() implies #[trigger] rest@[i]@ == all.skip(k)[i] by {
                assert(rest@[i] == before[i + 1]);
                assert(RxCommand::<R, V>::views(before)[i + 1] == before[i + 1]@);
            }
            assert(RxCommand::<R, V>::views(rest@) =~= all.skip(k));
        }
        assert(all.take(k) =~= all);
        values
    }
}

impl<R: Register, V: Value<R>> TxPacket<R, V> {
    /// Where command `k`'s id stands in the bytes after the length byte.
    pub open spec fn spec_offset(cmds: Seq<Command<R, V>>, k: int) -> nat {
        Self::spec_commands_len(cmds.take(k))
    }

    /// The byte count of a non-empty batch, taken from the front.
    pub proof fn lemma_commands_len_front(cmds: Seq<Command<R, V>>)
        requires
            cmds.len() > 0,
        ensures
            Self::spec_commands_len(cmds) == 1 + cmds[0].spec_len() + Self::spec_commands_len(cmds.drop_first()),
        decreases cmds.len(),
    {
        if cmds.len() == 1 {
            assert(cmds.drop_last() =~= Seq::<Command<R, V>>::empty());
            assert(cmds.drop_first() =~= Seq::<Command<R, V>>::empty());
        } else {
            Self::lemma_commands_len_front(cmds.drop_last());
            assert(cmds.drop_first().drop_last() =~= cmds.drop_last().drop_first());
        }
    }

    /// What a successful body holds: each command's id at its offset, and as
    /// many bytes as the commands take, within the room given.
    pub proof fn lemma_body_layout(cmds: Seq<Command<R, V>>, id: int, room: int)
        requires
            Self::spec_body(cmds, id, room) is Ok,
            room >= 0,
        ensures
            ({
                let b = Self::spec_body(cmds, id, room)->Ok_0;
                &&& b.len() == Self::spec_commands_len(cmds)
                &&& b.len() <= room
                &&& cmds.len() > 0 ==> id + cmds.len() - 1 <= 255
                &&& forall|k: int| 0 <= k < cmds.len() ==> #[trigger] Self::spec_offset(cmds, k) < b.len()
                    && b[Self::spec_offset(cmds, k) as int] == (id + k) as u8
            }),
        decreases cmds.len(),
    {
        let b = Self::spec_body(cmds, id, room)->Ok_0;
        if cmds.len() == 0 {
            assert(Self::spec_commands_len(cmds) == 0);
        } else {
            let e = cmds[0].spec_encoding()->0;
            let tail = cmds.drop_first();
            let room2 = room - 1 - e.len();
            Self::lemma_body_layout(tail, id + 1, room2);
            let rest = Self::spec_body(tail, id + 1, room2)->Ok_0;
            assert(b == seq![id as u8] + e + rest);
            assert(e.len() == cmds[0].spec_len());
            Self::lemma_commands_len_front(cmds);
            assert forall|k: int| 0 <= k < cmds.len() implies #[trigger] Self::spec_offset(cmds, k) < b.len()
                && b[Self::spec_offset(cmds, k) as int] == (id + k) as u8 by {
                if k == 0 {
                    assert(cmds.take(0).len() == 0);
                    assert(Self::spec_offset(cmds, 0) == 0);
                } else {
                    let pre = cmds.take(k);
                    Self::lemma_commands_len_front(pre);
                    assert(pre.drop_first() =~= tail.take(k - 1));
                    assert(pre[0] == cmds[0]);
                    assert(Self::spec_offset(cmds, k) == 1 + e.len() + Self::spec_offset(tail, k - 1));
                    assert(Self::spec_offset(tail, k - 1) < rest.len());
                }
            }
        }
    }

    /// Command ids go up by exactly one per command from the packet's first
    /// id, whatever the widths of the registers: in an encoded report, the id
    /// of command `k` is the first id plus `k`, and stands right after the
    /// bytes of the commands before it.
    pub proof fn lemma_command_ids(tx: TxPacket<R, V>)
        requires
            tx.spec_request() is Ok,
        ensures
            forall|k: int| 0 <= k < tx.commands@.len() ==>
                1 + #[trigger] Self::spec_offset(tx.commands@, k) < PACKET_SIZE
                && tx.spec_request()->Ok_0[1 + Self::spec_offset(tx.commands@, k) as int]
                == (tx.first_command_id + k) as u8,
    {
        let cmds = tx.commands@;
        Self::lemma_body_layout(cmds, tx.first_command_id as int, PACKET_SIZE - 1);
        let body = Self::spec_body(cmds, tx.first_command_id as int, PACKET_SIZE - 1)->Ok_0;
        let req = tx.spec_request()->Ok_0;
        assert forall|k: int| 0 <= k < cmds.len() implies 1 + #[trigger] Self::spec_offset(cmds, k) < PACKET_SIZE
            && req[1 + Self::spec_offset(cmds, k) as int] == (tx.first_command_id + k) as u8 by {
            assert(Self::spec_offset(cmds, k) < body.len());
        }
    }

    /// A batch whose commands, ids and length byte take more than one report
    /// fails to encode rather than being cut short.
    pub proof fn lemma_oversized_fails(tx: TxPacket<R, V>)
        requires
            tx.spec_len() > PACKET_SIZE,
        ensures
            tx.spec_request() is Err,
    {
        if Self::spec_body(tx.commands@, tx.first_command_id as int, PACKET_SIZE - 1) is Ok {
            Self::lemma_body_layout(tx.commands@, tx.first_command_id as int, PACKET_SIZE - 1);
        }
    }
}

impl<R: Register, V: Value<R>> RxPacket<R, V> {
    /// The response a device gives to `cmds`, numbered from `id`: each id
    /// echoed, a read's followed by its bytes in `payloads`.
    pub open spec fn spec_echo(cmds: Seq<Command<R, V>>, id: int, payloads: Seq<Seq<u8>>) -> Seq<u8>
        decreases cmds.len(),
    {
        if cmds.len() == 0 {
            Seq::empty()
        } else {
            let own = match cmds[0] {
                Command::Read(_) => payloads[0],
                Command::Write(_, _) => Seq::empty(),
            };
            seq![id as u8] + own + Self::spec_echo(cmds.drop_first(), id + 1, payloads.drop_first())
        }
    }

    /// Each read's payload is as wide as its register and decodes.
    pub open spec fn payloads_decode(cmds: Seq<Command<R, V>>, payloads: Seq<Seq<u8>>) -> bool {
        &&& payloads.len() == cmds.len()
        &&& forall|k: int| 0 <= k < cmds.len() && (#[trigger] cmds[k]) is Read ==> {
            &&& payloads[k].len() == cmds[k].spec_register().spec_size()
            &&& V::spec_decode(cmds[k].spec_register(), payloads[k]) is Ok
        }
    }

    /// One entry per command: a read with the value decoded from its payload,
    /// or a write's acknowledgement.
    pub open spec fn spec_expected(cmds: Seq<Command<R, V>>, payloads: Seq<Seq<u8>>) -> Seq<RxCommand<R, V::V>> {
        Seq::new(cmds.len(), |k: int| match cmds[k] {
            Command::Read(r) => RxCommand::Read(r, V::spec_decode(r, payloads[k])->Ok_0),
            Command::Write(r, _) => RxCommand::Write(r),
        })
    }

    pub proof fn lemma_walk_echo(
        cmds: Seq<Command<R, V>>,
        id: int,
        room: int,
        payloads: Seq<Seq<u8>>,
        padding: Seq<u8>,
    )
        requires
            TxPacket::<R, V>::spec_body(cmds, id, room) is Ok,
            room >= 0,
            Self::payloads_decode(cmds, payloads),
        ensures
            Self::spec_walk(cmds, id, Self::spec_echo(cmds, id, payloads) + padding) == Ok::<Seq<RxCommand<R, V::V>>, Error>(
                Self::spec_expected(cmds, payloads),
            ),
        decreases cmds.len(),
    {
        let data = Self::spec_echo(cmds, id, payloads) + padding;
        if cmds.len() == 0 {
            assert(Self::spec_expected(cmds, payloads) =~= Seq::empty());
        } else {
            TxPacket::<R, V>::lemma_body_layout(cmds, id, room);
            let tail = cmds.drop_first();
            let ptail = payloads.drop_first();
            let e = cmds[0].spec_encoding()->0;
            assert(Self::payloads_decode(tail, ptail)) by {
                assert forall|k: int| 0 <= k < tail.len() && (#[trigger] tail[k]) is Read implies {
                    &&& ptail[k].len() == tail[k].spec_register().spec_size()
                    &&& V::spec_decode(tail[k].spec_register(), ptail[k]) is Ok
                } by {
                    assert(tail[k] == cmds[k + 1]);
                }
            }
            Self::lemma_walk_echo(tail, id + 1, room - 1 - e.len(), ptail, padding);
            let rest = Self::spec_echo(tail, id + 1, ptail) + padding;
            let exp = Self::spec_expected(cmds, payloads);
            let exp_tail = Self::spec_expected(tail, ptail);
            assert(data[0] == id as u8);
            match cmds[0] {
                Command::Read(r) => {
                    assert(cmds[0] is Read);
                    let p = payloads[0];
                    assert(data.drop_first() =~= p + rest);
                    assert((p + rest).take(r.spec_size() as int) =~= p);
                    assert(data.skip(1 + r.spec_size() as int) =~= rest);
                    assert(exp =~= seq![RxCommand::Read(r, V::spec_decode(r, p)->Ok_0)] + exp_tail);
                },
                Command::Write(r, _) => {
                    assert(data.drop_first() =~= rest);
                    assert(exp =~= seq![RxCommand::Write(r)] + exp_tail);
                },
            }
        }
    }

    /// Round trip: when a batch encodes, a response that echoes each of its
    /// command ids, each read's id followed by bytes its register decodes,
    /// decodes to one entry per command in the batch's order, each read
    /// carrying exactly the value decoded from its bytes; whatever follows
    /// the last command is ignored.
    pub proof fn lemma_round_trip(tx: TxPacket<R, V>, payloads: Seq<Seq<u8>>, padding: Seq<u8>)
        requires
            tx.spec_request() is Ok,
            Self::payloads_decode(tx.commands@, payloads),
        ensures
            Self::spec_decode(tx, Self::spec_echo(tx.commands@, tx.first_command_id as int, payloads) + padding)
                == Ok::<Seq<RxCommand<R, V::V>>, Error>(Self::spec_expected(tx.commands@, payloads)),
    {
        Self::lemma_walk_echo(tx.commands@, tx.first_command_id as int, PACKET_SIZE - 1, payloads, padding);
    }
}

} // verus!
