//! Decoding of SLCAN commands.
use vstd::prelude::*;

use crate::device::{bitrate_code, bitrate_of_code, Bitrate};
use crate::error::{kind_of, Error, ErrorKind};
use crate::frame::CanFrame;
use crate::hex::{
    hex_text, hex_value, is_hex_digit, lemma_hex_text_digits, lemma_hex_text_value, pow16, unhex,
};
use crate::identifier::{ExtIdentifier, Identifier, MAX_EXTENDED_ID, MAX_STANDARD_ID};

pub use crate::framer::CommandBuf;

verus! {

/// The carriage return that ends every command.
pub const CR: u8 = 0x0D;

/// Longest command on the wire: `T`, 8 identifier digits, a length digit, 16 payload digits
/// and the terminator.
pub const MAX_COMMAND_LEN: usize = 27;

/// A command sent from the host to the SLCAN device.
#[derive(Debug, PartialEq, Eq)]
#[non_exhaustive]
#[allow(inconsistent_fields)]
pub enum Command {
    SetupWithBitrate { bitrate: Bitrate },
    Open,
    Close,
    TxStandard { identifier: Identifier, frame: CanFrame },
    /// Transmit an extended CAN frame.
    TxExt { identifier: ExtIdentifier, frame: CanFrame },
    TxStandardRtr { identifier: Identifier, len: u8 },
    TxExtRtr { identifier: ExtIdentifier, len: u8 },
    ReadStatus,
    ReadVersion,
    ReadSerial,
    SetRxTimestamp { timestamp: bool },
}

/// Whether every byte of `s` is a hex digit.
pub open spec fn all_hex(s: Seq<u8>) -> bool {
    forall|i: int| 0 <= i < s.len() ==> is_hex_digit(#[trigger] s[i])
}

/// Reading a field of `n` hex digits from the front of `s`: its value and what follows, or the
/// first failure met on the way, a byte that is no hex digit (`Decode`) or the end of the input
/// (`Eof`).
pub open spec fn hex_field(s: Seq<u8>, n: nat) -> Result<(nat, Seq<u8>), ErrorKind> {
    if !all_hex(s.take(if s.len() < n { s.len() as int } else { n as int })) {
        Err(ErrorKind::Decode)
    } else if s.len() < n {
        Err(ErrorKind::Eof)
    } else {
        Ok((hex_value(s.take(n as int)), s.skip(n as int)))
    }
}

/// The bytes spelled by hex digit pairs.
pub open spec fn payload_of(digits: Seq<u8>) -> Seq<u8> {
    Seq::new(digits.len() / 2, |i: int| hex_value(digits.subrange(2 * i, 2 * i + 2)) as u8)
}

/// Reading a payload of `len` bytes, as `2 * len` hex digits, from the front of `s`.
pub open spec fn payload_field(s: Seq<u8>, len: nat) -> Result<(CanFrame, Seq<u8>), ErrorKind> {
    match hex_field(s, 2 * len) {
        Err(e) => Err(e),
        Ok((_, rest)) => Ok((CanFrame::with_payload(payload_of(s.take(2 * len as int))), rest)),
    }
}

/// Reading a standard identifier (3 digits) from the front of `s`.
pub open spec fn identifier_field(s: Seq<u8>) -> Result<(Identifier, Seq<u8>), ErrorKind> {
    match hex_field(s, 3) {
        Err(e) => Err(e),
        Ok((v, rest)) => if v > MAX_STANDARD_ID {
            Err(ErrorKind::Decode)
        } else {
            Ok((Identifier::with_raw(v), rest))
        },
    }
}

/// Reading an extended identifier (8 digits) from the front of `s`.
pub open spec fn ext_identifier_field(s: Seq<u8>) -> Result<(ExtIdentifier, Seq<u8>), ErrorKind> {
    match hex_field(s, 8) {
        Err(e) => Err(e),
        Ok((v, rest)) => if v > MAX_EXTENDED_ID {
            Err(ErrorKind::Decode)
        } else {
            Ok((ExtIdentifier::with_raw(v), rest))
        },
    }
}

/// Reading a length digit, 0 to 8, from the front of `s`.
pub open spec fn len_field(s: Seq<u8>) -> Result<(nat, Seq<u8>), ErrorKind> {
    match hex_field(s, 1) {
        Err(e) => Err(e),
        Ok((v, rest)) => if v > 8 {
            Err(ErrorKind::Decode)
        } else {
            Ok((v, rest))
        },
    }
}

/// Reading the fields that follow opcode `op`: the command and what follows it.
#[verifier::opaque]
pub open spec fn fields_spec(op: u8, s: Seq<u8>) -> Result<(Command, Seq<u8>), ErrorKind> {
    if op == 0x53 {
        if s.len() == 0 {
            Err(ErrorKind::Eof)
        } else {
            match bitrate_of_code(s[0]) {
                Some(bitrate) => Ok((Command::SetupWithBitrate { bitrate }, s.drop_first())),
                None => Err(ErrorKind::Decode),
            }
        }
    } else if op == 0x4F {
        Ok((Command::Open, s))
    } else if op == 0x43 {
        Ok((Command::Close, s))
    } else if op == 0x74 || op == 0x72 {
        match identifier_field(s) {
            Err(e) => Err(e),
            Ok((identifier, r1)) => match len_field(r1) {
                Err(e) => Err(e),
                Ok((len, r2)) => if op == 0x72 {
                    Ok((Command::TxStandardRtr { identifier, len: len as u8 }, r2))
                } else {
                    match payload_field(r2, len) {
                        Err(e) => Err(e),
                        Ok((frame, r3)) => Ok((Command::TxStandard { identifier, frame }, r3)),
                    }
                },
            },
        }
    } else if op == 0x54 || op == 0x52 {
        match ext_identifier_field(s) {
            Err(e) => Err(e),
            Ok((identifier, r1)) => match len_field(r1) {
                Err(e) => Err(e),
                Ok((len, r2)) => if op == 0x52 {
                    Ok((Command::TxExtRtr { identifier, len: len as u8 }, r2))
                } else {
                    match payload_field(r2, len) {
                        Err(e) => Err(e),
                        Ok((frame, r3)) => Ok((Command::TxExt { identifier, frame }, r3)),
                    }
                },
            },
        }
    } else if op == 0x46 {
        Ok((Command::ReadStatus, s))
    } else if op == 0x56 {
        Ok((Command::ReadVersion, s))
    } else if op == 0x4E {
        Ok((Command::ReadSerial, s))
    } else if op == 0x5A {
        if s.len() == 0 {
            Err(ErrorKind::Eof)
        } else if s[0] == 0x30 {
            Ok((Command::SetRxTimestamp { timestamp: false }, s.drop_first()))
        } else if s[0] == 0x31 {
            Ok((Command::SetRxTimestamp { timestamp: true }, s.drop_first()))
        } else {
            Err(ErrorKind::Decode)
        }
    } else {
        Err(ErrorKind::Decode)
    }
}

/// The command spelled by `s`, which must end with the terminator and hold nothing after it;
/// or the first failure met reading it from the front.
pub open spec fn decode_spec(s: Seq<u8>) -> Result<Command, ErrorKind> {
    if s.len() == 0 {
        Err(ErrorKind::Eof)
    } else {
        match fields_spec(s[0], s.drop_first()) {
            Err(e) => Err(e),
            Ok((cmd, rest)) => if rest.len() == 0 {
                Err(ErrorKind::Eof)
            } else if rest[0] != CR || rest.len() > 1 {
                Err(ErrorKind::Decode)
            } else {
                Ok(cmd)
            },
        }
    }
}

/// Reading a field back from the digits written for it.
proof fn lemma_hex_field_of_text(v: nat, n: nat, rest: Seq<u8>)
    requires
        v < pow16(n),
    ensures
        hex_field(hex_text(v, n) + rest, n) == Ok::<(nat, Seq<u8>), ErrorKind>((v, rest)),
{
    let t = hex_text(v, n);
    lemma_hex_text_digits(v, n);
    lemma_hex_text_value(v, n);
    assert((t + rest).take(n as int) =~= t);
    assert((t + rest).skip(n as int) =~= rest);
}

/// The digits of a payload are twice as many as its bytes, and read back as the payload.
proof fn lemma_payload_text(p: Seq<u8>)
    ensures
        payload_text(p).len() == 2 * p.len(),
        all_hex(payload_text(p)),
        payload_of(payload_text(p)) == p,
    decreases p.len(),
{
    if p.len() > 0 {
        let q = p.drop_last();
        lemma_payload_text(q);
        let last = hex_text(p.last() as nat, 2);
        lemma_hex_text_digits(p.last() as nat, 2);
        reveal_with_fuel(pow16, 3);
        lemma_hex_text_value(p.last() as nat, 2);
        let t = payload_text(p);
        let u = payload_text(q);
        assert(t == u + last);
        assert forall|i: int| 0 <= i < t.len() implies is_hex_digit(#[trigger] t[i]) by {
            if i < u.len() {
                assert(t[i] == u[i]);
            } else {
                assert(t[i] == last[i - u.len()]);
            }
        }
        assert forall|i: int| 0 <= i < p.len() implies #[trigger] payload_of(t)[i] == p[i] by {
            if i < q.len() {
                assert(t.subrange(2 * i, 2 * i + 2) =~= u.subrange(2 * i, 2 * i + 2));
                assert(payload_of(u)[i] == q[i]);
            } else {
                assert(t.subrange(2 * i, 2 * i + 2) =~= last);
            }
        }
        assert(payload_of(t) =~= p);
    } else {
        assert(payload_of(payload_text(p)) =~= p);
    }
}


/// The hex digits of each payload byte, two per byte, in order.
pub open spec fn payload_text(p: Seq<u8>) -> Seq<u8>
    decreases p.len(),
{
    if p.len() == 0 {
        Seq::empty()
    } else {
        payload_text(p.drop_last()) + hex_text(p.last() as nat, 2)
    }
}

/// The bytes that encode a command, terminator included.
pub open spec fn command_text(c: Command) -> Seq<u8> {
    match c {
        Command::SetupWithBitrate { bitrate } => seq![0x53u8, bitrate_code(bitrate), CR],
        Command::Open => seq![0x4Fu8, CR],
        Command::Close => seq![0x43u8, CR],
        Command::TxStandard { identifier, frame } => seq![0x74u8] + hex_text(identifier@, 3)
            + hex_text(frame@.len(), 1) + payload_text(frame@) + seq![CR],
        Command::TxExt { identifier, frame } => seq![0x54u8] + hex_text(identifier@, 8)
            + hex_text(frame@.len(), 1) + payload_text(frame@) + seq![CR],
        Command::TxStandardRtr { identifier, len } => seq![0x72u8] + hex_text(identifier@, 3)
            + hex_text(len as nat, 1) + seq![CR],
        Command::TxExtRtr { identifier, len } => seq![0x52u8] + hex_text(identifier@, 8)
            + hex_text(len as nat, 1) + seq![CR],
        Command::ReadStatus => seq![0x46u8, CR],
        Command::ReadVersion => seq![0x56u8, CR],
        Command::ReadSerial => seq![0x4Eu8, CR],
        Command::SetRxTimestamp { timestamp } => seq![
            0x5Au8,
            if timestamp {
                0x31u8
            } else {
                0x30u8
            },
            CR,
        ],
    }
}

/// A command as decoding makes it: identifiers in range, frames well formed, and requested
/// lengths at most 8.
pub open spec fn valid_command(c: Command) -> bool {
    match c {
        Command::TxStandard { identifier, frame } => identifier@ <= MAX_STANDARD_ID
            && frame.wf(),
        Command::TxExt { identifier, frame } => identifier@ <= MAX_EXTENDED_ID && frame.wf(),
        Command::TxStandardRtr { identifier, len } => identifier@ <= MAX_STANDARD_ID && len <= 8,
        Command::TxExtRtr { identifier, len } => identifier@ <= MAX_EXTENDED_ID && len <= 8,
        _ => true,
    }
}

/// A standard data frame decodes back from its encoding.
proof fn lemma_decode_tx_standard(identifier: Identifier, frame: CanFrame)
    requires
        identifier@ <= MAX_STANDARD_ID,
        frame.wf(),
    ensures
        decode_spec(command_text(Command::TxStandard { identifier, frame })) == Ok::<
            Command,
            ErrorKind,
        >(Command::TxStandard { identifier, frame }),
{
    reveal(fields_spec);
    let s = command_text(Command::TxStandard { identifier, frame });
    let p = frame@;
    frame.lemma_wf_len();
    reveal_with_fuel(pow16, 4);
    let tail = payload_text(p) + seq![CR];
    let r1 = hex_text(p.len(), 1) + tail;
    assert(s.drop_first() =~= hex_text(identifier@, 3) + r1);
    lemma_hex_field_of_text(identifier@, 3, r1);
    Identifier::lemma_with_raw(identifier);
    lemma_hex_field_of_text(p.len(), 1, tail);
    lemma_payload_text(p);
    assert(tail.take(2 * p.len() as int) =~= payload_text(p));
    assert(tail.skip(2 * p.len() as int) =~= seq![CR]);
    CanFrame::lemma_with_payload(frame);
}

/// An extended data frame decodes back from its encoding.
proof fn lemma_decode_tx_ext(identifier: ExtIdentifier, frame: CanFrame)
    requires
        identifier@ <= MAX_EXTENDED_ID,
        frame.wf(),
    ensures
        decode_spec(command_text(Command::TxExt { identifier, frame })) == Ok::<
            Command,
            ErrorKind,
        >(Command::TxExt { identifier, frame }),
{
    reveal(fields_spec);
    let s = command_text(Command::TxExt { identifier, frame });
    let p = frame@;
    frame.lemma_wf_len();
    reveal_with_fuel(pow16, 9);
    let tail = payload_text(p) + seq![CR];
    let r1 = hex_text(p.len(), 1) + tail;
    assert(s.drop_first() =~= hex_text(identifier@, 8) + r1);
    lemma_hex_field_of_text(identifier@, 8, r1);
    ExtIdentifier::lemma_with_raw(identifier);
    lemma_hex_field_of_text(p.len(), 1, tail);
    lemma_payload_text(p);
    assert(tail.take(2 * p.len() as int) =~= payload_text(p));
    assert(tail.skip(2 * p.len() as int) =~= seq![CR]);
    CanFrame::lemma_with_payload(frame);
}

/// A standard remote frame request decodes back from its encoding.
proof fn lemma_decode_tx_standard_rtr(identifier: Identifier, len: u8)
    requires
        identifier@ <= MAX_STANDARD_ID,
        len <= 8,
    ensures
        decode_spec(command_text(Command::TxStandardRtr { identifier, len })) == Ok::<
            Command,
            ErrorKind,
        >(Command::TxStandardRtr { identifier, len }),
{
    reveal(fields_spec);
    let s = command_text(Command::TxStandardRtr { identifier, len });
    reveal_with_fuel(pow16, 4);
    let r1 = hex_text(len as nat, 1) + seq![CR];
    assert(s.drop_first() =~= hex_text(identifier@, 3) + r1);
    lemma_hex_field_of_text(identifier@, 3, r1);
    Identifier::lemma_with_raw(identifier);
    lemma_hex_field_of_text(len as nat, 1, seq![CR]);
}

/// An extended remote frame request decodes back from its encoding.
proof fn lemma_decode_tx_ext_rtr(identifier: ExtIdentifier, len: u8)
    requires
        identifier@ <= MAX_EXTENDED_ID,
        len <= 8,
    ensures
        decode_spec(command_text(Command::TxExtRtr { identifier, len })) == Ok::<
            Command,
            ErrorKind,
        >(Command::TxExtRtr { identifier, len }),
{
    reveal(fields_spec);
    let s = command_text(Command::TxExtRtr { identifier, len });
    reveal_with_fuel(pow16, 9);
    let r1 = hex_text(len as nat, 1) + seq![CR];
    assert(s.drop_first() =~= hex_text(identifier@, 8) + r1);
    lemma_hex_field_of_text(identifier@, 8, r1);
    ExtIdentifier::lemma_with_raw(identifier);
    lemma_hex_field_of_text(len as nat, 1, seq![CR]);
}

/// Every command decodes back from its encoding.
pub proof fn lemma_decode_command_text(c: Command)
    requires
        valid_command(c),
    ensures
        decode_spec(command_text(c)) == Ok::<Command, ErrorKind>(c),
{
    reveal(fields_spec);
    let s = command_text(c);
    let end = seq![CR];
    match c {
        Command::TxStandard { identifier, frame } => lemma_decode_tx_standard(identifier, frame),
        Command::TxExt { identifier, frame } => lemma_decode_tx_ext(identifier, frame),
        Command::TxStandardRtr { identifier, len } => lemma_decode_tx_standard_rtr(
            identifier,
            len,
        ),
        Command::TxExtRtr { identifier, len } => lemma_decode_tx_ext_rtr(identifier, len),
        Command::SetupWithBitrate { bitrate } => {
            assert(s.drop_first() =~= seq![bitrate_code(bitrate), CR]);
            assert(s.drop_first().drop_first() =~= end);
        },
        Command::SetRxTimestamp { timestamp } => {
            assert(s.drop_first().drop_first() =~= end);
        },
        _ => {
            assert(s.drop_first() =~= end);
        },
    }
}

/// `16^8`, the bound of an 8-digit field.
proof fn lemma_pow16_bound(i: nat)
    requires
        i <= 8,
    ensures
        pow16(i) <= pow16(8),
        pow16(8) == 0x1_0000_0000,
    decreases 8 - i,
{
    reveal_with_fuel(pow16, 9);
    if i < 8 {
        lemma_pow16_bound(i + 1);
    }
}

/// A field read in two parts fails as its second part does, once the first part has been read.
proof fn lemma_hex_field_split(s: Seq<u8>, m: nat, n: nat)
    requires
        m <= n,
        m <= s.len(),
        all_hex(s.take(m as int)),
        hex_field(s.skip(m as int), (n - m) as nat) is Err,
    ensures
        hex_field(s, n) == hex_field(s.skip(m as int), (n - m) as nat),
{
    let t = s.skip(m as int);
    let k = (n - m) as nat;
    let tl = if t.len() < k { t.len() as int } else { k as int };
    let sl = if s.len() < n { s.len() as int } else { n as int };
    assert(sl == m + tl);
    if !all_hex(t.take(tl)) {
        let i = choose|i: int| 0 <= i < tl && !is_hex_digit(#[trigger] t.take(tl)[i]);
        assert(s.take(sl)[m + i] == t.take(tl)[i]);
        assert(!all_hex(s.take(sl)));
    } else {
        assert(t.len() < k);
        assert forall|i: int| 0 <= i < sl implies is_hex_digit(#[trigger] s.take(sl)[i]) by {
            if i < m {
                assert(s.take(sl)[i] == s.take(m as int)[i]);
            } else {
                assert(s.take(sl)[i] == t.take(tl)[i - m]);
            }
        }
    }
}

impl Command {
    pub const MAX_ENCODED_LEN: usize = MAX_COMMAND_LEN;

    /// Decodes one command from `input`, which must hold the command and its terminating `CR`
    /// and nothing more.
    pub fn decode(input: &[u8]) -> (r: Result<Self, Error>)
        ensures
            kind_of(r) == decode_spec(input@),
    {
        reveal(fields_spec);
        let mut reader = Reader { input };
        let op = reader.read_byte()?;
        let ghost s = reader.input@;
        let cmd = match op {
            0x53 => {
                let code = reader.read_byte()?;
                match Bitrate::from_code(code) {
                    Some(bitrate) => Command::SetupWithBitrate { bitrate },
                    None => return Err(Error::decode()),
                }
            },
            0x4F => Command::Open,
            0x43 => Command::Close,
            0x74 => {
                let identifier = reader.read_hex_identifier()?;
                let len = reader.read_hex_u4()?;
                if len > 8 {
                    return Err(Error::decode());
                }
                let frame = reader.read_frame(len)?;
                Command::TxStandard { identifier, frame }
            },
            0x54 => {
                let identifier = reader.read_hex_ext_identifier()?;
                let len = reader.read_hex_u4()?;
                if len > 8 {
                    return Err(Error::decode());
                }
                let frame = reader.read_frame(len)?;
                Command::TxExt { identifier, frame }
            },
            0x72 => {
                let identifier = reader.read_hex_identifier()?;
                let len = reader.read_hex_u4()?;
                if len > 8 {
                    return Err(Error::decode());
                }
                Command::TxStandardRtr { identifier, len }
            },
            0x52 => {
                let identifier = reader.read_hex_ext_identifier()?;
                let len = reader.read_hex_u4()?;
                if len > 8 {
                    return Err(Error::decode());
                }
                Command::TxExtRtr { identifier, len }
            },
            0x46 => Command::ReadStatus,
            0x56 => Command::ReadVersion,
            0x4E => Command::ReadSerial,
            0x5A => {
                let timestamp = match reader.read_byte()? {
                    0x30 => false,
                    0x31 => true,
                    _ => return Err(Error::decode()),
                };
                Command::SetRxTimestamp { timestamp }
            },
            _ => return Err(Error::decode()),
        };
        assert(fields_spec(op, s) == Ok::<(Command, Seq<u8>), ErrorKind>((cmd, reader.input@)));
        if reader.read_byte()? != CR {
            return Err(Error::decode());
        }
        // Reject trailing undecoded data.
        if reader.input.len() != 0 {
            return Err(Error::decode());
        }
        Ok(cmd)
    }
}

/// Reads values from the front of a byte slice.
struct Reader<'a> {
    input: &'a [u8],
}

impl<'a> Reader<'a> {
    fn read_byte(&mut self) -> (r: Result<u8, Error>)
        ensures
            old(self).input@.len() == 0 ==> (r matches Err(e) && e@ == ErrorKind::Eof),
            old(self).input@.len() == 0 ==> final(self).input@ == old(self).input@,
            old(self).input@.len() > 0 ==> r == Ok::<u8, Error>(old(self).input@[0])
                && final(self).input@ == old(self).input@.drop_first(),
    {
        if self.input.len() == 0 {
            Err(Error::eof())
        } else {
            let b = self.input[0];
            self.input = vstd::slice::slice_subrange(self.input, 1, self.input.len());
            Ok(b)
        }
    }

    fn read_hex_digits(&mut self, digits: u8) -> (r: Result<u32, Error>)
        requires
            digits <= 8,
        ensures
            match hex_field(old(self).input@, digits as nat) {
                Ok((v, rest)) => r == Ok::<u32, Error>(v as u32) && final(self).input@ == rest
                    && v < pow16(digits as nat),
                Err(k) => r matches Err(e) && e@ == k,
            },
    {
        let ghost s0 = self.input@;
        let mut val: u32 = 0;
        let mut i: u8 = 0;
        assert(s0.skip(0) =~= s0);
        assert(s0.take(0) =~= Seq::<u8>::empty());
        while i < digits
            invariant
                s0 == old(self).input@,
                i <= digits <= 8,
                i <= s0.len(),
                self.input@ == s0.skip(i as int),
                all_hex(s0.take(i as int)),
                val == hex_value(s0.take(i as int)),
                val < pow16(i as nat),
            decreases digits - i,
        {
            proof {
                if s0.len() == i {
                    assert(s0.take(s0.len() as int) == s0.take(i as int));
                }
            }
            let b = match self.read_byte() {
                Ok(b) => b,
                Err(e) => return Err(e),
            };
            assert(b == s0[i as int]);
            proof {
                if !is_hex_digit(b) {
                    let sl = if s0.len() < digits { s0.len() as int } else { digits as int };
                    assert(s0.take(sl)[i as int] == b);
                }
            }
            let d = match unhex(b) {
                Ok(d) => d,
                Err(e) => return Err(e),
            };
            proof {
                lemma_pow16_bound((i + 1) as nat);
                let p = pow16(i as nat);
                assert(val * 16 + d < 16 * p) by (nonlinear_arith)
                    requires
                        val < p,
                        d < 16,
                ;
                let t = s0.take(i + 1);
                assert(t.drop_last() == s0.take(i as int));
                assert(t.last() == b);
                assert forall|j: int| 0 <= j < i + 1 implies is_hex_digit(#[trigger] t[j]) by {
                    if j < i {
                        assert(t[j] == s0.take(i as int)[j]);
                    }
                }
                assert(self.input@ == s0.skip(i + 1));
            }
            val = val * 16 + d as u32;
            i = i + 1;
        }
        Ok(val)
    }

    fn read_hex_u4(&mut self) -> (r: Result<u8, Error>)
        ensures
            match hex_field(old(self).input@, 1) {
                Ok((v, rest)) => r == Ok::<u8, Error>(v as u8) && final(self).input@ == rest
                    && v < 16,
                Err(k) => r matches Err(e) && e@ == k,
            },
    {
        proof { reveal_with_fuel(pow16, 2); }
        Ok(self.read_hex_digits(1)? as u8)
    }

    fn read_hex_u8(&mut self) -> (r: Result<u8, Error>)
        ensures
            match hex_field(old(self).input@, 2) {
                Ok((v, rest)) => r == Ok::<u8, Error>(v as u8) && final(self).input@ == rest
                    && v < 256,
                Err(k) => r matches Err(e) && e@ == k,
            },
    {
        proof { reveal_with_fuel(pow16, 3); }
        Ok(self.read_hex_digits(2)? as u8)
    }

    fn read_hex_identifier(&mut self) -> (r: Result<Identifier, Error>)
        ensures
            match identifier_field(old(self).input@) {
                Ok((id, rest)) => r == Ok::<Identifier, Error>(id) && final(self).input@ == rest,
                Err(k) => r matches Err(e) && e@ == k,
            },
    {
        proof { reveal_with_fuel(pow16, 4); }
        let raw = self.read_hex_digits(3)? as u16;
        match Identifier::from_raw(raw) {
            Some(id) => Ok(id),
            None => Err(Error::decode()),
        }
    }

    fn read_hex_ext_identifier(&mut self) -> (r: Result<ExtIdentifier, Error>)
        ensures
            match ext_identifier_field(old(self).input@) {
                Ok((id, rest)) => r == Ok::<ExtIdentifier, Error>(id) && final(self).input@
                    == rest,
                Err(k) => r matches Err(e) && e@ == k,
            },
    {
        proof { lemma_pow16_bound(8); }
        let raw = self.read_hex_digits(8)?;
        match ExtIdentifier::from_raw(raw) {
            Some(id) => Ok(id),
            None => Err(Error::decode()),
        }
    }

    fn read_frame(&mut self, len: u8) -> (r: Result<CanFrame, Error>)
        requires
            len <= 8,
        ensures
            match payload_field(old(self).input@, len as nat) {
                Ok((frame, rest)) => r == Ok::<CanFrame, Error>(frame) && final(self).input@
                    == rest && frame.wf(),
                Err(k) => r matches Err(e) && e@ == k,
            },
    {
        let ghost s0 = self.input@;
        let mut frame = CanFrame::new();
        let mut i: u8 = 0;
        assert(s0.skip(0) =~= s0);
        assert(payload_of(s0.take(0)) =~= frame@);
        while i < len
            invariant
                s0 == old(self).input@,
                i <= len <= 8,
                2 * i <= s0.len(),
                self.input@ == s0.skip(2 * i),
                all_hex(s0.take(2 * i)),
                frame.wf(),
                frame@ == payload_of(s0.take(2 * i)),
            decreases len - i,
        {
            let ghost before = self.input@;
            let res = self.read_hex_u8();
            proof {
                if res is Err {
                    lemma_hex_field_split(s0, (2 * i) as nat, (2 * len) as nat);
                    assert(hex_field(s0.skip(2 * i), 2) is Err);
                }
            }
            let byte = match res {
                Ok(b) => b,
                Err(e) => return Err(e),
            };
            proof {
                let t = s0.take(2 * i + 2);
                assert(before.take(2) =~= t.subrange(2 * i, 2 * i + 2));
                assert forall|j: int| 0 <= j < 2 * i + 2 implies is_hex_digit(#[trigger] t[j]) by {
                    if j < 2 * i {
                        assert(t[j] == s0.take(2 * i)[j]);
                    } else {
                        assert(t[j] == before.take(2)[j - 2 * i]);
                    }
                }
                assert(self.input@ =~= s0.skip(2 * i + 2));
            }
            let pushed = frame.push(byte);
            assert(pushed is Ok);
            proof {
                let t = s0.take(2 * i + 2);
                let u = s0.take(2 * i);
                assert forall|j: int| 0 <= j < i implies #[trigger] t.subrange(2 * j, 2 * j + 2)
                    == u.subrange(2 * j, 2 * j + 2) by {
                    assert(t.subrange(2 * j, 2 * j + 2) =~= u.subrange(2 * j, 2 * j + 2));
                }
                assert(frame@ =~= payload_of(t));
            }
            i = i + 1;
        }
        proof {
            CanFrame::lemma_with_payload(frame);
        }
        Ok(frame)
    }
}

} // verus!
