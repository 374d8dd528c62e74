//! Encoding of SLCAN responses and notifications.
use vstd::prelude::*;

use crate::device::{SerialNumber, Status};
use crate::error::{Error, ErrorKind};
use crate::frame::CanFrame;
use crate::hex::{hex, hex_char, hex_text};
use crate::identifier::{ExtIdentifier, Identifier, MAX_EXTENDED_ID, MAX_STANDARD_ID};
use crate::read::{
    command_text, decode_spec, lemma_decode_command_text, payload_text, Command, CR,
};

verus! {

/// Longest response on the wire.
pub const MAX_RESPONSE_LEN: usize = 6;

/// Longest notification on the wire: `T`, 8 identifier digits, a length digit, 16 payload
/// digits, 4 timestamp digits and room for a terminator.
pub const MAX_NOTIF_LEN: usize = 31;

/// The byte that signals an error response.
pub const BELL: u8 = 0x07;

/// A byte buffer that can hold any `Response`.
#[derive(Debug)]
pub struct ResponseBuf([u8; 6]);

impl View for ResponseBuf {
    type V = Seq<u8>;

    closed spec fn view(&self) -> Seq<u8> {
        self.0@
    }
}

impl ResponseBuf {
    pub const LEN: usize = MAX_RESPONSE_LEN;

    /// Creates a zeroed buffer.
    pub fn new() -> (r: Self)
        ensures
            r@ == Seq::new(MAX_RESPONSE_LEN as nat, |i: int| 0u8),
    {
        let r = Self([0; 6]);
        assert(r@ =~= Seq::new(MAX_RESPONSE_LEN as nat, |i: int| 0u8));
        r
    }

    /// Returns the whole buffer.
    pub fn as_slice(&self) -> (r: &[u8])
        ensures
            r@ == self@,
            r@.len() == MAX_RESPONSE_LEN,
    {
        self.0.as_slice()
    }

    /// Returns the whole buffer for writing in place.
    pub fn as_slice_mut(&mut self) -> (r: &mut [u8])
        ensures
            r@ == old(self)@,
            r@.len() == MAX_RESPONSE_LEN,
            final(self)@ == final(r)@,
    {
        &mut self.0
    }
}

/// A response to a `Command`.
#[derive(Debug, Clone, PartialEq, Eq)]
#[non_exhaustive]
pub enum Response {
    /// General error response (ASCII BELL).
    Error,
    /// Generic acknowledgement of a command (`CR`).
    Ack,
    /// Standard CAN frame enqueued for transmission.
    TxAck,
    /// Extended CAN frame enqueued for transmission.
    ExtTxAck,
    /// Status flags response.
    Status(Status),
    /// Response to the `ReadVersion` command.
    Version { hardware_version: u8, software_version: u8 },
    /// Response to the `ReadSerial` command.
    Serial(SerialNumber),
}

/// The bytes that encode a response.
pub open spec fn response_text(r: Response) -> Seq<u8> {
    match r {
        Response::Error => seq![BELL],
        Response::Ack => seq![CR],
        Response::TxAck => seq![0x7Au8, CR],
        Response::ExtTxAck => seq![0x5Au8, CR],
        Response::Status(flags) => seq![0x46u8] + hex_text(flags@ as nat, 2) + seq![CR],
        Response::Version { hardware_version, software_version } => seq![0x56u8] + hex_text(
            hardware_version as nat,
            2,
        ) + hex_text(software_version as nat, 2) + seq![CR],
        Response::Serial(serial) => seq![0x4Eu8] + serial@ + seq![CR],
    }
}

impl Response {
    /// Encodes this response into `buf`, and returns the bytes written.
    pub fn encode<'a>(&self, buf: &'a mut ResponseBuf) -> (r: Result<&'a [u8], Error>)
        ensures
            r matches Ok(out) && out@ == response_text(*self),
            response_text(*self).len() <= MAX_RESPONSE_LEN,
            r matches Ok(out) ==> final(buf)@.take(out@.len() as int) == out@,
            r matches Ok(out) ==> final(buf)@.skip(out@.len() as int) == old(buf)@.skip(
                out@.len() as int,
            ),
    {
        let all: &mut [u8] = &mut buf.0;
        let ghost start = all@;
        assert(start.take(0) =~= Seq::<u8>::empty());
        let used = match self {
            Response::Error => {
                // BELL, not followed by CR
                write(all, 0, BELL)?
            },
            Response::Ack => write(all, 0, CR)?,
            Response::TxAck => {
                let p = write(all, 0, 0x7A)?;
                write(all, p, CR)?
            },
            Response::ExtTxAck => {
                let p = write(all, 0, 0x5A)?;
                write(all, p, CR)?
            },
            Response::Status(flags) => {
                let p = write(all, 0, 0x46)?;
                let p = write_hex_u8(all, p, flags.bits())?;
                write(all, p, CR)?
            },
            Response::Version { hardware_version, software_version } => {
                let p = write(all, 0, 0x56)?;
                let p = write_hex_u8(all, p, *hardware_version)?;
                let p = write_hex_u8(all, p, *software_version)?;
                write(all, p, CR)?
            },
            Response::Serial(serial) => {
                let p = write(all, 0, 0x4E)?;
                let bytes = serial.bytes();
                let mut p = p;
                let mut i: usize = 0;
                while i < 4
                    invariant
                        0 <= i <= 4,
                        p == 1 + i,
                        all@.len() == MAX_RESPONSE_LEN,
                        bytes@ == serial@,
                        all@.take(p as int) == seq![0x4Eu8] + bytes@.take(i as int),
                        forall|k: int| p <= k < all@.len() ==> all@[k] == start[k],
                    decreases 4 - i,
                {
                    p = write(all, p, bytes[i])?;
                    assert(bytes@.take(i + 1) =~= bytes@.take(i as int).push(bytes@[i as int]));
                    assert(all@.take(p as int) =~= seq![0x4Eu8] + bytes@.take(i + 1));
                    i = i + 1;
                }
                assert(bytes@.take(4) =~= bytes@);
                write(all, p, CR)?
            },
        };
        assert(all@.take(used as int) =~= response_text(*self));
        assert(all@.skip(used as int) =~= start.skip(used as int));
        Ok(vstd::slice::slice_subrange(buf.0.as_slice(), 0, used))
    }
}

/// A byte buffer that can hold any `Notification`, with or without timestamp.
#[derive(Debug)]
pub struct NotificationBuf([u8; 31]);

impl View for NotificationBuf {
    type V = Seq<u8>;

    closed spec fn view(&self) -> Seq<u8> {
        self.0@
    }
}

impl NotificationBuf {
    /// Creates a zeroed buffer.
    pub fn new() -> (r: Self)
        ensures
            r@ == Seq::new(MAX_NOTIF_LEN as nat, |i: int| 0u8),
    {
        let r = Self([0; 31]);
        assert(r@ =~= Seq::new(MAX_NOTIF_LEN as nat, |i: int| 0u8));
        r
    }
}

impl Default for NotificationBuf {
    fn default() -> (r: Self)
        ensures
            r@ == Seq::new(MAX_NOTIF_LEN as nat, |i: int| 0u8),
    {
        Self::new()
    }
}

impl Default for ResponseBuf {
    fn default() -> (r: Self)
        ensures
            r@ == Seq::new(MAX_RESPONSE_LEN as nat, |i: int| 0u8),
    {
        Self::new()
    }
}

/// An unprompted message sent by the SLCAN device.
#[derive(Debug, PartialEq, Eq)]
#[allow(inconsistent_fields)]
pub enum Notification {
    Rx { identifier: Identifier, frame: CanFrame },
    RxExt { identifier: ExtIdentifier, frame: CanFrame },
    RxRtr {
        identifier: Identifier,
        /// Must be in range 0..=8.
        len: u8,
    },
    RxExtRtr {
        identifier: ExtIdentifier,
        /// Must be in range 0..=8.
        len: u8,
    },
}

impl Notification {
    /// The frames of a notification are well formed.
    pub open spec fn wf(&self) -> bool {
        match *self {
            Notification::Rx { frame, .. } => frame.wf(),
            Notification::RxExt { frame, .. } => frame.wf(),
            _ => true,
        }
    }
}

/// The bytes that encode a notification: the opcode, the identifier, and either the length
/// digit and the payload of a data frame or the requested length of a remote frame.
pub open spec fn notification_text(n: Notification) -> Seq<u8> {
    match n {
        Notification::Rx { identifier, frame } => seq![0x74u8] + hex_text(identifier@, 3)
            + hex_text(frame@.len(), 1) + payload_text(frame@),
        Notification::RxExt { identifier, frame } => seq![0x54u8] + hex_text(identifier@, 8)
            + hex_text(frame@.len(), 1) + payload_text(frame@),
        Notification::RxRtr { identifier, len } => seq![0x72u8] + hex_text(identifier@, 3)
            + hex_text(len as nat, 1),
        Notification::RxExtRtr { identifier, len } => seq![0x52u8] + hex_text(identifier@, 8)
            + hex_text(len as nat, 1),
    }
}

impl Notification {
    /// Writes this notification at the start of `buf` and returns how many bytes it took.
    fn write_to(&self, buf: &mut [u8]) -> (r: Result<usize, Error>)
        requires
            self.wf(),
            old(buf)@.len() == MAX_NOTIF_LEN,
        ensures
            final(buf)@.len() == MAX_NOTIF_LEN,
            r matches Ok(n) && n == notification_text(*self).len(),
            final(buf)@.take(notification_text(*self).len() as int) == notification_text(*self),
            forall|k: int|
                notification_text(*self).len() <= k < MAX_NOTIF_LEN ==> final(buf)@[k] == old(
                    buf,
                )@[k],
            notification_text(*self).len() <= MAX_NOTIF_LEN - 4,
    {
        assert(old(buf)@.take(0) =~= Seq::<u8>::empty());
        proof {
            match *self {
                Notification::Rx { frame, .. } => frame.lemma_wf_len(),
                Notification::RxExt { frame, .. } => frame.lemma_wf_len(),
                _ => {},
            }
        }
        match self {
            Notification::Rx { identifier, frame } => {
                let p = write(buf, 0, 0x74)?;
                let p = write_identifier(buf, p, *identifier)?;
                let p = write_frame(buf, p, frame)?;
                assert(buf@.take(p as int) =~= notification_text(*self));
                Ok(p)
            },
            Notification::RxExt { identifier, frame } => {
                let p = write(buf, 0, 0x54)?;
                let p = write_ext_identifier(buf, p, *identifier)?;
                let p = write_frame(buf, p, frame)?;
                assert(buf@.take(p as int) =~= notification_text(*self));
                Ok(p)
            },
            Notification::RxRtr { identifier, len } => {
                let p = write(buf, 0, 0x72)?;
                let p = write_identifier(buf, p, *identifier)?;
                let p = write_hex_u4(buf, p, *len)?;
                assert(buf@.take(p as int) =~= notification_text(*self));
                Ok(p)
            },
            Notification::RxExtRtr { identifier, len } => {
                let p = write(buf, 0, 0x52)?;
                let p = write_ext_identifier(buf, p, *identifier)?;
                let p = write_hex_u4(buf, p, *len)?;
                assert(buf@.take(p as int) =~= notification_text(*self));
                Ok(p)
            },
        }
    }

    /// Encodes this notification into `buf`, and returns the bytes written.
    pub fn encode<'a>(&self, buf: &'a mut NotificationBuf) -> (r: Result<&'a [u8], Error>)
        requires
            self.wf(),
        ensures
            r matches Ok(out) && out@ == notification_text(*self),
            notification_text(*self).len() <= MAX_NOTIF_LEN,
            r matches Ok(out) ==> final(buf)@.take(out@.len() as int) == out@,
            r matches Ok(out) ==> final(buf)@.skip(out@.len() as int) == old(buf)@.skip(
                out@.len() as int,
            ),
    {
        let all: &mut [u8] = &mut buf.0;
        let ghost start = all@;
        let used = self.write_to(all)?;
        assert(all@.skip(used as int) =~= start.skip(used as int));
        Ok(vstd::slice::slice_subrange(buf.0.as_slice(), 0, used))
    }
}

/// A notification with 16-bit timestamp.
///
/// Timestamps are disabled by default, and are turned on by the host by sending a
/// `SetRxTimestamp` command.
#[derive(Debug)]
pub struct TimestampedNotification {
    notif: Notification,
    timestamp: u16,
}

/// Largest timestamp a notification carries.
pub const MAX_TIMESTAMP: u16 = 0xEA5F;

/// The bytes that encode a notification followed by its timestamp.
pub open spec fn timestamped_text(n: Notification, timestamp: u16) -> Seq<u8> {
    notification_text(n) + hex_text(timestamp as nat, 4)
}

impl TimestampedNotification {
    /// The notification and its timestamp.
    pub closed spec fn parts(&self) -> (Notification, u16) {
        (self.notif, self.timestamp)
    }

    /// Attaches `timestamp`, which must be in range `0..=0xEA5F`, to a notification.
    pub fn new(notif: Notification, timestamp: u16) -> (r: Self)
        requires
            timestamp <= MAX_TIMESTAMP,
        ensures
            r.parts() == (notif, timestamp),
    {
        Self { notif, timestamp }
    }

    /// Encodes the notification and then its timestamp as 4 hex digits into `buf`, and
    /// returns the bytes written.
    pub fn encode<'a>(&self, buf: &'a mut NotificationBuf) -> (r: Result<&'a [u8], Error>)
        requires
            self.parts().0.wf(),
        ensures
            r matches Ok(out) && out@ == timestamped_text(self.parts().0, self.parts().1),
            r matches Ok(out) && out@.len() <= MAX_NOTIF_LEN,
            r matches Ok(out) ==> final(buf)@.take(out@.len() as int) == out@,
            r matches Ok(out) ==> final(buf)@.skip(out@.len() as int) == old(buf)@.skip(
                out@.len() as int,
            ),
    {
        let all: &mut [u8] = &mut buf.0;
        let ghost start = all@;
        let used = self.notif.write_to(all)?;
        let used = write_hex_u16(all, used, self.timestamp)?;
        assert(all@.take(used as int) =~= timestamped_text(self.notif, self.timestamp));
        assert(all@.skip(used as int) =~= start.skip(used as int));
        Ok(vstd::slice::slice_subrange(buf.0.as_slice(), 0, used))
    }
}

/// The command that asks a device to send the frame a notification reports.
pub open spec fn transmit_command(n: Notification) -> Command {
    match n {
        Notification::Rx { identifier, frame } => Command::TxStandard { identifier, frame },
        Notification::RxExt { identifier, frame } => Command::TxExt { identifier, frame },
        Notification::RxRtr { identifier, len } => Command::TxStandardRtr { identifier, len },
        Notification::RxExtRtr { identifier, len } => Command::TxExtRtr { identifier, len },
    }
}

/// A notification that can stand for a command: its identifier is in range, its frame well
/// formed, and a requested length is at most 8.
pub open spec fn valid_notification(n: Notification) -> bool {
    match n {
        Notification::Rx { identifier, frame } => identifier@ <= MAX_STANDARD_ID && frame.wf(),
        Notification::RxExt { identifier, frame } => identifier@ <= MAX_EXTENDED_ID && frame.wf(),
        Notification::RxRtr { identifier, len } => identifier@ <= MAX_STANDARD_ID && len <= 8,
        Notification::RxExtRtr { identifier, len } => identifier@ <= MAX_EXTENDED_ID && len <= 8,
    }
}

/// An encoded notification, followed by the terminator, decodes to the command that asks for
/// the same frame.
pub proof fn lemma_notification_round_trip(n: Notification)
    requires
        valid_notification(n),
    ensures
        decode_spec(notification_text(n).push(CR)) == Ok::<Command, ErrorKind>(
            transmit_command(n),
        ),
{
    let c = transmit_command(n);
    assert(notification_text(n).push(CR) =~= command_text(c));
    lemma_decode_command_text(c);
}

/// Writes `byte` at `pos`, or fails with `Eof` when `pos` is past the end of `buf`.
fn write(buf: &mut [u8], pos: usize, byte: u8) -> (r: Result<usize, Error>)
    ensures
        final(buf)@.len() == old(buf)@.len(),
        pos < old(buf)@.len() <==> r is Ok,
        r matches Ok(q) ==> q == pos + 1,
        r is Ok ==> forall|k: int| pos + 1 <= k < old(buf)@.len() ==> final(buf)@[k]
            == old(buf)@[k],
        r is Ok ==> final(buf)@ == old(buf)@.update(pos as int, byte),
        r is Ok ==> final(buf)@.take(pos + 1) == old(buf)@.take(pos as int).push(byte),
        r is Err ==> final(buf)@ == old(buf)@,
        r matches Err(e) ==> e@ == ErrorKind::Eof,
{
    if pos >= buf.len() {
        Err(Error::eof())
    } else {
        buf[pos] = byte;
        assert(buf@.take(pos + 1) =~= old(buf)@.take(pos as int).push(byte));
        Ok(pos + 1)
    }
}

/// Writes the `digits` least significant hex digits of `value` at `pos`, most significant
/// first, or fails with `Eof` when they do not fit.
fn write_hex(buf: &mut [u8], pos: usize, value: u32, digits: u8) -> (r: Result<usize, Error>)
    requires
        pos <= old(buf)@.len(),
    ensures
        final(buf)@.len() == old(buf)@.len(),
        pos + digits <= old(buf)@.len() <==> r is Ok,
        r matches Ok(q) ==> q == pos + digits,
        r is Ok ==> forall|k: int| pos + digits <= k < old(buf)@.len() ==> final(buf)@[k]
            == old(buf)@[k],
        r is Ok ==> final(buf)@.skip(pos + digits) == old(buf)@.skip(pos + digits),
        r is Ok ==> final(buf)@.take(pos + digits)
            == old(buf)@.take(pos as int) + hex_text(value as nat, digits as nat),
        r matches Err(e) ==> e@ == ErrorKind::Eof,
    decreases digits,
{
    if digits == 0 {
        assert(old(buf)@.take(pos as int) + hex_text(value as nat, 0) =~= old(buf)@.take(
            pos as int,
        ));
        assert(buf@.skip(pos as int) == old(buf)@.skip(pos as int));
        return Ok(pos);
    }
    let p = match write_hex(buf, pos, value / 16, digits - 1) {
        Ok(p) => p,
        Err(e) => return Err(e),
    };
    let ghost mid = buf@;
    let r = write(buf, p, hex((value % 16) as u8));
    proof {
        if r is Ok {
            assert(buf@.skip(pos + digits) =~= mid.skip(pos + digits));
            assert(mid.skip(pos + digits) =~= mid.skip(pos + digits - 1).skip(1));
            assert(hex_text(value as nat, digits as nat) == hex_text(
                (value / 16) as nat,
                (digits - 1) as nat,
            ).push(hex_char((value % 16) as nat)));
            assert(old(buf)@.take(pos as int) + hex_text(value as nat, digits as nat) =~= (old(
                buf,
            )@.take(pos as int) + hex_text((value / 16) as nat, (digits - 1) as nat)).push(
                hex_char((value % 16) as nat),
            ));
        }
    }
    r
}

fn write_hex_u4(buf: &mut [u8], pos: usize, val: u8) -> (r: Result<usize, Error>)
    requires
        pos <= old(buf)@.len(),
    ensures
        final(buf)@.len() == old(buf)@.len(),
        pos + 1 <= old(buf)@.len() <==> r is Ok,
        r matches Ok(q) ==> q == pos + 1,
        r is Ok ==> forall|k: int| pos + 1 <= k < old(buf)@.len() ==> final(buf)@[k]
            == old(buf)@[k],
        r is Ok ==> final(buf)@.skip(pos + 1) == old(buf)@.skip(pos + 1),
        r is Ok ==> final(buf)@.take(pos + 1)
            == old(buf)@.take(pos as int) + hex_text(val as nat, 1),
        r matches Err(e) ==> e@ == ErrorKind::Eof,
{
    write_hex(buf, pos, val as u32, 1)
}

fn write_hex_u8(buf: &mut [u8], pos: usize, val: u8) -> (r: Result<usize, Error>)
    requires
        pos <= old(buf)@.len(),
    ensures
        final(buf)@.len() == old(buf)@.len(),
        pos + 2 <= old(buf)@.len() <==> r is Ok,
        r matches Ok(q) ==> q == pos + 2,
        r is Ok ==> forall|k: int| pos + 2 <= k < old(buf)@.len() ==> final(buf)@[k]
            == old(buf)@[k],
        r is Ok ==> final(buf)@.skip(pos + 2) == old(buf)@.skip(pos + 2),
        r is Ok ==> final(buf)@.take(pos + 2)
            == old(buf)@.take(pos as int) + hex_text(val as nat, 2),
        r matches Err(e) ==> e@ == ErrorKind::Eof,
{
    write_hex(buf, pos, val as u32, 2)
}

fn write_hex_u16(buf: &mut [u8], pos: usize, val: u16) -> (r: Result<usize, Error>)
    requires
        pos <= old(buf)@.len(),
    ensures
        final(buf)@.len() == old(buf)@.len(),
        pos + 4 <= old(buf)@.len() <==> r is Ok,
        r matches Ok(q) ==> q == pos + 4,
        r is Ok ==> forall|k: int| pos + 4 <= k < old(buf)@.len() ==> final(buf)@[k]
            == old(buf)@[k],
        r is Ok ==> final(buf)@.skip(pos + 4) == old(buf)@.skip(pos + 4),
        r is Ok ==> final(buf)@.take(pos + 4)
            == old(buf)@.take(pos as int) + hex_text(val as nat, 4),
        r matches Err(e) ==> e@ == ErrorKind::Eof,
{
    write_hex(buf, pos, val as u32, 4)
}

fn write_identifier(buf: &mut [u8], pos: usize, id: Identifier) -> (r: Result<usize, Error>)
    requires
        pos <= old(buf)@.len(),
    ensures
        final(buf)@.len() == old(buf)@.len(),
        pos + 3 <= old(buf)@.len() <==> r is Ok,
        r matches Ok(q) ==> q == pos + 3,
        r is Ok ==> forall|k: int| pos + 3 <= k < old(buf)@.len() ==> final(buf)@[k]
            == old(buf)@[k],
        r is Ok ==> final(buf)@.skip(pos + 3) == old(buf)@.skip(pos + 3),
        r is Ok ==> final(buf)@.take(pos + 3) == old(buf)@.take(pos as int) + hex_text(id@, 3),
        r matches Err(e) ==> e@ == ErrorKind::Eof,
{
    write_hex(buf, pos, id.as_raw() as u32, 3)
}

fn write_ext_identifier(buf: &mut [u8], pos: usize, id: ExtIdentifier) -> (r: Result<
    usize,
    Error,
>)
    requires
        pos <= old(buf)@.len(),
    ensures
        final(buf)@.len() == old(buf)@.len(),
        pos + 8 <= old(buf)@.len() <==> r is Ok,
        r matches Ok(q) ==> q == pos + 8,
        r is Ok ==> forall|k: int| pos + 8 <= k < old(buf)@.len() ==> final(buf)@[k]
            == old(buf)@[k],
        r is Ok ==> final(buf)@.skip(pos + 8) == old(buf)@.skip(pos + 8),
        r is Ok ==> final(buf)@.take(pos + 8) == old(buf)@.take(pos as int) + hex_text(id@, 8),
        r matches Err(e) ==> e@ == ErrorKind::Eof,
{
    write_hex(buf, pos, id.as_raw(), 8)
}

/// Writes the length digit of `frame` and then its payload, two hex digits per byte.
fn write_frame(buf: &mut [u8], pos: usize, frame: &CanFrame) -> (r: Result<usize, Error>)
    requires
        pos <= old(buf)@.len(),
        frame.wf(),
    ensures
        final(buf)@.len() == old(buf)@.len(),
        pos + 1 + 2 * frame@.len() <= old(buf)@.len() <==> r is Ok,
        r matches Ok(q) ==> q == pos + 1 + 2 * frame@.len(),
        r is Ok ==> forall|k: int|
            pos + 1 + 2 * frame@.len() <= k < old(buf)@.len() ==> final(buf)@[k] == old(buf)@[k],
        r is Ok ==> final(buf)@.skip(pos + 1 + 2 * frame@.len()) == old(buf)@.skip(
            pos + 1 + 2 * frame@.len(),
        ),
        r is Ok ==> final(buf)@.take(pos + 1 + 2 * frame@.len())
            == old(buf)@.take(pos as int) + hex_text(frame@.len(), 1) + payload_text(frame@),
        r matches Err(e) ==> e@ == ErrorKind::Eof,
{
    let ghost start = old(buf)@.take(pos as int) + hex_text(frame@.len(), 1);
    let mut p = write_hex_u4(buf, pos, frame.len() as u8)?;
    let data = frame.data();
    let mut i: usize = 0;
    assert(data@.take(0) =~= Seq::<u8>::empty());
    assert(start + payload_text(Seq::<u8>::empty()) =~= start);
    while i < data.len()
        invariant
            data@ == frame@,
            data@.len() <= 8,
            0 <= i <= data@.len(),
            p == pos + 1 + 2 * i,
            p <= buf@.len(),
            buf@.len() == old(buf)@.len(),
            buf@.skip(p as int) == old(buf)@.skip(p as int),
            forall|k: int| p <= k < buf@.len() ==> buf@[k] == old(buf)@[k],
            buf@.take(p as int) == start + payload_text(data@.take(i as int)),
        decreases data@.len() - i,
    {
        let ghost before = buf@;
        let ghost p0 = p;
        let b = data[i];
        p = write_hex_u8(buf, p, b)?;
        proof {
            assert(before.skip(p0 + 2) =~= before.skip(p0 as int).skip(2));
            assert(old(buf)@.skip(p0 + 2) =~= old(buf)@.skip(p0 as int).skip(2));
            let t = data@.take(i + 1);
            assert(t.drop_last() =~= data@.take(i as int));
            assert(buf@.take(p as int) =~= start + payload_text(t));
        }
        i = i + 1;
    }
    assert(data@.take(i as int) =~= data@);
    Ok(p)
}

} // verus!
