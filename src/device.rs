//! Small value types exchanged with an SLCAN device.
use vstd::prelude::*;

verus! {

/// The CAN bus speeds that an SLCAN device can be set up with.
#[derive(Debug, Copy, Clone, PartialEq, Eq, Structural)]
pub enum Bitrate {
    _10kbit,
    _20kbit,
    _50kbit,
    _100kbit,
    _125kbit,
    _250kbit,
    _500kbit,
    _800kbit,
    _1mbit,
}

/// The wire code of a bitrate: `'0'` for the slowest up to `'8'` for the fastest.
pub open spec fn bitrate_code(b: Bitrate) -> u8 {
    match b {
        Bitrate::_10kbit => 0x30,
        Bitrate::_20kbit => 0x31,
        Bitrate::_50kbit => 0x32,
        Bitrate::_100kbit => 0x33,
        Bitrate::_125kbit => 0x34,
        Bitrate::_250kbit => 0x35,
        Bitrate::_500kbit => 0x36,
        Bitrate::_800kbit => 0x37,
        Bitrate::_1mbit => 0x38,
    }
}

/// The bitrate whose wire code is `c`, if there is one.
pub open spec fn bitrate_of_code(c: u8) -> Option<Bitrate> {
    if c == 0x30 {
        Some(Bitrate::_10kbit)
    } else if c == 0x31 {
        Some(Bitrate::_20kbit)
    } else if c == 0x32 {
        Some(Bitrate::_50kbit)
    } else if c == 0x33 {
        Some(Bitrate::_100kbit)
    } else if c == 0x34 {
        Some(Bitrate::_125kbit)
    } else if c == 0x35 {
        Some(Bitrate::_250kbit)
    } else if c == 0x36 {
        Some(Bitrate::_500kbit)
    } else if c == 0x37 {
        Some(Bitrate::_800kbit)
    } else if c == 0x38 {
        Some(Bitrate::_1mbit)
    } else {
        None
    }
}

/// The bus speed of a bitrate, in kilobits per second.
pub open spec fn bitrate_kbps(b: Bitrate) -> u16 {
    match b {
        Bitrate::_10kbit => 10,
        Bitrate::_20kbit => 20,
        Bitrate::_50kbit => 50,
        Bitrate::_100kbit => 100,
        Bitrate::_125kbit => 125,
        Bitrate::_250kbit => 250,
        Bitrate::_500kbit => 500,
        Bitrate::_800kbit => 800,
        Bitrate::_1mbit => 1000,
    }
}

impl Bitrate {
    /// Returns the bus speed in kilobits per second.
    pub fn kbps(&self) -> (r: u16)
        ensures
            r == bitrate_kbps(*self),
    {
        match self {
            Bitrate::_10kbit => 10,
            Bitrate::_20kbit => 20,
            Bitrate::_50kbit => 50,
            Bitrate::_100kbit => 100,
            Bitrate::_125kbit => 125,
            Bitrate::_250kbit => 250,
            Bitrate::_500kbit => 500,
            Bitrate::_800kbit => 800,
            Bitrate::_1mbit => 1_000,
        }
    }

    /// Returns the bitrate whose wire code is `code`, if there is one.
    pub fn from_code(code: u8) -> (r: Option<Bitrate>)
        ensures
            r == bitrate_of_code(code),
    {
        match code {
            0x30 => Some(Bitrate::_10kbit),
            0x31 => Some(Bitrate::_20kbit),
            0x32 => Some(Bitrate::_50kbit),
            0x33 => Some(Bitrate::_100kbit),
            0x34 => Some(Bitrate::_125kbit),
            0x35 => Some(Bitrate::_250kbit),
            0x36 => Some(Bitrate::_500kbit),
            0x37 => Some(Bitrate::_800kbit),
            0x38 => Some(Bitrate::_1mbit),
            _ => None,
        }
    }
}

/// Bit 4 of the status byte, which carries no flag.
pub const STATUS_RESERVED: u8 = 0x10;

/// Status flags reported by an SLCAN device.
#[derive(Debug, Copy, Clone, PartialEq, Eq, Structural)]
pub struct Status {
    bits: u8,
}

impl View for Status {
    type V = u8;

    closed spec fn view(&self) -> u8 {
        self.bits
    }
}

impl Status {
    pub const RX_FIFO_FULL: u8 = 0x01;
    pub const TX_FIFO_FULL: u8 = 0x02;
    pub const ERROR_WARNING: u8 = 0x04;
    pub const DATA_OVERRUN: u8 = 0x08;
    pub const ERROR_PASSIVE: u8 = 0x20;
    pub const ARBITRATION_LOST: u8 = 0x40;
    pub const BUS_ERROR: u8 = 0x80;

    /// The status with no flag set.
    pub fn empty() -> (r: Status)
        ensures
            r@ == 0,
    {
        Status { bits: 0 }
    }

    /// Creates a status from its flag byte, or `None` when the reserved bit is set.
    pub fn from_bits(bits: u8) -> (r: Option<Status>)
        ensures
            r is Some <==> bits & STATUS_RESERVED == 0,
            r matches Some(s) ==> s@ == bits,
    {
        if bits & STATUS_RESERVED == 0 {
            Some(Status { bits })
        } else {
            None
        }
    }

    /// Returns the flag byte.
    pub fn bits(&self) -> (r: u8)
        ensures
            r == self@,
    {
        self.bits
    }
}

/// Whether `b` is an ASCII digit or an ASCII letter.
pub open spec fn is_alphanumeric(b: u8) -> bool {
    (0x30 <= b <= 0x39) || (0x41 <= b <= 0x5A) || (0x61 <= b <= 0x7A)
}

/// Whether all four bytes are ASCII digits or letters.
pub open spec fn is_serial(raw: Seq<u8>) -> bool {
    forall|i: int| 0 <= i < raw.len() ==> is_alphanumeric(#[trigger] raw[i])
}

fn alphanumeric(b: u8) -> (r: bool)
    ensures
        r == is_alphanumeric(b),
{
    (0x30 <= b && b <= 0x39) || (0x41 <= b && b <= 0x5a) || (0x61 <= b && b <= 0x7a)
}

/// 4-byte serial number of an SLCAN device.
#[derive(Debug, Copy, Clone, PartialEq, Eq)]
pub struct SerialNumber([u8; 4]);

impl View for SerialNumber {
    type V = Seq<u8>;

    closed spec fn view(&self) -> Seq<u8> {
        self.0@
    }
}

impl SerialNumber {
    #[verifier::type_invariant]
    spec fn alphanumeric_bytes(&self) -> bool {
        is_serial(self.0@)
    }

    /// Serial numbers are determined by their bytes.
    pub proof fn lemma_view_determines(a: SerialNumber, b: SerialNumber)
        requires
            a@ == b@,
        ensures
            a == b,
    {
        assert(a.0 =~= b.0);
    }

    /// Creates a serial number from 4 raw bytes, or `None` unless all of them are ASCII digits
    /// or letters.
    pub fn new(raw: [u8; 4]) -> (r: Option<Self>)
        ensures
            r is Some <==> is_serial(raw@),
            r matches Some(s) ==> s@ == raw@,
    {
        let mut i: usize = 0;
        while i < 4
            invariant
                0 <= i <= 4,
                is_serial(raw@.take(i as int)),
            decreases 4 - i,
        {
            if !alphanumeric(raw[i]) {
                assert(!is_alphanumeric(raw@[i as int]));
                return None;
            }
            assert(raw@.take(i + 1) == raw@.take(i as int).push(raw@[i as int]));
            i = i + 1;
        }
        assert(raw@.take(4) == raw@);
        Some(Self(raw))
    }

    /// Creates a serial number from 4 bytes that are known to be ASCII digits or letters.
    pub fn new_const(raw: [u8; 4]) -> (r: Self)
        requires
            is_serial(raw@),
        ensures
            r@ == raw@,
    {
        Self(raw)
    }

    /// Returns the four bytes of the serial number.
    pub fn bytes(&self) -> (r: [u8; 4])
        ensures
            r@ == self@,
            is_serial(r@),
    {
        proof { use_type_invariant(self); }
        self.0
    }
}

} // verus!
