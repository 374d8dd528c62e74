//! Uppercase hexadecimal digits, as they appear on the wire.
use vstd::prelude::*;

use crate::error::{Error, ErrorKind};

verus! {

/// Whether `c` is one of `0-9` or `A-F`.
pub open spec fn is_hex_digit(c: u8) -> bool {
    (0x30 <= c <= 0x39) || (0x41 <= c <= 0x46)
}

/// The value of a hex digit.
pub open spec fn digit_value(c: u8) -> nat {
    if c <= 0x39 {
        (c - 0x30) as nat
    } else {
        (c - 0x41 + 10) as nat
    }
}

/// The hex digit for a value below 16.
pub open spec fn hex_char(n: nat) -> u8 {
    if n < 10 {
        (0x30 + n) as u8
    } else {
        (0x41 + n - 10) as u8
    }
}

/// `16` to the power `n`.
pub open spec fn pow16(n: nat) -> nat
    decreases n,
{
    if n == 0 {
        1
    } else {
        16 * pow16((n - 1) as nat)
    }
}

/// The value of a sequence of hex digits, most significant first.
pub open spec fn hex_value(s: Seq<u8>) -> nat
    decreases s.len(),
{
    if s.len() == 0 {
        0
    } else {
        hex_value(s.drop_last()) * 16 + digit_value(s.last())
    }
}

/// The `n` least significant hex digits of `v`, most significant first.
pub open spec fn hex_text(v: nat, n: nat) -> Seq<u8>
    decreases n,
{
    if n == 0 {
        Seq::empty()
    } else {
        hex_text(v / 16, (n - 1) as nat).push(hex_char(v % 16))
    }
}

/// `hex_text` has the requested number of digits, all of them hex digits.
pub proof fn lemma_hex_text_digits(v: nat, n: nat)
    ensures
        hex_text(v, n).len() == n,
        forall|i: int| 0 <= i < n ==> is_hex_digit(#[trigger] hex_text(v, n)[i]),
    decreases n,
{
    if n > 0 {
        lemma_hex_text_digits(v / 16, (n - 1) as nat);
    }
}

/// Reading back the digits of a value that fits gives the value.
pub proof fn lemma_hex_text_value(v: nat, n: nat)
    requires
        v < pow16(n),
    ensures
        hex_value(hex_text(v, n)) == v,
    decreases n,
{
    if n > 0 {
        let m = (n - 1) as nat;
        assert(v / 16 < pow16(m)) by (nonlinear_arith)
            requires
                v < 16 * pow16(m),
        ;
        lemma_hex_text_value(v / 16, m);
        let t = hex_text(v, n);
        assert(t.drop_last() == hex_text(v / 16, m));
        assert(v == (v / 16) * 16 + v % 16) by (nonlinear_arith);
    }
}

/// Returns the value of a hex digit, or fails with `Decode` when `digit` is none.
pub fn unhex(digit: u8) -> (r: Result<u8, Error>)
    ensures
        r is Ok <==> is_hex_digit(digit),
        r matches Ok(v) ==> v == digit_value(digit) && v < 16,
        r matches Err(e) ==> e@ == ErrorKind::Decode,
{
    if 0x30 <= digit && digit <= 0x39 {
        Ok(digit - 0x30)
    } else if 0x41 <= digit && digit <= 0x46 {
        Ok(digit - 0x41 + 10)
    } else {
        Err(Error::decode())
    }
}

/// Returns the hex digit for a value below 16.
pub fn hex(nibble: u8) -> (r: u8)
    requires
        nibble < 16,
    ensures
        r == hex_char(nibble as nat),
        is_hex_digit(r),
        digit_value(r) == nibble,
{
    if nibble < 10 {
        0x30 + nibble
    } else {
        0x41 + nibble - 10
    }
}

} // verus!
