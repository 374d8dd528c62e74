//! CAN identifier types.
use vstd::prelude::*;

verus! {

/// Largest standard (11-bit) identifier.
pub const MAX_STANDARD_ID: u16 = 0x7FF;

/// Largest extended (29-bit) identifier.
pub const MAX_EXTENDED_ID: u32 = 0x1FFF_FFFF;

/// Standard 11-bit CAN identifier.
#[derive(Debug, Copy, Clone, PartialEq, Eq, Structural)]
pub struct Identifier(u16);

impl View for Identifier {
    type V = nat;

    closed spec fn view(&self) -> nat {
        self.0 as nat
    }
}

impl Identifier {
    #[verifier::type_invariant]
    spec fn in_range(&self) -> bool {
        self.0 <= MAX_STANDARD_ID
    }

    /// The identifier whose numeric value is `raw`.
    pub closed spec fn with_raw(raw: nat) -> Self {
        Self(raw as u16)
    }

    /// `with_raw` gives back an identifier from its value.
    pub proof fn lemma_with_raw(id: Self)
        ensures
            Self::with_raw(id@) == id,
    {
    }

    /// Creates an identifier, or `None` when `raw` needs more than 11 bits.
    pub fn from_raw(raw: u16) -> (r: Option<Self>)
        ensures
            raw <= MAX_STANDARD_ID <==> r is Some,
            r matches Some(id) ==> id@ == raw && id == Self::with_raw(raw as nat),
    {
        if raw > MAX_STANDARD_ID {
            None
        } else {
            Some(Self(raw))
        }
    }

    /// Returns the numeric value of this identifier.
    pub fn as_raw(&self) -> (r: u16)
        ensures
            r == self@,
            r <= MAX_STANDARD_ID,
    {
        proof { use_type_invariant(self); }
        self.0
    }
}

/// Extended 29-bit CAN identifier.
#[derive(Debug, Copy, Clone, PartialEq, Eq, Structural)]
pub struct ExtIdentifier(u32);

impl View for ExtIdentifier {
    type V = nat;

    closed spec fn view(&self) -> nat {
        self.0 as nat
    }
}

impl ExtIdentifier {
    #[verifier::type_invariant]
    spec fn in_range(&self) -> bool {
        self.0 <= MAX_EXTENDED_ID
    }

    /// The identifier whose numeric value is `raw`.
    pub closed spec fn with_raw(raw: nat) -> Self {
        Self(raw as u32)
    }

    /// `with_raw` gives back an identifier from its value.
    pub proof fn lemma_with_raw(id: Self)
        ensures
            Self::with_raw(id@) == id,
    {
    }

    /// Creates an identifier, or `None` when `raw` needs more than 29 bits.
    pub fn from_raw(raw: u32) -> (r: Option<Self>)
        ensures
            raw <= MAX_EXTENDED_ID <==> r is Some,
            r matches Some(id) ==> id@ == raw && id == Self::with_raw(raw as nat),
    {
        if raw > MAX_EXTENDED_ID {
            None
        } else {
            Some(Self(raw))
        }
    }

    /// Returns the numeric value of this identifier.
    pub fn as_raw(&self) -> (r: u32)
        ensures
            r == self@,
            r <= MAX_EXTENDED_ID,
    {
        proof { use_type_invariant(self); }
        self.0
    }
}

} // verus!
