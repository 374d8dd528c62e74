use vstd::prelude::*;

verus! {

/// The two ways in which decoding or encoding can fail.
#[derive(Debug, Copy, Clone, PartialEq, Eq, Structural)]
#[non_exhaustive]
pub enum ErrorKind {
    /// Input is malformed and does not adhere to the SLCAN specification.
    Decode,
    /// More data is required to decode the input, or an output buffer is too small.
    Eof,
}

/// An error reported by the codec.
#[derive(Debug, Copy, Clone, PartialEq, Eq, Structural)]
pub struct Error {
    kind: ErrorKind,
}

impl View for Error {
    type V = ErrorKind;

    closed spec fn view(&self) -> ErrorKind {
        self.kind
    }
}

/// A result with its error replaced by the error's kind.
pub open spec fn kind_of<T>(r: Result<T, Error>) -> Result<T, ErrorKind> {
    match r {
        Ok(v) => Ok(v),
        Err(e) => Err(e@),
    }
}

impl Error {
    pub(crate) fn decode() -> (r: Self)
        ensures
            r@ == ErrorKind::Decode,
    {
        Self { kind: ErrorKind::Decode }
    }

    pub(crate) fn eof() -> (r: Self)
        ensures
            r@ == ErrorKind::Eof,
    {
        Self { kind: ErrorKind::Eof }
    }

    /// Returns which kind of failure this is.
    pub fn kind(&self) -> (r: ErrorKind)
        ensures
            r == self@,
    {
        self.kind
    }
}

} // verus!
