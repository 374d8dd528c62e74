//! The payload buffer of a CAN frame.
use vstd::prelude::*;

use crate::error::{Error, ErrorKind};

verus! {

/// Capacity of a CAN frame payload, in bytes.
pub const MAX_FRAME_LEN: usize = 8;

/// The payload of a CAN frame: up to 8 bytes.
#[derive(Debug, Copy, Clone, PartialEq, Eq)]
pub struct CanFrame {
    data: [u8; 8],
    len: u8,
}

impl View for CanFrame {
    type V = Seq<u8>;

    /// The payload bytes, in order.
    closed spec fn view(&self) -> Seq<u8> {
        self.data@.take(self.len as int)
    }
}

impl CanFrame {
    pub const MAX_LENGTH: usize = MAX_FRAME_LEN;

    /// The length stays within the capacity, and the unused bytes are zero, so that two frames
    /// with the same payload are equal.
    pub closed spec fn wf(&self) -> bool {
        &&& self.len as usize <= MAX_FRAME_LEN
        &&& forall|i: int| self.len <= i < MAX_FRAME_LEN ==> self.data@[i] == 0
    }

    /// A frame holds at most 8 bytes.
    pub proof fn lemma_wf_len(&self)
        requires
            self.wf(),
        ensures
            self@.len() <= MAX_FRAME_LEN,
    {
    }

    /// Frames are determined by their payload.
    pub proof fn lemma_view_determines(a: CanFrame, b: CanFrame)
        requires
            a.wf(),
            b.wf(),
            a@ == b@,
        ensures
            a == b,
    {
        assert(a@.len() == a.len);
        assert(b@.len() == b.len);
        assert forall|i: int| 0 <= i < MAX_FRAME_LEN implies a.data@[i] == b.data@[i] by {
            if i < a.len {
                assert(a.data@[i] == a@[i]);
                assert(b.data@[i] == b@[i]);
            }
        }
        assert(a.data@ =~= b.data@);
        assert(a.data =~= b.data);
    }

    /// The frame whose payload is `bytes`, for at most 8 bytes.
    pub closed spec fn with_payload(bytes: Seq<u8>) -> CanFrame {
        choose|f: CanFrame| f.wf() && f@ == bytes
    }

    /// The frame that appending `bytes` one by one to an empty frame gives.
    closed spec fn appended(bytes: Seq<u8>) -> CanFrame
        decreases bytes.len(),
    {
        if bytes.len() == 0 {
            CanFrame { data: vstd::array::spec_array_fill_for_copy_type::<u8, 8>(0), len: 0 }
        } else {
            let f = CanFrame::appended(bytes.drop_last());
            CanFrame {
                data: vstd::array::spec_array_update(f.data, f.len as int, bytes.last()),
                len: (f.len + 1) as u8,
            }
        }
    }

    proof fn lemma_appended(bytes: Seq<u8>)
        requires
            bytes.len() <= MAX_FRAME_LEN,
        ensures
            CanFrame::appended(bytes).wf(),
            CanFrame::appended(bytes)@ == bytes,
        decreases bytes.len(),
    {
        let f = CanFrame::appended(bytes);
        if bytes.len() == 0 {
            assert(f@ =~= bytes);
        } else {
            let g = CanFrame::appended(bytes.drop_last());
            CanFrame::lemma_appended(bytes.drop_last());
            assert(g@.len() == g.len);
            assert(f.data@ == g.data@.update(g.len as int, bytes.last()));
            assert(f.len == g.len + 1);
            assert forall|i: int| 0 <= i < bytes.len() implies f@[i] == bytes[i] by {
                if i < g.len {
                    assert(g@[i] == bytes.drop_last()[i]);
                    assert(f@[i] == g.data@[i]);
                }
            }
            assert(f@ =~= bytes);
        }
    }

    /// Every payload of at most 8 bytes is the payload of exactly one well-formed frame.
    pub proof fn lemma_with_payload_of(bytes: Seq<u8>)
        requires
            bytes.len() <= MAX_FRAME_LEN,
        ensures
            CanFrame::with_payload(bytes).wf(),
            CanFrame::with_payload(bytes)@ == bytes,
    {
        CanFrame::lemma_appended(bytes);
        let f = CanFrame::appended(bytes);
        assert(f.wf() && f@ == bytes);
    }

    /// `with_payload` gives back a frame from its payload.
    pub proof fn lemma_with_payload(f: CanFrame)
        requires
            f.wf(),
        ensures
            CanFrame::with_payload(f@) == f,
            CanFrame::with_payload(f@).wf(),
    {
        let g = CanFrame::with_payload(f@);
        assert(g.wf() && g@ == f@);
        CanFrame::lemma_view_determines(f, g);
    }

    /// Creates an empty frame.
    pub fn new() -> (r: Self)
        ensures
            r.wf(),
            r@ == Seq::<u8>::empty(),
    {
        let r = Self { data: [0; 8], len: 0 };
        assert(r@ =~= Seq::<u8>::empty());
        r
    }

    /// Returns the number of payload bytes.
    pub fn len(&self) -> (r: usize)
        requires
            self.wf(),
        ensures
            r == self@.len(),
            r <= MAX_FRAME_LEN,
    {
        self.len as usize
    }

    /// Returns the payload bytes.
    pub fn data(&self) -> (r: &[u8])
        requires
            self.wf(),
        ensures
            r@ == self@,
    {
        vstd::slice::slice_subrange(self.data.as_slice(), 0, self.len as usize)
    }

    /// Returns the payload bytes for writing in place.
    pub fn data_mut(&mut self) -> (r: &mut [u8])
        requires
            old(self).wf(),
        ensures
            r@ == old(self)@,
            final(self).wf(),
            final(self)@ == final(r)@,
    {
        let len = self.len as usize;
        let all: &mut [u8] = &mut self.data;
        proof {
            assert(final(all)@.len() == MAX_FRAME_LEN);
        }
        let (head, tail) = all.split_at_mut(len);
        proof {
            // The tail is not handed out, so it keeps its zeros.
            assert(has_resolved(tail));
            assert(tail@ =~= old(self).data@.skip(len as int));
        }
        head
    }

    /// Appends a byte, or fails with `Eof` when the frame already holds 8 bytes.
    pub fn push(&mut self, byte: u8) -> (r: Result<(), Error>)
        requires
            old(self).wf(),
        ensures
            final(self).wf(),
            old(self)@.len() < MAX_FRAME_LEN <==> r is Ok,
            r is Ok ==> final(self)@ == old(self)@.push(byte),
            r matches Err(e) ==> e@ == ErrorKind::Eof && *final(self) == *old(self),
    {
        if self.len as usize == MAX_FRAME_LEN {
            Err(Error::eof())
        } else {
            let i = self.len as usize;
            self.data[i] = byte;
            self.len = self.len + 1;
            assert(self@ =~= old(self)@.push(byte));
            Ok(())
        }
    }

    /// Creates a frame holding `bytes`, or fails with `Eof` when there are more than 8.
    pub fn from_slice(bytes: &[u8]) -> (r: Result<Self, Error>)
        ensures
            bytes@.len() <= MAX_FRAME_LEN <==> r is Ok,
            r matches Ok(f) ==> f.wf() && f@ == bytes@,
            r matches Err(e) ==> e@ == ErrorKind::Eof,
    {
        if bytes.len() > MAX_FRAME_LEN {
            return Err(Error::eof());
        }
        let mut frame = Self::new();
        let mut i: usize = 0;
        while i < bytes.len()
            invariant
                bytes@.len() <= MAX_FRAME_LEN,
                0 <= i <= bytes@.len(),
                frame.wf(),
                frame@ == bytes@.take(i as int),
            decreases bytes@.len() - i,
        {
            let res = frame.push(bytes[i]);
            assert(res is Ok);
            assert(bytes@.take(i + 1) == bytes@.take(i as int).push(bytes@[i as int]));
            i = i + 1;
        }
        assert(bytes@.take(i as int) =~= bytes@);
        Ok(frame)
    }
}

impl CanFrame {
    /// Creates a frame holding `bytes`, at most 8 of them.
    fn from_bytes(bytes: &[u8]) -> (r: Self)
        requires
            bytes@.len() <= MAX_FRAME_LEN,
        ensures
            r == CanFrame::with_payload(bytes@),
            r.wf(),
    {
        match Self::from_slice(bytes) {
            Ok(f) => {
                proof {
                    CanFrame::lemma_with_payload(f);
                }
                f
            },
            Err(_) => Self::new(),
        }
    }
}

impl From<[u8; 0]> for CanFrame {
    fn from(arr: [u8; 0]) -> Self {
        Self::from_bytes(arr.as_slice())
    }
}

impl vstd::std_specs::convert::FromSpecImpl<[u8; 0]> for CanFrame {
    open spec fn obeys_from_spec() -> bool {
        true
    }

    open spec fn from_spec(arr: [u8; 0]) -> Self {
        CanFrame::with_payload(arr@)
    }
}

impl From<[u8; 1]> for CanFrame {
    fn from(arr: [u8; 1]) -> Self {
        Self::from_bytes(arr.as_slice())
    }
}

impl vstd::std_specs::convert::FromSpecImpl<[u8; 1]> for CanFrame {
    open spec fn obeys_from_spec() -> bool {
        true
    }

    open spec fn from_spec(arr: [u8; 1]) -> Self {
        CanFrame::with_payload(arr@)
    }
}

impl From<[u8; 2]> for CanFrame {
    fn from(arr: [u8; 2]) -> Self {
        Self::from_bytes(arr.as_slice())
    }
}

impl vstd::std_specs::convert::FromSpecImpl<[u8; 2]> for CanFrame {
    open spec fn obeys_from_spec() -> bool {
        true
    }

    open spec fn from_spec(arr: [u8; 2]) -> Self {
        CanFrame::with_payload(arr@)
    }
}

impl From<[u8; 3]> for CanFrame {
    fn from(arr: [u8; 3]) -> Self {
        Self::from_bytes(arr.as_slice())
    }
}

impl vstd::std_specs::convert::FromSpecImpl<[u8; 3]> for CanFrame {
    open spec fn obeys_from_spec() -> bool {
        true
    }

    open spec fn from_spec(arr: [u8; 3]) -> Self {
        CanFrame::with_payload(arr@)
    }
}

impl From<[u8; 4]> for CanFrame {
    fn from(arr: [u8; 4]) -> Self {
        Self::from_bytes(arr.as_slice())
    }
}

impl vstd::std_specs::convert::FromSpecImpl<[u8; 4]> for CanFrame {
    open spec fn obeys_from_spec() -> bool {
        true
    }

    open spec fn from_spec(arr: [u8; 4]) -> Self {
        CanFrame::with_payload(arr@)
    }
}

impl From<[u8; 5]> for CanFrame {
    fn from(arr: [u8; 5]) -> Self {
        Self::from_bytes(arr.as_slice())
    }
}

impl vstd::std_specs::convert::FromSpecImpl<[u8; 5]> for CanFrame {
    open spec fn obeys_from_spec() -> bool {
        true
    }

    open spec fn from_spec(arr: [u8; 5]) -> Self {
        CanFrame::with_payload(arr@)
    }
}

impl From<[u8; 6]> for CanFrame {
    fn from(arr: [u8; 6]) -> Self {
        Self::from_bytes(arr.as_slice())
    }
}

impl vstd::std_specs::convert::FromSpecImpl<[u8; 6]> for CanFrame {
    open spec fn obeys_from_spec() -> bool {
        true
    }

    open spec fn from_spec(arr: [u8; 6]) -> Self {
        CanFrame::with_payload(arr@)
    }
}

impl From<[u8; 7]> for CanFrame {
    fn from(arr: [u8; 7]) -> Self {
        Self::from_bytes(arr.as_slice())
    }
}

impl vstd::std_specs::convert::FromSpecImpl<[u8; 7]> for CanFrame {
    open spec fn obeys_from_spec() -> bool {
        true
    }

    open spec fn from_spec(arr: [u8; 7]) -> Self {
        CanFrame::with_payload(arr@)
    }
}

impl From<[u8; 8]> for CanFrame {
    fn from(arr: [u8; 8]) -> Self {
        Self::from_bytes(arr.as_slice())
    }
}

impl vstd::std_specs::convert::FromSpecImpl<[u8; 8]> for CanFrame {
    open spec fn obeys_from_spec() -> bool {
        true
    }

    open spec fn from_spec(arr: [u8; 8]) -> Self {
        CanFrame::with_payload(arr@)
    }
}

impl Default for CanFrame {
    fn default() -> (r: Self)
        ensures
            r.wf(),
            r@ == Seq::<u8>::empty(),
    {
        Self::new()
    }
}

} // verus!
