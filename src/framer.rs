//! Incremental framing of a byte stream into commands.
use vstd::prelude::*;

use crate::error::{kind_of, Error, ErrorKind};
use crate::read::{decode_spec, Command, CR, MAX_COMMAND_LEN};

verus! {

/// Whether the first terminator of `s` stands at `e`.
pub open spec fn ends_at(s: Seq<u8>, e: int) -> bool {
    &&& 0 <= e < s.len()
    &&& s[e] == CR
    &&& forall|j: int| 0 <= j < e ==> s[j] != CR
}

/// Whether `s` holds no terminator.
pub open spec fn no_cr(s: Seq<u8>) -> bool {
    forall|j: int| 0 <= j < s.len() ==> s[j] != CR
}

/// The results that a drain of the buffered bytes `s` yields, in order: one decode result for
/// each terminated command; then, when the bytes fill the whole buffer without a terminator, one
/// `Decode` failure.
pub open spec fn drain(s: Seq<u8>) -> Seq<Result<Command, ErrorKind>>
    decreases s.len(),
{
    if exists|e: int| ends_at(s, e) {
        let e = choose|e: int| ends_at(s, e);
        seq![decode_spec(s.take(e + 1))] + drain(s.skip(e + 1))
    } else if s.len() >= MAX_COMMAND_LEN {
        seq![Err(ErrorKind::Decode)]
    } else {
        Seq::empty()
    }
}

/// The bytes that stay buffered after a drain of `s`: those after the last terminator, or none
/// when they fill the whole buffer.
pub open spec fn leftover(s: Seq<u8>) -> Seq<u8>
    decreases s.len(),
{
    if exists|e: int| ends_at(s, e) {
        let e = choose|e: int| ends_at(s, e);
        leftover(s.skip(e + 1))
    } else if s.len() >= MAX_COMMAND_LEN {
        Seq::empty()
    } else {
        s
    }
}

/// A sequence has at most one first terminator.
pub proof fn lemma_ends_at_unique(s: Seq<u8>, e: int)
    requires
        ends_at(s, e),
    ensures
        (choose|f: int| ends_at(s, f)) == e,
{
    let f = choose|f: int| ends_at(s, f);
    assert(ends_at(s, f));
    if f < e {
        assert(s[f] != CR);
    } else if e < f {
        assert(s[e] != CR);
    }
}

/// A drain of bytes whose first terminator stands at `e` decodes the command that ends there
/// and then drains what follows.
pub proof fn lemma_drain_step(s: Seq<u8>, e: int)
    requires
        ends_at(s, e),
    ensures
        drain(s) == seq![decode_spec(s.take(e + 1))] + drain(s.skip(e + 1)),
        leftover(s) == leftover(s.skip(e + 1)),
{
    lemma_ends_at_unique(s, e);
}

/// What stays buffered holds no terminator.
pub proof fn lemma_leftover_no_cr(s: Seq<u8>)
    ensures
        no_cr(leftover(s)),
    decreases s.len(),
{
    if exists|e: int| ends_at(s, e) {
        let e = choose|e: int| ends_at(s, e);
        lemma_leftover_no_cr(s.skip(e + 1));
    } else if s.len() < MAX_COMMAND_LEN {
        assert forall|j: int| 0 <= j < s.len() implies s[j] != CR by {
            if s[j] == CR {
                lemma_first_cr(s, j);
            }
        }
    }
}

/// A sequence with a terminator has a first one.
proof fn lemma_first_cr(s: Seq<u8>, i: int)
    requires
        0 <= i < s.len(),
        s[i] == CR,
    ensures
        exists|e: int| ends_at(s, e),
    decreases i,
{
    if exists|j: int| 0 <= j < i && s[j] == CR {
        let j = choose|j: int| 0 <= j < i && s[j] == CR;
        lemma_first_cr(s, j);
    } else {
        assert(ends_at(s, i));
    }
}

/// Bytes that fill the whole buffer without a terminator yield exactly one `Decode` failure,
/// and nothing of them stays buffered, so that the bytes received next drain as if they came
/// first.
pub proof fn lemma_resync(s: Seq<u8>, next: Seq<u8>)
    requires
        s.len() == MAX_COMMAND_LEN,
        no_cr(s),
    ensures
        drain(s) == seq![Err::<Command, ErrorKind>(ErrorKind::Decode)],
        leftover(s) == Seq::<u8>::empty(),
        drain(leftover(s) + next) == drain(next),
        leftover(leftover(s) + next) == leftover(next),
{
    assert(!exists|e: int| ends_at(s, e));
    assert(Seq::<u8>::empty() + next =~= next);
}

/// Whether `g` is one command: its only terminator is its last byte.
pub open spec fn one_command(g: Seq<u8>) -> bool {
    g.len() > 0 && ends_at(g, g.len() - 1)
}

/// Bytes made of whole commands followed by an unterminated rest, shorter than the buffer,
/// drain to the decode results of those commands in arrival order, and leave the rest buffered.
pub proof fn lemma_drain_segments(gs: Seq<Seq<u8>>, rest: Seq<u8>)
    requires
        forall|i: int| 0 <= i < gs.len() ==> one_command(#[trigger] gs[i]),
        no_cr(rest),
        rest.len() < MAX_COMMAND_LEN,
    ensures
        drain(gs.flatten() + rest) == gs.map_values(|g: Seq<u8>| decode_spec(g)),
        leftover(gs.flatten() + rest) == rest,
    decreases gs.len(),
{
    let s = gs.flatten() + rest;
    if gs.len() == 0 {
        assert(s =~= rest);
        assert(!exists|e: int| ends_at(rest, e));
        assert(gs.map_values(|g: Seq<u8>| decode_spec(g)) =~= Seq::empty());
    } else {
        let g = gs[0];
        let more = gs.drop_first();
        assert(one_command(g));
        assert forall|i: int| 0 <= i < more.len() implies one_command(#[trigger] more[i]) by {
            assert(more[i] == gs[i + 1]);
        }
        lemma_drain_segments(more, rest);
        let t = more.flatten() + rest;
        assert(s =~= g + t);
        let e = g.len() - 1;
        assert forall|j: int| 0 <= j <= e implies s[j] == g[j] by {}
        assert(ends_at(s, e));
        lemma_drain_step(s, e);
        assert(s.take(e + 1) =~= g);
        assert(s.skip(e + 1) =~= t);
        assert(gs.map_values(|g: Seq<u8>| decode_spec(g)) =~= seq![decode_spec(g)]
            + more.map_values(|g: Seq<u8>| decode_spec(g)));
    }
}

/// Feeding bytes in two chunks, with a drain after each, yields the same results in the same
/// order, and leaves the same bytes buffered, as feeding them at once.
pub proof fn lemma_chunk_invariance(a: Seq<u8>, b: Seq<u8>)
    requires
        a.len() + b.len() <= MAX_COMMAND_LEN,
    ensures
        drain(a) + drain(leftover(a) + b) == drain(a + b),
        leftover(leftover(a) + b) == leftover(a + b),
    decreases a.len(),
{
    let ab = a + b;
    if exists|e: int| ends_at(a, e) {
        let e = choose|e: int| ends_at(a, e);
        assert forall|j: int| 0 <= j <= e implies ab[j] == a[j] by {}
        assert(ends_at(ab, e));
        lemma_ends_at_unique(ab, e);
        let rest = a.skip(e + 1);
        assert(ab.take(e + 1) =~= a.take(e + 1));
        assert(ab.skip(e + 1) =~= rest + b);
        lemma_chunk_invariance(rest, b);
        let d = seq![decode_spec(a.take(e + 1))];
        assert(d + drain(rest) + drain(leftover(rest) + b) =~= d + (drain(rest) + drain(
            leftover(rest) + b,
        )));
    } else {
        assert(no_cr(a)) by {
            assert forall|j: int| 0 <= j < a.len() implies a[j] != CR by {
                if a[j] == CR {
                    lemma_first_cr(a, j);
                }
            }
        }
        if a.len() >= MAX_COMMAND_LEN {
            assert(b =~= Seq::<u8>::empty());
            assert(ab =~= a);
            let empty = Seq::<u8>::empty();
            assert(leftover(a) + b =~= empty);
            assert(!exists|e: int| ends_at(empty, e));
            assert(drain(a) + drain(empty) =~= drain(a));
        } else {
            assert(drain(a) + drain(ab) =~= drain(ab));
        }
    }
}

/// A drain never leaves more bytes than it was given, nor a full buffer.
pub proof fn lemma_leftover_len(s: Seq<u8>)
    ensures
        leftover(s).len() <= s.len(),
        leftover(s).len() < MAX_COMMAND_LEN,
    decreases s.len(),
{
    if exists|e: int| ends_at(s, e) {
        let e = choose|e: int| ends_at(s, e);
        lemma_leftover_len(s.skip(e + 1));
    }
}

/// The results of feeding `chunks` one after another to a buffer holding `pending`, with a
/// drain after each chunk, and the bytes that stay buffered at the end.
pub open spec fn feed(pending: Seq<u8>, chunks: Seq<Seq<u8>>) -> (
    Seq<Result<Command, ErrorKind>>,
    Seq<u8>,
)
    decreases chunks.len(),
{
    if chunks.len() == 0 {
        (Seq::empty(), pending)
    } else {
        let s = pending + chunks[0];
        let (more, left) = feed(leftover(s), chunks.drop_first());
        (drain(s) + more, left)
    }
}

/// Feeding bytes in any number of chunks yields the same results in the same order, and leaves
/// the same bytes buffered, as feeding them at once. `pending` is what a buffer holds between
/// drains: less than a full buffer, with no terminator.
pub proof fn lemma_feed_invariance(pending: Seq<u8>, chunks: Seq<Seq<u8>>)
    requires
        no_cr(pending),
        pending.len() < MAX_COMMAND_LEN,
        pending.len() + chunks.flatten().len() <= MAX_COMMAND_LEN,
    ensures
        feed(pending, chunks) == (
            drain(pending + chunks.flatten()),
            leftover(pending + chunks.flatten()),
        ),
    decreases chunks.len(),
{
    if chunks.len() == 0 {
        assert(pending + chunks.flatten() =~= pending);
        assert(!exists|e: int| ends_at(pending, e));
    } else {
        let s = pending + chunks[0];
        let rest = chunks.drop_first();
        lemma_leftover_len(s);
        lemma_leftover_no_cr(s);
        lemma_feed_invariance(leftover(s), rest);
        lemma_chunk_invariance(s, rest.flatten());
        assert(s + rest.flatten() =~= pending + chunks.flatten());
    }
}

/// Decode results with each error replaced by its kind.
pub open spec fn result_kinds(r: Seq<Result<Command, Error>>) -> Seq<
    Result<Command, ErrorKind>,
> {
    r.map_values(|x: Result<Command, Error>| kind_of(x))
}

/// Appending a result appends its kind.
proof fn lemma_result_kinds_push(v: Seq<Result<Command, Error>>, x: Result<Command, Error>)
    ensures
        result_kinds(v.push(x)) == result_kinds(v).push(kind_of(x)),
{
    assert(result_kinds(v.push(x)) =~= result_kinds(v).push(kind_of(x)));
}

/// The buffered bytes once `amount` bytes of the tail of `b` have been handed over.
pub open spec fn received(b: CommandBuf, amount: nat) -> Seq<u8> {
    b@ + b.tail().take(amount as int)
}

/// A byte buffer that yields decoded `Command`s.
///
/// Bytes received in chunks of any size are copied into `tail_mut` and handed over with
/// `advance_by`, which decodes every complete command and keeps the rest for the next chunk.
#[derive(Debug)]
pub struct CommandBuf {
    bytes: [u8; 27],
    used: u8,
}

impl View for CommandBuf {
    type V = Seq<u8>;

    /// The bytes received and not yet decoded.
    closed spec fn view(&self) -> Seq<u8> {
        self.bytes@.take(self.used as int)
    }
}

impl CommandBuf {
    /// The received bytes fit in the buffer and hold no terminator between drains.
    pub closed spec fn wf(&self) -> bool {
        &&& self.used as usize <= MAX_COMMAND_LEN
        &&& no_cr(self@)
    }

    /// The unused part of the buffer.
    pub closed spec fn tail(&self) -> Seq<u8> {
        self.bytes@.skip(self.used as int)
    }

    /// Creates a new, empty buffer.
    pub fn new() -> (r: Self)
        ensures
            r.wf(),
            r@ == Seq::<u8>::empty(),
            r.tail().len() == MAX_COMMAND_LEN,
    {
        let r = Self { bytes: [0; 27], used: 0 };
        assert(r@ =~= Seq::<u8>::empty());
        r
    }

    /// Returns the currently unused part of the buffer.
    ///
    /// The caller copies new input bytes into the returned slice, and calls `advance_by` to
    /// hand them over.
    pub fn tail_mut(&mut self) -> (r: &mut [u8])
        requires
            old(self).wf(),
        ensures
            r@ == old(self).tail(),
            r@.len() == MAX_COMMAND_LEN - old(self)@.len(),
            final(self).wf(),
            final(self)@ == old(self)@,
            final(self).tail() == final(r)@,
    {
        let used = self.used as usize;
        let all: &mut [u8] = &mut self.bytes;
        let (_head, tail) = all.split_at_mut(used);
        tail
    }

    /// Hands over `amount` bytes written into the tail, and decodes every command that is
    /// complete, in order. The bytes of the decoded commands are then removed from the buffer,
    /// so that the tail has room for the next chunk.
    pub fn advance_by(&mut self, amount: u8) -> (r: Vec<Result<Command, Error>>)
        requires
            old(self).wf(),
            old(self)@.len() + amount <= MAX_COMMAND_LEN,
        ensures
            result_kinds(r@) == drain(received(*old(self), amount as nat)),
            final(self).wf(),
            final(self)@ == leftover(received(*old(self), amount as nat)),
            final(self).tail().len() == MAX_COMMAND_LEN - final(self)@.len(),
    {
        let ghost before = *self;
        self.used = self.used + amount;
        let ghost s = self@;
        assert(s =~= received(before, amount as nat));
        let used = self.used as usize;
        let mut results: Vec<Result<Command, Error>> = Vec::new();
        let mut pos: usize = 0;
        assert(s.skip(0) =~= s);
        assert(result_kinds(results@) =~= Seq::empty());
        loop
            invariant
                used == self.used as usize <= MAX_COMMAND_LEN,
                s == self@,
                pos <= used,
                result_kinds(results@) + drain(s.skip(pos as int)) == drain(s),
                leftover(s.skip(pos as int)) == leftover(s),
            ensures
                pos <= used,
                result_kinds(results@) == drain(s),
                s.skip(pos as int) == leftover(s),
            decreases used - pos,
        {
            let ghost done = result_kinds(results@);
            match self.find_cr(pos) {
                Some(end) => {
                    let cmd = vstd::slice::slice_subrange(self.bytes.as_slice(), pos, end + 1);
                    let res = Command::decode(cmd);
                    proof {
                        let t = s.skip(pos as int);
                        let k = end - pos;
                        lemma_drain_step(t, k);
                        assert(cmd@ =~= t.take(k + 1));
                        assert(t.skip(k + 1) =~= s.skip(end + 1));
                        lemma_result_kinds_push(results@, res);
                    }
                    results.push(res);
                    proof {
                        let rest = drain(s.skip(end + 1));
                        assert(done.push(kind_of(res)) + rest =~= done + (seq![kind_of(res)]
                            + rest));
                    }
                    pos = end + 1;
                },
                None => {
                    let ghost t = s.skip(pos as int);
                    assert(!exists|e: int| ends_at(t, e));
                    if pos == 0 && self.is_full() {
                        let failure = Err(Error::decode());
                        proof {
                            lemma_result_kinds_push(results@, failure);
                        }
                        results.push(failure);
                        proof {
                            assert(s.skip(MAX_COMMAND_LEN as int) =~= Seq::<u8>::empty());
                        }
                        pos = MAX_COMMAND_LEN;
                    } else {
                        assert(done + drain(t) =~= done);
                    }
                    break;
                },
            }
        }
        let n = used - pos;
        let ghost b0 = self.bytes@;
        let mut i: usize = 0;
        while i < n
            invariant
                pos + n == used == self.used as usize <= MAX_COMMAND_LEN,
                s == b0.take(used as int),
                b0.len() == MAX_COMMAND_LEN,
                0 <= i <= n,
                forall|j: int| 0 <= j < i ==> self.bytes@[j] == s[pos + j],
                forall|j: int| i <= j < MAX_COMMAND_LEN ==> self.bytes@[j] == b0[j],
            decreases n - i,
        {
            let v = self.bytes[pos + i];
            assert(self.bytes@[pos + i] == b0[pos + i]);
            assert(s[pos + i] == b0.take(used as int)[pos + i]);

            let ghost prev = self.bytes@;
            self.bytes[i] = v;
            assert(self.bytes@ == prev.update(i as int, v));
            assert forall|j: int| 0 <= j < i + 1 implies self.bytes@[j] == s[pos + j] by {
                if j < i {
                    assert(self.bytes@[j] == prev[j]);
                }
            }
            i = i + 1;
        }
        self.used = n as u8;
        assert(self@ =~= s.skip(pos as int));
        proof {
            lemma_leftover_no_cr(s);
        }
        results
    }

    fn is_full(&self) -> (r: bool)
        ensures
            r == (self.used as usize == MAX_COMMAND_LEN),
    {
        self.used as usize == MAX_COMMAND_LEN
    }

    fn find_cr(&self, start: usize) -> (r: Option<usize>)
        requires
            start <= self.used as usize <= MAX_COMMAND_LEN,
        ensures
            r matches Some(e) ==> start <= e < self.used && ends_at(
                self@.skip(start as int),
                e - start,
            ),
            r is None ==> no_cr(self@.skip(start as int)),
    {
        let used = self.used as usize;
        let mut i = start;
        while i < used
            invariant
                start <= i <= used == self.used <= MAX_COMMAND_LEN,
                forall|j: int| start <= j < i ==> self.bytes@[j] != CR,
            decreases used - i,
        {
            if self.bytes[i] == CR {
                return Some(i);
            }
            i = i + 1;
        }
        None
    }
}

impl Default for CommandBuf {
    fn default() -> (r: Self)
        ensures
            r.wf(),
            r@ == Seq::<u8>::empty(),
            r.tail().len() == MAX_COMMAND_LEN,
    {
        Self::new()
    }
}

} // verus!
