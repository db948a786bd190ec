//! A fixed-capacity byte sink that flushes only when exactly full, so the
//! stream it emits is cut into records of exactly `capacity` bytes.
use vstd::prelude::*;

verus! {

/// Why a byte was not taken.
#[derive(Debug, Clone, Copy, PartialEq, Eq, Structural)]
pub enum PushError {
    /// The buffer is at capacity: flush, then push the same byte again.
    Full,
    /// The sink was closed and takes no more bytes.
    Closed,
}

/// What a run of pushes, each followed by a flush attempt, emits from a sink
/// of capacity `cap` that holds `pending`: the flushed records, and what is
/// left pending at the end.
pub open spec fn flushes(cap: nat, pending: Seq<u8>, bytes: Seq<u8>) -> (Seq<Seq<u8>>, Seq<u8>)
    decreases bytes.len(),
{
    if bytes.len() == 0 {
        (Seq::empty(), pending)
    } else {
        let p = pending.push(bytes[0]);
        if p.len() == cap {
            let (f, rest) = flushes(cap, Seq::empty(), bytes.drop_first());
            (seq![p] + f, rest)
        } else {
            flushes(cap, p, bytes.drop_first())
        }
    }
}

/// Flushing happens exactly at capacity: every emitted record is exactly
/// `cap` bytes long, what is left pending is shorter than `cap`, and the
/// records followed by the leftover are the pending bytes followed by all the
/// pushed bytes, in order, none lost and none repeated.
pub proof fn lemma_flush_only_when_full(cap: nat, pending: Seq<u8>, bytes: Seq<u8>)
    requires
        pending.len() < cap,
    ensures
        forall|k: int|
            0 <= k < flushes(cap, pending, bytes).0.len() ==> (#[trigger] flushes(
                cap,
                pending,
                bytes,
            ).0[k]).len() == cap,
        flushes(cap, pending, bytes).1.len() < cap,
        flushes(cap, pending, bytes).0.flatten() + flushes(cap, pending, bytes).1 == pending
            + bytes,
    decreases bytes.len(),
{
    if bytes.len() == 0 {
        assert(pending + bytes =~= pending);
        assert(Seq::<Seq<u8>>::empty().flatten() + pending =~= pending);
    } else {
        let p = pending.push(bytes[0]);
        let tail = bytes.drop_first();
        assert(pending + bytes =~= p + tail);
        if p.len() == cap {
            lemma_flush_only_when_full(cap, Seq::empty(), tail);
            let (f, rest) = flushes(cap, Seq::empty(), tail);
            let all = seq![p] + f;
            assert(all.first() == p);
            assert(all.drop_first() =~= f);
            assert(all.flatten() == p + f.flatten());
            assert(Seq::<u8>::empty() + tail =~= tail);
            assert(all.flatten() + rest =~= p + (f.flatten() + rest));
            assert forall|k: int| 0 <= k < all.len() implies (#[trigger] all[k]).len() == cap by {
                if k > 0 {
                    assert(all[k] == f[k - 1]);
                }
            }
        } else {
            lemma_flush_only_when_full(cap, p, tail);
        }
    }
}

/// The contents of a sequence of flushed records.
pub open spec fn records(v: Seq<Vec<u8>>) -> Seq<Seq<u8>> {
    v.map_values(|r: Vec<u8>| r@)
}

/// A byte buffer of fixed capacity with explicit readiness and flush.
pub struct BufferedSink {
    buf: Vec<u8>,
    capacity: usize,
    closed: bool,
}

impl BufferedSink {
    /// The bytes held, oldest first.
    pub closed spec fn view(&self) -> Seq<u8> {
        self.buf@
    }

    pub closed spec fn spec_capacity(&self) -> nat {
        self.capacity as nat
    }

    pub closed spec fn spec_closed(&self) -> bool {
        self.closed
    }

    pub closed spec fn wf(&self) -> bool {
        self.buf@.len() <= self.capacity
    }

    /// An empty, open sink that holds up to `capacity` bytes.
    pub fn new(capacity: usize) -> (s: BufferedSink)
        ensures
            s.wf(),
            s@ == Seq::<u8>::empty(),
            s.spec_capacity() == capacity,
            !s.spec_closed(),
    {
        BufferedSink { buf: Vec::new(), capacity, closed: false }
    }

    pub fn capacity(&self) -> (r: usize)
        ensures
            r == self.spec_capacity(),
    {
        self.capacity
    }

    /// Number of bytes held.
    pub fn len(&self) -> (r: usize)
        ensures
            r == self@.len(),
    {
        self.buf.len()
    }

    pub fn is_closed(&self) -> (r: bool)
        ensures
            r == self.spec_closed(),
    {
        self.closed
    }

    /// True iff the sink is open and has room for one more byte.
    pub fn ready(&self) -> (r: bool)
        ensures
            r == (!self.spec_closed() && self@.len() < self.spec_capacity()),
    {
        !self.closed && self.buf.len() < self.capacity
    }

    /// Appends `byte` when ready; otherwise leaves the sink as it was and says why.
    pub fn push(&mut self, byte: u8) -> (r: Result<(), PushError>)
        requires
            old(self).wf(),
        ensures
            final(self).wf(),
            final(self).spec_capacity() == old(self).spec_capacity(),
            final(self).spec_closed() == old(self).spec_closed(),
            r is Ok <==> (!old(self).spec_closed() && old(self)@.len() < old(self).spec_capacity()),
            r is Ok ==> final(self)@ == old(self)@.push(byte),
            r is Err ==> final(self)@ == old(self)@,
            r == Err::<(), PushError>(PushError::Closed) <==> old(self).spec_closed(),
            r == Err::<(), PushError>(PushError::Full) <==> (!old(self).spec_closed()
                && old(self)@.len() >= old(self).spec_capacity()),
    {
        if self.closed {
            return Err(PushError::Closed);
        }
        if self.buf.len() >= self.capacity {
            return Err(PushError::Full);
        }
        self.buf.push(byte);
        Ok(())
    }

    /// When the buffer is exactly at capacity, hands out all of it and empties
    /// the buffer; otherwise does nothing and returns `None`.
    pub fn try_flush(&mut self) -> (r: Option<Vec<u8>>)
        requires
            old(self).wf(),
        ensures
            final(self).wf(),
            final(self).spec_capacity() == old(self).spec_capacity(),
            final(self).spec_closed() == old(self).spec_closed(),
            r is Some <==> old(self)@.len() == old(self).spec_capacity(),
            r matches Some(v) ==> v@ == old(self)@ && final(self)@ == Seq::<u8>::empty(),
            r is None ==> final(self)@ == old(self)@,
    {
        if self.buf.len() == self.capacity {
            let mut out: Vec<u8> = Vec::new();
            std::mem::swap(&mut out, &mut self.buf);
            Some(out)
        } else {
            None
        }
    }

    /// Shuts the sink: no byte is taken after this. What it holds stays.
    pub fn close(&mut self)
        ensures
            final(self).spec_closed(),
            final(self)@ == old(self)@,
            final(self).spec_capacity() == old(self).spec_capacity(),
            final(self).wf() == old(self).wf(),
    {
        self.closed = true;
    }

    /// Pushes each of `bytes` in turn and tries a flush after each one,
    /// returning the records flushed, in order.
    pub fn feed(&mut self, bytes: &Vec<u8>) -> (r: Vec<Vec<u8>>)
        requires
            old(self).wf(),
            !old(self).spec_closed(),
            old(self)@.len() < old(self).spec_capacity(),
        ensures
            final(self).wf(),
            !final(self).spec_closed(),
            final(self).spec_capacity() == old(self).spec_capacity(),
            records(r@) == flushes(old(self).spec_capacity(), old(self)@, bytes@).0,
            final(self)@ == flushes(old(self).spec_capacity(), old(self)@, bytes@).1,
    {
        let ghost cap = self.capacity as nat;
        let ghost start = self@;
        let mut out: Vec<Vec<u8>> = Vec::new();
        let mut i: usize = 0;
        proof {
            assert(bytes@.skip(0) =~= bytes@);
            assert(records(out@) + flushes(cap, start, bytes@).0 =~= flushes(cap, start, bytes@).0);
        }
        while i < bytes.len()
            invariant
                self.wf(),
                !self.spec_closed(),
                self.spec_capacity() == cap,
                self@.len() < cap,
                i <= bytes@.len(),
                flushes(cap, start, bytes@).0 == records(out@) + flushes(
                    cap,
                    self@,
                    bytes@.skip(i as int),
                ).0,
                flushes(cap, start, bytes@).1 == flushes(cap, self@, bytes@.skip(i as int)).1,
            decreases bytes@.len() - i,
        {
            let ghost before = self@;
            let ghost done = records(out@);
            proof {
                assert(bytes@.skip(i as int).drop_first() =~= bytes@.skip(i + 1));
                assert(bytes@.skip(i as int)[0] == bytes@[i as int]);
            }
            let pushed = self.push(bytes[i]);
            match self.try_flush() {
                Some(v) => {
                    out.push(v);
                    proof {
                        let f = flushes(cap, Seq::empty(), bytes@.skip(i + 1)).0;
                        assert(records(out@) =~= done.push(before.push(bytes@[i as int])));
                        assert(done + (seq![before.push(bytes@[i as int])] + f) =~= done.push(before.push(bytes@[i as int])) + f);
                    }
                },
                None => {
                    proof {
                        assert(records(out@) =~= done);
                    }
                },
            }
            i = i + 1;
        }
        proof {
            assert(bytes@.skip(i as int) =~= Seq::<u8>::empty());
            assert(records(out@) + Seq::<Seq<u8>>::empty() =~= records(out@));
        }
        out
    }
}

} // verus!
