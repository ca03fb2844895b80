//! A circular byte buffer for the most recent output of a terminal.

use vstd::prelude::*;

verus! {

/// The last `n` elements of `s`, or all of `s` where it is shorter.
pub open spec fn last_n<T>(s: Seq<T>, n: nat) -> Seq<T> {
    if s.len() <= n {
        s
    } else {
        s.skip(s.len() - n)
    }
}

/// A circular byte buffer for capturing terminal output.
///
/// Writes append; when the buffer is full, the oldest bytes are overwritten. Its view is what it
/// holds, oldest byte first.
#[derive(Debug)]
pub struct RingBuffer {
    buf: Vec<u8>,
    /// Index of the oldest byte.
    head: usize,
    /// Index of the next write position.
    tail: usize,
    /// Number of valid bytes currently stored.
    len: usize,
}

/// The index that lies `i` places after `start` in a circle of `cap` places.
spec fn slot(start: int, i: int, cap: int) -> int {
    if start + i < cap {
        start + i
    } else {
        start + i - cap
    }
}

impl View for RingBuffer {
    type V = Seq<u8>;

    closed spec fn view(&self) -> Seq<u8> {
        Seq::new(
            self.len as nat,
            |i: int| self.buf@[slot(self.head as int, i, self.buf@.len() as int)],
        )
    }
}

impl RingBuffer {
    /// The number of bytes that the buffer can hold.
    pub closed spec fn cap(&self) -> nat {
        self.buf@.len()
    }

    /// The indices lie inside the buffer and agree with the number of bytes stored.
    pub closed spec fn wf(&self) -> bool {
        &&& 0 < self.buf@.len() <= usize::MAX
        &&& self.head < self.buf@.len()
        &&& self.len <= self.buf@.len()
        &&& self.tail == slot(self.head as int, self.len as int, self.buf@.len() as int)
    }

    /// What every well-formed buffer satisfies: it has room for at least one byte and holds no
    /// more than its capacity.
    pub proof fn lemma_bounds(&self)
        requires
            self.wf(),
        ensures
            0 < self.cap() <= usize::MAX,
            self@.len() <= self.cap(),
    {
    }

    /// Create an empty ring buffer with the given capacity.
    pub fn new(capacity: usize) -> (ring: Self)
        requires
            capacity > 0,
        ensures
            ring.wf(),
            ring.cap() == capacity,
            ring@ == Seq::<u8>::empty(),
    {
        RingBuffer { buf: vec![0u8; capacity], head: 0, tail: 0, len: 0 }
    }

    /// Total capacity in bytes.
    pub fn capacity(&self) -> (n: usize)
        requires
            self.wf(),
        ensures
            n == self.cap(),
    {
        self.buf.len()
    }

    /// Number of bytes currently stored.
    pub fn len(&self) -> (n: usize)
        requires
            self.wf(),
        ensures
            n == self@.len(),
    {
        self.len
    }

    /// True if nothing is stored.
    pub fn is_empty(&self) -> (b: bool)
        requires
            self.wf(),
        ensures
            b == (self@.len() == 0),
    {
        self.len == 0
    }

    /// Append `data`. Of what the buffer held and of `data` together, the last `capacity` bytes
    /// are kept.
    pub fn write(&mut self, data: &[u8])
        requires
            old(self).wf(),
        ensures
            final(self).wf(),
            final(self).cap() == old(self).cap(),
            final(self)@ == last_n(old(self)@ + data@, old(self).cap()),
    {
        let ghost before = *self;
        let cap: usize = self.buf.len();
        let n: usize = data.len();

        if n >= cap {
            copy_bytes(&mut self.buf, 0, data, n - cap, cap);
            self.head = 0;
            self.tail = 0;
            self.len = cap;
            assert(self@ =~= last_n(before@ + data@, cap as nat));
            return;
        }

        // Up to two pieces: to the end of the storage, then from its start.
        let first: usize = cap - self.tail;
        if n <= first {
            copy_bytes(&mut self.buf, self.tail, data, 0, n);
        } else {
            copy_bytes(&mut self.buf, self.tail, data, 0, first);
            copy_bytes(&mut self.buf, 0, data, first, n - first);
        }
        assert forall|i: int| 0 <= i < n implies self.buf@[slot(
            before.tail as int,
            i,
            cap as int,
        )] == data@[i] by {}

        self.tail =
        if n < first {
            self.tail + n
        } else {
            n - first
        };
        if n > cap - self.len {
            self.head = self.tail;
            self.len = cap;
        } else {
            self.len = self.len + n;
        }
        assert(self@ =~= last_n(before@ + data@, cap as nat));
    }

    /// A contiguous copy of what is stored, oldest byte first.
    pub fn snapshot(&self) -> (out: Vec<u8>)
        requires
            self.wf(),
        ensures
            out@ == self@,
    {
        let cap: usize = self.buf.len();
        let mut out: Vec<u8> = Vec::with_capacity(self.len);
        let first: usize = cap - self.head;
        if self.len <= first {
            append_bytes(&mut out, &self.buf, self.head, self.len);
        } else {
            append_bytes(&mut out, &self.buf, self.head, first);
            append_bytes(&mut out, &self.buf, 0, self.len - first);
        }
        assert(out@ =~= self@);
        out
    }

    /// Forget everything that is stored.
    pub fn clear(&mut self)
        requires
            old(self).wf(),
        ensures
            final(self).wf(),
            final(self).cap() == old(self).cap(),
            final(self)@ == Seq::<u8>::empty(),
    {
        self.head = 0;
        self.tail = 0;
        self.len = 0;
        assert(self@ =~= Seq::<u8>::empty());
    }
}

/// Overwrite `n` bytes of `buf` from index `at` with those of `data` from index `from`.
fn copy_bytes(buf: &mut Vec<u8>, at: usize, data: &[u8], from: usize, n: usize)
    requires
        at + n <= old(buf)@.len(),
        from + n <= data@.len(),
    ensures
        final(buf)@.len() == old(buf)@.len(),
        forall|j: int|
            0 <= j < old(buf)@.len() ==> #[trigger] final(buf)@[j] == (if at <= j < at + n {
                data@[from + (j - at)]
            } else {
                old(buf)@[j]
            }),
{
    let ghost before = buf@;
    let mut i: usize = 0;
    while i < n
        invariant
            i <= n,
            at + n <= buf.len(),
            from + n <= data.len(),
            buf@.len() == before.len(),
            forall|j: int|
                0 <= j < before.len() ==> #[trigger] buf@[j] == (if at <= j < at + i {
                    data@[from + (j - at)]
                } else {
                    before[j]
                }),
        decreases n - i,
    {
        buf.set(at + i, data[from + i]);
        i = i + 1;
    }
}

/// Append to `out` the `n` bytes of `buf` from index `from`.
fn append_bytes(out: &mut Vec<u8>, buf: &Vec<u8>, from: usize, n: usize)
    requires
        from + n <= buf@.len(),
    ensures
        final(out)@ == old(out)@ + buf@.subrange(from as int, from + n),
{
    let ghost before = out@;
    let mut i: usize = 0;
    while i < n
        invariant
            i <= n,
            from + n <= buf.len(),
            out@ == before + buf@.subrange(from as int, from + i),
        decreases n - i,
    {
        out.push(buf[from + i]);
        i = i + 1;
        assert(out@ =~= before + buf@.subrange(from as int, from + i));
    }
    assert(out@ =~= before + buf@.subrange(from as int, from + n));
}

/// What a buffer of capacity `cap` holds after the writes `writes`, made one after another on a
/// buffer that held `start`.
pub open spec fn after_writes(start: Seq<u8>, writes: Seq<Seq<u8>>, cap: nat) -> Seq<u8>
    decreases writes.len(),
{
    if writes.len() == 0 {
        start
    } else {
        last_n(after_writes(start, writes.drop_last(), cap) + writes.last(), cap)
    }
}

/// Appending to the last bytes of a history and keeping the last bytes of the result is the same
/// as keeping the last bytes of the longer history.
pub proof fn lemma_last_n_append<T>(history: Seq<T>, more: Seq<T>, n: nat)
    ensures
        last_n(last_n(history, n) + more, n) == last_n(history + more, n),
{
    assert(last_n(last_n(history, n) + more, n) =~= last_n(history + more, n));
}

/// However the output was cut into writes, the buffer holds the last bytes of all of it, as many
/// as its capacity allows: nothing recent is lost, and nothing appears out of order.
pub proof fn law_ring_keeps_most_recent(start: Seq<u8>, writes: Seq<Seq<u8>>, cap: nat)
    requires
        start.len() <= cap,
    ensures
        after_writes(start, writes, cap) == last_n(start + writes.flatten(), cap),
    decreases writes.len(),
{
    if writes.len() == 0 {
        assert(start + writes.flatten() =~= start);
    } else {
        let init = writes.drop_last();
        law_ring_keeps_most_recent(start, init, cap);
        writes.lemma_flatten_and_flatten_alt_are_equivalent();
        init.lemma_flatten_and_flatten_alt_are_equivalent();
        lemma_last_n_append(start + init.flatten(), writes.last(), cap);
        assert(start + writes.flatten() =~= (start + init.flatten()) + writes.last());
    }
}

/// What is kept is the end of what was held and what came, byte for byte: as much as fits, up to the
/// newest byte.
pub proof fn law_kept_bytes_are_the_end(held: Seq<u8>, data: Seq<u8>, cap: nat, i: int)
    requires
        held.len() <= cap,
    ensures
        ({
            let all = held + data;
            let kept = last_n(all, cap);
            &&& kept.len() == (if all.len() <= cap {
                all.len()
            } else {
                cap
            })
            &&& 0 <= i < kept.len() ==> kept[kept.len() - 1 - i] == all[all.len() - 1 - i]
        }),
{
}

} // verus!
