use vstd::prelude::*;

verus! {

/// `k` taken back into `0..n` for `0 <= k < 2 * n`.
pub open spec fn wrap_index(k: int, n: int) -> int {
    if k < n {
        k
    } else {
        k - n
    }
}

/// Index into the oldest-first history of a buffer of `n > 0` slots that a read
/// `delay` samples behind the write position lands on. The delay is first
/// clamped to `n - 1`; a delay of zero reads the oldest sample.
pub open spec fn tap_index(n: nat, delay: nat) -> int {
    let clamped = if delay < n - 1 {
        delay as int
    } else {
        n - 1
    };
    if clamped == 0 {
        0
    } else {
        n - clamped
    }
}

/// The oldest-first history after one sample `v` is written: the oldest sample
/// drops out and `v` becomes the newest.
pub open spec fn shift_in<T>(h: Seq<T>, v: T) -> Seq<T> {
    h.drop_first().push(v)
}

/// The history after the samples of `vs` are written one after another.
pub open spec fn shift_in_all<T>(h: Seq<T>, vs: Seq<T>) -> Seq<T>
    decreases vs.len(),
{
    if vs.len() == 0 {
        h
    } else {
        shift_in_all(shift_in(h, vs[0]), vs.drop_first())
    }
}

/// `s` resized to `len`: truncated, or extended with copies of `fill`.
pub open spec fn resized<T>(s: Seq<T>, len: nat, fill: T) -> Seq<T> {
    if len <= s.len() {
        s.subrange(0, len as int)
    } else {
        s + Seq::new((len - s.len()) as nat, |i: int| fill)
    }
}

/// A circular buffer of samples with a single write position.
///
/// The buffer is read either some samples behind the write position or at the
/// write position itself (the oldest sample), and written one sample at a
/// time, after which the position advances and wraps around.
pub struct RingBuffer<T> {
    slots: Vec<T>,
    pos: usize,
}

impl<T: Copy> View for RingBuffer<T> {
    type V = Seq<T>;

    /// The oldest-first history of the buffer.
    open spec fn view(&self) -> Seq<T> {
        self.history()
    }
}

impl<T: Copy> RingBuffer<T> {
    /// The physical contents of the buffer.
    pub closed spec fn slots(&self) -> Seq<T> {
        self.slots@
    }

    /// The index at which the next sample is written.
    pub closed spec fn pos(&self) -> nat {
        self.pos as nat
    }

    /// The write position lies inside the buffer, or is zero for an empty buffer.
    pub open spec fn wf(&self) -> bool {
        self.pos() == 0 || self.pos() < self.slots().len()
    }

    /// The contents read from the write position onwards: oldest sample first,
    /// most recently written sample last.
    pub open spec fn history(&self) -> Seq<T> {
        let n = self.slots().len();
        Seq::new(n, |i: int| self.slots()[wrap_index(self.pos() + i, n as int)])
    }

    /// Creates a buffer of `len` slots, each holding `fill`, written from slot zero.
    pub fn new(len: usize, fill: T) -> (rb: Self)
        ensures
            rb.wf(),
            rb.slots() == Seq::new(len as nat, |i: int| fill),
            rb.pos() == 0,
            rb@ == Seq::new(len as nat, |i: int| fill),
    {
        let mut slots: Vec<T> = Vec::with_capacity(len);
        let mut i: usize = 0;
        while i < len
            invariant
                i <= len,
                slots@ == Seq::new(i as nat, |j: int| fill),
            decreases len - i,
        {
            slots.push(fill);
            i = i + 1;
        }
        let rb = RingBuffer { slots, pos: 0 };
        assert(rb@ =~= Seq::new(len as nat, |i: int| fill));
        rb
    }

    /// Number of slots.
    pub fn len(&self) -> (n: usize)
        ensures
            n == self.slots().len(),
            n == self@.len(),
    {
        self.slots.len()
    }

    /// Whether the buffer has no slots.
    pub fn is_empty(&self) -> (b: bool)
        ensures
            b == (self@.len() == 0),
    {
        self.slots.len() == 0
    }

    /// The slot at which the next sample is written.
    pub fn write_pos(&self) -> (p: usize)
        ensures
            p == self.pos(),
    {
        self.pos
    }

    /// Reads the sample `delay` samples behind the write position, the delay
    /// being clamped to `len - 1`; a delay of zero reads the oldest sample.
    pub fn read_delayed(&self, delay: usize) -> (v: T)
        requires
            self.wf(),
            self@.len() > 0,
        ensures
            v == self@[tap_index(self@.len(), delay as nat)],
            1 <= delay < self@.len() ==> v == self@[self@.len() - delay],
            delay == 0 ==> v == self@[0],
            self@.len() >= 2 && delay >= self@.len() - 1 ==> v == self@[1],
    {
        let n = self.slots.len();
        let d = if delay < n - 1 {
            delay
        } else {
            n - 1
        };
        let idx = if self.pos >= d {
            self.pos - d
        } else {
            self.pos + (n - d)
        };
        proof {
            let k = tap_index(n as nat, delay as nat);
            if d == 0 {
                assert(k == 0);
                assert(wrap_index(self.pos() + k, n as int) == idx);
            } else {
                assert(k == n - d);
                assert(wrap_index(self.pos() + k, n as int) == idx);
            }
        }
        self.slots[idx]
    }

    /// Reads the sample at the write position: the oldest sample, written
    /// `len` samples ago.
    pub fn read_oldest(&self) -> (v: T)
        requires
            self.wf(),
            self@.len() > 0,
        ensures
            v == self@[0],
            v == self.slots()[self.pos() as int],
    {
        self.slots[self.pos]
    }

    /// Writes `v` at the write position and advances the position, wrapping
    /// around at the end of the buffer.
    pub fn write_advance(&mut self, v: T)
        requires
            old(self).wf(),
            old(self)@.len() > 0,
        ensures
            final(self).wf(),
            final(self).slots() == old(self).slots().update(old(self).pos() as int, v),
            final(self).pos() == wrap_index(old(self).pos() + 1int, old(self).slots().len() as int),
            final(self)@ == shift_in(old(self)@, v),
    {
        let ghost h = self@;
        let n = self.slots.len();
        let p = self.pos;
        self.slots.set(p, v);
        self.pos = if p + 1 < n {
            p + 1
        } else {
            0
        };
        assert(self@ =~= shift_in(h, v));
    }

    /// Fills every slot with `fill` and moves the write position to slot zero.
    pub fn reset(&mut self, fill: T)
        ensures
            final(self).wf(),
            final(self).slots() == Seq::new(old(self).slots().len(), |i: int| fill),
            final(self).pos() == 0,
            final(self)@ == Seq::new(old(self)@.len(), |i: int| fill),
    {
        let n = self.slots.len();
        let mut i: usize = 0;
        while i < n
            invariant
                i <= n,
                n == self.slots@.len(),
                forall|j: int| 0 <= j < i ==> self.slots@[j] == fill,
            decreases n - i,
        {
            self.slots.set(i, fill);
            i = i + 1;
        }
        self.pos = 0;
        assert(self.slots@ =~= Seq::new(n as nat, |i: int| fill));
        assert(self@ =~= Seq::new(n as nat, |i: int| fill));
    }

    /// Truncates or extends the physical contents to `len` slots, new slots
    /// holding `fill`; the write position is left unchanged.
    fn resize_slots(&mut self, len: usize, fill: T)
        ensures
            final(self).slots() == resized(old(self).slots(), len as nat, fill),
            final(self).pos() == old(self).pos(),
    {
        let n = self.slots.len();
        if len <= n {
            self.slots.truncate(len);
        } else {
            let ghost s0 = self.slots@;
            let mut i: usize = n;
            while i < len
                invariant
                    n <= i <= len,
                    s0.len() == n,
                    self.pos == old(self).pos,
                    self.slots@ == s0 + Seq::new((i - n) as nat, |j: int| fill),
                decreases len - i,
            {
                self.slots.push(fill);
                i = i + 1;
                assert(self.slots@ =~= s0 + Seq::new((i - n) as nat, |j: int| fill));
            }
        }
    }

    /// Resizes the buffer to `len` slots, keeping the leading slots, filling new
    /// slots with `fill`, and moves the write position to slot zero.
    pub fn resize_rewind(&mut self, len: usize, fill: T)
        ensures
            final(self).wf(),
            final(self).slots() == resized(old(self).slots(), len as nat, fill),
            final(self).slots().len() == len,
            forall|i: int|
                0 <= i < len && i < old(self).slots().len() ==> final(self).slots()[i] == old(
                    self,
                ).slots()[i],
            forall|i: int|
                old(self).slots().len() <= i < len ==> final(self).slots()[i] == fill,
            final(self).pos() == 0,
            final(self)@ == resized(old(self).slots(), len as nat, fill),
    {
        self.resize_slots(len, fill);
        self.pos = 0;
        assert(self@ =~= self.slots());
    }

    /// Resizes the buffer to `len` slots, keeping the leading slots and filling
    /// new slots with `fill`; the write position is kept where it fits, and
    /// otherwise moved to the last slot.
    pub fn resize_clamp(&mut self, len: usize, fill: T)
        requires
            old(self).wf(),
        ensures
            final(self).wf(),
            final(self).slots() == resized(old(self).slots(), len as nat, fill),
            final(self).slots().len() == len,
            forall|i: int|
                0 <= i < len && i < old(self).slots().len() ==> final(self).slots()[i] == old(
                    self,
                ).slots()[i],
            forall|i: int|
                old(self).slots().len() <= i < len ==> final(self).slots()[i] == fill,
            final(self).pos() == if len == 0 {
                0
            } else if old(self).pos() < len {
                old(self).pos() as int
            } else {
                len - 1
            },
    {
        self.resize_slots(len, fill);
        let last = if len == 0 {
            0
        } else {
            len - 1
        };
        if self.pos > last {
            self.pos = last;
        }
    }

    /// Copies the contents into a vector, oldest sample first.
    pub fn to_vec(&self) -> (v: Vec<T>)
        requires
            self.wf(),
        ensures
            v@ == self@,
    {
        let n = self.slots.len();
        let mut out: Vec<T> = Vec::with_capacity(n);
        let mut i: usize = 0;
        while i < n
            invariant
                self.wf(),
                n == self.slots().len(),
                i <= n,
                out@ == self@.subrange(0, i as int),
            decreases n - i,
        {
            let k = if self.pos < n - i {
                self.pos + i
            } else {
                self.pos - (n - i)
            };
            out.push(self.slots[k]);
            i = i + 1;
            assert(out@ =~= self@.subrange(0, i as int));
        }
        assert(self@.subrange(0, n as int) =~= self@);
        out
    }
}

/// A read lands inside the buffer, whatever the delay.
pub proof fn lemma_tap_index_in_range(n: nat, delay: nat)
    requires
        n > 0,
    ensures
        0 <= tap_index(n, delay) < n,
{
}

/// Writing the samples of `vs` slides them into the history from the newest end:
/// the history becomes the last `h.len()` samples of `h` followed by `vs`.
pub proof fn lemma_shift_in_all_window<T>(h: Seq<T>, vs: Seq<T>)
    requires
        h.len() > 0,
    ensures
        shift_in_all(h, vs) == (h + vs).subrange(vs.len() as int, (h.len() + vs.len()) as int),
    decreases vs.len(),
{
    if vs.len() == 0 {
        assert((h + vs).subrange(0, h.len() as int) =~= h);
    } else {
        let h1 = shift_in(h, vs[0]);
        let rest = vs.drop_first();
        lemma_shift_in_all_window(h1, rest);
        assert(h1 + rest =~= (h + vs).subrange(1, (h.len() + vs.len()) as int));
        assert((h1 + rest).subrange(rest.len() as int, (h1.len() + rest.len()) as int) =~= (h + vs).subrange(
            vs.len() as int,
            (h.len() + vs.len()) as int,
        ));
    }
}

/// Writing never changes how many samples a buffer holds.
pub proof fn law_writes_keep_length<T>(h: Seq<T>, vs: Seq<T>)
    requires
        h.len() > 0,
    ensures
        shift_in_all(h, vs).len() == h.len(),
{
    lemma_shift_in_all_window(h, vs);
}

/// A sample written to a delay line is read back `delay` samples later at that
/// delay: after `v` is written and `delay - 1` further samples follow, a read at
/// `delay` returns `v`, for every delay from 1 to one less than the length.
pub proof fn law_delayed_sample_reappears<T>(h: Seq<T>, v: T, later: Seq<T>)
    requires
        later.len() + 2 <= h.len(),
    ensures
        shift_in_all(shift_in(h, v), later)[tap_index(h.len(), (later.len() + 1) as nat)] == v,
{
    let h1 = shift_in(h, v);
    lemma_shift_in_all_window(h1, later);
    let n = h.len();
    let d = later.len() + 1;
    assert(tap_index(n, d as nat) == n - d);
    assert((h1 + later)[n - 1] == v);
}

/// The oldest sample of a buffer of `n` slots is the one written `n` samples
/// ago: after `v` and `n - 1` further samples, reading at the write position
/// returns `v`.
pub proof fn law_oldest_is_written_len_ago<T>(h: Seq<T>, v: T, later: Seq<T>)
    requires
        later.len() + 1 == h.len(),
    ensures
        shift_in_all(shift_in(h, v), later)[0] == v,
{
    let h1 = shift_in(h, v);
    lemma_shift_in_all_window(h1, later);
    assert((h1 + later)[h.len() - 1] == v);
}

/// After as many samples as the buffer holds have been written, the history is
/// exactly those samples, oldest first, whatever it held before.
pub proof fn law_full_refill<T>(h: Seq<T>, vs: Seq<T>)
    requires
        h.len() > 0,
        vs.len() == h.len(),
    ensures
        shift_in_all(h, vs) == vs,
{
    lemma_shift_in_all_window(h, vs);
    assert((h + vs).subrange(vs.len() as int, (h.len() + vs.len()) as int) =~= vs);
}

/// After a reset with `fill`, every read returns `fill`, at any delay.
pub proof fn law_reset_reads_fill<T>(n: nat, fill: T, delay: nat)
    requires
        n > 0,
    ensures
        Seq::new(n, |i: int| fill)[tap_index(n, delay)] == fill,
{
}

/// A read `delay` samples back, for `1 <= delay < n`, returns the sample
/// written `delay` writes ago (history slot `n - delay`); a delay of zero reads
/// the oldest slot; every delay of `n - 1` or more reads the same slot as
/// `n - 1`, slot 1, the sample written `n - 1` writes ago; and a longer
/// delay never reads a more recent sample than a shorter one.
pub proof fn law_tap_index_delays(n: nat)
    requires
        n >= 1,
    ensures
        forall|d: nat| 1 <= d < n ==> #[trigger] tap_index(n, d) == n - d,
        tap_index(n, 0) == 0,
        n >= 2 ==> forall|d: nat| d >= n - 1 ==> #[trigger] tap_index(n, d) == 1,
        forall|d1: nat, d2: nat|
            1 <= d1 <= d2 ==> #[trigger] tap_index(n, d2) <= #[trigger] tap_index(n, d1),
{
}

/// However long the delay asked for, from `n - 1` samples on a read returns
/// the sample written `n - 1` writes ago: after `v` and `n - 2` further
/// samples, every delay of at least `n - 1` reads `v`.
pub proof fn law_long_delays_clamp<T>(h: Seq<T>, v: T, later: Seq<T>, delay: nat)
    requires
        later.len() + 2 == h.len(),
        delay >= h.len() - 1,
    ensures
        shift_in_all(shift_in(h, v), later)[tap_index(h.len(), delay)] == v,
{
    law_delayed_sample_reappears(h, v, later);
    assert(tap_index(h.len(), delay) == tap_index(h.len(), (later.len() + 1) as nat));
}

/// Resizing gives exactly the number of slots asked for: the first
/// `min(len, s.len())` slots are kept and every new slot holds `fill`.
pub proof fn law_resized<T>(s: Seq<T>, len: nat, fill: T)
    ensures
        resized(s, len, fill).len() == len,
        forall|i: int| 0 <= i < len && i < s.len() ==> #[trigger] resized(s, len, fill)[i] == s[i],
        forall|i: int| s.len() <= i < len ==> #[trigger] resized(s, len, fill)[i] == fill,
{
}

} // verus!
