use vstd::prelude::*;

verus! {

/// Samples per analysis frame.
pub const FFT_FRAME_SIZE: usize = 2048;

/// Overlap factor: frames per frame length.
pub const OSAMP: usize = 16;

/// Samples between the starts of two successive frames.
pub const STEP_SIZE: usize = 128;

/// Frequency bins of a real transform of one frame.
pub const FFT_BINS: usize = 1025;

/// Samples that stay in the input FIFO from one frame to the next.
pub const IN_FIFO_LATENCY: usize = 1920;

/// The accumulator after a hop: it moves `STEP_SIZE` slots towards its start
/// and the freed end holds `fill`.
pub open spec fn hop_shift<T>(accum: Seq<T>, fill: T) -> Seq<T> {
    accum.subrange(STEP_SIZE as int, 2 * FFT_FRAME_SIZE as int) + Seq::new(
        STEP_SIZE as nat,
        |i: int| fill,
    )
}

/// The output of the `k`-th push (counting from 1) from a state with
/// accumulator `accum` and position `rover`, when the caller adds nothing to
/// the accumulator and finishes each hop with `fill` as soon as a frame is due.
pub open spec fn drain_output<T>(accum: Seq<T>, fill: T, rover: nat, k: nat) -> T
    decreases k,
{
    if k <= 1 {
        accum[rover - IN_FIFO_LATENCY]
    } else if rover + 1 >= FFT_FRAME_SIZE {
        drain_output(hop_shift(accum, fill), fill, IN_FIFO_LATENCY as nat, (k - 1) as nat)
    } else {
        drain_output(accum, fill, rover + 1, (k - 1) as nat)
    }
}

/// Input FIFO and output overlap-add accumulator of a phase vocoder, with the
/// position at which the next input sample is stored.
///
/// Each incoming sample is stored at the position; the output sample for it is
/// read `IN_FIFO_LATENCY` slots before that position in the accumulator. When
/// the FIFO is full a frame is due: the caller analyses the FIFO, adds the
/// synthesised frame into the accumulator, and then finishes the hop, which
/// shifts both buffers by `STEP_SIZE` samples.
pub struct HopBuffers<T> {
    in_fifo: Vec<T>,
    output_accum: Vec<T>,
    rover: usize,
    inputs: Ghost<Seq<T>>,
}

impl<T: Copy> HopBuffers<T> {
    /// The input FIFO.
    pub closed spec fn fifo(&self) -> Seq<T> {
        self.in_fifo@
    }

    /// The output accumulator.
    pub closed spec fn accum(&self) -> Seq<T> {
        self.output_accum@
    }

    /// Where the next input sample is stored; `FFT_FRAME_SIZE` while a frame is due.
    pub closed spec fn rover(&self) -> nat {
        self.rover as nat
    }

    /// Every sample stored since the last reset, preceded by the
    /// `IN_FIFO_LATENCY` fill samples the FIFO started with.
    pub closed spec fn inputs(&self) -> Seq<T> {
        self.inputs@
    }

    /// Whether a full frame waits to be processed.
    pub open spec fn frame_pending(&self) -> bool {
        self.rover() == FFT_FRAME_SIZE
    }

    /// The buffers have their fixed lengths, the position lies in the second
    /// part of the FIFO, and the FIFO up to the position holds the most recent
    /// inputs in the order they came.
    pub open spec fn wf(&self) -> bool {
        &&& self.fifo().len() == FFT_FRAME_SIZE
        &&& self.accum().len() == 2 * FFT_FRAME_SIZE
        &&& IN_FIFO_LATENCY <= self.rover() <= FFT_FRAME_SIZE
        &&& self.inputs().len() >= self.rover()
        &&& self.fifo().subrange(0, self.rover() as int) == self.inputs().subrange(
            self.inputs().len() - self.rover(),
            self.inputs().len() as int,
        )
    }

    /// Buffers holding `fill` everywhere, the position at `IN_FIFO_LATENCY`.
    pub fn new(fill: T) -> (hb: Self)
        ensures
            hb.wf(),
            !hb.frame_pending(),
            hb.fifo() == Seq::new(FFT_FRAME_SIZE as nat, |i: int| fill),
            hb.accum() == Seq::new(2 * FFT_FRAME_SIZE as nat, |i: int| fill),
            hb.rover() == IN_FIFO_LATENCY,
            hb.inputs() == Seq::new(IN_FIFO_LATENCY as nat, |i: int| fill),
    {
        let in_fifo = filled(FFT_FRAME_SIZE, fill);
        let output_accum = filled(2 * FFT_FRAME_SIZE, fill);
        let hb = HopBuffers {
            in_fifo,
            output_accum,
            rover: IN_FIFO_LATENCY,
            inputs: Ghost(Seq::new(IN_FIFO_LATENCY as nat, |i: int| fill)),
        };
        assert(hb.fifo().subrange(0, IN_FIFO_LATENCY as int) =~= hb.inputs());
        assert(hb.inputs().subrange(0, IN_FIFO_LATENCY as int) =~= hb.inputs());
        hb
    }

    /// Fills both buffers with `fill` and moves the position back to
    /// `IN_FIFO_LATENCY`.
    pub fn reset(&mut self, fill: T)
        ensures
            final(self).wf(),
            !final(self).frame_pending(),
            final(self).fifo() == Seq::new(FFT_FRAME_SIZE as nat, |i: int| fill),
            final(self).accum() == Seq::new(2 * FFT_FRAME_SIZE as nat, |i: int| fill),
            final(self).rover() == IN_FIFO_LATENCY,
            final(self).inputs() == Seq::new(IN_FIFO_LATENCY as nat, |i: int| fill),
    {
        *self = Self::new(fill);
    }

    /// Stores one input sample and returns the output sample that goes with
    /// it, together with whether the FIFO is now full so that a frame is due.
    pub fn push(&mut self, input: T) -> (res: (T, bool))
        requires
            old(self).wf(),
            !old(self).frame_pending(),
        ensures
            final(self).wf(),
            res.0 == old(self).accum()[old(self).rover() - IN_FIFO_LATENCY],
            final(self).fifo() == old(self).fifo().update(old(self).rover() as int, input),
            final(self).accum() == old(self).accum(),
            final(self).rover() == old(self).rover() + 1,
            final(self).inputs() == old(self).inputs().push(input),
            res.1 == final(self).frame_pending(),
            res.1 ==> final(self).fifo() == final(self).inputs().subrange(
                final(self).inputs().len() - FFT_FRAME_SIZE,
                final(self).inputs().len() as int,
            ),
    {
        let ghost old_inputs = self.inputs@;
        let ghost r = self.rover as int;
        let out = self.output_accum[self.rover - IN_FIFO_LATENCY];
        self.in_fifo.set(self.rover, input);
        self.rover = self.rover + 1;
        self.inputs = Ghost(old_inputs.push(input));
        assert(self.in_fifo@.subrange(0, r + 1) =~= old(self).fifo().subrange(0, r).push(input));
        assert(self.inputs@.subrange(self.inputs@.len() - (r + 1), self.inputs@.len() as int)
            =~= old_inputs.subrange(old_inputs.len() - r, old_inputs.len() as int).push(input));
        let due = self.rover >= FFT_FRAME_SIZE;
        proof {
            if due {
                assert(self.in_fifo@ =~= self.in_fifo@.subrange(0, FFT_FRAME_SIZE as int));
            }
        }
        (out, due)
    }

    /// Finishes a hop after the frame was processed: both buffers move
    /// `STEP_SIZE` samples towards their start, the freed end of the
    /// accumulator is filled with `fill`, and the position returns to
    /// `IN_FIFO_LATENCY`.
    pub fn finish_hop(&mut self, fill: T)
        requires
            old(self).wf(),
            old(self).frame_pending(),
        ensures
            final(self).wf(),
            !final(self).frame_pending(),
            final(self).rover() == IN_FIFO_LATENCY,
            final(self).inputs() == old(self).inputs(),
            final(self).accum() == hop_shift(old(self).accum(), fill),
            final(self).accum().len() == 2 * FFT_FRAME_SIZE,
            forall|j: int|
                2 * FFT_FRAME_SIZE - STEP_SIZE <= j < 2 * FFT_FRAME_SIZE ==> final(self).accum()[j]
                    == fill,
            forall|j: int|
                0 <= j < 2 * FFT_FRAME_SIZE - STEP_SIZE ==> final(self).accum()[j] == old(
                    self,
                ).accum()[j + STEP_SIZE],
            final(self).fifo() == old(self).fifo().subrange(STEP_SIZE as int, FFT_FRAME_SIZE as int)
                + old(self).fifo().subrange(IN_FIFO_LATENCY as int, FFT_FRAME_SIZE as int),
    {
        let ghost old_fifo = self.in_fifo@;
        let ghost old_accum = self.output_accum@;
        shift_down(&mut self.output_accum, STEP_SIZE);
        let n = self.output_accum.len();
        let mut i: usize = n - STEP_SIZE;
        while i < n
            invariant
                n == 2 * FFT_FRAME_SIZE,
                n - STEP_SIZE <= i <= n,
                self.output_accum@.len() == n,
                self.in_fifo@ == old_fifo,
                self.inputs == old(self).inputs,
                self.rover == old(self).rover,
                forall|j: int|
                    0 <= j < n - STEP_SIZE ==> self.output_accum@[j] == old_accum[j + STEP_SIZE],
                forall|j: int| n - STEP_SIZE <= j < i ==> self.output_accum@[j] == fill,
            decreases n - i,
        {
            self.output_accum.set(i, fill);
            i = i + 1;
        }
        shift_down(&mut self.in_fifo, STEP_SIZE);
        self.rover = IN_FIFO_LATENCY;
        assert(self.output_accum@ =~= old_accum.subrange(STEP_SIZE as int, 2 * FFT_FRAME_SIZE as int)
            + Seq::new(STEP_SIZE as nat, |i: int| fill));
        assert(self.in_fifo@ =~= old_fifo.subrange(STEP_SIZE as int, FFT_FRAME_SIZE as int)
            + old_fifo.subrange(IN_FIFO_LATENCY as int, FFT_FRAME_SIZE as int));
        assert(self.in_fifo@.subrange(0, IN_FIFO_LATENCY as int) =~= self.inputs@.subrange(
            self.inputs@.len() - IN_FIFO_LATENCY,
            self.inputs@.len() as int,
        )) by {
            assert(old_fifo =~= old_fifo.subrange(0, FFT_FRAME_SIZE as int));
        }
    }

    /// Where the next input sample is stored.
    pub fn input_index(&self) -> (i: usize)
        ensures
            i == self.rover(),
    {
        self.rover
    }

    /// The input FIFO, for analysis of a due frame.
    pub fn fifo_samples(&self) -> (f: &Vec<T>)
        ensures
            f@ == self.fifo(),
    {
        &self.in_fifo
    }

    /// Reads slot `k` of the accumulator.
    pub fn accum_get(&self, k: usize) -> (v: T)
        requires
            self.wf(),
            k < 2 * FFT_FRAME_SIZE,
        ensures
            v == self.accum()[k as int],
    {
        self.output_accum[k]
    }

    /// Overwrites slot `k` of the accumulator, for overlap-adding a frame.
    pub fn accum_set(&mut self, k: usize, v: T)
        requires
            old(self).wf(),
            k < 2 * FFT_FRAME_SIZE,
        ensures
            final(self).wf(),
            final(self).accum() == old(self).accum().update(k as int, v),
            final(self).fifo() == old(self).fifo(),
            final(self).rover() == old(self).rover(),
            final(self).inputs() == old(self).inputs(),
    {
        self.output_accum.set(k, v);
    }
}

/// A vector of `n` copies of `fill`.
fn filled<T: Copy>(n: usize, fill: T) -> (v: Vec<T>)
    ensures
        v@ == Seq::new(n as nat, |i: int| fill),
{
    let mut v: Vec<T> = Vec::with_capacity(n);
    let mut i: usize = 0;
    while i < n
        invariant
            i <= n,
            v@ == Seq::new(i as nat, |j: int| fill),
        decreases n - i,
    {
        v.push(fill);
        i = i + 1;
    }
    v
}

/// Moves every element `k` places towards the start, as `copy_within(k.., 0)`
/// does; the last `k` elements keep their values.
pub fn shift_down<T: Copy>(v: &mut Vec<T>, k: usize)
    requires
        k <= old(v)@.len(),
    ensures
        final(v)@ == old(v)@.subrange(k as int, old(v)@.len() as int) + old(v)@.subrange(
            old(v)@.len() - k,
            old(v)@.len() as int,
        ),
{
    let n = v.len();
    let ghost orig = v@;
    let mut i: usize = 0;
    while i + k < n
        invariant
            n == orig.len(),
            k <= n,
            v@.len() == n,
            i <= n - k,
            forall|j: int| 0 <= j < i ==> v@[j] == orig[j + k],
            forall|j: int| i <= j < n ==> v@[j] == orig[j],
        decreases n - i,
    {
        let x = v[i + k];
        v.set(i, x);
        i = i + 1;
    }
    assert(v@ =~= orig.subrange(k as int, n as int) + orig.subrange(n - k, n as int));
}

/// Rounds an odd quotient of a phase by pi away from zero to the next even
/// number, so that subtracting that many half turns brings the phase into
/// `-pi..=pi`; even numbers are left alone.
pub open spec fn even_half_turns(qpd: int) -> int {
    if qpd % 2 == 0 {
        qpd
    } else if qpd >= 0 {
        qpd + 1
    } else {
        qpd - 1
    }
}

/// Computes `even_half_turns`, testing the low bit as the phase unwrapping does.
pub fn round_to_even_half_turns(qpd: isize) -> (r: isize)
    requires
        qpd < isize::MAX,
    ensures
        r == even_half_turns(qpd as int),
{
    let low: isize = qpd & 1;
    assert((qpd & 1isize) == 0isize || (qpd & 1isize) == 1isize) by (bit_vector);
    assert((qpd & 1isize) == 0isize <==> qpd % 2isize == 0isize) by (bit_vector);
    if qpd >= 0 {
        qpd + low
    } else {
        qpd - low
    }
}

/// Rounding a half-turn count gives an even count at most one away from it,
/// on the side away from zero.
pub proof fn law_even_half_turns(qpd: int)
    ensures
        even_half_turns(qpd) % 2 == 0,
        qpd >= 0 ==> qpd <= even_half_turns(qpd) <= qpd + 1,
        qpd < 0 ==> qpd - 1 <= even_half_turns(qpd) <= qpd,
{
}

/// The frame geometry: `OSAMP` hops of `STEP_SIZE` samples make a frame, a real
/// transform of a frame has `FFT_FRAME_SIZE / 2 + 1` bins, and after a hop the
/// FIFO takes exactly `STEP_SIZE` more samples before the next frame is due.
pub proof fn law_hop_geometry()
    ensures
        STEP_SIZE * OSAMP == FFT_FRAME_SIZE,
        FFT_BINS == FFT_FRAME_SIZE / 2 + 1,
        IN_FIFO_LATENCY + STEP_SIZE == FFT_FRAME_SIZE,
{
}

/// Without further additions, the pushes from position `rover` read the
/// accumulator slot after slot, `STEP_SIZE` slots further on for each hop
/// they cross: the `k`-th push reads what is now slot `rover - IN_FIFO_LATENCY + k - 1`.
pub proof fn lemma_drain_reads_in_order<T>(accum: Seq<T>, fill: T, rover: nat, k: nat)
    requires
        accum.len() == 2 * FFT_FRAME_SIZE,
        IN_FIFO_LATENCY <= rover < FFT_FRAME_SIZE,
        k >= 1,
        rover - IN_FIFO_LATENCY + k - 1 < 2 * FFT_FRAME_SIZE,
    ensures
        drain_output(accum, fill, rover, k) == accum[rover - IN_FIFO_LATENCY + k - 1],
    decreases k,
{
    if k > 1 {
        if rover + 1 >= FFT_FRAME_SIZE {
            let shifted = hop_shift(accum, fill);
            lemma_drain_reads_in_order(shifted, fill, IN_FIFO_LATENCY as nat, (k - 1) as nat);
            assert(shifted[k - 2] == accum[k - 2 + STEP_SIZE]);
        } else {
            lemma_drain_reads_in_order(accum, fill, rover + 1, (k - 1) as nat);
        }
    }
}

/// What a frame leaves in accumulator slot `j` (from `STEP_SIZE` on) comes out
/// on the `(j - STEP_SIZE + 1)`-th push after that frame's hop, unless later
/// frames add to it on the way.
pub proof fn law_accumulator_slot_output_time<T>(accum: Seq<T>, fill: T, j: nat)
    requires
        accum.len() == 2 * FFT_FRAME_SIZE,
        STEP_SIZE <= j < 2 * FFT_FRAME_SIZE,
    ensures
        drain_output(hop_shift(accum, fill), fill, IN_FIFO_LATENCY as nat, (j - STEP_SIZE + 1) as nat)
            == accum[j as int],
{
    let shifted = hop_shift(accum, fill);
    lemma_drain_reads_in_order(shifted, fill, IN_FIFO_LATENCY as nat, (j - STEP_SIZE + 1) as nat);
}

/// The latency of the hop bookkeeping is `IN_FIFO_LATENCY` samples (1920),
/// not `STEP_SIZE` (128): a host told that the shifter delays its output by
/// `STEP_SIZE` samples misaligns it by `IN_FIFO_LATENCY - STEP_SIZE`. When a due
/// frame is copied unchanged into the accumulator, each input in the frame
/// from slot `STEP_SIZE` on comes out `IN_FIFO_LATENCY` pushes after it went in.
/// `inputs` are the inputs up to the push that made the frame due (the frame
/// is their last `FFT_FRAME_SIZE` samples, as `push` ensures), and the input at
/// index `t` of `inputs` comes out on push `out_push` after the hop.
pub proof fn law_input_returns_after_latency<T>(
    inputs: Seq<T>,
    accum: Seq<T>,
    fill: T,
    t: nat,
)
    requires
        inputs.len() >= FFT_FRAME_SIZE,
        accum.len() == 2 * FFT_FRAME_SIZE,
        forall|q: int|
            0 <= q < FFT_FRAME_SIZE ==> accum[q] == inputs[inputs.len() - FFT_FRAME_SIZE + q],
        inputs.len() - FFT_FRAME_SIZE + STEP_SIZE <= t < inputs.len(),
    ensures
        ({
            let pushes_before_frame = inputs.len() - 1 - t;
            let out_push = IN_FIFO_LATENCY - pushes_before_frame;
            &&& 1 <= out_push
            &&& drain_output(hop_shift(accum, fill), fill, IN_FIFO_LATENCY as nat, out_push as nat)
                == inputs[t as int]
            &&& pushes_before_frame + out_push == IN_FIFO_LATENCY
        }),
{
    let p = t - (inputs.len() - FFT_FRAME_SIZE);
    law_accumulator_slot_output_time(accum, fill, p as nat);
    assert(accum[p] == inputs[t as int]);
}

/// A hop moves every accumulator slot `STEP_SIZE` places towards the start
/// and clears the freed last `STEP_SIZE` slots to `fill`, whatever they held.
pub proof fn law_hop_shift_clears_end<T>(accum: Seq<T>, fill: T)
    requires
        accum.len() == 2 * FFT_FRAME_SIZE,
    ensures
        hop_shift(accum, fill).len() == 2 * FFT_FRAME_SIZE,
        forall|j: int|
            2 * FFT_FRAME_SIZE - STEP_SIZE <= j < 2 * FFT_FRAME_SIZE ==> #[trigger] hop_shift(
                accum,
                fill,
            )[j] == fill,
        forall|j: int|
            0 <= j < 2 * FFT_FRAME_SIZE - STEP_SIZE ==> #[trigger] hop_shift(accum, fill)[j]
                == accum[j + STEP_SIZE],
{
}

/// With nothing more added, the accumulator drains: once every slot it held
/// after a hop has come out, each further push within the next hop outputs
/// `fill`.
pub proof fn law_output_drains_to_fill<T>(accum: Seq<T>, fill: T, k: nat)
    requires
        accum.len() == 2 * FFT_FRAME_SIZE,
        2 * FFT_FRAME_SIZE - STEP_SIZE < k <= 2 * FFT_FRAME_SIZE,
    ensures
        drain_output(hop_shift(accum, fill), fill, IN_FIFO_LATENCY as nat, k) == fill,
{
    let shifted = hop_shift(accum, fill);
    lemma_drain_reads_in_order(shifted, fill, IN_FIFO_LATENCY as nat, k);
}

} // verus!
