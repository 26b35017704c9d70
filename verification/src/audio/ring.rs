//! One ring of samples per audio source, with a timeline.
//!
//! Every written block carries the QPC timestamp the device supplied, and a
//! read is a window in time rather than "whatever is next". The timeline is
//! pulled towards the timestamps by a rate-limited amount per block, so a
//! device whose crystal runs a little fast or slow stays where it belongs
//! however long the buffer runs; a real dropout is bridged with silence, and a
//! long absence starts the timeline over.
//!
//! The ring is generic over the sample: it never looks at a sample's value,
//! only at how many there are and when they were taken. Silence is the
//! sample type's default.
use std::collections::VecDeque;
use vstd::prelude::*;

verus! {

/// How much audio the ring holds on to.
pub const CAPACITY_MS: usize = 1000;

/// From what deviation a block counts as a jump in the timeline.
pub const GAP_TOLERANCE_100NS: i64 = 50 * 10_000;

/// At most this much silence is inserted to bridge a gap. Beyond that the
/// source was simply gone, and the timeline starts over.
pub const MAX_GAP_FILL_100NS: i64 = 1_000 * 10_000;

/// How much of a block's own duration may go into pulling the timeline, in
/// parts per million.
pub const MAX_SLEW_PPM: i64 = 2_000;

/// QPC ticks (100 ns) in a second.
pub const TICKS_PER_SECOND: i64 = 10_000_000;

/// The timestamps the clock arithmetic is good for: over seven thousand years
/// of 100 ns ticks either way.
///
/// Where exactly `i64` runs out depends on the ring's state: the drift is the
/// stamp minus the expected start, and the start itself is the first stamp
/// moved by gaps, pulls and dropped frames. A quarter of the `i64` range for
/// the stamp leaves the start, the ring's span and their difference room to
/// spare in every state, so one bound serves all of them; QPC counts from the
/// machine's boot.
pub const QPC_LIMIT: i64 = 0x2000_0000_0000_0000;

/// The longest block one write takes, in samples: over an hour and a half of
/// 48 kHz mono in a single packet.
///
/// The block's length in time is scaled by the pull rate, `MAX_SLEW_PPM`, in
/// `i64`. At the slowest rate, one frame a second, that product runs out of
/// `i64` from about 4.6 * 10^8 frames on; the bound is the largest power of
/// two below that, so it holds for every rate without a bound that depends
/// on the rate.
pub const MAX_BLOCK_SAMPLES: usize = 0x1000_0000;

/// How far the start of the timeline can ever sit from zero.
pub open spec fn start_limit() -> int {
    QPC_LIMIT + 0x0020_0000_0000_0000
}

/// The time `frames` frames take at `rate` frames a second, in QPC ticks,
/// rounded down.
pub open spec fn ticks_of(frames: int, rate: int) -> int {
    frames * 10_000_000 / rate
}

/// How many frames a span of QPC ticks covers at `rate`, rounded towards zero
/// in either direction.
pub open spec fn frames_of(span: int, rate: int) -> int {
    if span >= 0 {
        span * rate / 10_000_000
    } else {
        -((-span) * rate / 10_000_000)
    }
}

/// How far the timeline may be pulled by one block of `frames`: the share
/// `MAX_SLEW_PPM` of its duration, but at least one tick.
pub open spec fn slew_of(frames: int, rate: int) -> int {
    let share = ticks_of(frames, rate) * 2_000 / 1_000_000;
    if share < 1 {
        1
    } else {
        share
    }
}

/// `n` samples of silence.
pub open spec fn silence_run<T>(silence: T, n: int) -> Seq<T> {
    Seq::new(n as nat, |i: int| silence)
}

pub open spec fn clamped(x: int, low: int, high: int) -> int {
    if x < low {
        low
    } else if x > high {
        high
    } else {
        x
    }
}

/// A block this far from where the timeline expects it belongs to a new
/// timeline.
pub open spec fn restarts(drift: int) -> bool {
    drift > MAX_GAP_FILL_100NS || drift < -MAX_GAP_FILL_100NS
}

/// A block this far behind its expected place follows a dropout that is
/// bridged with silence.
pub open spec fn bridges(drift: int) -> bool {
    !restarts(drift) && drift > GAP_TOLERANCE_100NS
}

/// The samples of one source, oldest first, and the QPC time of the first.
/// Holds at most a second of frames.
pub struct SampleRing<T> {
    samples: VecDeque<T>,
    /// QPC (100 ns) of the first sample in `samples`.
    start_100ns: i64,
    primed: bool,
    sample_rate: u32,
    channels: usize,
    capacity: usize,
    silence: T,
}

impl<T: Copy + Default> SampleRing<T> {
    /// The samples held, oldest first.
    pub closed spec fn held(self) -> Seq<T> {
        self.samples@
    }

    /// QPC of the first sample held.
    pub closed spec fn start(self) -> int {
        self.start_100ns as int
    }

    /// Whether a block has arrived since the ring was made or cleared.
    pub closed spec fn primed(self) -> bool {
        self.primed
    }

    pub closed spec fn rate(self) -> int {
        self.sample_rate as int
    }

    pub closed spec fn channels(self) -> int {
        self.channels as int
    }

    /// How many samples the ring holds at most.
    pub closed spec fn capacity(self) -> int {
        self.capacity as int
    }

    /// What a stretch without material reads as.
    pub closed spec fn silence(self) -> T {
        self.silence
    }

    /// The ring's invariant: a positive rate and channel count, a capacity of
    /// one second of frames, never more held than that, nothing held and no
    /// start before the first block, and a start the clock arithmetic can
    /// take.
    pub open spec fn wf(self) -> bool {
        &&& self.rate() > 0
        &&& self.channels() > 0
        &&& self.capacity() == self.rate() * self.channels()
        &&& self.capacity() * 1000 <= usize::MAX
        &&& self.held().len() <= self.capacity()
        &&& !self.primed() ==> self.held().len() == 0 && self.start() == 0
        &&& -start_limit() <= self.start() <= start_limit()
    }

    /// QPC past the last sample held.
    pub open spec fn end(self) -> int {
        self.start() + ticks_of(self.held().len() as int / self.channels(), self.rate())
    }

    /// Set up alike: the same sample rate, channels, capacity and silence.
    pub open spec fn same_setup(self, other: Self) -> bool {
        &&& self.rate() == other.rate()
        &&& self.channels() == other.channels()
        &&& self.capacity() == other.capacity()
        &&& self.silence() == other.silence()
    }

    /// The sample a window starting at `from` reads at its position `k`:
    /// whatever the ring holds at that point in time, silence where it holds
    /// nothing.
    pub open spec fn window_at(self, from: int, k: int) -> T {
        let i = k + frames_of(from - self.start(), self.rate()) * self.channels();
        if self.primed() && 0 <= i < self.held().len() {
            self.held()[i]
        } else {
            self.silence()
        }
    }

    /// Where the timeline stands once `block`, stamped `qpc`, is taken in,
    /// before the ring is cut back to its capacity: what it holds, and the
    /// time of its first sample.
    pub open spec fn placed(self, block: Seq<T>, qpc: int) -> (Seq<T>, int) {
        if !self.primed() {
            (self.held() + block, qpc)
        } else {
            let drift = qpc - self.end();
            if restarts(drift) {
                (block, qpc)
            } else if bridges(drift) {
                let missing = frames_of(drift, self.rate()) * self.channels();
                (self.held() + silence_run(self.silence(), missing) + block, self.start())
            } else {
                let slew = slew_of(block.len() as int / self.channels(), self.rate());
                (self.held() + block, self.start() + clamped(drift, -slew, slew))
            }
        }
    }

    /// The ring cut back to its capacity: the oldest samples go, and the start
    /// moves on by the frames they held.
    pub open spec fn cut(self, placed: (Seq<T>, int)) -> (Seq<T>, int) {
        let excess = placed.0.len() - self.capacity();
        if excess > 0 {
            (
                placed.0.subrange(excess, placed.0.len() as int),
                placed.1 + ticks_of(excess / self.channels(), self.rate()),
            )
        } else {
            placed
        }
    }

    /// `self` is what writing `block`, stamped `qpc`, into `before` leaves.
    pub open spec fn written(self, before: Self, block: Seq<T>, qpc: int) -> bool {
        &&& self.same_setup(before)
        &&& if block.len() == 0 {
            &&& self.held() == before.held()
            &&& self.start() == before.start()
            &&& self.primed() == before.primed()
        } else {
            let after = before.cut(before.placed(block, qpc));
            &&& self.held() == after.0
            &&& self.start() == after.1
            &&& self.primed()
        }
    }

    pub fn new(sample_rate: u32, channels: usize) -> (ring: Self)
        requires
            sample_rate > 0,
            channels > 0,
            sample_rate * channels * CAPACITY_MS <= usize::MAX,
        ensures
            ring.wf(),
            ring.rate() == sample_rate,
            ring.channels() == channels,
            ring.capacity() == sample_rate * channels,
            !ring.primed(),
            ring.held().len() == 0,
    {
        let capacity = sample_rate as usize * channels * CAPACITY_MS / 1000;
        SampleRing {
            samples: VecDeque::with_capacity(capacity),
            start_100ns: 0,
            primed: false,
            sample_rate,
            channels,
            capacity,
            silence: T::default(),
        }
    }

    /// The time `frames` frames take, in QPC ticks.
    pub fn frames_to_100ns(&self, frames: usize) -> (t: i64)
        requires
            self.wf(),
            frames * 10_000_000 <= i64::MAX,
        ensures
            t == ticks_of(frames as int, self.rate()),
    {
        frames as i64 * 10_000_000 / self.sample_rate as i64
    }

    /// How many frames a span of QPC ticks covers.
    pub fn duration_to_frames(&self, span_100ns: i64) -> (f: i64)
        requires
            self.wf(),
            -i64::MAX <= span_100ns * self.rate() <= i64::MAX,
        ensures
            f == frames_of(span_100ns as int, self.rate()),
    {
        let rate = self.sample_rate as i64;
        if span_100ns >= 0 {
            span_100ns * rate / 10_000_000
        } else {
            assert(span_100ns * rate <= span_100ns) by (nonlinear_arith)
                requires
                    span_100ns < 0,
                    rate >= 1,
            ;
            let back = -span_100ns;
            assert(back * rate == -(span_100ns * rate)) by (nonlinear_arith)
                requires
                    back == -span_100ns,
            ;
            -(back * rate / 10_000_000)
        }
    }

    /// How far the timeline may be pulled by one block of `frames`.
    pub fn max_slew_100ns(&self, frames: usize) -> (s: i64)
        requires
            self.wf(),
            frames <= MAX_BLOCK_SAMPLES,
        ensures
            s == slew_of(frames as int, self.rate()),
    {
        proof {
            lemma_ticks_at_most(frames as int, self.rate());
        }
        let share = self.frames_to_100ns(frames) * MAX_SLEW_PPM / 1_000_000;
        if share < 1 {
            1
        } else {
            share
        }
    }

    /// Take in one block with its QPC timestamp.
    pub fn write(&mut self, block: &[T], qpc_100ns: i64)
        requires
            old(self).wf(),
            block.len() <= MAX_BLOCK_SAMPLES,
            -QPC_LIMIT <= qpc_100ns <= QPC_LIMIT,
        ensures
            final(self).wf(),
            final(self).written(*old(self), block@, qpc_100ns as int),
    {
        if block.len() == 0 {
            return;
        }
        self.place(block, qpc_100ns);
        self.cut_back();
    }

    /// Put the block where its timestamp says it belongs: start the timeline,
    /// start it over, bridge a gap with silence, or pull it by a sliver.
    fn place(&mut self, block: &[T], qpc_100ns: i64)
        requires
            old(self).wf(),
            0 < block.len() <= MAX_BLOCK_SAMPLES,
            -QPC_LIMIT <= qpc_100ns <= QPC_LIMIT,
        ensures
            final(self).same_setup(*old(self)),
            final(self).primed(),
            final(self).held() == old(self).placed(block@, qpc_100ns as int).0,
            final(self).start() == old(self).placed(block@, qpc_100ns as int).1,
            final(self).held().len() <= 2 * final(self).capacity() + block.len(),
            qpc_100ns - 30_000_000 <= final(self).start() <= qpc_100ns + 10_000_000,
    {
        let ghost before = *self;
        if !self.primed {
            self.start_100ns = qpc_100ns;
            self.primed = true;
        } else {
            let held = self.samples.len() / self.channels;
            proof {
                lemma_frames_within(self.samples@.len() as int, self.rate(), self.channels(), 0);
                lemma_ticks_at_most(held as int, self.rate());
            }
            let expected = self.start_100ns + self.frames_to_100ns(held);
            let drift = qpc_100ns - expected;
            if drift > MAX_GAP_FILL_100NS || drift < -MAX_GAP_FILL_100NS {
                self.samples.clear();
                self.start_100ns = qpc_100ns;
            } else if drift > GAP_TOLERANCE_100NS {
                proof {
                    lemma_gap_frames(drift as int, self.rate(), self.channels());
                }
                let frames = self.duration_to_frames(drift);
                let missing = frames as usize * self.channels;
                let mut added: usize = 0;
                while added < missing
                    invariant
                        added <= missing,
                        self.same_setup(before),
                        self.primed == before.primed,
                        self.start_100ns == before.start_100ns,
                        self.samples@ == before.held() + silence_run(before.silence(), added as int),
                    decreases missing - added,
                {
                    self.samples.push_back(self.silence);
                    added = added + 1;
                    proof {
                        assert(self.samples@ =~= before.held() + silence_run(
                            before.silence(),
                            added as int,
                        ));
                    }
                }
            } else {
                let slew = self.max_slew_100ns(block.len() / self.channels);
                let pull = if drift < -slew {
                    -slew
                } else if drift > slew {
                    slew
                } else {
                    drift
                };
                self.start_100ns = self.start_100ns + pull;
            }
        }
        let ghost prefix = self.samples@;
        let ghost start_now = self.start_100ns;
        let mut i: usize = 0;
        while i < block.len()
            invariant
                i <= block.len(),
                self.same_setup(before),
                self.primed,
                self.start_100ns == start_now,
                self.samples@ == prefix + block@.subrange(0, i as int),
            decreases block.len() - i,
        {
            self.samples.push_back(block[i]);
            i = i + 1;
            proof {
                assert(self.samples@ =~= prefix + block@.subrange(0, i as int));
            }
        }
        proof {
            assert(block@.subrange(0, block.len() as int) =~= block@);
        }
    }

    /// Cut the ring back to its capacity: the oldest samples go, and the start
    /// moves on with them.
    fn cut_back(&mut self)
        requires
            old(self).rate() > 0,
            old(self).channels() > 0,
            old(self).capacity() == old(self).rate() * old(self).channels(),
            old(self).capacity() * 1000 <= usize::MAX,
            old(self).primed(),
            old(self).held().len() <= 2 * old(self).capacity() + MAX_BLOCK_SAMPLES,
            -QPC_LIMIT - 30_000_000 <= old(self).start() <= QPC_LIMIT + 10_000_000,
        ensures
            final(self).wf(),
            final(self).same_setup(*old(self)),
            final(self).primed(),
            final(self).held() == old(self).cut((old(self).held(), old(self).start())).0,
            final(self).start() == old(self).cut((old(self).held(), old(self).start())).1,
    {
        let ghost before = *self;
        if self.samples.len() > self.capacity {
            let excess = self.samples.len() - self.capacity;
            let mut k: usize = 0;
            while k < excess
                invariant
                    k <= excess,
                    excess == before.held().len() - before.capacity(),
                    self.same_setup(before),
                    self.primed == before.primed,
                    self.start_100ns == before.start_100ns,
                    self.samples@ == before.held().subrange(k as int, before.held().len() as int),
                decreases excess - k,
            {
                self.samples.pop_front();
                k = k + 1;
            }
            let dropped = excess / self.channels;
            proof {
                lemma_frames_within(
                    excess as int,
                    self.rate(),
                    self.channels(),
                    MAX_BLOCK_SAMPLES as int,
                );
                lemma_ticks_of_more(dropped as int, self.rate(), MAX_BLOCK_SAMPLES as int);
            }
            self.start_100ns = self.start_100ns + self.frames_to_100ns(dropped);
        }
    }

    /// Read out a window in time: `out` is filled completely, from the time
    /// `from_100ns` on, with silence where the ring holds nothing. Consumes
    /// nothing.
    pub fn read_window(&self, from_100ns: i64, out: &mut [T])
        requires
            self.wf(),
        ensures
            final(out)@.len() == old(out)@.len(),
            forall|k: int|
                0 <= k < old(out)@.len() ==> final(out)@[k] == self.window_at(from_100ns as int, k),
    {
        let n = out.len();
        let mut k: usize = 0;
        while k < n
            invariant
                k <= n,
                out@.len() == n,
                forall|j: int| 0 <= j < k ==> out@[j] == self.silence(),
            decreases n - k,
        {
            out[k] = self.silence;
            k = k + 1;
        }
        let len = self.samples.len();
        if !self.primed || len == 0 {
            return;
        }
        let span: i128 = from_100ns as i128 - self.start_100ns as i128;
        let rate: i128 = self.sample_rate as i128;
        proof {
            lemma_window_frames(span as int, rate as int);
        }
        let frames: i128 = if span >= 0 {
            span * rate / 10_000_000
        } else {
            let back: i128 = -span;
            -(back * rate / 10_000_000)
        };
        assert(frames == frames_of(span as int, rate as int));
        if frames >= len as i128 || frames <= -(n as i128) {
            // The window and the material do not meet.
            proof {
                assert forall|j: int| 0 <= j < n implies out@[j] == self.window_at(
                    from_100ns as int,
                    j,
                ) by {
                    lemma_offset_beyond(frames as int, self.channels(), j, len as int, n as int);
                }
            }
            return;
        }
        proof {
            assert(self.channels() <= self.capacity()) by (nonlinear_arith)
                requires
                    self.capacity() == self.rate() * self.channels(),
                    self.rate() > 0,
                    self.channels() > 0,
            ;
            lemma_offset_fits(frames as int, self.channels(), len as int, n as int);
        }
        let offset: i128 = frames * self.channels as i128;
        if offset >= len as i128 || offset <= -(n as i128) {
            proof {
                assert forall|j: int| 0 <= j < n implies out@[j] == self.window_at(
                    from_100ns as int,
                    j,
                ) by {}
            }
            return;
        }
        let mut src: usize;
        let mut dst: usize;
        if offset < 0 {
            src = 0;
            dst = (-offset) as usize;
        } else {
            src = offset as usize;
            dst = 0;
        }
        while dst < n && src < len
            invariant
                dst <= n,
                src <= len,
                len == self.held().len(),
                n == out@.len(),
                src as int == dst as int + offset as int,
                offset as int == frames_of(from_100ns - self.start(), self.rate()) * self.channels(),
                self.primed(),
                forall|j: int| 0 <= j < dst ==> out@[j] == self.window_at(from_100ns as int, j),
                forall|j: int| dst <= j < n ==> out@[j] == self.silence(),
            decreases n - dst,
        {
            out[dst] = self.samples[src];
            src = src + 1;
            dst = dst + 1;
        }
    }

    /// QPC past the last sample: there is material up to here.
    pub fn end_100ns(&self) -> (e: Option<i64>)
        requires
            self.wf(),
        ensures
            match e {
                Some(v) => self.primed() && v == self.end(),
                None => !self.primed(),
            },
    {
        if !self.primed {
            return None;
        }
        let held = self.samples.len() / self.channels;
        proof {
            lemma_frames_within(self.samples@.len() as int, self.rate(), self.channels(), 0);
            lemma_ticks_at_most(held as int, self.rate());
        }
        Some(self.start_100ns + self.frames_to_100ns(held))
    }

    /// QPC of the first sample still in the ring.
    pub fn start_100ns(&self) -> (s: Option<i64>)
        ensures
            s == (if self.primed() { Some(self.start() as i64) } else { None::<i64> }),
    {
        if self.primed {
            Some(self.start_100ns)
        } else {
            None
        }
    }

    pub fn clear(&mut self)
        requires
            old(self).wf(),
        ensures
            final(self).wf(),
            final(self).same_setup(*old(self)),
            !final(self).primed(),
            final(self).held().len() == 0,
    {
        self.samples.clear();
        self.primed = false;
        self.start_100ns = 0;
    }
}

/// A block taken into an empty ring reads back from its own timestamp exactly
/// as it was written, and as silence past its end.
pub proof fn law_a_block_reads_back_at_its_stamp<T: Copy + Default>(
    before: SampleRing<T>,
    after: SampleRing<T>,
    block: Seq<T>,
    qpc: int,
)
    requires
        before.wf(),
        !before.primed(),
        0 < block.len() <= before.capacity(),
        after.written(before, block, qpc),
    ensures
        forall|k: int| 0 <= k < block.len() ==> after.window_at(qpc, k) == block[k],
        forall|k: int| k >= block.len() ==> after.window_at(qpc, k) == after.silence(),
{
    assert(before.held() + block =~= block);
    assert(after.held() == block);
    assert(after.start() == qpc);
    let r = after.rate();
    let c = after.channels();
    assert(0int * r == 0) by (nonlinear_arith);
    assert(frames_of(0, r) == 0);
    assert(0int * c == 0) by (nonlinear_arith);
    assert(frames_of(qpc - after.start(), r) * c == 0);
}

/// A block far from where the timeline expects it, either way, starts the
/// timeline over: the ring then holds that block and nothing older, from the
/// block's own timestamp on.
pub proof fn law_a_long_absence_starts_over<T: Copy + Default>(
    before: SampleRing<T>,
    after: SampleRing<T>,
    block: Seq<T>,
    qpc: int,
)
    requires
        before.wf(),
        before.primed(),
        restarts(qpc - before.end()),
        0 < block.len() <= before.capacity(),
        after.written(before, block, qpc),
    ensures
        after.start() == qpc,
        after.held() == block,
{
}

/// Between a dropout and a jump, a block only pulls the timeline towards its
/// timestamp, and by no more than the rate limit allows: never past the
/// timestamp, never by more than `slew_of` the block. The material is kept
/// and the block appended.
pub proof fn law_the_pull_is_rate_limited<T: Copy + Default>(
    before: SampleRing<T>,
    after: SampleRing<T>,
    block: Seq<T>,
    qpc: int,
)
    requires
        before.wf(),
        before.primed(),
        !restarts(qpc - before.end()),
        !bridges(qpc - before.end()),
        0 < block.len(),
        before.held().len() + block.len() <= before.capacity(),
        after.written(before, block, qpc),
    ensures
        after.held() == before.held() + block,
        ({
            let moved = after.start() - before.start();
            let drift = qpc - before.end();
            let slew = slew_of(block.len() as int / before.channels(), before.rate());
            &&& -slew <= moved <= slew
            &&& drift >= 0 ==> 0 <= moved <= drift
            &&& drift <= 0 ==> drift <= moved <= 0
        }),
{
}

/// A dropout is bridged with silence, not slewed away: the start stays, and
/// the block follows the silence the gap took.
pub proof fn law_a_dropout_is_bridged<T: Copy + Default>(
    before: SampleRing<T>,
    after: SampleRing<T>,
    block: Seq<T>,
    qpc: int,
)
    requires
        before.wf(),
        before.primed(),
        bridges(qpc - before.end()),
        0 < block.len(),
        before.held().len() + frames_of(qpc - before.end(), before.rate()) * before.channels()
            + block.len() <= before.capacity(),
        after.written(before, block, qpc),
    ensures
        after.start() == before.start(),
        after.held() == before.held() + silence_run(
            before.silence(),
            frames_of(qpc - before.end(), before.rate()) * before.channels(),
        ) + block,
{
}

/// A write never leaves more than the capacity, and what it keeps is the
/// newest material: the tail of what was placed.
pub proof fn law_the_newest_material_stays<T: Copy + Default>(
    before: SampleRing<T>,
    after: SampleRing<T>,
    block: Seq<T>,
    qpc: int,
)
    requires
        before.wf(),
        0 < block.len(),
        after.written(before, block, qpc),
    ensures
        ({
            let placed = before.placed(block, qpc).0;
            &&& after.held().len() == if placed.len() > before.capacity() {
                before.capacity()
            } else {
                placed.len() as int
            }
            &&& after.held() == placed.subrange(
                placed.len() - after.held().len(),
                placed.len() as int,
            )
        }),
{
    let placed = before.placed(block, qpc).0;
    if placed.len() <= before.capacity() {
        assert(placed.subrange(0, placed.len() as int) =~= placed);
    }
}

/// What a ring holds splits into at most `rate` frames plus the frames of
/// `extra` samples more.
pub proof fn lemma_frames_within(len: int, rate: int, channels: int, extra: int)
    requires
        0 <= len <= rate * channels + extra,
        rate > 0,
        channels > 0,
        extra >= 0,
    ensures
        len / channels <= rate + extra,
{
    assert(len / channels <= rate + extra) by (nonlinear_arith)
        requires
            0 <= len <= rate * channels + extra,
            rate > 0,
            channels > 0,
            extra >= 0,
    ;
}

/// A gap the ring bridges covers at most a second of frames, and the silence
/// for it fits in the ring's capacity.
pub proof fn lemma_gap_frames(drift: int, rate: int, channels: int)
    requires
        0 < drift <= MAX_GAP_FILL_100NS,
        0 < rate <= u32::MAX,
        channels > 0,
    ensures
        drift * rate <= i64::MAX,
        0 <= frames_of(drift, rate) <= rate,
        0 <= frames_of(drift, rate) * channels <= rate * channels,
{
    assert(drift * rate <= 10_000_000 * rate) by (nonlinear_arith)
        requires
            0 < drift <= 10_000_000,
            rate > 0,
    ;
    assert(0 <= drift * rate / 10_000_000 <= rate) by (nonlinear_arith)
        requires
            0 < drift <= 10_000_000,
            rate > 0,
    ;
    let f = drift * rate / 10_000_000;
    assert(0 <= f * channels <= rate * channels) by (nonlinear_arith)
        requires
            0 <= f <= rate,
            channels > 0,
    ;
}

/// The frames of a second plus `extra` frames take at most a second plus
/// `extra` seconds' worth of ticks at one frame a second.
pub proof fn lemma_ticks_of_more(frames: int, rate: int, extra: int)
    requires
        0 <= frames <= rate + extra,
        0 < rate <= u32::MAX,
        0 <= extra <= MAX_BLOCK_SAMPLES,
    ensures
        frames * 10_000_000 <= i64::MAX,
        0 <= ticks_of(frames, rate) <= 10_000_000 + extra * 10_000_000,
{
    assert(frames * 10_000_000 <= (rate + extra) * 10_000_000) by (nonlinear_arith)
        requires
            0 <= frames <= rate + extra,
    ;
    assert(frames * 10_000_000 / rate <= (rate + extra) * 10_000_000 / rate) by (nonlinear_arith)
        requires
            0 <= frames <= rate + extra,
            rate > 0,
    ;
    assert((rate + extra) * 10_000_000 / rate == 10_000_000 + extra * 10_000_000 / rate)
        by (nonlinear_arith)
        requires
            rate > 0,
            extra >= 0,
    ;
    assert(extra * 10_000_000 / rate <= extra * 10_000_000) by (nonlinear_arith)
        requires
            rate > 0,
            extra >= 0,
    ;
    assert(0 <= frames * 10_000_000 / rate) by (nonlinear_arith)
        requires
            0 <= frames,
            rate > 0,
    ;
}

/// The frames between two timestamps are small enough for 128-bit arithmetic.
pub proof fn lemma_window_frames(span: int, rate: int)
    requires
        -0x2_0000_0000_0000_0000 <= span <= 0x2_0000_0000_0000_0000,
        0 < rate <= u32::MAX,
    ensures
        -0x2_0000_0000_0000_0000_0000_0000 <= span * rate <= 0x2_0000_0000_0000_0000_0000_0000,
        -0x2_0000_0000_0000_0000_0000_0000 <= frames_of(span, rate) <= 0x2_0000_0000_0000_0000_0000_0000,
{
    let a = if span >= 0 {
        span
    } else {
        -span
    };
    vstd::arithmetic::mul::lemma_mul_upper_bound(a, 0x2_0000_0000_0000_0000, rate, 0x1_0000_0000);
    vstd::arithmetic::mul::lemma_mul_unary_negation(span, rate);
    assert(0 <= a * rate) by (nonlinear_arith)
        requires
            a >= 0,
            rate > 0,
    ;
    assert(0 <= a * rate / 10_000_000 <= a * rate) by (nonlinear_arith)
        requires
            a * rate >= 0,
    ;
}

/// A window that starts past the last frame held, or ends before the first,
/// reads nothing but silence.
pub proof fn lemma_offset_beyond(frames: int, channels: int, j: int, len: int, n: int)
    requires
        frames >= len || frames <= -n,
        channels > 0,
        0 <= j < n,
        len >= 0,
    ensures
        j + frames * channels >= len || j + frames * channels < 0,
{
    if frames >= len {
        assert(frames * channels >= frames) by (nonlinear_arith)
            requires
                frames >= 0,
                channels > 0,
        ;
    } else {
        assert(frames * channels <= frames) by (nonlinear_arith)
            requires
                frames < 0,
                channels > 0,
        ;
    }
}

/// Within the material, the offset in samples fits 128-bit arithmetic.
pub proof fn lemma_offset_fits(frames: int, channels: int, len: int, n: int)
    requires
        -n < frames < len,
        0 < channels <= 0x80_0000_0000_0000,
        0 <= len <= usize::MAX,
        0 <= n <= usize::MAX,
    ensures
        -0x8000_0000_0000_0000_0000_0000_0000_0000 < frames * channels < 0x8000_0000_0000_0000_0000_0000_0000_0000,
{
    let a = if frames >= 0 {
        frames
    } else {
        -frames
    };
    vstd::arithmetic::mul::lemma_mul_upper_bound(a, 0x1_0000_0000_0000_0000, channels, 0x80_0000_0000_0000);
    vstd::arithmetic::mul::lemma_mul_unary_negation(frames, channels);
}

/// `frames` frames never take longer than `frames` seconds' worth of ticks at
/// one frame a second, and no longer than a second when they fit in one.
pub proof fn lemma_ticks_at_most(frames: int, rate: int)
    requires
        0 <= frames,
        rate > 0,
    ensures
        0 <= ticks_of(frames, rate) <= frames * 10_000_000,
        frames <= rate ==> ticks_of(frames, rate) <= 10_000_000,
{
    assert(0 <= frames * 10_000_000 / rate <= frames * 10_000_000) by (nonlinear_arith)
        requires
            0 <= frames,
            rate > 0,
    ;
    assert(frames <= rate ==> frames * 10_000_000 / rate <= 10_000_000) by (nonlinear_arith)
        requires
            0 <= frames,
            rate > 0,
    ;
}

} // verus!
