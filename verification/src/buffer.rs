//! Ring buffer over *already encoded* packets.
//!
//! Buffering raw frames would be unaffordable; encoded, the same minutes cost a
//! small fraction. Saving a clip is therefore pure muxing with no re-encode.
//!
//! The buffer may only be trimmed at the front up to a video keyframe,
//! otherwise the start of the clip is not decodable.
use std::collections::VecDeque;
use std::sync::Arc;
use vstd::prelude::*;

verus! {

broadcast use vstd::std_specs::vecdeque::group_vec_dequeue_axioms;

/// Track 0 is always video, the audio tracks follow from 1.
pub const VIDEO_TRACK: u32 = 0;

/// One microsecond-stamped packet as the encoder or the audio mixer hands it
/// over.
pub struct EncodedPacket {
    pub track: u32,
    pub pts_us: i64,
    pub duration_us: i64,
    pub keyframe: bool,
    pub data: Arc<Vec<u8>>,
}

/// A second reference to the same packet bytes.
///
/// Trusted: `Arc::clone`, which std documents as producing another pointer to
/// the same allocation, so the value behind it is the value behind `data`.
#[verifier::external_body]
fn share_bytes(data: &Arc<Vec<u8>>) -> (out: Arc<Vec<u8>>)
    ensures
        out == *data,
{
    data.clone()
}

impl EncodedPacket {
    pub fn is_video(&self) -> (r: bool)
        ensures
            r == (self.track == VIDEO_TRACK),
    {
        self.track == VIDEO_TRACK
    }

    /// Another handle on the same packet; the payload is shared, not copied.
    pub fn share(&self) -> (out: Self)
        ensures
            out == *self,
    {
        EncodedPacket {
            track: self.track,
            pts_us: self.pts_us,
            duration_us: self.duration_us,
            keyframe: self.keyframe,
            data: share_bytes(&self.data),
        }
    }
}

/// Is the packet a video keyframe — a place a clip may start?
pub open spec fn is_key(p: EncodedPacket) -> bool {
    p.track == VIDEO_TRACK && p.keyframe
}

/// Payload size of one packet.
pub open spec fn size(p: EncodedPacket) -> int {
    p.data@.len() as int
}

/// Total payload size of a run of packets.
pub open spec fn total(ps: Seq<EncodedPacket>) -> int
    decreases ps.len(),
{
    if ps.len() == 0 {
        0
    } else {
        size(ps[0]) + total(ps.skip(1))
    }
}

/// `keys` lists, in increasing order, exactly the positions of the video
/// keyframes in `ps`.
pub open spec fn lists_keys(ps: Seq<EncodedPacket>, keys: Seq<int>) -> bool {
    &&& forall|i: int, j: int| 0 <= i < j < keys.len() ==> keys[i] < keys[j]
    &&& forall|i: int| 0 <= i < keys.len() ==> 0 <= #[trigger] keys[i] < ps.len()
    &&& forall|i: int| 0 <= i < keys.len() ==> is_key(#[trigger] ps[keys[i]])
    &&& forall|x: int| 0 <= x < ps.len() && is_key(#[trigger] ps[x]) ==> exists|i: int|
        0 <= i < keys.len() && keys[i] == x
}

/// Where a trim that stopped at the `j`-th keyframe leaves the front: the
/// untouched front for `j == 0`, the keyframe itself otherwise.
pub open spec fn cut_at(keys: Seq<int>, j: int) -> int {
    if j == 0 {
        0
    } else {
        keys[j]
    }
}

/// May trimming stop with the ring starting at `cut_at(keys, j)`?
///
/// Yes when there is no later keyframe to cut at, or when the buffer length
/// measured from the next keyframe is below the capacity and what would remain
/// fits the memory budget.
pub open spec fn stops(
    ps: Seq<EncodedPacket>,
    keys: Seq<int>,
    newest: int,
    cap_us: int,
    cap_bytes: int,
    j: int,
) -> bool {
    j + 1 >= keys.len() || (newest - ps[keys[j + 1]].pts_us < cap_us && total(
        ps.skip(cut_at(keys, j)),
    ) <= cap_bytes)
}

/// `j` is the first keyframe at which trimming stops.
pub open spec fn is_trim_point(
    ps: Seq<EncodedPacket>,
    keys: Seq<int>,
    newest: int,
    cap_us: int,
    cap_bytes: int,
    j: int,
) -> bool {
    &&& 0 <= j
    &&& (j == 0 || j < keys.len())
    &&& stops(ps, keys, newest, cap_us, cap_bytes, j)
    &&& forall|i: int| 0 <= i < j ==> !stops(ps, keys, newest, cap_us, cap_bytes, i)
}

/// May the keyframe-less fallback stop after dropping `d` packets?
pub open spec fn keyless_stops(ps: Seq<EncodedPacket>, newest: int, cap_us: int, cap_bytes: int, d: int) -> bool {
    d >= ps.len() || (newest - ps[d].pts_us < cap_us && total(ps.skip(d)) <= cap_bytes)
}

/// `d` is the first count of dropped packets at which the fallback stops.
pub open spec fn is_keyless_point(
    ps: Seq<EncodedPacket>,
    newest: int,
    cap_us: int,
    cap_bytes: int,
    d: int,
) -> bool {
    &&& 0 <= d <= ps.len()
    &&& keyless_stops(ps, newest, cap_us, cap_bytes, d)
    &&& forall|e: int| 0 <= e < d ==> !keyless_stops(ps, newest, cap_us, cap_bytes, e)
}

/// What trimming makes of the packets `ps` whose keyframes sit at `keys`.
///
/// Whole groups of pictures go from the front while the buffer measured from
/// the *next* keyframe is still at least `cap_us` long, or while the ring is
/// over its budget — and never the last group. A stream without any keyframe
/// is held to both limits packet by packet instead.
pub open spec fn trimmed_to(
    ps: Seq<EncodedPacket>,
    keys: Seq<int>,
    newest: int,
    cap_us: int,
    cap_bytes: int,
    result: Seq<EncodedPacket>,
) -> bool {
    if keys.len() == 0 {
        exists|d: int| is_keyless_point(ps, newest, cap_us, cap_bytes, d) && result == ps.skip(d)
    } else {
        exists|j: int| is_trim_point(ps, keys, newest, cap_us, cap_bytes, j) && result == ps.skip(
            cut_at(keys, j),
        )
    }
}

pub proof fn lemma_total_nonneg(ps: Seq<EncodedPacket>)
    ensures
        total(ps) >= 0,
    decreases ps.len(),
{
    if ps.len() > 0 {
        lemma_total_nonneg(ps.skip(1));
    }
}

pub proof fn lemma_total_push(ps: Seq<EncodedPacket>, p: EncodedPacket)
    ensures
        total(ps.push(p)) == total(ps) + size(p),
    decreases ps.len(),
{
    if ps.len() == 0 {
        assert(ps.push(p).skip(1) =~= Seq::<EncodedPacket>::empty());
        assert(total(ps.push(p).skip(1)) == 0);
        assert(ps.push(p)[0] == p);
    } else {
        assert(ps.push(p)[0] == ps[0]);
        assert(ps.push(p).skip(1) =~= ps.skip(1).push(p));
        lemma_total_push(ps.skip(1), p);
    }
}

/// Dropping `n` packets from the front removes exactly their sizes.
pub proof fn lemma_total_skip(ps: Seq<EncodedPacket>, n: int)
    requires
        0 <= n < ps.len(),
    ensures
        total(ps.skip(n)) == size(ps[n]) + total(ps.skip(n + 1)),
{
    assert(ps.skip(n).skip(1) =~= ps.skip(n + 1));
}

pub proof fn lemma_total_skip_mono(ps: Seq<EncodedPacket>, a: int, b: int)
    requires
        0 <= a <= b <= ps.len(),
    ensures
        total(ps.skip(b)) <= total(ps.skip(a)),
    decreases b - a,
{
    if a < b {
        lemma_total_skip(ps, a);
        assert(size(ps[a]) >= 0);
        lemma_total_skip_mono(ps, a + 1, b);
    }
}


/// Is the `i`-th keyframe where a snapshot of the last `seconds` seconds starts?
///
/// The last keyframe at or before the wanted point in time; if every keyframe
/// is later than that, the first one.
pub open spec fn is_snapshot_start(ps: Seq<EncodedPacket>, keys: Seq<int>, newest: int, seconds: int, i: int) -> bool {
    let want = newest - seconds * 1_000_000;
    &&& 0 <= i < keys.len()
    &&& {
        ||| ps[keys[i]].pts_us <= want && forall|l: int| i < l < keys.len() ==> #[trigger] ps[keys[l]].pts_us > want
        ||| i == 0 && forall|l: int| 0 <= l < keys.len() ==> #[trigger] ps[keys[l]].pts_us > want
    }
}

/// Keeps the packets presented at or after `start`.
pub open spec fn from_pts(start: int) -> spec_fn(EncodedPacket) -> bool {
    |p: EncodedPacket| p.pts_us >= start
}

/// The keyframe positions after `p` is appended behind `len` packets.
pub open spec fn pushed_keys(keys: Seq<int>, len: int, p: EncodedPacket) -> Seq<int> {
    if is_key(p) {
        keys.push(len)
    } else {
        keys
    }
}

/// The positions `keys` lists, seen from a ring that now starts at the `j`-th
/// of them.
pub open spec fn keys_from(keys: Seq<int>, j: int) -> Seq<int> {
    Seq::new((keys.len() - j) as nat, |i: int| keys[i + j] - keys[j])
}

/// Cutting the front off at a keyframe keeps the list of the remaining
/// keyframes exact.
pub proof fn lemma_keys_skip(ps: Seq<EncodedPacket>, keys: Seq<int>, j: int)
    requires
        lists_keys(ps, keys),
        0 <= j < keys.len(),
    ensures
        lists_keys(ps.skip(keys[j]), keys_from(keys, j)),
{
    let c = keys[j];
    let rest = ps.skip(c);
    let nk = keys_from(keys, j);
    assert forall|x: int| 0 <= x < rest.len() && is_key(#[trigger] rest[x]) implies exists|i: int|
        0 <= i < nk.len() && nk[i] == x by {
        assert(rest[x] == ps[x + c]);
        let i0 = choose|i: int| 0 <= i < keys.len() && keys[i] == x + c;
        if i0 < j {
            assert(keys[i0] < keys[j]);
        }
        assert(nk[i0 - j] == x);
    }
    assert forall|i: int| 0 <= i < nk.len() implies is_key(#[trigger] rest[nk[i]]) by {
        assert(keys[i + j] >= keys[j]) by {
            if i > 0 {
                assert(keys[j] < keys[i + j]);
            }
        }
        assert(rest[nk[i]] == ps[keys[i + j]]);
    }
    assert forall|i: int| 0 <= i < nk.len() implies 0 <= #[trigger] nk[i] < rest.len() by {
        if i > 0 {
            assert(keys[j] < keys[i + j]);
        }
    }
}

/// What trimming always keeps and always gives up.
///
/// - A ring that had a keyframe still has one: the last group of pictures is
///   never given up.
/// - Something is only ever cut away at a keyframe, so a trimmed ring that
///   holds a keyframe starts with one.
/// - A ring over its memory budget holds exactly one keyframe — the budget
///   only ever loses against the last group of pictures.
/// - Without any keyframe, both limits hold packet by packet.
/// - Trimming only ever takes from the front.
pub proof fn law_trim_keeps_a_decodable_ring(
    ps: Seq<EncodedPacket>,
    keys: Seq<int>,
    newest: int,
    cap_us: int,
    cap_bytes: int,
    result: Seq<EncodedPacket>,
)
    requires
        lists_keys(ps, keys),
        trimmed_to(ps, keys, newest, cap_us, cap_bytes, result),
        0 <= cap_bytes,
    ensures
        exists|c: int| 0 <= c <= ps.len() && result == ps.skip(c),
        keys.len() > 0 ==> exists|x: int| 0 <= x < result.len() && is_key(#[trigger] result[x]),
        keys.len() > 0 && result.len() < ps.len() ==> is_key(result[0]),
        total(result) > cap_bytes ==> keys.len() > 0 && forall|x: int, y: int|
            0 <= x < result.len() && 0 <= y < result.len() && is_key(#[trigger] result[x]) && is_key(
                #[trigger] result[y],
            ) ==> x == y,
        keys.len() == 0 ==> total(result) <= cap_bytes,
        keys.len() == 0 && result.len() > 0 ==> newest - result[0].pts_us < cap_us,
{
    if keys.len() == 0 {
        let d = choose|d: int| is_keyless_point(ps, newest, cap_us, cap_bytes, d) && result == ps.skip(d);
        if d >= ps.len() {
            assert(result.len() == 0);
            assert(total(result) == 0);
        }
        assert(keyless_stops(ps, newest, cap_us, cap_bytes, d));
        assert(0 <= d <= ps.len() && result == ps.skip(d));
    } else {
        let j = choose|j: int| is_trim_point(ps, keys, newest, cap_us, cap_bytes, j) && result == ps.skip(cut_at(keys, j));
        let c = cut_at(keys, j);
        assert(0 <= c < ps.len());
        assert(0 <= c <= ps.len() && result == ps.skip(c));
        // The keyframe the ring stops at stays.
        assert(keys[j] >= c) by {
            if j > 0 {
            } else {
                assert(0 <= keys[0]);
            }
        }
        assert(is_key(result[keys[j] - c]));
        if result.len() < ps.len() {
            assert(c > 0);
            assert(j > 0);
            assert(result[0] == ps[keys[j]]);
        }
        if total(result) > cap_bytes {
            assert(j + 1 >= keys.len());
            assert forall|x: int, y: int|
                0 <= x < result.len() && 0 <= y < result.len() && is_key(#[trigger] result[x]) && is_key(
                    #[trigger] result[y],
                ) implies x == y by {
                assert(result[x] == ps[x + c]);
                assert(result[y] == ps[y + c]);
                let ix = choose|i: int| 0 <= i < keys.len() && keys[i] == x + c;
                let iy = choose|i: int| 0 <= i < keys.len() && keys[i] == y + c;
                if ix < j {
                    assert(keys[ix] < keys[j]);
                    assert(j > 0);
                }
                if iy < j {
                    assert(keys[iy] < keys[j]);
                    assert(j > 0);
                }
                if ix != iy {
                    if ix < iy {
                        assert(keys[ix] < keys[iy]);
                    } else {
                        assert(keys[iy] < keys[ix]);
                    }
                }
            }
        }
    }
}

/// Does the run hold a video keyframe?
pub open spec fn has_key(ps: Seq<EncodedPacket>) -> bool {
    exists|x: int| 0 <= x < ps.len() && is_key(#[trigger] ps[x])
}

/// Appending a packet keeps the list of keyframe positions exact.
pub proof fn lemma_push_lists_keys(ps: Seq<EncodedPacket>, keys: Seq<int>, p: EncodedPacket)
    requires
        lists_keys(ps, keys),
    ensures
        lists_keys(ps.push(p), pushed_keys(keys, ps.len() as int, p)),
{
    let qs = ps.push(p);
    let nk = pushed_keys(keys, ps.len() as int, p);
    assert forall|x: int| 0 <= x < qs.len() && is_key(#[trigger] qs[x]) implies exists|i: int|
        0 <= i < nk.len() && nk[i] == x by {
        if x < ps.len() {
            assert(qs[x] == ps[x]);
            let i0 = choose|i: int| 0 <= i < keys.len() && keys[i] == x;
            assert(nk[i0] == x);
        } else {
            assert(nk[nk.len() - 1] == x);
        }
    }
    assert forall|i: int| 0 <= i < nk.len() implies is_key(#[trigger] qs[nk[i]]) by {
        if i < keys.len() {
            assert(qs[nk[i]] == ps[keys[i]]);
        }
    }
}

/// The keyframe positions of a run are one list only.
pub proof fn lemma_keys_unique(ps: Seq<EncodedPacket>, a: Seq<int>, b: Seq<int>)
    requires
        lists_keys(ps, a),
        lists_keys(ps, b),
    ensures
        a == b,
{
    lemma_keys_agree(ps, a, b, 0);
    if a.len() > b.len() {
        let n = b.len() as int;
        assert(is_key(ps[a[n]]));
        let t = choose|t: int| 0 <= t < b.len() && b[t] == a[n];
        assert(a[t] < a[n]);
    }
    if b.len() > a.len() {
        let n = a.len() as int;
        assert(is_key(ps[b[n]]));
        let t = choose|t: int| 0 <= t < a.len() && a[t] == b[n];
        assert(b[t] < b[n]);
    }
    assert(a =~= b);
}

proof fn lemma_keys_agree(ps: Seq<EncodedPacket>, a: Seq<int>, b: Seq<int>, from: int)
    requires
        lists_keys(ps, a),
        lists_keys(ps, b),
        0 <= from,
        forall|m: int| 0 <= m < from && m < a.len() && m < b.len() ==> a[m] == b[m],
    ensures
        forall|m: int| 0 <= m < a.len() && m < b.len() ==> a[m] == b[m],
    decreases a.len() - from,
{
    if from < a.len() && from < b.len() {
        let i = from;
        assert(is_key(ps[a[i]]));
        let t = choose|t: int| 0 <= t < b.len() && b[t] == a[i];
        if t < i {
            assert(a[t] == b[t]);
            assert(a[t] < a[i]);
        }
        if t > i {
            assert(b[i] < b[t]);
        }
        assert(is_key(ps[b[i]]));
        let u = choose|u: int| 0 <= u < a.len() && a[u] == b[i];
        if u < i {
            assert(a[u] == b[u]);
            assert(b[u] < b[i]);
        }
        if u > i {
            assert(a[i] < a[u]);
        }
        lemma_keys_agree(ps, a, b, from + 1);
    }
}

/// Trimming leaves one ring only: the run, its keyframes, the newest time and
/// the limits decide what remains.
pub proof fn lemma_trim_unique(
    ps: Seq<EncodedPacket>,
    keys: Seq<int>,
    newest: int,
    cap_us: int,
    cap_bytes: int,
    r1: Seq<EncodedPacket>,
    r2: Seq<EncodedPacket>,
)
    requires
        trimmed_to(ps, keys, newest, cap_us, cap_bytes, r1),
        trimmed_to(ps, keys, newest, cap_us, cap_bytes, r2),
    ensures
        r1 == r2,
{
    if keys.len() == 0 {
        let d1 = choose|d: int| is_keyless_point(ps, newest, cap_us, cap_bytes, d) && r1 == ps.skip(d);
        let d2 = choose|d: int| is_keyless_point(ps, newest, cap_us, cap_bytes, d) && r2 == ps.skip(d);
        if d1 < d2 {
            assert(!keyless_stops(ps, newest, cap_us, cap_bytes, d1));
        }
        if d2 < d1 {
            assert(!keyless_stops(ps, newest, cap_us, cap_bytes, d2));
        }
    } else {
        let j1 = choose|j: int| is_trim_point(ps, keys, newest, cap_us, cap_bytes, j) && r1 == ps.skip(cut_at(keys, j));
        let j2 = choose|j: int| is_trim_point(ps, keys, newest, cap_us, cap_bytes, j) && r2 == ps.skip(cut_at(keys, j));
        if j1 < j2 {
            assert(!stops(ps, keys, newest, cap_us, cap_bytes, j1));
        }
        if j2 < j1 {
            assert(!stops(ps, keys, newest, cap_us, cap_bytes, j2));
        }
    }
}

/// What trimming leaves, stated over the packets alone: it only takes from
/// the front; a run with a keyframe keeps one, keeps its newest packet, and
/// starts on a keyframe once anything was cut; only a run down to its last
/// group of pictures stays over the budget; without a keyframe both limits
/// hold packet by packet.
pub open spec fn keeps_decodable(
    ps: Seq<EncodedPacket>,
    newest: int,
    cap_us: int,
    cap_bytes: int,
    result: Seq<EncodedPacket>,
) -> bool {
    &&& exists|c: int| 0 <= c <= ps.len() && result == ps.skip(c)
    &&& has_key(ps) ==> has_key(result) && result.last() == ps.last()
    &&& has_key(ps) && result.len() < ps.len() ==> is_key(result[0])
    &&& total(result) > cap_bytes ==> has_key(ps) && forall|x: int, y: int|
        0 <= x < result.len() && 0 <= y < result.len() && is_key(#[trigger] result[x]) && is_key(
            #[trigger] result[y],
        ) ==> x == y
    &&& !has_key(ps) ==> total(result) <= cap_bytes
    &&& !has_key(ps) && result.len() > 0 ==> newest - result[0].pts_us < cap_us
}

/// The trim law, over the packets alone.
pub proof fn lemma_trim_keeps_decodable(
    ps: Seq<EncodedPacket>,
    keys: Seq<int>,
    newest: int,
    cap_us: int,
    cap_bytes: int,
    result: Seq<EncodedPacket>,
)
    requires
        lists_keys(ps, keys),
        trimmed_to(ps, keys, newest, cap_us, cap_bytes, result),
        0 <= cap_bytes,
    ensures
        keeps_decodable(ps, newest, cap_us, cap_bytes, result),
{
    law_trim_keeps_a_decodable_ring(ps, keys, newest, cap_us, cap_bytes, result);
    if has_key(ps) {
        let x = choose|x: int| 0 <= x < ps.len() && is_key(#[trigger] ps[x]);
        let i = choose|i: int| 0 <= i < keys.len() && keys[i] == x;
        assert(keys.len() > 0);
        let w = choose|w: int| 0 <= w < result.len() && is_key(#[trigger] result[w]);
        assert(has_key(result));
        let c = choose|c: int| 0 <= c <= ps.len() && result == ps.skip(c);
        assert(c < ps.len());
        assert(result.last() == ps.last());
    } else {
        assert(keys.len() == 0) by {
            if keys.len() > 0 {
                assert(is_key(ps[keys[0]]));
            }
        }
    }
    if total(result) > cap_bytes {
        assert(keys.len() > 0);
        assert(is_key(ps[keys[0]]));
        assert(has_key(ps));
    }
}

/// Drops `count` packets from the front and keeps the byte count right.
fn drop_front(packets: &mut VecDeque<EncodedPacket>, bytes: &mut u64, count: usize)
    requires
        count <= old(packets)@.len(),
        *old(bytes) == total(old(packets)@),
    ensures
        final(packets)@ == old(packets)@.skip(count as int),
        *final(bytes) == total(final(packets)@),
{
    let ghost ps = packets@;
    let mut k: usize = 0;
    assert(ps.skip(0) =~= ps);
    while k < count
        invariant
            k <= count,
            count <= ps.len(),
            packets@ == ps.skip(k as int),
            *bytes == total(packets@),
        decreases count - k,
    {
        proof {
            lemma_total_skip(ps, k as int);
            lemma_total_nonneg(ps.skip(k as int + 1));
        }
        let front = packets.pop_front();
        match front {
            Some(p) => {
                *bytes = *bytes - p.data.len() as u64;
            },
            None => {},
        }
        assert(packets@ =~= ps.skip(k as int + 1));
        k = k + 1;
    }
}

/// The packet ring behind the replay buffer.
pub struct ReplayBuffer {
    capacity_us: i64,
    /// Hard ceiling on what the ring may hold.
    ///
    /// The length alone is not enough once the encoder picks its own bitrate
    /// for a constant quality: a quiet menu costs a fraction of a firefight, so
    /// the same two minutes are no longer the same number of bytes.
    capacity_bytes: u64,
    packets: VecDeque<EncodedPacket>,
    /// Sequence number of the frontmost packet — for stable keyframe positions.
    head_seq: u64,
    next_seq: u64,
    /// (seq, pts) of every video keyframe still in the buffer.
    keyframes: VecDeque<(u64, i64)>,
    bytes: u64,
    newest_pts: i64,
}

impl ReplayBuffer {
    /// The packets held, oldest first.
    pub closed spec fn packets(&self) -> Seq<EncodedPacket> {
        self.packets@
    }

    /// Positions of the video keyframes among [`Self::packets`].
    pub closed spec fn keys(&self) -> Seq<int> {
        Seq::new(self.keyframes@.len(), |i: int| self.keyframes@[i].0 - self.head_seq)
    }

    /// Presentation time of the newest packet pushed since the last clear, and
    /// never below zero.
    pub closed spec fn newest(&self) -> int {
        self.newest_pts as int
    }

    pub closed spec fn capacity_us(&self) -> int {
        self.capacity_us as int
    }

    pub closed spec fn capacity_bytes(&self) -> int {
        self.capacity_bytes as int
    }

    /// How many packets have been numbered so far; bounded only by `u64`.
    pub closed spec fn sequenced(&self) -> int {
        self.next_seq as int
    }

    pub closed spec fn wf(&self) -> bool {
        &&& self.head_seq <= self.next_seq
        &&& self.next_seq - self.head_seq == self.packets@.len()
        &&& lists_keys(self.packets@, self.keys())
        &&& forall|i: int|
            0 <= i < self.keyframes@.len() ==> #[trigger] self.keyframes@[i].1
                == self.packets@[self.keys()[i]].pts_us
        &&& self.bytes == total(self.packets@)
        &&& 0 <= self.capacity_us <= u32::MAX * 1_000_000
    }

    /// `self` is what pushing `packet` into `before` leaves: the newest time
    /// moves up to the packet's, the limits stay, and the run with the packet
    /// appended is trimmed.
    pub open spec fn pushed(self, before: Self, packet: EncodedPacket) -> bool {
        &&& self.newest() == if packet.pts_us > before.newest() {
            packet.pts_us as int
        } else {
            before.newest()
        }
        &&& self.capacity_us() == before.capacity_us()
        &&& self.capacity_bytes() == before.capacity_bytes()
        &&& trimmed_to(
            before.packets().push(packet),
            pushed_keys(before.keys(), before.packets().len() as int, packet),
            self.newest(),
            self.capacity_us(),
            self.capacity_bytes(),
            self.packets(),
        )
    }

    /// In a well-formed ring, `keys()` lists exactly where the video
    /// keyframes among `packets()` stand, oldest first.
    pub proof fn lemma_keys_listed(&self)
        requires
            self.wf(),
        ensures
            lists_keys(self.packets(), self.keys()),
            (self.keys().len() == 0) == !has_key(self.packets()),
    {
        if self.keys().len() > 0 {
            assert(is_key(self.packets()[self.keys()[0]]));
        } else if has_key(self.packets()) {
            let x = choose|x: int| 0 <= x < self.packets().len() && is_key(#[trigger] self.packets()[x]);
            let i = choose|i: int| 0 <= i < self.keys().len() && self.keys()[i] == x;
        }
    }

    pub fn new(capacity_seconds: u32, capacity_bytes: u64) -> (buf: Self)
        ensures
            buf.wf(),
            buf.packets() == Seq::<EncodedPacket>::empty(),
            buf.keys() == Seq::<int>::empty(),
            buf.newest() == 0,
            buf.capacity_us() == capacity_seconds * 1_000_000,
            buf.capacity_bytes() == capacity_bytes,
            buf.sequenced() == 0,
    {
        let buf = ReplayBuffer {
            capacity_us: capacity_seconds as i64 * 1_000_000,
            capacity_bytes,
            packets: VecDeque::new(),
            head_seq: 0,
            next_seq: 0,
            keyframes: VecDeque::new(),
            bytes: 0,
            newest_pts: 0,
        };
        assert(buf.keys() =~= Seq::<int>::empty());
        assert(total(buf.packets@) == 0);
        buf
    }

    /// The safety valve for a stream that never declares a keyframe.
    ///
    /// Cutting normally happens *between* keyframes, and the last group of
    /// pictures is never given up. A transform that does not flag its
    /// keyframes would leave both limits powerless; here memory wins over
    /// decodability, packet by packet.
    fn enforce_budget_without_keyframes(&mut self)
        requires
            old(self).wf(),
        ensures
            final(self).wf(),
            final(self).newest() == old(self).newest(),
            final(self).capacity_us() == old(self).capacity_us(),
            final(self).capacity_bytes() == old(self).capacity_bytes(),
            final(self).sequenced() == old(self).sequenced(),
            old(self).keys().len() > 0 ==> final(self).packets() == old(self).packets() && final(self).keys()
                == old(self).keys(),
            old(self).keys().len() == 0 ==> final(self).keys().len() == 0 && exists|d: int|
                is_keyless_point(
                    old(self).packets(),
                    old(self).newest(),
                    old(self).capacity_us(),
                    old(self).capacity_bytes(),
                    d,
                ) && final(self).packets() == old(self).packets().skip(d),
    {
        if self.keyframes.len() > 0 {
            return;
        }
        let ghost ps = self.packets@;
        let ghost newest = self.newest_pts as int;
        let ghost cap = self.capacity_us as int;
        let ghost capb = self.capacity_bytes as int;
        let mut dropped: usize = 0;
        let mut done = false;
        assert(ps.skip(0) =~= ps);
        assert(ps.len() == self.packets.len());
        while !done && self.packets.len() > 0
            invariant
                self.wf(),
                self.keyframes@.len() == 0,
                self.newest_pts == newest,
                self.capacity_us == cap,
                self.capacity_bytes == capb,
                self.next_seq == old(self).next_seq,
                dropped <= ps.len(),
                ps.len() <= usize::MAX,
                self.packets@ == ps.skip(dropped as int),
                forall|e: int| 0 <= e < dropped ==> !keyless_stops(ps, newest, cap, capb, e),
                done ==> keyless_stops(ps, newest, cap, capb, dropped as int),
            decreases (ps.len() - dropped) * 2 + if done { 0int } else { 1int },
        {
            let pts = self.packets[0].pts_us;
            let too_long = (self.newest_pts as i128) - (pts as i128) >= self.capacity_us as i128;
            let too_big = self.bytes > self.capacity_bytes;
            if !too_long && !too_big {
                done = true;
            } else {
                proof {
                    lemma_total_skip(ps, dropped as int);
                    lemma_total_nonneg(ps.skip(dropped as int + 1));
                }
                let front = self.packets.pop_front();
                match front {
                    Some(p) => {
                        self.bytes = self.bytes - p.data.len() as u64;
                    },
                    None => {},
                }
                self.head_seq = self.head_seq + 1;
                assert(self.packets@ =~= ps.skip(dropped as int + 1));
                assert(self.keys() =~= Seq::<int>::empty());
                dropped = dropped + 1;
            }
        }
        assert(keyless_stops(ps, newest, cap, capb, dropped as int));
        assert(is_keyless_point(ps, newest, cap, capb, dropped as int));
        assert(self.keys().len() == 0);
        assert(self.packets() == old(self).packets().skip(dropped as int));
    }

    /// Drops from the front as long as the full buffer length starting at the
    /// *next* keyframe still remains afterwards — or as long as the ring is
    /// over its memory budget.
    ///
    /// Whole groups of pictures go at a time, and never the last one: a ring
    /// that starts anywhere but a keyframe is not decodable.
    fn trim(&mut self)
        requires
            old(self).wf(),
        ensures
            final(self).wf(),
            final(self).newest() == old(self).newest(),
            final(self).capacity_us() == old(self).capacity_us(),
            final(self).capacity_bytes() == old(self).capacity_bytes(),
            final(self).sequenced() == old(self).sequenced(),
            trimmed_to(
                old(self).packets(),
                old(self).keys(),
                old(self).newest(),
                old(self).capacity_us(),
                old(self).capacity_bytes(),
                final(self).packets(),
            ),
    {
        let ghost ps = self.packets@;
        let ghost ks = self.keys();
        let ghost newest = self.newest_pts as int;
        let ghost cap = self.capacity_us as int;
        let ghost capb = self.capacity_bytes as int;
        let ghost mut j: int = 0;
        let mut done = false;
        assert(ps.skip(0) =~= ps);
        while !done && self.keyframes.len() > 1
            invariant
                self.wf(),
                self.newest_pts == newest,
                self.capacity_us == cap,
                self.capacity_bytes == capb,
                self.next_seq == old(self).next_seq,
                lists_keys(ps, ks),
                0 <= j,
                j == 0 || j < ks.len(),
                self.packets@ == ps.skip(cut_at(ks, j)),
                self.keys().len() == ks.len() - j,
                forall|i: int| 0 <= i < self.keys().len() ==> #[trigger] self.keys()[i] == ks[i + j] - cut_at(ks, j),
                forall|i: int| 0 <= i < j ==> !stops(ps, ks, newest, cap, capb, i),
                done ==> stops(ps, ks, newest, cap, capb, j),
            decreases self.keyframes@.len() * 2 + if done { 0int } else { 1int },
        {
            let (seq, pts) = self.keyframes[1];
            let ghost pre_keys = self.keys();
            let ghost pre_kf = self.keyframes@;
            let ghost pre_head = self.head_seq as int;
            let ghost pre_ps = self.packets@;
            proof {
                assert(pre_keys[1] == ks[j + 1] - cut_at(ks, j));
                assert(pre_keys[1] == seq - pre_head);
                assert(0 <= pre_keys[1] < self.packets@.len());
                assert(self.packets.len() == self.packets@.len());
                assert(ks[0] < ks[j + 1]);
                if j > 0 {
                    assert(ks[j] < ks[j + 1]);
                }
                assert(self.packets@[pre_keys[1]] == ps[ks[j + 1]]);
                assert(self.keyframes@[1].1 == self.packets@[pre_keys[1]].pts_us);
            }
            let too_long = (self.newest_pts as i128) - (pts as i128) >= self.capacity_us as i128;
            let too_big = self.bytes > self.capacity_bytes;
            if !too_long && !too_big {
                done = true;
            } else {
                let drop_count = (seq - self.head_seq) as usize;
                drop_front(&mut self.packets, &mut self.bytes, drop_count);
                self.head_seq = seq;
                let _ = self.keyframes.pop_front();
                proof {
                    assert(drop_count as int == ks[j + 1] - cut_at(ks, j));
                    assert(ps.skip(cut_at(ks, j)).skip(drop_count as int) =~= ps.skip(ks[j + 1]));
                    lemma_keys_skip(ps, ks, j + 1);
                    assert forall|i: int| 0 <= i < self.keys().len() implies #[trigger] self.keys()[i]
                        == keys_from(ks, j + 1)[i] by {
                        assert(self.keyframes@[i] == pre_kf[i + 1]);
                        assert(pre_keys[i + 1] == pre_kf[i + 1].0 - pre_head);
                        assert(pre_keys[i + 1] == ks[i + 1 + j] - cut_at(ks, j));
                    }
                    assert(self.keys() =~= keys_from(ks, j + 1));
                    assert forall|i: int| 0 <= i < self.keyframes@.len() implies #[trigger] self.keyframes@[i].1
                        == self.packets@[self.keys()[i]].pts_us by {
                        assert(self.keyframes@[i] == pre_kf[i + 1]);
                        assert(pre_kf[i + 1].1 == pre_ps[pre_keys[i + 1]].pts_us);
                        assert(self.keys()[i] == pre_keys[i + 1] - drop_count);
                        assert(self.packets@[self.keys()[i]] == pre_ps[pre_keys[i + 1]]);
                    }
                    j = j + 1;
                }
            }
        }
        proof {
            if !done {
                assert(j + 1 >= ks.len());
            }
            assert(is_trim_point(ps, ks, newest, cap, capb, j));
        }
        let ghost mid = self.packets@;
        self.enforce_budget_without_keyframes();
        proof {
            if ks.len() == 0 {
                assert(mid == ps);
            } else {
                assert(self.packets@ == ps.skip(cut_at(ks, j)));
            }
        }
    }

    /// Changes both limits and trims to them right away.
    pub fn set_capacity(&mut self, seconds: u32, bytes: u64)
        requires
            old(self).wf(),
        ensures
            final(self).wf(),
            final(self).capacity_us() == seconds * 1_000_000,
            final(self).capacity_bytes() == bytes,
            final(self).newest() == old(self).newest(),
            final(self).sequenced() == old(self).sequenced(),
            trimmed_to(
                old(self).packets(),
                old(self).keys(),
                old(self).newest(),
                seconds * 1_000_000,
                bytes as int,
                final(self).packets(),
            ),
            keeps_decodable(
                old(self).packets(),
                old(self).newest(),
                seconds * 1_000_000,
                bytes as int,
                final(self).packets(),
            ),            final(self).steps(*old(self), RingOp::SetCapacity(seconds, bytes)),
    {
        self.capacity_us = seconds as i64 * 1_000_000;
        self.capacity_bytes = bytes;
        let ghost mid_ps = self.packets@;
        let ghost mid_keys = self.keys();
        self.trim();
        proof {
            lemma_trim_keeps_decodable(mid_ps, mid_keys, self.newest(), self.capacity_us(), self.capacity_bytes(), self.packets());
        }
    }

    /// Appends one packet and trims.
    pub fn push(&mut self, packet: EncodedPacket)
        requires
            old(self).wf(),
            total(old(self).packets()) + size(packet) <= u64::MAX,
            old(self).sequenced() < u64::MAX,
        ensures
            final(self).wf(),
            final(self).newest() == if packet.pts_us > old(self).newest() {
                packet.pts_us as int
            } else {
                old(self).newest()
            },
            final(self).capacity_us() == old(self).capacity_us(),
            final(self).capacity_bytes() == old(self).capacity_bytes(),
            final(self).sequenced() == old(self).sequenced() + 1,
            trimmed_to(
                old(self).packets().push(packet),
                pushed_keys(old(self).keys(), old(self).packets().len() as int, packet),
                final(self).newest(),
                final(self).capacity_us(),
                final(self).capacity_bytes(),
                final(self).packets(),
            ),
            final(self).pushed(*old(self), packet),
            keeps_decodable(
                old(self).packets().push(packet),
                final(self).newest(),
                final(self).capacity_us(),
                final(self).capacity_bytes(),
                final(self).packets(),
            ),            final(self).steps(*old(self), RingOp::Push(packet)),
    {
        if packet.pts_us > self.newest_pts {
            self.newest_pts = packet.pts_us;
        }
        proof {
            lemma_total_push(self.packets@, packet);
        }
        self.bytes = self.bytes + packet.data.len() as u64;
        let ghost before = self.packets@;
        let ghost before_keys = self.keys();
        if packet.is_video() && packet.keyframe {
            self.keyframes.push_back((self.next_seq, packet.pts_us));
        }
        self.packets.push_back(packet);
        self.next_seq = self.next_seq + 1;
        proof {
            let ps = self.packets@;
            let nk = pushed_keys(before_keys, before.len() as int, packet);
            assert(self.keys() =~= nk);
            assert forall|x: int| 0 <= x < ps.len() && is_key(#[trigger] ps[x]) implies exists|i: int|
                0 <= i < nk.len() && nk[i] == x by {
                if x < before.len() {
                    assert(ps[x] == before[x]);
                    let i0 = choose|i: int| 0 <= i < before_keys.len() && before_keys[i] == x;
                    assert(nk[i0] == x);
                } else {
                    assert(nk[nk.len() - 1] == x);
                }
            }
            assert forall|i: int| 0 <= i < nk.len() implies is_key(#[trigger] ps[nk[i]]) by {
                if i < before_keys.len() {
                    assert(ps[nk[i]] == before[before_keys[i]]);
                }
            }
            assert forall|i: int| 0 <= i < self.keyframes@.len() implies #[trigger] self.keyframes@[i].1
                == self.packets@[self.keys()[i]].pts_us by {
                if i < before_keys.len() {
                    assert(ps[nk[i]] == before[before_keys[i]]);
                }
            }
        }
        let ghost mid_ps = self.packets@;
        let ghost mid_keys = self.keys();
        self.trim();
        proof {
            lemma_trim_keeps_decodable(
                mid_ps,
                mid_keys,
                self.newest(),
                self.capacity_us(),
                self.capacity_bytes(),
                self.packets(),
            );
        }
    }

    pub fn clear(&mut self)
        requires
            old(self).wf(),
        ensures
            final(self).wf(),
            final(self).packets() == Seq::<EncodedPacket>::empty(),
            final(self).keys() == Seq::<int>::empty(),
            final(self).newest() == 0,
            final(self).capacity_us() == old(self).capacity_us(),
            final(self).capacity_bytes() == old(self).capacity_bytes(),
            final(self).sequenced() == old(self).sequenced(),
            final(self).steps(*old(self), RingOp::Clear),
    {
        self.packets.clear();
        self.keyframes.clear();
        self.bytes = 0;
        self.head_seq = self.next_seq;
        self.newest_pts = 0;
        assert(self.keys() =~= Seq::<int>::empty());
        assert(total(self.packets@) == 0);
    }

    /// Bytes of payload held.
    pub fn bytes(&self) -> (b: u64)
        requires
            self.wf(),
        ensures
            b == total(self.packets()),
    {
        self.bytes
    }

    pub fn len(&self) -> (n: usize)
        ensures
            n == self.packets().len(),
    {
        self.packets.len()
    }

    pub fn is_empty(&self) -> (e: bool)
        ensures
            e == (self.packets().len() == 0),
    {
        self.packets.len() == 0
    }

    /// The oldest packet held, if any.
    pub fn front(&self) -> (p: Option<&EncodedPacket>)
        ensures
            self.packets().len() == 0 ==> p.is_none(),
            self.packets().len() > 0 ==> p == Some(&self.packets()[0]),
    {
        if self.packets.len() == 0 {
            None
        } else {
            Some(&self.packets[0])
        }
    }

    /// Duration actually buffered, in microseconds — from the first keyframe to
    /// the newest packet. Zero without a keyframe.
    pub fn buffered_us(&self) -> (us: i64)
        requires
            self.wf(),
            self.keys().len() > 0 ==> i64::MIN <= self.newest() - self.packets()[self.keys()[0]].pts_us
                <= i64::MAX,
        ensures
            self.keys().len() == 0 ==> us == 0,
            self.keys().len() > 0 ==> us == self.newest() - self.packets()[self.keys()[0]].pts_us,
    {
        if self.keyframes.len() == 0 {
            0
        } else {
            let (_, pts) = self.keyframes[0];
            self.newest_pts - pts
        }
    }

    /// Snapshot of the last `seconds` seconds, starting at the last keyframe
    /// *before* that point in time (so the video is decodable).
    pub fn snapshot(&self, seconds: u32) -> (out: Vec<EncodedPacket>)
        requires
            self.wf(),
        ensures
            !has_key(self.packets()) ==> out@.len() == 0,
            self.keys().len() == 0 ==> out@.len() == 0,
            self.keys().len() > 0 ==> exists|i: int|
                is_snapshot_start(self.packets(), self.keys(), self.newest(), seconds as int, i)
                    && out@ == self.packets().filter(from_pts(self.packets()[self.keys()[i]].pts_us as int)),
    {
        let ghost ps = self.packets@;
        let ghost ks = self.keys();
        proof {
            self.lemma_keys_listed();
        }
        let want_from: i128 = self.newest_pts as i128 - seconds as i128 * 1_000_000;
        let n = self.keyframes.len();
        if n == 0 {
            return Vec::new();
        }
        // Walk back from the newest keyframe to the first at or before `want_from`.
        let mut k: usize = n;
        let mut found = false;
        while k > 0 && !found
            invariant
                self.wf(),
                ks == self.keys(),
                ps == self.packets@,
                n == self.keyframes@.len(),
                0 <= k <= n,
                found ==> k < n && ps[ks[k as int]].pts_us <= want_from,
                forall|l: int| k < l < n ==> #[trigger] ps[ks[l]].pts_us > want_from,
                !found ==> forall|l: int| k <= l < n ==> #[trigger] ps[ks[l]].pts_us > want_from,
            decreases k + if found { 0int } else { 1int },
        {
            let (_, pts) = self.keyframes[k - 1];
            assert(self.keyframes@[k - 1].1 == ps[ks[k - 1]].pts_us);
            if pts as i128 <= want_from {
                found = true;
                k = k - 1;
            } else {
                k = k - 1;
            }
        }
        let start_index: usize = if found { k } else { 0 };
        let (_, start_pts) = self.keyframes[start_index];
        assert(self.keyframes@[start_index as int].1 == ps[ks[start_index as int]].pts_us);
        assert(is_snapshot_start(ps, ks, self.newest_pts as int, seconds as int, start_index as int));
        let ghost pred = from_pts(start_pts as int);
        let mut out: Vec<EncodedPacket> = Vec::new();
        let len = self.packets.len();
        let mut i: usize = 0;
        assert(ps.take(0) =~= Seq::<EncodedPacket>::empty());
        while i < len
            invariant
                len == ps.len(),
                ps == self.packets@,
                i <= len,
                out@ == ps.take(i as int).filter(pred),
                pred == from_pts(start_pts as int),
            decreases len - i,
        {
            let p = &self.packets[i];
            proof {
                assert(ps.take(i as int + 1) =~= ps.take(i as int).push(ps[i as int]));
                ps.take(i as int).lemma_filter_push(ps[i as int], pred);
            }
            if p.pts_us >= start_pts {
                out.push(p.share());
            }
            i = i + 1;
        }
        assert(ps.take(len as int) =~= ps);
        assert(start_pts == self.packets()[self.keys()[start_index as int]].pts_us);
        assert(is_snapshot_start(self.packets(), self.keys(), self.newest(), seconds as int, start_index as int));
        assert(out@ == self.packets().filter(from_pts(self.packets()[self.keys()[start_index as int]].pts_us as int)));
        out
    }
}


/// Two rings that hold the same packets, with the same newest time and
/// limits, hold the same packets again after the same push: what a ring
/// holds depends on nothing else. In particular a cleared ring goes on
/// exactly as a fresh one with its limits.
pub proof fn law_the_same_pushes_give_the_same_ring(
    a0: ReplayBuffer,
    b0: ReplayBuffer,
    a1: ReplayBuffer,
    b1: ReplayBuffer,
    packet: EncodedPacket,
)
    requires
        a0.wf(),
        b0.wf(),
        a0.packets() == b0.packets(),
        a0.newest() == b0.newest(),
        a0.capacity_us() == b0.capacity_us(),
        a0.capacity_bytes() == b0.capacity_bytes(),
        a1.pushed(a0, packet),
        b1.pushed(b0, packet),
    ensures
        a1.packets() == b1.packets(),
        a1.newest() == b1.newest(),
        a1.capacity_us() == b1.capacity_us(),
        a1.capacity_bytes() == b1.capacity_bytes(),
{
    a0.lemma_keys_listed();
    b0.lemma_keys_listed();
    lemma_keys_unique(a0.packets(), a0.keys(), b0.keys());
    lemma_trim_unique(
        a0.packets().push(packet),
        pushed_keys(a0.keys(), a0.packets().len() as int, packet),
        a1.newest(),
        a1.capacity_us(),
        a1.capacity_bytes(),
        a1.packets(),
        b1.packets(),
    );
}

/// A ring that starts on a video keyframe, or an empty one fed a keyframe,
/// starts on a keyframe after the push too and ends with the packet pushed:
/// no limit, however small, trims the last group of pictures away.
pub proof fn law_a_ring_keeps_starting_on_a_keyframe(a0: ReplayBuffer, a1: ReplayBuffer, packet: EncodedPacket)
    requires
        a0.wf(),
        a1.pushed(a0, packet),
        if a0.packets().len() == 0 {
            is_key(packet)
        } else {
            is_key(a0.packets()[0])
        },
    ensures
        a1.packets().len() > 0,
        is_key(a1.packets()[0]),
        a1.packets().last() == packet,
{
    let ps = a0.packets().push(packet);
    a0.lemma_keys_listed();
    lemma_push_lists_keys(a0.packets(), a0.keys(), packet);
    lemma_trim_keeps_decodable(
        ps,
        pushed_keys(a0.keys(), a0.packets().len() as int, packet),
        a1.newest(),
        a1.capacity_us(),
        a1.capacity_bytes(),
        a1.packets(),
    );
    assert(is_key(ps[0]));
    assert(has_key(ps));
    let r = a1.packets();
    let w = choose|w: int| 0 <= w < r.len() && is_key(#[trigger] r[w]);
    if r.len() == ps.len() {
        let c = choose|c: int| 0 <= c <= ps.len() && r == ps.skip(c);
        assert(c == 0);
        assert(r[0] == ps[0]);
    }
}

/// One call on a ring, as far as what it holds is concerned.
pub enum RingOp {
    Push(EncodedPacket),
    SetCapacity(u32, u64),
    Clear,
}

impl ReplayBuffer {
    /// `self` is what `set_capacity(seconds, bytes)` leaves of `before`.
    pub open spec fn resized(self, before: Self, seconds: u32, bytes: u64) -> bool {
        &&& self.newest() == before.newest()
        &&& self.capacity_us() == seconds * 1_000_000
        &&& self.capacity_bytes() == bytes
        &&& trimmed_to(
            before.packets(),
            before.keys(),
            before.newest(),
            self.capacity_us(),
            self.capacity_bytes(),
            self.packets(),
        )
    }

    /// `self` is what `clear` leaves of `before`.
    pub open spec fn cleared(self, before: Self) -> bool {
        &&& self.packets() == Seq::<EncodedPacket>::empty()
        &&& self.newest() == 0
        &&& self.capacity_us() == before.capacity_us()
        &&& self.capacity_bytes() == before.capacity_bytes()
    }

    /// `self` is a well-formed ring that the call `op` leaves of `before`.
    pub open spec fn steps(self, before: Self, op: RingOp) -> bool {
        &&& self.wf()
        &&& match op {
            RingOp::Push(p) => self.pushed(before, p),
            RingOp::SetCapacity(seconds, bytes) => self.resized(before, seconds, bytes),
            RingOp::Clear => self.cleared(before),
        }
    }

    /// Empty, or starting on a video keyframe.
    pub open spec fn starts_on_key(self) -> bool {
        self.packets().len() == 0 || is_key(self.packets()[0])
    }

    /// Within the limits, as far as the last group of pictures allows: a
    /// ring with two keyframes or more fits the memory budget and its second
    /// keyframe is younger than the capacity; one without any keyframe keeps
    /// both limits packet by packet.
    pub open spec fn in_budget(self) -> bool {
        &&& self.keys().len() >= 2 ==> total(self.packets()) <= self.capacity_bytes() && self.newest()
            - self.packets()[self.keys()[1]].pts_us < self.capacity_us()
        &&& self.keys().len() == 0 ==> total(self.packets()) <= self.capacity_bytes() && (
        self.packets().len() == 0 || self.newest() - self.packets()[0].pts_us < self.capacity_us())
    }

    /// The limits are never negative.
    pub proof fn lemma_limits_nonneg(&self)
        ensures
            0 <= self.capacity_bytes(),
    {
    }
}

/// `rings[0]`, then the rings the calls `ops` leave, one after the other.
pub open spec fn history(rings: Seq<ReplayBuffer>, ops: Seq<RingOp>) -> bool {
    &&& rings.len() == ops.len() + 1
    &&& rings[0].wf()
    &&& forall|i: int| 0 <= i < ops.len() ==> rings[i + 1].steps(rings[i], #[trigger] ops[i])
}

/// What trimming leaves is within the limits, as `in_budget` says.
proof fn lemma_trim_in_budget(
    ps: Seq<EncodedPacket>,
    keys: Seq<int>,
    newest: int,
    cap_us: int,
    cap_bytes: int,
    result: Seq<EncodedPacket>,
    rkeys: Seq<int>,
)
    requires
        lists_keys(ps, keys),
        trimmed_to(ps, keys, newest, cap_us, cap_bytes, result),
        lists_keys(result, rkeys),
        0 <= cap_bytes,
    ensures
        rkeys.len() >= 2 ==> total(result) <= cap_bytes && newest - result[rkeys[1]].pts_us < cap_us,
        rkeys.len() == 0 ==> total(result) <= cap_bytes && (result.len() == 0 || newest
            - result[0].pts_us < cap_us),
{
    law_trim_keeps_a_decodable_ring(ps, keys, newest, cap_us, cap_bytes, result);
    if keys.len() == 0 {
        assert(rkeys.len() == 0) by {
            if rkeys.len() > 0 {
                assert(is_key(result[rkeys[0]]));
            }
        }
    } else {
        let j = choose|j: int| is_trim_point(ps, keys, newest, cap_us, cap_bytes, j) && result == ps.skip(cut_at(keys, j));
        assert(rkeys.len() > 0) by {
            let x = choose|x: int| 0 <= x < result.len() && is_key(#[trigger] result[x]);
            let i = choose|i: int| 0 <= i < rkeys.len() && rkeys[i] == x;
        }
        if rkeys.len() >= 2 {
            if j == 0 {
                assert(result =~= ps);
                lemma_keys_unique(ps, rkeys, keys);
                assert(1 < keys.len());
                assert(stops(ps, keys, newest, cap_us, cap_bytes, 0));
                assert(ps.skip(cut_at(keys, 0)) =~= ps);
            } else {
                lemma_keys_skip(ps, keys, j);
                lemma_keys_unique(result, rkeys, keys_from(keys, j));
                assert(j + 1 < keys.len());
                assert(stops(ps, keys, newest, cap_us, cap_bytes, j));
                assert(result[rkeys[1]] == ps[keys[j + 1]]);
            }
        }
    }
}

/// A well-formed ring that `op` leaves is within its limits, whatever the
/// ring was before.
proof fn lemma_step_in_budget(before: ReplayBuffer, after: ReplayBuffer, op: RingOp)
    requires
        before.wf(),
        after.steps(before, op),
    ensures
        after.in_budget(),
{
    after.lemma_keys_listed();
    after.lemma_limits_nonneg();
    before.lemma_keys_listed();
    match op {
        RingOp::Push(p) => {
            lemma_push_lists_keys(before.packets(), before.keys(), p);
            lemma_trim_in_budget(
                before.packets().push(p),
                pushed_keys(before.keys(), before.packets().len() as int, p),
                after.newest(),
                after.capacity_us(),
                after.capacity_bytes(),
                after.packets(),
                after.keys(),
            );
        },
        RingOp::SetCapacity(seconds, bytes) => {
            lemma_trim_in_budget(
                before.packets(),
                before.keys(),
                before.newest(),
                after.capacity_us(),
                after.capacity_bytes(),
                after.packets(),
                after.keys(),
            );
        },
        RingOp::Clear => {
            assert(after.keys().len() == 0) by {
                if after.keys().len() > 0 {
                    assert(0 <= after.keys()[0] < after.packets().len());
                }
            }
            assert(total(after.packets()) == 0);
        },
    }
}

/// A ring empty or starting on a keyframe stays so through `op`, as long as
/// a push onto an empty ring is a keyframe; and a ring that holds something
/// keeps holding something until it is cleared.
proof fn lemma_step_starts_on_key(before: ReplayBuffer, after: ReplayBuffer, op: RingOp)
    requires
        before.wf(),
        after.steps(before, op),
        before.starts_on_key(),
        before.packets().len() == 0 ==> (op matches RingOp::Push(p) ==> is_key(p)),
    ensures
        after.starts_on_key(),
        before.packets().len() > 0 && !(op is Clear) ==> after.packets().len() > 0,
{
    before.lemma_keys_listed();
    before.lemma_limits_nonneg();
    match op {
        RingOp::Push(p) => {
            if before.packets().len() > 0 || is_key(p) {
                law_a_ring_keeps_starting_on_a_keyframe(before, after, p);
            } else {
                lemma_push_lists_keys(before.packets(), before.keys(), p);
                after.lemma_limits_nonneg();
                lemma_trim_keeps_decodable(
                    before.packets().push(p),
                    pushed_keys(before.keys(), before.packets().len() as int, p),
                    after.newest(),
                    after.capacity_us(),
                    after.capacity_bytes(),
                    after.packets(),
                );
            }
        },
        RingOp::SetCapacity(seconds, bytes) => {
            after.lemma_limits_nonneg();
            lemma_trim_keeps_decodable(
                before.packets(),
                before.keys(),
                before.newest(),
                after.capacity_us(),
                after.capacity_bytes(),
                after.packets(),
            );
            let ps = before.packets();
            let r = after.packets();
            if ps.len() > 0 {
                assert(has_key(ps)) by {
                    assert(is_key(ps[0]));
                }
                let w = choose|w: int| 0 <= w < r.len() && is_key(#[trigger] r[w]);
                if r.len() == ps.len() {
                    let c = choose|c: int| 0 <= c <= ps.len() && r == ps.skip(c);
                    assert(r[0] == ps[c]);
                }
            } else {
                let c = choose|c: int| 0 <= c <= ps.len() && r == ps.skip(c);
            }
        },
        RingOp::Clear => {},
    }
}

proof fn lemma_history_starts_on_key(rings: Seq<ReplayBuffer>, ops: Seq<RingOp>, k: int)
    requires
        history(rings, ops),
        rings[0].starts_on_key(),
        forall|i: int|
            0 <= i < ops.len() && rings[i].packets().len() == 0 ==> (#[trigger] ops[i] matches RingOp::Push(p)
                ==> is_key(p)),
        0 <= k <= ops.len(),
    ensures
        rings[k].wf(),
        rings[k].starts_on_key(),
    decreases k,
{
    if k > 0 {
        lemma_history_starts_on_key(rings, ops, k - 1);
        assert(rings[k].steps(rings[k - 1], ops[k - 1]));
        lemma_step_starts_on_key(rings[k - 1], rings[k], ops[k - 1]);
    }
}

/// Over any run of pushes, capacity changes and clears: a ring that starts
/// empty or on a video keyframe, fed a keyframe whenever it is empty, always
/// starts on a video keyframe; and once it holds something it keeps its last
/// group of pictures until it is cleared, however small the limits.
pub proof fn law_a_ring_always_starts_on_a_keyframe(rings: Seq<ReplayBuffer>, ops: Seq<RingOp>)
    requires
        history(rings, ops),
        rings[0].starts_on_key(),
        forall|i: int|
            0 <= i < ops.len() && rings[i].packets().len() == 0 ==> (#[trigger] ops[i] matches RingOp::Push(p)
                ==> is_key(p)),
    ensures
        forall|i: int| 0 <= i <= ops.len() ==> (#[trigger] rings[i]).starts_on_key(),
        forall|i: int|
            0 <= i < ops.len() && rings[i].packets().len() > 0 && !(ops[i] is Clear) ==> (#[trigger] rings[i
                + 1]).packets().len() > 0,
{
    assert forall|i: int| 0 <= i <= ops.len() implies (#[trigger] rings[i]).starts_on_key() by {
        lemma_history_starts_on_key(rings, ops, i);
    }
    assert forall|i: int|
        0 <= i < ops.len() && rings[i].packets().len() > 0 && !(ops[i] is Clear) implies (#[trigger] rings[i
            + 1]).packets().len() > 0 by {
        lemma_history_starts_on_key(rings, ops, i);
        assert(rings[i + 1].steps(rings[i], ops[i]));
        lemma_step_starts_on_key(rings[i], rings[i + 1], ops[i]);
    }
}

/// Over any run of pushes, capacity changes and clears, every ring after a
/// call is within its limits: only a ring down to its last group of pictures
/// may be over the memory budget or the length. A fresh or cleared ring is
/// too.
pub proof fn law_a_ring_stays_in_budget(rings: Seq<ReplayBuffer>, ops: Seq<RingOp>)
    requires
        history(rings, ops),
    ensures
        forall|i: int| 1 <= i <= ops.len() ==> (#[trigger] rings[i]).in_budget(),
        rings[0].packets().len() == 0 ==> rings[0].in_budget(),
{
    assert forall|i: int| 1 <= i <= ops.len() implies (#[trigger] rings[i]).in_budget() by {
        assert(rings[i].steps(rings[i - 1], ops[i - 1]));
        assert(rings[i - 1].wf()) by {
            if i - 1 > 0 {
                assert(rings[i - 1].steps(rings[i - 2], ops[i - 2]));
            }
        }
        lemma_step_in_budget(rings[i - 1], rings[i], ops[i - 1]);
    }
    if rings[0].packets().len() == 0 {
        rings[0].lemma_keys_listed();
        rings[0].lemma_limits_nonneg();
        assert(rings[0].keys().len() == 0) by {
            if rings[0].keys().len() > 0 {
                assert(0 <= rings[0].keys()[0] < rings[0].packets().len());
            }
        }
    }
}

/// Two rings that hold the same and have the same limits give the same
/// again after the same call.
proof fn lemma_step_same(a0: ReplayBuffer, b0: ReplayBuffer, a1: ReplayBuffer, b1: ReplayBuffer, op: RingOp)
    requires
        a0.wf(),
        b0.wf(),
        a0.packets() == b0.packets(),
        a0.newest() == b0.newest(),
        a0.capacity_us() == b0.capacity_us(),
        a0.capacity_bytes() == b0.capacity_bytes(),
        a1.steps(a0, op),
        b1.steps(b0, op),
    ensures
        a1.packets() == b1.packets(),
        a1.newest() == b1.newest(),
        a1.capacity_us() == b1.capacity_us(),
        a1.capacity_bytes() == b1.capacity_bytes(),
{
    match op {
        RingOp::Push(p) => {
            law_the_same_pushes_give_the_same_ring(a0, b0, a1, b1, p);
        },
        RingOp::SetCapacity(seconds, bytes) => {
            a0.lemma_keys_listed();
            b0.lemma_keys_listed();
            lemma_keys_unique(a0.packets(), a0.keys(), b0.keys());
            lemma_trim_unique(
                a0.packets(),
                a0.keys(),
                a0.newest(),
                a1.capacity_us(),
                a1.capacity_bytes(),
                a1.packets(),
                b1.packets(),
            );
        },
        RingOp::Clear => {},
    }
}

proof fn lemma_histories_agree(a: Seq<ReplayBuffer>, b: Seq<ReplayBuffer>, ops: Seq<RingOp>, k: int)
    requires
        history(a, ops),
        history(b, ops),
        a[0].packets() == b[0].packets(),
        a[0].newest() == b[0].newest(),
        a[0].capacity_us() == b[0].capacity_us(),
        a[0].capacity_bytes() == b[0].capacity_bytes(),
        0 <= k <= ops.len(),
    ensures
        a[k].wf() && b[k].wf(),
        a[k].packets() == b[k].packets(),
        a[k].newest() == b[k].newest(),
        a[k].capacity_us() == b[k].capacity_us(),
        a[k].capacity_bytes() == b[k].capacity_bytes(),
    decreases k,
{
    if k > 0 {
        lemma_histories_agree(a, b, ops, k - 1);
        assert(a[k].steps(a[k - 1], ops[k - 1]));
        assert(b[k].steps(b[k - 1], ops[k - 1]));
        lemma_step_same(a[k - 1], b[k - 1], a[k], b[k], ops[k - 1]);
    }
}

/// Two rings that hold the same packets, with the same newest time and
/// limits, stay equal through any run of the same pushes, capacity changes
/// and clears. A cleared ring therefore goes on exactly as a fresh one with
/// its limits, and two rings fed the same packets hold the same bytes.
pub proof fn law_the_same_calls_give_the_same_ring(a: Seq<ReplayBuffer>, b: Seq<ReplayBuffer>, ops: Seq<RingOp>)
    requires
        history(a, ops),
        history(b, ops),
        a[0].packets() == b[0].packets(),
        a[0].newest() == b[0].newest(),
        a[0].capacity_us() == b[0].capacity_us(),
        a[0].capacity_bytes() == b[0].capacity_bytes(),
    ensures
        forall|i: int| 0 <= i <= ops.len() ==> (#[trigger] a[i]).packets() == b[i].packets() && a[i].newest()
            == b[i].newest() && total(a[i].packets()) == total(b[i].packets()),
{
    assert forall|i: int| 0 <= i <= ops.len() implies (#[trigger] a[i]).packets() == b[i].packets()
        && a[i].newest() == b[i].newest() && total(a[i].packets()) == total(b[i].packets()) by {
        lemma_histories_agree(a, b, ops, i);
    }
}

} // verus!
