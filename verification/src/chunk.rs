//! Realtime downmix and chunk accumulation.
//!
//! Interleaved multi-channel frames are reduced to mono by averaging the
//! channel samples of each frame, and the mono samples are accumulated into
//! fixed-length chunks. Samples are 32-bit fixed-point PCM values; the host
//! converts to and from the audio backend's sample type at the boundary.

use vstd::prelude::*;

verus! {

use vstd::arithmetic::div_mod::{
    lemma_div_is_ordered, lemma_div_multiples_vanish, lemma_fundamental_div_mod,
    lemma_fundamental_div_mod_converse_div, lemma_mod_bound, lemma_div_pos_is_pos,
};
use vstd::arithmetic::mul::lemma_mul_inequality;

/// `a / b` rounded to the nearest integer, halves rounding up (`b > 0`).
pub open spec fn round_div(a: int, b: int) -> int {
    (2 * a + b) / (2 * b)
}

/// The number of mono samples in one chunk for a given sample rate: the
/// sample rate times the chunk duration (a hundredth of a second, i.e. the
/// rate divided by 100), rounded to the nearest integer.
pub open spec fn spec_target_frames(sample_rate: int) -> int {
    round_div(sample_rate, 100)
}

/// Rounding in `round_div` is to the nearest integer: the result times `b`
/// differs from `a` by at most `b / 2` (halves round up).
pub proof fn lemma_round_div_nearest(a: int, b: int)
    requires
        0 <= a,
        0 < b,
    ensures
        2 * (round_div(a, b) * b - a) <= b,
        2 * (a - round_div(a, b) * b) < b,
{
    let q = round_div(a, b);
    let m = (2 * a + b) % (2 * b);
    lemma_fundamental_div_mod(2 * a + b, 2 * b);
    lemma_mod_bound(2 * a + b, 2 * b);
    assert((2 * b) * q == 2 * (q * b)) by (nonlinear_arith);
    assert(2 * (q * b) == 2 * a + b - m);
}

/// The number of samples of one chunk, computed from the sample rate.
pub fn target_frames(sample_rate: u32) -> (t: usize)
    ensures
        t == spec_target_frames(sample_rate as int),
        50 <= sample_rate ==> t >= 1,
{
    let t64: u64 = (2 * (sample_rate as u64) + 100) / 200;
    proof {
        lemma_div_is_ordered(2 * (sample_rate as int) + 100, 0x2_0000_0000int + 100, 200);
        if 50 <= sample_rate {
            lemma_div_is_ordered(200, 2 * (sample_rate as int) + 100, 200);
        }
    }
    t64 as usize
}

/// The sum of the channel samples of one frame.
pub open spec fn frame_sum(frame: Seq<i32>) -> int
    decreases frame.len(),
{
    if frame.len() == 0 {
        0
    } else {
        frame[0] + frame_sum(frame.drop_first())
    }
}

pub proof fn lemma_frame_sum_push(s: Seq<i32>, x: i32)
    ensures
        frame_sum(s.push(x)) == frame_sum(s) + x,
    decreases s.len(),
{
    if s.len() == 0 {
        assert(s.push(x).drop_first() =~= Seq::<i32>::empty());
        assert(s.push(x)[0] == x);
        assert(frame_sum(Seq::<i32>::empty()) == 0);
        assert(frame_sum(s) == 0);
    } else {
        assert(s.push(x).drop_first() =~= s.drop_first().push(x));
        lemma_frame_sum_push(s.drop_first(), x);
    }
}

/// Integer division truncating toward zero (`b > 0`).
pub open spec fn div_trunc(a: int, b: int) -> int {
    if a >= 0 {
        a / b
    } else {
        -((-a) / b)
    }
}

/// The mono sample for one interleaved frame: the arithmetic mean of its
/// channel samples, truncated toward zero.
pub open spec fn mono_value(frame: Seq<i32>) -> int {
    div_trunc(frame_sum(frame), frame.len() as int)
}

pub proof fn lemma_frame_sum_bounds(s: Seq<i32>)
    ensures
        s.len() * (i32::MIN as int) <= frame_sum(s) <= s.len() * (i32::MAX as int),
    decreases s.len(),
{
    if s.len() > 0 {
        lemma_frame_sum_bounds(s.drop_first());
    }
}

/// The mean of samples that all fit in `i32` itself fits in `i32`.
pub proof fn lemma_mono_in_range(frame: Seq<i32>)
    requires
        frame.len() > 0,
    ensures
        i32::MIN <= mono_value(frame) <= i32::MAX,
{
    let n = frame.len() as int;
    let s = frame_sum(frame);
    lemma_frame_sum_bounds(frame);
    if s >= 0 {
        lemma_div_is_ordered(s, n * (i32::MAX as int), n);
        assert(n * (i32::MAX as int) == (i32::MAX as int) * n) by (nonlinear_arith);
        lemma_div_multiples_vanish(i32::MAX as int, n);
        lemma_div_pos_is_pos(s, n);
    } else {
        assert(-s <= n * 0x8000_0000) by {
            assert(n * (i32::MIN as int) == -(n * 0x8000_0000)) by (nonlinear_arith);
        }
        lemma_div_is_ordered(-s, n * 0x8000_0000, n);
        assert(n * 0x8000_0000 == 0x8000_0000 * n) by (nonlinear_arith);
        lemma_div_multiples_vanish(0x8000_0000, n);
        lemma_div_pos_is_pos(-s, n);
    }
}

/// The mono sample for one frame, as the `i32` it always fits in.
pub open spec fn mono_i32(frame: Seq<i32>) -> i32 {
    mono_value(frame) as i32
}

/// Downmixing computes the exact arithmetic mean whenever that mean is an
/// integer: the mono sample times the channel count gives back the frame sum.
pub proof fn lemma_downmix_is_exact_mean(frame: Seq<i32>)
    requires
        frame.len() > 0,
        frame_sum(frame) % (frame.len() as int) == 0,
    ensures
        mono_value(frame) * (frame.len() as int) == frame_sum(frame),
{
    let n = frame.len() as int;
    let s = frame_sum(frame);
    lemma_fundamental_div_mod(s, n);
    if s >= 0 {
        assert(n * (s / n) == (s / n) * n) by (nonlinear_arith);
    } else {
        assert(-s == n * (-(s / n))) by (nonlinear_arith)
            requires s == n * (s / n);
        lemma_fundamental_div_mod_converse_div(-s, n, -(s / n), 0);
        assert(mono_value(frame) == s / n);
        assert(n * (s / n) == (s / n) * n) by (nonlinear_arith);
    }
}

/// The `f`-th interleaved frame of `data` for `ch` channels.
pub open spec fn spec_frame_at(data: Seq<i32>, ch: nat, f: int) -> Seq<i32> {
    data.subrange(f * ch, f * ch + ch)
}

/// The mono samples obtained by downmixing every complete interleaved frame
/// of `data`; a trailing partial frame is ignored.
pub open spec fn downmix_frames(data: Seq<i32>, ch: nat) -> Seq<i32> {
    Seq::new(data.len() / ch, |f: int| mono_i32(spec_frame_at(data, ch, f)))
}

/// The mono sample of the frame of `channels` samples starting at `start`.
fn frame_mono(data: &Vec<i32>, start: usize, channels: usize) -> (m: i32)
    requires
        0 < channels <= 65535,
        start + channels <= data@.len(),
    ensures
        m == mono_i32(data@.subrange(start as int, (start + channels) as int)),
{
    let ghost frame = data@.subrange(start as int, (start + channels) as int);
    proof {
        vstd::std_specs::vec::axiom_spec_len(data);
    }
    let mut sum: i64 = 0;
    let mut c: usize = 0;
    while c < channels
        invariant
            0 < channels <= 65535,
            start + channels <= data@.len(),
            data@.len() <= usize::MAX,
            0 <= c <= channels,
            frame == data@.subrange(start as int, (start + channels) as int),
            sum == frame_sum(frame.take(c as int)),
            -(c as int) * 0x8000_0000 <= sum <= (c as int) * 0x7fff_ffff,
        decreases channels - c,
    {
        let x = data[start + c];
        proof {
            assert(frame.take(c as int + 1) =~= frame.take(c as int).push(frame[c as int]));
            lemma_frame_sum_push(frame.take(c as int), x);
        }
        sum = sum + (x as i64);
        c = c + 1;
    }
    proof {
        assert(frame.take(channels as int) =~= frame);
        lemma_mono_in_range(frame);
    }
    let n = channels as u64;
    if sum >= 0 {
        let q: u64 = (sum as u64) / n;
        proof {
            lemma_div_is_ordered(sum as int, (channels as int) * 0x7fff_ffff, channels as int);
            assert((channels as int) * 0x7fff_ffff == 0x7fff_ffff * (channels as int))
                by (nonlinear_arith);
            lemma_div_multiples_vanish(0x7fff_ffff, channels as int);
            lemma_div_pos_is_pos(sum as int, channels as int);
        }
        q as i32
    } else {
        let q: u64 = ((-sum) as u64) / n;
        proof {
            lemma_div_is_ordered(-(sum as int), (channels as int) * 0x8000_0000, channels as int);
            assert((channels as int) * 0x8000_0000 == 0x8000_0000 * (channels as int))
                by (nonlinear_arith);
            lemma_div_multiples_vanish(0x8000_0000, channels as int);
            lemma_div_pos_is_pos(-(sum as int), channels as int);
        }
        (-(q as i64)) as i32
    }
}

/// The mono sample for one whole frame: the truncated mean of its samples.
pub fn downmix_frame(frame: &Vec<i32>) -> (m: i32)
    requires
        0 < frame@.len() <= 65535,
    ensures
        m == mono_i32(frame@),
{
    let m = frame_mono(frame, 0, frame.len());
    proof {
        assert(frame@.subrange(0, frame@.len() as int) =~= frame@);
    }
    m
}

/// Accumulates mono samples into chunks of a fixed target length.
///
/// The accumulator remembers (in ghost state) every sample it was fed and
/// every chunk it handed out, so its contracts pin down that chunks are
/// exactly the consecutive target-length slices of the fed samples, in order,
/// with no overlap, loss or duplication.
pub struct ChunkAccumulator {
    buf: Vec<i32>,
    target: usize,
    hist: Ghost<Seq<i32>>,
    done: Ghost<Seq<Seq<i32>>>,
}

impl ChunkAccumulator {
    /// Every mono sample this accumulator has accepted, oldest first.
    pub closed spec fn fed(self) -> Seq<i32> {
        self.hist@
    }

    /// The completed chunks handed out so far, in emission order.
    pub closed spec fn chunks_emitted(self) -> Seq<Seq<i32>> {
        self.done@
    }

    /// The samples accumulated toward the next chunk.
    pub closed spec fn pending(self) -> Seq<i32> {
        self.buf@
    }

    /// The fixed number of samples in one chunk.
    pub closed spec fn target_len(self) -> int {
        self.target as int
    }

    pub closed spec fn wf(self) -> bool {
        let t = self.target as int;
        &&& 0 < t
        &&& self.buf@.len() < t
        &&& self.hist@.len() == self.done@.len() * t + self.buf@.len()
        &&& forall|k: int|
            0 <= k < self.done@.len() ==> #[trigger] self.done@[k] == self.hist@.subrange(
                k * t,
                (k + 1) * t,
            )
        &&& self.buf@ == self.hist@.skip(self.done@.len() * t)
    }

    /// The chunks partition the fed samples: chunk `k` is exactly the `k`-th
    /// contiguous target-length slice of everything fed, in order, and the
    /// pending samples are the remainder after the last full chunk. When
    /// nothing is pending, the chunks cover the fed samples exactly.
    pub proof fn lemma_chunks_partition(self)
        requires
            self.wf(),
        ensures
            self.fed().len() == self.chunks_emitted().len() * self.target_len()
                + self.pending().len(),
            forall|k: int|
                0 <= k < self.chunks_emitted().len() ==> #[trigger] self.chunks_emitted()[k]
                    == self.fed().subrange(k * self.target_len(), (k + 1) * self.target_len()),
            forall|k: int|
                0 <= k < self.chunks_emitted().len() ==> (#[trigger] self.chunks_emitted()[k]).len()
                    == self.target_len(),
            self.pending().len() < self.target_len(),
            self.pending().len() == 0 ==> self.fed().len() == self.chunks_emitted().len()
                * self.target_len(),
    {
        let t = self.target_len();
        assert forall|k: int| 0 <= k < self.chunks_emitted().len() implies (
        #[trigger] self.chunks_emitted()[k]).len() == t by {
            assert((k + 1) * t <= self.done@.len() * t) by {
                lemma_mul_inequality(k + 1, self.done@.len() as int, t);
            }
            assert(0 <= k * t) by (nonlinear_arith)
                requires 0 <= k, 0 < t;
            assert(k * t + t == (k + 1) * t) by (nonlinear_arith);
        }
    }

    /// A fresh accumulator for chunks of `target` samples.
    pub fn new(target: usize) -> (acc: Self)
        requires
            0 < target,
        ensures
            acc.wf(),
            acc.target_len() == target,
            acc.fed() == Seq::<i32>::empty(),
            acc.chunks_emitted() == Seq::<Seq<i32>>::empty(),
            acc.pending() == Seq::<i32>::empty(),
    {
        let acc = ChunkAccumulator {
            buf: Vec::new(),
            target,
            hist: Ghost(Seq::empty()),
            done: Ghost(Seq::empty()),
        };
        proof {
            assert(acc.hist@.skip(0) =~= acc.hist@);
        }
        acc
    }

    /// A fresh accumulator sized for the fixed chunk duration at the given
    /// sample rate.
    pub fn for_sample_rate(sample_rate: u32) -> (acc: Self)
        requires
            50 <= sample_rate,
        ensures
            acc.wf(),
            acc.target_len() == spec_target_frames(sample_rate as int),
            acc.fed() == Seq::<i32>::empty(),
            acc.chunks_emitted() == Seq::<Seq<i32>>::empty(),
            acc.pending() == Seq::<i32>::empty(),
    {
        let t = target_frames(sample_rate);
        Self::new(t)
    }

    /// Accept one mono sample; when it completes a chunk, hand the chunk out
    /// and clear the accumulation buffer in place.
    pub fn push_mono(&mut self, s: i32) -> (out: Option<Vec<i32>>)
        requires
            old(self).wf(),
        ensures
            final(self).wf(),
            final(self).target_len() == old(self).target_len(),
            final(self).fed() == old(self).fed().push(s),
            match out {
                Some(chunk) => {
                    &&& old(self).pending().len() + 1 == old(self).target_len()
                    &&& chunk@ == old(self).pending().push(s)
                    &&& chunk@.len() == old(self).target_len()
                    &&& final(self).chunks_emitted() == old(self).chunks_emitted().push(chunk@)
                    &&& final(self).pending() == Seq::<i32>::empty()
                },
                None => {
                    &&& old(self).pending().len() + 1 < old(self).target_len()
                    &&& final(self).chunks_emitted() == old(self).chunks_emitted()
                    &&& final(self).pending() == old(self).pending().push(s)
                },
            },
    {
        let ghost t = self.target as int;
        let ghost e = self.done@.len() as int;
        self.buf.push(s);
        proof {
            self.hist@ = self.hist@.push(s);
        }
        proof {
            assert forall|k: int| 0 <= k < self.done@.len() implies #[trigger] self.done@[k]
                == self.hist@.subrange(k * t, (k + 1) * t) by {
                assert((k + 1) * t <= e * t) by {
                    lemma_mul_inequality(k + 1, e, t);
                }
                assert(0 <= k * t) by (nonlinear_arith)
                    requires 0 <= k, 0 < t;
                assert(k * t + t == (k + 1) * t) by (nonlinear_arith);
                assert(old(self).hist@.push(s).subrange(k * t, (k + 1) * t) =~= old(
                    self,
                ).hist@.subrange(k * t, (k + 1) * t));
            }
            assert(self.buf@ =~= self.hist@.skip(e * t));
        }
        if self.buf.len() == self.target {
            let mut chunk: Vec<i32> = Vec::new();
            let mut i: usize = 0;
            while i < self.buf.len()
                invariant
                    0 <= i <= self.buf@.len(),
                    chunk@ == self.buf@.take(i as int),
                decreases self.buf@.len() - i,
            {
                let x = self.buf[i];
                chunk.push(x);
                proof {
                    assert(self.buf@.take(i as int + 1) =~= self.buf@.take(i as int).push(
                        self.buf@[i as int],
                    ));
                }
                i = i + 1;
            }
            proof {
                assert(self.buf@.take(self.buf@.len() as int) =~= self.buf@);
            }
            self.buf.clear();
            proof {
                self.done@ = self.done@.push(chunk@);
            }
            proof {
                assert((e + 1) * t == e * t + t) by (nonlinear_arith);
                assert(chunk@ =~= self.hist@.subrange(e * t, (e + 1) * t));
                assert forall|k: int| 0 <= k < self.done@.len() implies #[trigger] self.done@[k]
                    == self.hist@.subrange(k * t, (k + 1) * t) by {
                    lemma_mul_inequality(k + 1, e + 1, t);
                    assert(0 <= k * t) by (nonlinear_arith)
                        requires 0 <= k, 0 < t;
                    assert(k * t + t == (k + 1) * t) by (nonlinear_arith);
                    if k < e {
                        assert(self.done@[k] == old(self).done@[k]);
                    }
                }
                assert(self.buf@ =~= self.hist@.skip(self.done@.len() * t));
            }
            Some(chunk)
        } else {
            None
        }
    }

    /// Process one buffer of interleaved samples: downmix every complete
    /// frame to mono, accumulate, and hand out every chunk completed along
    /// the way, in order.
    pub fn process_interleaved(&mut self, data: &Vec<i32>, channels: u16) -> (out: Vec<Vec<i32>>)
        requires
            old(self).wf(),
            0 < channels,
        ensures
            final(self).wf(),
            final(self).target_len() == old(self).target_len(),
            final(self).fed() == old(self).fed() + downmix_frames(data@, channels as nat),
            final(self).chunks_emitted() == old(self).chunks_emitted() + out.deep_view(),
            forall|k: int|
                0 <= k < out.deep_view().len() ==> (#[trigger] out.deep_view()[k]).len() == old(
                    self,
                ).target_len(),
    {
        let ch = channels as usize;
        let frames = data.len() / ch;
        let ghost monos = downmix_frames(data@, channels as nat);
        proof {
            vstd::std_specs::vec::axiom_spec_len(data);
            lemma_fundamental_div_mod(data@.len() as int, ch as int);
            lemma_mod_bound(data@.len() as int, ch as int);
            assert(frames == data@.len() as int / (ch as int));
            assert((ch as int) * (data@.len() as int / (ch as int)) == (data@.len() as int / (
            ch as int)) * (ch as int)) by (nonlinear_arith);
            assert(frames * ch <= data@.len());
            assert(monos.len() == frames);
        }
        let mut out: Vec<Vec<i32>> = Vec::new();
        let mut f: usize = 0;
        proof {
            assert(out.deep_view() =~= Seq::<Seq<i32>>::empty());
            assert(self.chunks_emitted() =~= old(self).chunks_emitted() + out.deep_view());
            assert(self.fed() =~= old(self).fed() + monos.take(0));
        }
        while f < frames
            invariant
                self.wf(),
                self.target_len() == old(self).target_len(),
                0 < ch <= 65535,
                ch == channels as int,
                0 <= f <= frames,
                frames * ch <= data@.len(),
                data@.len() <= usize::MAX,
                monos == downmix_frames(data@, channels as nat),
                monos.len() == frames,
                self.fed() == old(self).fed() + monos.take(f as int),
                self.chunks_emitted() == old(self).chunks_emitted() + out.deep_view(),
                forall|k: int|
                    0 <= k < out.deep_view().len() ==> (#[trigger] out.deep_view()[k]).len() == old(
                        self,
                    ).target_len(),
            decreases frames - f,
        {
            proof {
                assert((f + 1) * ch <= frames * ch) by {
                    lemma_mul_inequality(f + 1, frames as int, ch as int);
                }
                assert(0 <= f * ch) by (nonlinear_arith)
                    requires 0 <= f, 0 < ch;
                assert(f * ch + ch == (f + 1) * ch) by (nonlinear_arith);
            }
            let m = frame_mono(data, f * ch, ch);
            proof {
                assert(monos[f as int] == mono_i32(
                    data@.subrange(f * ch, f * ch + ch),
                ));
                assert(monos.take(f as int + 1) =~= monos.take(f as int).push(monos[f as int]));
            }
            match self.push_mono(m) {
                Some(c) => {
                    let ghost old_out = out.deep_view();
                    out.push(c);
                    proof {
                        assert(out.deep_view() =~= old_out.push(c.deep_view()));
                        assert(c.deep_view() =~= c@);
                    }
                },
                None => {},
            }
            f = f + 1;
        }
        proof {
            assert(monos.take(frames as int) =~= monos);
        }
        out
    }
}

} // verus!
