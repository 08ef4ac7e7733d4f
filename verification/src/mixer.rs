//! The dynamic mixer.
//!
//! A mixer owns a set of registered sources and a fixed target format.
//! Each pull converts every active source to the target format, sums the
//! per-source samples, and clamps the sum into the normalized range.
//! A source is removed the moment its last sample has been consumed, and
//! removal never disturbs the position of the other sources. With no
//! active sources the mixer keeps producing silence — a pull always yields
//! a sample, so the output never terminates and the hardware callback is
//! never starved.

use vstd::prelude::*;
use crate::sample::{clamp_amp_spec, amp_to_i16_spec, amp_to_u16_spec, amp_to_i16, amp_to_u16, AMP_ONE};
use crate::convert::{
    all_in_range, conv_len, conv_sample, converted_seq, ceil_div,
    lemma_conv_index_bounds, lemma_conv_sample_in_range, lemma_out_frame_in_bounds,
};
use crate::source::Source;

verus! {

/// The first sample a source view would produce; silence if it is spent.
pub open spec fn head_amp(s: Seq<i64>) -> int {
    if s.len() > 0 {
        s[0] as int
    } else {
        0
    }
}

/// The unclamped sum of the next sample of every registered source.
pub open spec fn sum_heads(ss: Seq<Seq<i64>>) -> int
    decreases ss.len(),
{
    if ss.len() == 0 {
        0
    } else {
        head_amp(ss.first()) + sum_heads(ss.drop_first())
    }
}

/// One pull: every source view loses its head; views that are thereby
/// spent leave the set, and the order of the others is kept.
pub open spec fn advance(ss: Seq<Seq<i64>>) -> Seq<Seq<i64>>
    decreases ss.len(),
{
    if ss.len() == 0 {
        ss
    } else {
        let rest = advance(ss.drop_first());
        if ss.first().len() > 1 {
            seq![ss.first().skip(1)] + rest
        } else {
            rest
        }
    }
}

/// `n` successive pulls.
pub open spec fn advance_n(ss: Seq<Seq<i64>>, n: nat) -> Seq<Seq<i64>>
    decreases n,
{
    if n == 0 {
        ss
    } else {
        advance_n(advance(ss), (n - 1) as nat)
    }
}

/// The first `n` output samples of a mixer whose sources stand at the
/// given views: each output is the clamped sum of the heads.
pub open spec fn mix_seq(ss: Seq<Seq<i64>>, n: nat) -> Seq<i64>
    decreases n,
{
    if n == 0 {
        Seq::empty()
    } else {
        seq![clamp_amp_spec(sum_heads(ss)) as i64] + mix_seq(advance(ss), (n - 1) as nat)
    }
}

pub proof fn lemma_sum_heads_push(ss: Seq<Seq<i64>>, x: Seq<i64>)
    ensures
        sum_heads(ss.push(x)) == sum_heads(ss) + head_amp(x),
    decreases ss.len(),
{
    if ss.len() == 0 {
        assert(ss.push(x).drop_first() =~= ss);
    } else {
        assert(ss.push(x).drop_first() =~= ss.drop_first().push(x));
        lemma_sum_heads_push(ss.drop_first(), x);
    }
}

pub proof fn lemma_advance_push(ss: Seq<Seq<i64>>, x: Seq<i64>)
    ensures
        advance(ss.push(x)) == advance(ss) + (if x.len() > 1 {
            seq![x.skip(1)]
        } else {
            Seq::<Seq<i64>>::empty()
        }),
    decreases ss.len(),
{
    let tail = if x.len() > 1 { seq![x.skip(1)] } else { Seq::<Seq<i64>>::empty() };
    if ss.len() == 0 {
        assert(ss.push(x).drop_first() =~= ss);
        assert(advance(ss.push(x)) =~= advance(ss) + tail);
    } else {
        assert(ss.push(x).drop_first() =~= ss.drop_first().push(x));
        lemma_advance_push(ss.drop_first(), x);
        assert(advance(ss.push(x)) =~= advance(ss) + tail);
    }
}

/// Bound used to rule out overflow of the running sum: the sum of the
/// heads of `ss` normalized views is at most `ss.len()` full-scale steps.
pub proof fn lemma_sum_heads_bound(ss: Seq<Seq<i64>>)
    requires
        forall|i: int| 0 <= i < ss.len() ==> all_in_range(#[trigger] ss[i]),
    ensures
        -(ss.len() * AMP_ONE) <= sum_heads(ss) <= ss.len() * AMP_ONE,
    decreases ss.len(),
{
    if ss.len() == 0 {
    } else {
        assert(all_in_range(ss[0]));
        assert(forall|i: int|
            0 <= i < ss.drop_first().len() ==> all_in_range(#[trigger] ss.drop_first()[i]));
        lemma_sum_heads_bound(ss.drop_first());
        assert(-AMP_ONE <= head_amp(ss.first()) <= AMP_ONE);
        assert(ss.len() * AMP_ONE == ss.drop_first().len() * AMP_ONE + AMP_ONE)
            by (nonlinear_arith)
            requires
                ss.len() == ss.drop_first().len() + 1,
        ;
    }
}

/// A source registered into a mixer, already positioned in the converted
/// stream: the original buffer plus a cursor over the converted samples.
pub struct QueuedSource {
    /// The source's own interleaved samples.
    pub samples: Vec<i64>,
    /// The source's channel count.
    pub channels: u16,
    /// The source's sample rate.
    pub sample_rate: u32,
    /// Position in the converted (target-format) stream.
    pub cursor: u128,
}

impl QueuedSource {
    /// The whole converted stream of this source at the target format.
    pub open spec fn conv(&self, to_ch: nat, to_rate: nat) -> Seq<i64> {
        converted_seq(self.samples@, self.channels as nat, self.sample_rate as nat, to_ch, to_rate)
    }

    /// The converted samples not yet consumed.
    pub open spec fn remaining(&self, to_ch: nat, to_rate: nat) -> Seq<i64> {
        self.conv(to_ch, to_rate).skip(self.cursor as int)
    }

    /// Validity: positive format, normalized samples, and a cursor that
    /// still has something left (spent sources are removed at once).
    pub open spec fn wf(&self, to_ch: nat, to_rate: nat) -> bool {
        &&& self.channels >= 1
        &&& self.sample_rate >= 1
        &&& all_in_range(self.samples@)
        &&& self.cursor < conv_len(
            self.samples@.len(),
            self.channels as nat,
            self.sample_rate as nat,
            to_ch,
            to_rate,
        )
    }
}

/// The views of a run of queued sources: what each has yet to produce.
pub open spec fn views_of(qs: Seq<QueuedSource>, to_ch: nat, to_rate: nat) -> Seq<Seq<i64>> {
    Seq::new(qs.len(), |i: int| qs[i].remaining(to_ch, to_rate))
}

/// Combines registered sources into one stream at a fixed target format.
pub struct Mixer {
    /// Target channel count; every emitted frame has exactly this many
    /// interleaved samples. At least 1.
    pub channels: u16,
    /// Target sample rate. At least 1.
    pub sample_rate: u32,
    /// The active sources, in registration order.
    pub sources: Vec<QueuedSource>,
}

impl Mixer {
    /// Validity: positive target format and well-formed active sources.
    pub open spec fn wf(&self) -> bool {
        &&& self.channels >= 1
        &&& self.sample_rate >= 1
        &&& forall|i: int|
            0 <= i < self.sources@.len() ==> (#[trigger] self.sources@[i]).wf(
                self.channels as nat,
                self.sample_rate as nat,
            )
    }

    /// What every active source has yet to produce, in order.
    pub open spec fn source_views(&self) -> Seq<Seq<i64>> {
        views_of(self.sources@, self.channels as nat, self.sample_rate as nat)
    }

    /// A mixer with no sources at the given target format.
    pub fn new(channels: u16, sample_rate: u32) -> (r: Mixer)
        requires
            channels >= 1,
            sample_rate >= 1,
        ensures
            r.wf(),
            r.channels == channels,
            r.sample_rate == sample_rate,
            r.source_views() =~= Seq::<Seq<i64>>::empty(),
    {
        Mixer { channels, sample_rate, sources: Vec::new() }
    }

    /// How many sources are currently registered.
    pub fn active_sources(&self) -> (r: usize)
        ensures
            r == self.source_views().len(),
    {
        self.sources.len()
    }

    /// Register a source. Its remaining samples are converted to the
    /// target format; a source with nothing to give is dropped at once.
    /// Registration never disturbs the sources already present.
    pub fn add(&mut self, source: Source)
        requires
            old(self).wf(),
            source.wf(),
        ensures
            final(self).wf(),
            final(self).channels == old(self).channels,
            final(self).sample_rate == old(self).sample_rate,
            ({
                let c = converted_seq(
                    source.remaining(),
                    source.channels as nat,
                    source.sample_rate as nat,
                    old(self).channels as nat,
                    old(self).sample_rate as nat,
                );
                final(self).source_views() == if c.len() > 0 {
                    old(self).source_views().push(c)
                } else {
                    old(self).source_views()
                }
            }),
    {
        let ghost to_ch = self.channels as nat;
        let ghost to_rate = self.sample_rate as nat;
        let ghost src0 = source;
        let mut source = source;
        let tail = source.samples.split_off(source.pos);
        proof {
            assert(tail@ =~= src0.remaining());
            assert(all_in_range(tail@));
        }
        let clen = conv_len_exec(
            tail.len(),
            source.channels,
            source.sample_rate,
            self.channels,
            self.sample_rate,
        );
        if clen > 0 {
            let q = QueuedSource {
                samples: tail,
                channels: source.channels,
                sample_rate: source.sample_rate,
                cursor: 0,
            };
            let ghost qg = q;
            proof {
                assert(qg.remaining(to_ch, to_rate) =~= qg.conv(to_ch, to_rate));
            }
            self.sources.push(q);
            proof {
                assert(self.source_views() =~= old(self).source_views().push(
                    qg.remaining(to_ch, to_rate),
                ));
                assert(qg.conv(to_ch, to_rate) == converted_seq(
                    src0.remaining(),
                    src0.channels as nat,
                    src0.sample_rate as nat,
                    to_ch,
                    to_rate,
                ));
            }
        } else {
            proof {
                assert(self.source_views() =~= old(self).source_views());
            }
        }
    }

    /// Produce the next output sample: the clamped sum of one converted
    /// sample from every active source; sources that end here are removed
    /// without disturbing the others. Always returns a sample — an idle
    /// mixer yields silence.
    pub fn next(&mut self) -> (r: i64)
        requires
            old(self).wf(),
        ensures
            final(self).wf(),
            final(self).channels == old(self).channels,
            final(self).sample_rate == old(self).sample_rate,
            r == clamp_amp_spec(sum_heads(old(self).source_views())),
            final(self).source_views() == advance(old(self).source_views()),
            -AMP_ONE <= r <= AMP_ONE,
    {
        let ghost prev = self.source_views();
        let ghost to_chs = self.channels as nat;
        let ghost to_rates = self.sample_rate as nat;
        let to_ch = self.channels;
        let to_rate = self.sample_rate;
        let n0 = self.sources.len();
        proof {
            assert(prev.len() == n0);
            assert forall|i: int| 0 <= i < prev.len() implies all_in_range(#[trigger] prev[i]) by {
                let q = old(self).sources@[i];
                assert(q.wf(to_chs, to_rates));
                assert forall|t: int| 0 <= t < prev[i].len() implies
                    -AMP_ONE <= #[trigger] prev[i][t] <= AMP_ONE by {
                    lemma_conv_sample_in_range(
                        q.samples@,
                        q.channels as nat,
                        q.sample_rate as nat,
                        to_chs,
                        to_rates,
                        (q.cursor + t) as nat,
                    );
                    assert(prev[i][t] == q.conv(to_chs, to_rates)[q.cursor + t]);
                }
            }
        }
        let mut kept: Vec<QueuedSource> = Vec::new();
        let mut acc: i128 = 0;
        let ghost mut j: int = 0;
        proof {
            assert(views_of(self.sources@, to_chs, to_rates) =~= prev.skip(0));
            assert(prev.take(0) =~= Seq::<Seq<i64>>::empty());
            assert(views_of(kept@, to_chs, to_rates) =~= advance(prev.take(0)));
        }
        while self.sources.len() > 0
            invariant
                self.channels == to_ch,
                self.sample_rate == to_rate,
                to_chs == to_ch as nat,
                to_rates == to_rate as nat,
                to_ch >= 1,
                to_rate >= 1,
                0 <= j <= prev.len(),
                prev.len() <= usize::MAX,
                j == prev.len() - self.sources@.len(),
                views_of(self.sources@, to_chs, to_rates) == prev.skip(j),
                views_of(kept@, to_chs, to_rates) == advance(prev.take(j)),
                forall|i: int|
                    0 <= i < self.sources@.len() ==> (#[trigger] self.sources@[i]).wf(
                        to_chs,
                        to_rates,
                    ),
                forall|i: int|
                    0 <= i < kept@.len() ==> (#[trigger] kept@[i]).wf(to_chs, to_rates),
                forall|i: int| 0 <= i < prev.len() ==> all_in_range(#[trigger] prev[i]),
                acc == sum_heads(prev.take(j)),
                -(j * AMP_ONE) <= acc <= j * AMP_ONE,
            decreases self.sources@.len(),
        {
            let ghost sb = self.sources@;
            let q = self.sources.remove(0);
            proof {
                assert(self.sources@ =~= sb.skip(1));
                assert forall|t: int| 0 <= t < self.sources@.len() implies
                    #[trigger] views_of(self.sources@, to_chs, to_rates)[t] == prev.skip(j + 1)[t] by {
                    assert(self.sources@[t] == sb[t + 1]);
                    assert(views_of(sb, to_chs, to_rates)[t + 1] == sb[t + 1].remaining(to_chs, to_rates));
                    assert(prev.skip(j)[t + 1] == prev[j + 1 + t]);
                }
                assert(views_of(self.sources@, to_chs, to_rates) =~= prev.skip(j + 1));
                assert(views_of(sb, to_chs, to_rates)[0] == prev.skip(j)[0]);
                assert(q.remaining(to_chs, to_rates) == prev[j]);
            }
            let s = converted_sample_at(&q, to_ch, to_rate);
            proof {
                assert(prev[j].len() > 0);
                assert(prev[j][0] == conv_sample(
                    q.samples@,
                    q.channels as nat,
                    q.sample_rate as nat,
                    to_chs,
                    to_rates,
                    q.cursor as nat,
                ));
                assert(s == head_amp(prev[j]));
                assert(-AMP_ONE <= s <= AMP_ONE);
                lemma_sum_heads_bound(prev);
                assert((j + 1) * AMP_ONE == j * AMP_ONE + AMP_ONE) by (nonlinear_arith);
                assert(prev.take(j + 1) =~= prev.take(j).push(prev[j]));
                lemma_sum_heads_push(prev.take(j), prev[j]);
            }
            acc = acc + (s as i128);
            let clen = conv_len_exec(
                q.samples.len(),
                q.channels,
                q.sample_rate,
                to_ch,
                to_rate,
            );
            let newc = q.cursor + 1;
            proof {
                lemma_advance_push(prev.take(j), prev[j]);
            }
            if newc < clen {
                let q2 = QueuedSource {
                    samples: q.samples,
                    channels: q.channels,
                    sample_rate: q.sample_rate,
                    cursor: newc,
                };
                proof {
                    assert(q2.remaining(to_chs, to_rates) =~= prev[j].skip(1));
                }
                kept.push(q2);
                proof {
                    assert(views_of(kept@, to_chs, to_rates) =~= advance(prev.take(j)).push(
                        prev[j].skip(1),
                    ));
                    assert(advance(prev.take(j)) + seq![prev[j].skip(1)] =~= advance(
                        prev.take(j),
                    ).push(prev[j].skip(1)));
                    assert(views_of(kept@, to_chs, to_rates) == advance(prev.take(j + 1)));
                }
            } else {
                proof {
                    assert(prev[j].len() == 1);
                    assert(advance(prev.take(j)) + Seq::<Seq<i64>>::empty() =~= advance(
                        prev.take(j),
                    ));
                    assert(views_of(kept@, to_chs, to_rates) == advance(prev.take(j + 1)));
                }
            }
            proof {
                j = j + 1;
            }
        }
        proof {
            assert(j == prev.len());
            assert(prev.take(j) =~= prev);
        }
        self.sources = kept;
        let r = if acc > AMP_ONE as i128 {
            AMP_ONE
        } else if acc < -AMP_ONE as i128 {
            -AMP_ONE
        } else {
            acc as i64
        };
        proof {
            assert(r == clamp_amp_spec(sum_heads(prev)));
            assert(self.source_views() == advance(prev));
        }
        r
    }
}

/// The first `n` mixed samples rendered as signed 16-bit PCM.
pub open spec fn pcm_i16_seq(ss: Seq<Seq<i64>>, n: nat) -> Seq<i16> {
    Seq::new(n, |i: int| amp_to_i16_spec(mix_seq(ss, n)[i] as int) as i16)
}

/// The first `n` mixed samples rendered as unsigned 16-bit PCM.
pub open spec fn pcm_u16_seq(ss: Seq<Seq<i64>>, n: nat) -> Seq<u16> {
    Seq::new(n, |i: int| amp_to_u16_spec(mix_seq(ss, n)[i] as int) as u16)
}

impl Mixer {
    /// Fill a whole output buffer: `n` successive pulls. The buffer always
    /// comes back full, whatever the sources held.
    pub fn fill(&mut self, n: usize) -> (out: Vec<i64>)
        requires
            old(self).wf(),
        ensures
            final(self).wf(),
            final(self).channels == old(self).channels,
            final(self).sample_rate == old(self).sample_rate,
            out@ == mix_seq(old(self).source_views(), n as nat),
            final(self).source_views() == advance_n(old(self).source_views(), n as nat),
    {
        let ghost prev = self.source_views();
        let ch0 = self.channels;
        let rate0 = self.sample_rate;
        let mut out: Vec<i64> = Vec::new();
        let mut t: usize = 0;
        while t < n
            invariant
                t <= n,
                self.wf(),
                self.channels == ch0,
                self.sample_rate == rate0,
                out@.len() == t,
                mix_seq(prev, n as nat) == out@ + mix_seq(self.source_views(), (n - t) as nat),
                self.source_views() == advance_n(prev, t as nat),
            decreases n - t,
        {
            let ghost cur = self.source_views();
            let s = self.next();
            out.push(s);
            t = t + 1;
            proof {
                lemma_advance_n_step(prev, (t - 1) as nat);
                assert(mix_seq(cur, (n - t + 1) as nat) == seq![
                    clamp_amp_spec(sum_heads(cur)) as i64,
                ] + mix_seq(advance(cur), (n - t) as nat));
                assert(out@ =~= out@.subrange(0, t - 1) + seq![s]);
                assert(out@.subrange(0, t - 1) + seq![s] + mix_seq(
                    self.source_views(),
                    (n - t) as nat,
                ) =~= out@.subrange(0, t - 1) + (seq![s] + mix_seq(
                    self.source_views(),
                    (n - t) as nat,
                )));
            }
        }
        proof {
            assert(mix_seq(self.source_views(), 0) =~= Seq::<i64>::empty());
            assert(out@ + Seq::<i64>::empty() =~= out@);
        }
        out
    }

    /// Fill a buffer of signed 16-bit PCM, as the hardware callback does
    /// for a device negotiated at that sample format.
    pub fn fill_i16(&mut self, n: usize) -> (out: Vec<i16>)
        requires
            old(self).wf(),
        ensures
            final(self).wf(),
            final(self).channels == old(self).channels,
            final(self).sample_rate == old(self).sample_rate,
            out@ == pcm_i16_seq(old(self).source_views(), n as nat),
            final(self).source_views() == advance_n(old(self).source_views(), n as nat),
    {
        let ghost prev = self.source_views();
        let amps = self.fill(n);
        proof {
            lemma_mix_seq_len(prev, n as nat);
        }
        let mut out: Vec<i16> = Vec::new();
        let mut t: usize = 0;
        while t < n
            invariant
                t <= n,
                amps@ == mix_seq(prev, n as nat),
                amps@.len() == n,
                out@.len() == t,
                forall|i: int|
                    0 <= i < t ==> out@[i] == amp_to_i16_spec(mix_seq(prev, n as nat)[i] as int),
            decreases n - t,
        {
            let v = amp_to_i16(amps[t]);
            out.push(v);
            t = t + 1;
        }
        proof {
            assert(out@ =~= pcm_i16_seq(prev, n as nat));
        }
        out
    }

    /// Fill a buffer of unsigned 16-bit PCM, as the hardware callback does
    /// for a device negotiated at that sample format.
    pub fn fill_u16(&mut self, n: usize) -> (out: Vec<u16>)
        requires
            old(self).wf(),
        ensures
            final(self).wf(),
            final(self).channels == old(self).channels,
            final(self).sample_rate == old(self).sample_rate,
            out@ == pcm_u16_seq(old(self).source_views(), n as nat),
            final(self).source_views() == advance_n(old(self).source_views(), n as nat),
    {
        let ghost prev = self.source_views();
        let amps = self.fill(n);
        proof {
            lemma_mix_seq_len(prev, n as nat);
        }
        let mut out: Vec<u16> = Vec::new();
        let mut t: usize = 0;
        while t < n
            invariant
                t <= n,
                amps@ == mix_seq(prev, n as nat),
                amps@.len() == n,
                out@.len() == t,
                forall|i: int|
                    0 <= i < t ==> out@[i] == amp_to_u16_spec(mix_seq(prev, n as nat)[i] as int),
            decreases n - t,
        {
            let v = amp_to_u16(amps[t]);
            out.push(v);
            t = t + 1;
        }
        proof {
            assert(out@ =~= pcm_u16_seq(prev, n as nat));
        }
        out
    }
}

/// `n + 1` pulls are one pull after `n` pulls.
pub proof fn lemma_advance_n_step(ss: Seq<Seq<i64>>, n: nat)
    ensures
        advance_n(ss, n + 1) == advance(advance_n(ss, n)),
    decreases n,
{
    assert(advance_n(ss, n + 1) == advance_n(advance(ss), n));
    if n == 0 {
        assert(advance_n(advance(ss), 0) == advance(ss));
        assert(advance_n(ss, 0) == ss);
    } else {
        lemma_advance_n_step(advance(ss), (n - 1) as nat);
        assert(advance_n(advance(ss), n) == advance(advance_n(advance(ss), (n - 1) as nat)));
        assert(advance_n(ss, n) == advance_n(advance(ss), (n - 1) as nat));
    }
}

/// A mixer always fills the whole buffer that is asked of it.
pub proof fn lemma_mix_seq_len(ss: Seq<Seq<i64>>, n: nat)
    ensures
        mix_seq(ss, n).len() == n,
    decreases n,
{
    if n == 0 {
    } else {
        lemma_mix_seq_len(advance(ss), (n - 1) as nat);
    }
}

/// Every sample of every view is silence.
pub open spec fn all_zero_seq(s: Seq<i64>) -> bool {
    forall|t: int| 0 <= t < s.len() ==> #[trigger] s[t] == 0
}

/// All registered views are silent.
pub open spec fn all_silent(ss: Seq<Seq<i64>>) -> bool {
    forall|i: int| 0 <= i < ss.len() ==> all_zero_seq(#[trigger] ss[i])
}

/// `n` samples of silence.
pub open spec fn zero_seq(n: nat) -> Seq<i64> {
    Seq::new(n, |i: int| 0i64)
}

pub proof fn lemma_sum_heads_silent(ss: Seq<Seq<i64>>)
    requires
        all_silent(ss),
    ensures
        sum_heads(ss) == 0,
    decreases ss.len(),
{
    if ss.len() == 0 {
    } else {
        assert(all_zero_seq(ss[0]));
        assert(forall|i: int|
            0 <= i < ss.drop_first().len() ==> all_zero_seq(#[trigger] ss.drop_first()[i]));
        lemma_sum_heads_silent(ss.drop_first());
    }
}

pub proof fn lemma_advance_silent(ss: Seq<Seq<i64>>)
    requires
        all_silent(ss),
    ensures
        all_silent(advance(ss)),
    decreases ss.len(),
{
    if ss.len() == 0 {
    } else {
        assert(forall|i: int|
            0 <= i < ss.drop_first().len() ==> all_zero_seq(#[trigger] ss.drop_first()[i]));
        lemma_advance_silent(ss.drop_first());
        let rest = advance(ss.drop_first());
        if ss.first().len() > 1 {
            assert(all_zero_seq(ss[0]));
            assert(all_zero_seq(ss.first().skip(1)));
            assert forall|i: int| 0 <= i < advance(ss).len() implies all_zero_seq(
                #[trigger] advance(ss)[i],
            ) by {
                if i == 0 {
                } else {
                    assert(advance(ss)[i] == rest[i - 1]);
                }
            }
        }
    }
}

/// However many silent sources are registered, every output sample is 0:
/// the sum of silence is silence and clamping leaves it untouched.
pub proof fn lemma_silent_sources_mix_to_silence(ss: Seq<Seq<i64>>, n: nat)
    requires
        all_silent(ss),
    ensures
        mix_seq(ss, n) == zero_seq(n),
    decreases n,
{
    if n == 0 {
        assert(mix_seq(ss, 0) =~= zero_seq(0));
    } else {
        lemma_sum_heads_silent(ss);
        lemma_advance_silent(ss);
        lemma_silent_sources_mix_to_silence(advance(ss), (n - 1) as nat);
        assert(mix_seq(ss, n) =~= zero_seq(n));
    }
}

/// A mixer with no sources produces silence for as long as it is pulled,
/// and stays empty: the output stream never terminates.
pub proof fn lemma_idle_mixer_keeps_producing_silence(n: nat)
    ensures
        mix_seq(Seq::<Seq<i64>>::empty(), n) == zero_seq(n),
        advance_n(Seq::<Seq<i64>>::empty(), n) == Seq::<Seq<i64>>::empty(),
    decreases n,
{
    lemma_silent_sources_mix_to_silence(Seq::<Seq<i64>>::empty(), n);
    if n == 0 {
    } else {
        lemma_idle_mixer_keeps_producing_silence((n - 1) as nat);
        assert(advance(Seq::<Seq<i64>>::empty()) =~= Seq::<Seq<i64>>::empty());
    }
}

/// Once a lone source has been pulled to exhaustion it leaves no trace:
/// the mixer's views are exactly as before it was registered.
pub proof fn lemma_exhausted_source_leaves_no_trace(c: Seq<i64>, k: nat)
    requires
        c.len() >= 1,
        k >= c.len(),
    ensures
        advance_n(seq![c], k) == Seq::<Seq<i64>>::empty(),
    decreases k,
{
    assert(seq![c].drop_first() =~= Seq::<Seq<i64>>::empty());
    assert(advance(Seq::<Seq<i64>>::empty()) == Seq::<Seq<i64>>::empty());
    if c.len() == 1 {
        assert(advance(seq![c]) =~= Seq::<Seq<i64>>::empty());
        lemma_idle_mixer_keeps_producing_silence((k - 1) as nat);
    } else {
        assert(seq![c.skip(1)] + Seq::<Seq<i64>>::empty() =~= seq![c.skip(1)]);
        assert(advance(seq![c]) =~= seq![c.skip(1)]);
        lemma_exhausted_source_leaves_no_trace(c.skip(1), (k - 1) as nat);
    }
}

/// Registering, exhausting, and registering a fresh equivalent source
/// behaves exactly like the first registration: no position bleeds over.
pub proof fn lemma_reregistration_behaves_identically(c: Seq<i64>, k: nat, n: nat)
    requires
        c.len() >= 1,
        k >= c.len(),
    ensures
        mix_seq(advance_n(seq![c], k).push(c), n) == mix_seq(seq![c], n),
{
    lemma_exhausted_source_leaves_no_trace(c, k);
    assert(advance_n(seq![c], k).push(c) =~= seq![c]);
}

/// The converted sample a queued source stands on, read straight from its
/// buffer by the channel and rate rules.
fn converted_sample_at(q: &QueuedSource, to_ch: u16, to_rate: u32) -> (s: i64)
    requires
        to_ch >= 1,
        to_rate >= 1,
        q.wf(to_ch as nat, to_rate as nat),
    ensures
        s == conv_sample(
            q.samples@,
            q.channels as nat,
            q.sample_rate as nat,
            to_ch as nat,
            to_rate as nat,
            q.cursor as nat,
        ),
{
    let len = q.samples.len();
    let ghost n_in = q.samples@.len() / (q.channels as nat);
    proof {
        lemma_conv_index_bounds(
            q.samples@.len(),
            q.channels as nat,
            q.sample_rate as nat,
            to_ch as nat,
            to_rate as nat,
            q.cursor as nat,
        );
        lemma_out_frame_in_bounds(
            (q.cursor as nat) / (to_ch as nat),
            n_in,
            q.sample_rate as nat,
            to_rate as nat,
        );
        assert(n_in <= len) by (nonlinear_arith)
            requires
                n_in == (len as nat) / (q.channels as nat),
                q.channels >= 1,
        ;
        assert(n_in * (to_rate as nat) <= (u64::MAX as nat) * (u32::MAX as nat))
            by (nonlinear_arith)
            requires
                n_in <= u64::MAX as nat,
                to_rate <= u32::MAX,
        ;
    }
    let of = q.cursor / (to_ch as u128);
    let ch_off = q.cursor % (to_ch as u128);
    let inf = (of * (q.sample_rate as u128)) / (to_rate as u128);
    proof {
        assert(inf < n_in);
    }
    if q.channels == 1 {
        q.samples[inf as usize]
    } else if ch_off < q.channels as u128 {
        proof {
            assert(inf * (q.channels as nat) + ch_off < len) by (nonlinear_arith)
                requires
                    ((q.cursor as nat) / (to_ch as nat) * (q.sample_rate as nat))
                        / (to_rate as nat) * (q.channels as nat) + (q.cursor as nat) % (
                    to_ch as nat) < len,
                    inf == ((q.cursor as nat) / (to_ch as nat) * (q.sample_rate as nat)) / (
                    to_rate as nat),
                    ch_off == (q.cursor as nat) % (to_ch as nat),
            ;
        }
        q.samples[(inf * (q.channels as u128) + ch_off) as usize]
    } else {
        0
    }
}

/// Exact converted length of a source buffer at a target format.
fn conv_len_exec(len: usize, from_ch: u16, from_rate: u32, to_ch: u16, to_rate: u32) -> (r: u128)
    requires
        from_ch >= 1,
        from_rate >= 1,
        to_ch >= 1,
        to_rate >= 1,
    ensures
        r == conv_len(len as nat, from_ch as nat, from_rate as nat, to_ch as nat, to_rate as nat),
{
    let n_in = (len as u128) / (from_ch as u128);
    proof {
        assert(n_in <= len as u128) by (nonlinear_arith)
            requires
                n_in == (len as u128) / (from_ch as u128),
                from_ch >= 1,
        ;
        assert(n_in * (to_rate as u128) <= (u64::MAX as u128) * (u32::MAX as u128))
            by (nonlinear_arith)
            requires
                n_in <= u64::MAX as u128,
                to_rate <= u32::MAX,
        ;
    }
    let a = n_in * (to_rate as u128);
    let frames = (a + (from_rate as u128) - 1) / (from_rate as u128);
    proof {
        assert(frames <= a) by {
            if a > 0 {
                assert(((a as int) + (from_rate as int) - 1) / (from_rate as int) <= a as int)
                    by (nonlinear_arith)
                    requires
                        from_rate as int >= 1,
                        a as int >= 1,
                ;
            } else {
                assert(((from_rate as int) - 1) / (from_rate as int) == 0) by (nonlinear_arith)
                    requires
                        from_rate as int >= 1,
                ;
            }
        }
        assert(frames * (to_ch as u128) <= a * (u16::MAX as u128)) by (nonlinear_arith)
            requires
                frames <= a,
                to_ch <= u16::MAX,
        ;
        assert(ceil_div((n_in * (to_rate as nat)) as nat, from_rate as nat) == frames);
    }
    frames * (to_ch as u128)
}

} // verus!
