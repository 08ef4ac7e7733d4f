//! Sources of audio samples.
//!
//! A source is a finite sequence of interleaved, normalized fixed-point
//! samples together with its fixed channel count and sample rate. A source
//! is produced once (for example by a decoder collaborator), pulled from
//! lazily, and is exhausted exactly when its remaining sequence is empty;
//! pulling past the end keeps returning `None`. The format never changes
//! over a source's lifetime.

use vstd::prelude::*;
use crate::sample::AMP_ONE;
use crate::convert::all_in_range;

verus! {

/// A lazily-consumed sequence of samples with fixed format metadata.
pub struct Source {
    /// Interleaved frames: `channels` samples per frame.
    pub samples: Vec<i64>,
    /// How many leading samples have already been pulled.
    pub pos: usize,
    /// Number of interleaved channels; at least 1.
    pub channels: u16,
    /// Samples per second and channel; at least 1.
    pub sample_rate: u32,
}

impl Source {
    /// Validity: positive format, a cursor inside the buffer, and
    /// normalized amplitudes throughout.
    pub open spec fn wf(&self) -> bool {
        &&& self.channels >= 1
        &&& self.sample_rate >= 1
        &&& self.pos <= self.samples.len()
        &&& all_in_range(self.samples@)
    }

    /// The samples this source has yet to produce.
    pub open spec fn remaining(&self) -> Seq<i64> {
        self.samples@.skip(self.pos as int)
    }

    /// Build a source over a fully decoded buffer.
    pub fn new(channels: u16, sample_rate: u32, samples: Vec<i64>) -> (r: Source)
        requires
            channels >= 1,
            sample_rate >= 1,
            all_in_range(samples@),
        ensures
            r.wf(),
            r.channels == channels,
            r.sample_rate == sample_rate,
            r.remaining() == samples@,
    {
        let r = Source { samples, pos: 0, channels, sample_rate };
        proof {
            assert(r.remaining() =~= r.samples@);
        }
        r
    }

    /// A source of `frames` frames of silence.
    pub fn silence(channels: u16, sample_rate: u32, frames: usize) -> (r: Source)
        requires
            channels >= 1,
            sample_rate >= 1,
            frames * channels <= usize::MAX,
        ensures
            r.wf(),
            r.channels == channels,
            r.sample_rate == sample_rate,
            r.remaining().len() == frames * channels,
            forall|i: int| 0 <= i < r.remaining().len() ==> r.remaining()[i] == 0,
    {
        Source::constant(channels, sample_rate, 0, frames)
    }

    /// A source holding `frames` frames of one constant amplitude on every
    /// channel.
    pub fn constant(channels: u16, sample_rate: u32, amp: i64, frames: usize) -> (r: Source)
        requires
            channels >= 1,
            sample_rate >= 1,
            -AMP_ONE <= amp <= AMP_ONE,
            frames * channels <= usize::MAX,
        ensures
            r.wf(),
            r.channels == channels,
            r.sample_rate == sample_rate,
            r.remaining().len() == frames * channels,
            forall|i: int| 0 <= i < r.remaining().len() ==> r.remaining()[i] == amp,
    {
        let n = frames * (channels as usize);
        let mut samples: Vec<i64> = Vec::new();
        let mut i: usize = 0;
        while i < n
            invariant
                i <= n,
                samples@.len() == i,
                forall|j: int| 0 <= j < i ==> samples@[j] == amp,
                -AMP_ONE <= amp <= AMP_ONE,
            decreases n - i,
        {
            samples.push(amp);
            i = i + 1;
        }
        let r = Source { samples, pos: 0, channels, sample_rate };
        proof {
            assert(r.remaining() =~= r.samples@);
        }
        r
    }

    /// Pull the next sample: `Some` until the source is exhausted, then
    /// `None` on every later pull.
    pub fn next_sample(&mut self) -> (r: Option<i64>)
        requires
            old(self).wf(),
        ensures
            final(self).wf(),
            final(self).channels == old(self).channels,
            final(self).sample_rate == old(self).sample_rate,
            old(self).remaining().len() > 0 ==> {
                &&& r == Some(old(self).remaining()[0])
                &&& final(self).remaining() == old(self).remaining().skip(1)
            },
            old(self).remaining().len() == 0 ==> {
                &&& r is None
                &&& *final(self) == *old(self)
            },
    {
        if self.pos < self.samples.len() {
            let s = self.samples[self.pos];
            self.pos = self.pos + 1;
            proof {
                assert(self.remaining() =~= old(self).remaining().skip(1));
            }
            Some(s)
        } else {
            None
        }
    }
}

} // verus!
