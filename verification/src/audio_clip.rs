use vstd::prelude::*;
use vstd::arithmetic::div_mod::{
    lemma_div_multiples_vanish, lemma_fundamental_div_mod, lemma_mod_bound, lemma_mod_multiples_basic,
};
use crate::audio_source::AudioSourceFormat;

verus! {

/// Why a sample could not be appended to a clip.
#[derive(Clone, Copy, Debug, PartialEq, Eq, Structural)]
pub enum ClipError {
    /// The clip is as long as it may get.
    Overflow,
}

/// What a clip is: its format, its samples (interleaved, one bit pattern of a
/// single-precision number each), and the most samples it may hold.
pub struct AudioClipView {
    pub format: AudioSourceFormat,
    pub samples: Seq<u32>,
    pub limit: usize,
}

impl AudioClipView {
    /// The clip has a channel, counts its frames right and is within its limit.
    pub open spec fn wf(self) -> bool {
        &&& self.format.channels > 0
        &&& self.format.len_frames == self.samples.len() / (self.format.channels as nat)
        &&& self.samples.len() <= self.limit
    }

    /// One more sample is within the limit and leaves the frame count
    /// representable.
    pub open spec fn can_append(self) -> bool {
        &&& self.samples.len() < self.limit
        &&& (self.samples.len() + 1) / (self.format.channels as nat) <= u32::MAX
    }

    /// The clip after `sample` has been appended.
    pub open spec fn appended(self, sample: u32) -> AudioClipView {
        AudioClipView {
            format: AudioSourceFormat {
                len_frames: ((self.samples.len() + 1) / (self.format.channels as nat)) as u32,
                ..self.format
            },
            samples: self.samples.push(sample),
            limit: self.limit,
        }
    }

    /// Length of the longest run of whole frames from the start.
    pub open spec fn whole_len(self) -> int {
        self.samples.len() - self.samples.len() % (self.format.channels as nat)
    }

    /// How many frames at each end take part in the fade: a hundredth of the
    /// sample rate, or every frame where the clip has fewer.
    pub open spec fn fade_steps(self) -> int {
        if self.format.sample_rate / 100 < self.format.len_frames {
            (self.format.sample_rate / 100) as int
        } else {
            self.format.len_frames as int
        }
    }

    /// Where the sample of `channel` stands in the frame that is `step` frames
    /// from the start.
    pub open spec fn fade_head(self, step: int, channel: int) -> int {
        step * self.format.channels + channel
    }

    /// Where the sample of `channel` stands in the frame that is `step` frames
    /// from the last whole frame.
    pub open spec fn fade_tail(self, step: int, channel: int) -> int {
        (self.format.len_frames - 1 - step) * self.format.channels + channel
    }

    /// The sample at `position`, if the clip is that long.
    pub open spec fn sample_at(self, position: int) -> Option<u32> {
        if 0 <= position < self.samples.len() {
            Some(self.samples[position])
        } else {
            None
        }
    }
}

/// The whole frames of a clip are a part of its samples, a multiple of its
/// channels, and as many as its format counts.
pub proof fn lemma_whole_len_bounds(clip: AudioClipView)
    requires
        clip.wf(),
    ensures
        0 <= clip.whole_len() <= clip.samples.len(),
        clip.whole_len() % (clip.format.channels as int) == 0,
        clip.whole_len() / (clip.format.channels as int) == clip.format.len_frames,
{
    let len = clip.samples.len() as int;
    let c = clip.format.channels as int;
    let q = len / c;
    lemma_fundamental_div_mod(len, c);
    lemma_mod_bound(len, c);
    lemma_div_multiples_vanish(q, c);
    lemma_mod_multiples_basic(q, c);
    assert(clip.whole_len() == c * q);
    assert(c * q == q * c) by (nonlinear_arith);
}

/// One recorded take: interleaved samples and their format.
pub struct AudioClip {
    format: AudioSourceFormat,
    samples: Vec<u32>,
    limit: usize,
}

impl View for AudioClip {
    type V = AudioClipView;

    closed spec fn view(&self) -> AudioClipView {
        AudioClipView { format: self.format, samples: self.samples@, limit: self.limit }
    }
}

impl Clone for AudioClip {
    fn clone(&self) -> (r: Self)
        ensures
            r@ == self@,
    {
        let samples = self.samples.clone();
        assert(samples@ =~= self.samples@);
        AudioClip { format: self.format, samples, limit: self.limit }
    }
}

impl AudioClip {
    pub open spec fn wf(&self) -> bool {
        self@.wf()
    }

    /// A clip of the given samples. It may grow as far as memory lets it.
    pub fn new(samples: Vec<u32>, format: AudioSourceFormat) -> (r: Self)
        requires
            format.channels > 0,
            format.len_frames == samples@.len() / (format.channels as nat),
        ensures
            r.wf(),
            r@ == (AudioClipView { format, samples: samples@, limit: usize::MAX }),
    {
        assert(samples@.len() == samples.len());
        AudioClip { format, samples, limit: usize::MAX }
    }

    /// A clip without samples. It may grow as far as memory lets it.
    pub fn empty(format: AudioSourceFormat) -> (r: Self)
        requires
            format.channels > 0,
        ensures
            r.wf(),
            r@ == (AudioClipView {
                format: AudioSourceFormat { len_frames: 0, ..format },
                samples: Seq::<u32>::empty(),
                limit: usize::MAX,
            }),
    {
        AudioClip {
            format: AudioSourceFormat {
                sample_rate: format.sample_rate,
                len_frames: 0,
                channels: format.channels,
                beats_per_second: format.beats_per_second,
            },
            samples: Vec::new(),
            limit: usize::MAX,
        }
    }

    /// A clip without samples that has room for `limit` samples set aside and
    /// never grows beyond them.
    pub fn with_limit(format: AudioSourceFormat, limit: usize) -> (r: Self)
        requires
            format.channels > 0,
            limit * 4 <= isize::MAX,
        ensures
            r.wf(),
            r@ == (AudioClipView {
                format: AudioSourceFormat { len_frames: 0, ..format },
                samples: Seq::<u32>::empty(),
                limit,
            }),
    {
        AudioClip {
            format: AudioSourceFormat {
                sample_rate: format.sample_rate,
                len_frames: 0,
                channels: format.channels,
                beats_per_second: format.beats_per_second,
            },
            samples: Vec::with_capacity(limit),
            limit,
        }
    }

    /// Appends one sample and counts the frames anew.
    pub fn append_sample(&mut self, sample: u32) -> (r: Result<(), ClipError>)
        requires
            old(self).wf(),
        ensures
            final(self).wf(),
            r.is_ok() == old(self)@.can_append(),
            r.is_ok() ==> final(self)@ == old(self)@.appended(sample),
            r.is_err() ==> final(self)@ == old(self)@,
    {
        let len: usize = self.samples.len();
        if len >= self.limit {
            return Err(ClipError::Overflow);
        }
        let frames: usize = (len + 1) / (self.format.channels as usize);
        if frames > u32::MAX as usize {
            return Err(ClipError::Overflow);
        }
        self.samples.push(sample);
        self.format.len_frames = frames as u32;
        Ok(())
    }

    /// Cuts the clip back to whole frames.
    ///
    /// The fade at both ends, which belongs to finishing a take, scales samples
    /// and so is the caller's to apply: see `fade_targets`.
    pub fn clean(&mut self)
        requires
            old(self).wf(),
        ensures
            final(self).wf(),
            final(self)@.samples == old(self)@.samples.take(old(self)@.whole_len()),
            final(self)@.samples.len() % (final(self)@.format.channels as nat) == 0,
            final(self)@.format == old(self)@.format,
            final(self)@.limit == old(self)@.limit,
    {
        let len: usize = self.samples.len();
        let channels: usize = self.format.channels as usize;
        assert(len % channels <= len) by (nonlinear_arith)
            requires
                channels > 0,
        ;
        let whole: usize = len - len % channels;
        proof {
            lemma_whole_len_bounds(self@);
        }
        self.samples.truncate(whole);
    }

    /// How many samples the clip holds, over all channels.
    pub fn len_samples(&self) -> (r: usize)
        ensures
            r == self@.samples.len(),
    {
        self.samples.len()
    }

    pub fn format(&self) -> (r: AudioSourceFormat)
        ensures
            r == self@.format,
    {
        self.format
    }

    /// Where the sample of `channel` in `frame` stands among the samples as they
    /// were recorded.
    pub fn sample_position(&self, frame: u32, channel: u32) -> (r: u64)
        ensures
            r == frame * self@.format.channels + channel,
    {
        assert(frame * self.format.channels + channel <= u64::MAX) by (nonlinear_arith)
            requires
                frame <= u32::MAX,
                self.format.channels <= u32::MAX,
                channel <= u32::MAX,
        ;
        (frame as u64) * (self.format.channels as u64) + (channel as u64)
    }

    /// The sample at `position`, or nothing past the end.
    pub fn get_sample(&self, position: usize) -> (r: Option<u32>)
        ensures
            r == self@.sample_at(position as int),
    {
        if position < self.samples.len() {
            Some(self.samples[position])
        } else {
            None
        }
    }

    /// Puts `sample` at `position` and says whether the clip is that long.
    pub fn set_sample(&mut self, position: usize, sample: u32) -> (r: bool)
        requires
            old(self).wf(),
        ensures
            final(self).wf(),
            r == (position < old(self)@.samples.len()),
            r ==> final(self)@.samples == old(self)@.samples.update(position as int, sample),
            !r ==> final(self)@.samples == old(self)@.samples,
            final(self)@.format == old(self)@.format,
            final(self)@.limit == old(self)@.limit,
    {
        if position < self.samples.len() {
            self.samples.set(position, sample);
            true
        } else {
            false
        }
    }

    /// How many steps the fade takes at each end: one for each frame that
    /// takes part.
    pub fn fade_steps(&self) -> (r: usize)
        ensures
            r == self@.fade_steps(),
    {
        let span: u32 = self.format.sample_rate / 100;
        if span < self.format.len_frames {
            span as usize
        } else {
            self.format.len_frames as usize
        }
    }

    /// The two samples of `channel` that step `step` of the fade scales: the
    /// one that many frames from the start, then the one that many frames from
    /// the end. Each is to be scaled by `step` over a hundredth of the sample
    /// rate, the first before the second, steps in rising order. Nothing
    /// beyond the steps of the fade or the channels of the clip.
    pub fn fade_targets(&self, step: usize, channel: u32) -> (r: Option<(usize, usize)>)
        requires
            self.wf(),
        ensures
            r.is_some() == (step < self@.fade_steps() && channel < self@.format.channels),
            r.is_some() ==> r.unwrap().0 == self@.fade_head(step as int, channel as int),
            r.is_some() ==> r.unwrap().1 == self@.fade_tail(step as int, channel as int),
            r.is_some() ==> r.unwrap().0 < self@.samples.len() && r.unwrap().1 < self@.samples.len(),
    {
        if step < self.fade_steps() && channel < self.format.channels {
            let channels: usize = self.format.channels as usize;
            let frames: usize = self.format.len_frames as usize;
            let from_end: usize = frames - 1 - step;
            proof {
                lemma_whole_len_bounds(self@);
                lemma_fundamental_div_mod(self@.whole_len(), channels as int);
                assert(frames * channels <= self.samples@.len()) by (nonlinear_arith)
                    requires
                        self@.whole_len() == channels * frames + 0,
                        self@.whole_len() <= self.samples@.len(),
                ;
                assert(step * channels + channel < frames * channels) by (nonlinear_arith)
                    requires
                        step < frames,
                        channel < channels,
                ;
                assert(from_end * channels + channel < frames * channels) by (nonlinear_arith)
                    requires
                        from_end < frames,
                        channel < channels,
                ;
                assert(step * channels >= 0 && from_end * channels >= 0) by (nonlinear_arith)
                    requires
                        step >= 0,
                        from_end >= 0,
                        channels >= 0,
                ;
            }
            Some((step * channels + channel as usize, from_end * channels + channel as usize))
        } else {
            None
        }
    }
}

} // verus!
