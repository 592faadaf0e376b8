use vstd::prelude::*;
use crate::audio_clip::{AudioClip, AudioClipView};

verus! {

/// Key of a recorded clip, issued by the engine in increasing order.
#[derive(Clone, Copy, Hash, PartialEq, Eq, Debug, Structural)]
pub struct AudioSourceID(pub usize);

/// Shape of a clip: rate, channel count, length in frames, and the tempo it was
/// recorded at.
///
/// `beats_per_second` holds the bit pattern of a double-precision number.
#[derive(Clone, Copy, Debug, PartialEq, Eq, Structural)]
pub struct AudioSourceFormat {
    pub sample_rate: u32,
    pub len_frames: u32,
    pub channels: u32,
    pub beats_per_second: u64,
}

/// Something the engine can read samples from. A recorded clip is the one kind
/// there is.
pub enum AudioSource {
    AudioClip(AudioClip),
}

impl View for AudioSource {
    type V = AudioClipView;

    open spec fn view(&self) -> AudioClipView {
        match self {
            AudioSource::AudioClip(audio_clip) => audio_clip@,
        }
    }
}

impl Clone for AudioSource {
    fn clone(&self) -> (r: Self)
        ensures
            r@ == self@,
    {
        match self {
            AudioSource::AudioClip(audio_clip) => AudioSource::AudioClip(audio_clip.clone()),
        }
    }
}

impl AudioSource {
    pub open spec fn wf(&self) -> bool {
        self@.wf()
    }

    pub fn format(&self) -> (r: AudioSourceFormat)
        ensures
            r == self@.format,
    {
        match self {
            AudioSource::AudioClip(audio_clip) => audio_clip.format(),
        }
    }

    /// Where the sample of `channel` in `frame` stands among the samples as they
    /// were recorded.
    pub fn sample_position(&self, frame: u32, channel: u32) -> (r: u64)
        ensures
            r == frame * self@.format.channels + channel,
    {
        match self {
            AudioSource::AudioClip(audio_clip) => audio_clip.sample_position(frame, channel),
        }
    }

    /// The sample at `position`, or nothing past the end.
    pub fn get_sample(&self, position: usize) -> (r: Option<u32>)
        ensures
            r == self@.sample_at(position as int),
    {
        match self {
            AudioSource::AudioClip(audio_clip) => audio_clip.get_sample(position),
        }
    }
}

} // verus!
