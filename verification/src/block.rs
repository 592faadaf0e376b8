use vstd::prelude::*;
use std::ops::Range;
use crate::audio_source::{AudioSourceFormat, AudioSourceID};

verus! {

/// Key of an audio block in the editor's table.
#[derive(Clone, Copy, Hash, PartialEq, Eq, Debug, Structural)]
pub struct AudioBlockID(pub usize);

/// How a clip is laid out inside the blocks that refer to it.
///
/// `offset` holds the bit pattern of a single-precision number of beats by
/// which the clip's start is shifted within each cycle.
#[derive(Clone, Copy, Debug, PartialEq, Eq, Structural)]
pub struct AudioBlock {
    pub audio_id: AudioSourceID,
    pub format: AudioSourceFormat,
    pub offset: u32,
    pub len_beats: usize,
    pub true_len_beats: usize,
}

impl AudioBlock {
    /// An audio block for a clip that lasts `true_len_beats` beats, rounded up,
    /// with no offset and a stride of the clip's own length.
    pub fn new(audio_id: AudioSourceID, format: AudioSourceFormat, true_len_beats: usize) -> (r: Self)
        ensures
            r == (AudioBlock { audio_id, format, offset: 0, len_beats: true_len_beats, true_len_beats }),
    {
        AudioBlock { audio_id, format, offset: 0, len_beats: true_len_beats, true_len_beats }
    }
}

/// An entry on a track: the beats `bounds.start .. bounds.end` play the audio
/// block `audio_block_id`.
#[derive(PartialEq, Debug)]
pub struct Block {
    pub bounds: Range<usize>,
    pub audio_block_id: AudioBlockID,
    pub format: AudioSourceFormat,
}

impl Clone for Block {
    fn clone(&self) -> (r: Self)
        ensures
            r == *self,
    {
        Block {
            bounds: Range { start: self.bounds.start, end: self.bounds.end },
            audio_block_id: self.audio_block_id,
            format: self.format,
        }
    }
}

impl Block {
    /// A block over the beats `bounds` that plays the audio block
    /// `audio_block_id`.
    pub fn new(bounds: Range<usize>, audio_block_id: AudioBlockID, format: AudioSourceFormat) -> (r: Self)
        ensures
            r == (Block { bounds, audio_block_id, format }),
    {
        Block { bounds, audio_block_id, format }
    }

    /// A block spans at least one beat.
    pub open spec fn valid(self) -> bool {
        self.bounds.start < self.bounds.end
    }

    /// Whether the block plays on `beat`.
    pub open spec fn contains(self, beat: usize) -> bool {
        self.bounds.start <= beat < self.bounds.end
    }

    /// Whether two blocks share a beat.
    pub open spec fn overlaps(self, other: Block) -> bool {
        self.bounds.start < other.bounds.end && other.bounds.start < self.bounds.end
    }
}

} // verus!
