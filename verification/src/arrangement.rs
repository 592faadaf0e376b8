use vstd::prelude::*;
use std::collections::HashMap;
use crate::block::{AudioBlock, AudioBlockID};
use crate::schedule::{tracks_entries, ArrangementAudioSourceIndex};
use crate::track::{without_audio_block, Track, TrackView};

verus! {

/// What an arrangement is: its tracks in order, and the beats in a bar.
pub struct ArrangementView {
    pub tracks: Seq<TrackView>,
    pub beats: usize,
}

/// Tracks that play side by side. `beats` is the number of beats in a bar, which
/// only matters to whoever draws the arrangement.
pub struct Arrangement {
    pub tracks: Vec<Track>,
    pub beats: usize,
}

impl View for Arrangement {
    type V = ArrangementView;

    open spec fn view(&self) -> ArrangementView {
        ArrangementView { tracks: self.tracks@.map_values(|t: Track| t@), beats: self.beats }
    }
}

impl Clone for Arrangement {
    fn clone(&self) -> (r: Self)
        ensures
            r@ == self@,
    {
        let mut tracks: Vec<Track> = Vec::new();
        let mut i: usize = 0;
        while i < self.tracks.len()
            invariant
                i <= self.tracks.len(),
                tracks@.len() == i,
                forall|k: int| 0 <= k < i ==> (#[trigger] tracks@[k])@ == self.tracks@[k]@,
            decreases self.tracks.len() - i,
        {
            tracks.push(self.tracks[i].clone());
            i += 1;
        }
        let r = Arrangement { tracks, beats: self.beats };
        assert(r@.tracks =~= self@.tracks);
        r
    }
}

impl Arrangement {
    /// Every track is well formed.
    pub open spec fn wf(&self) -> bool {
        forall|i: int| 0 <= i < self@.tracks.len() ==> (#[trigger] self@.tracks[i]).wf()
    }

    /// One empty track, four beats in a bar.
    pub fn new() -> (r: Self)
        ensures
            r.wf(),
            r@.beats == 4,
            r@.tracks.len() == 1,
            r@.tracks[0].blocks.len() == 0,
    {
        let mut tracks: Vec<Track> = Vec::new();
        tracks.push(Track::new());
        Arrangement { tracks, beats: 4 }
    }

    /// Adds an empty track after the others.
    pub fn add_track(&mut self)
        requires
            old(self).wf(),
        ensures
            final(self).wf(),
            final(self)@.beats == old(self)@.beats,
            final(self)@.tracks.len() == old(self)@.tracks.len() + 1,
            final(self)@.tracks.drop_last() == old(self)@.tracks,
            final(self)@.tracks.last().blocks.len() == 0,
    {
        self.tracks.push(Track::new());
        assert(self@.tracks.drop_last() =~= old(self)@.tracks);
        assert forall|i: int| 0 <= i < self@.tracks.len() implies (#[trigger] self@.tracks[i]).wf() by {
            if i < old(self)@.tracks.len() {
                assert(self@.tracks[i] == old(self)@.tracks[i]);
            }
        }
    }

    /// Removes track `idx`. Where there is no such track, nothing changes.
    pub fn remove_track(&mut self, idx: usize)
        requires
            old(self).wf(),
        ensures
            final(self).wf(),
            final(self)@.beats == old(self)@.beats,
            idx < old(self)@.tracks.len() ==> final(self)@.tracks == old(self)@.tracks.remove(idx as int),
            idx >= old(self)@.tracks.len() ==> final(self)@.tracks == old(self)@.tracks,
    {
        if idx < self.tracks.len() {
            self.tracks.remove(idx);
            assert(self@.tracks =~= old(self)@.tracks.remove(idx as int));
            assert forall|i: int| 0 <= i < self@.tracks.len() implies (#[trigger] self@.tracks[i]).wf() by {
                if i < idx {
                    assert(self@.tracks[i] == old(self)@.tracks[i]);
                } else {
                    assert(self@.tracks[i] == old(self)@.tracks[i + 1]);
                }
            }
        }
    }

    /// Removes, on every track, the blocks that refer to the audio block
    /// `audio_block_id`.
    pub fn remove_audio_block(&mut self, audio_block_id: AudioBlockID)
        requires
            old(self).wf(),
        ensures
            final(self).wf(),
            final(self)@.beats == old(self)@.beats,
            final(self)@.tracks.len() == old(self)@.tracks.len(),
            forall|i: int|
                0 <= i < old(self)@.tracks.len() ==> (#[trigger] final(self)@.tracks[i]).blocks
                    == without_audio_block(old(self)@.tracks[i].blocks, audio_block_id),
    {
        let mut i: usize = 0;
        assert forall|k: int| 0 <= k < self.tracks.len() implies (#[trigger] self.tracks@[k]).wf() by {
            assert(self@.tracks[k].wf());
        }
        while i < self.tracks.len()
            invariant
                i <= self.tracks.len(),
                self.beats == old(self).beats,
                self.tracks.len() == old(self).tracks.len(),
                forall|k: int| 0 <= k < self.tracks.len() ==> (#[trigger] self.tracks@[k]).wf(),
                forall|k: int|
                    0 <= k < i ==> (#[trigger] self.tracks@[k])@.blocks == without_audio_block(
                        old(self).tracks@[k]@.blocks,
                        audio_block_id,
                    ),
                forall|k: int| i <= k < self.tracks.len() ==> (#[trigger] self.tracks@[k]) == old(self).tracks@[k],
            decreases self.tracks.len() - i,
        {
            let ghost before = self.tracks@;
            let mut track = self.tracks.remove(i);
            track.remove_by_audio_block_id(audio_block_id);
            self.tracks.insert(i, track);
            assert forall|k: int| 0 <= k < self.tracks.len() implies (#[trigger] self.tracks@[k]).wf() by {
                if k != i {
                    assert(self.tracks@[k] == before[k]);
                }
            }
            assert forall|k: int| 0 <= k < i implies (#[trigger] self.tracks@[k])@.blocks == without_audio_block(
                old(self).tracks@[k]@.blocks,
                audio_block_id,
            ) by {
                assert(self.tracks@[k] == before[k]);
            }
            assert forall|k: int| i + 1 <= k < self.tracks.len() implies (#[trigger] self.tracks@[k]) == old(
                self,
            ).tracks@[k] by {
                assert(self.tracks@[k] == before[k]);
            }
            i += 1;
        }
    }

    /// The schedule of the whole arrangement: for each beat, what every block of
    /// every track plays on it, tracks in order and blocks in order.
    pub fn compile_index(&self, audio_blocks: &HashMap<usize, AudioBlock>) -> (r: ArrangementAudioSourceIndex)
        ensures
            r.compiled_from(self@.tracks, audio_blocks@),
    {
        let mut arrangement_index = ArrangementAudioSourceIndex::default();
        let mut i: usize = 0;
        while i < self.tracks.len()
            invariant
                i <= self.tracks.len(),
                arrangement_index.wf(),
                forall|beat: usize| #[trigger]
                    arrangement_index.entries(beat) == tracks_entries(
                        self@.tracks.take(i as int),
                        audio_blocks@,
                        beat,
                    ),
            decreases self.tracks.len() - i,
        {
            let ghost before = arrangement_index;
            self.tracks[i].compile_index(&mut arrangement_index, audio_blocks);
            proof {
                let upto = self@.tracks.take(i as int + 1);
                assert(upto.drop_last() =~= self@.tracks.take(i as int));
                assert(upto.last() == self.tracks@[i as int]@);
            }
            i += 1;
        }
        assert(self@.tracks.take(i as int) =~= self@.tracks);
        arrangement_index
    }
}

} // verus!
