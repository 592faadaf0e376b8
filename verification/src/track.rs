use vstd::prelude::*;
use std::collections::HashMap;
use std::ops::Range;
use crate::block::{AudioBlock, AudioBlockID, Block};
use crate::schedule::{
    block_entries, blocks_entries, compile_block, ArrangementAudioSourceIndex, AudioSourceIndex,
};

verus! {

broadcast use vstd::std_specs::hash::group_hash_axioms;

/// What a pointer position on a track grabs: the bound of a block, or nothing.
#[derive(Clone, Copy, PartialEq, Eq, Debug, Structural)]
pub enum Selection {
    /// The beat grabbed and the index of the block that starts or ends there.
    Bound(usize, usize),
    /// A beat at which no block starts or ends.
    Free(usize),
}

/// Blocks span at least one beat each, come in order and do not overlap.
pub open spec fn blocks_ordered(blocks: Seq<Block>) -> bool {
    &&& forall|i: int| 0 <= i < blocks.len() ==> (#[trigger] blocks[i]).valid()
    &&& forall|i: int, j: int|
        0 <= i < j < blocks.len() ==> (#[trigger] blocks[i]).bounds.end <= (#[trigger] blocks[j]).bounds.start
}

/// Block `i` of `blocks` plays on `beat`.
pub open spec fn covers(blocks: Seq<Block>, i: int, beat: usize) -> bool {
    0 <= i < blocks.len() && blocks[i].contains(beat)
}

/// `beats` maps a beat to an index exactly when the block at that index plays
/// on the beat; beats on which no block plays are absent.
pub open spec fn beat_map_of(beats: Map<usize, usize>, blocks: Seq<Block>) -> bool {
    &&& forall|beat: usize| #[trigger] beats.contains_key(beat) ==> covers(blocks, beats[beat] as int, beat)
    &&& forall|beat: usize, i: int| #[trigger] covers(blocks, i, beat) ==> beats.contains_key(beat) && beats[beat] == i
}

/// The block of `blocks` that plays on `beat`, if there is one.
pub open spec fn covering(blocks: Seq<Block>, beat: usize) -> Option<int> {
    if exists|i: int| covers(blocks, i, beat) {
        Some(choose|i: int| covers(blocks, i, beat))
    } else {
        None
    }
}

/// Block `i` of `blocks` starts at `beat`.
pub open spec fn starts_at(blocks: Seq<Block>, i: int, beat: usize) -> bool {
    0 <= i < blocks.len() && blocks[i].bounds.start == beat
}

/// Block `i` of `blocks` ends at `beat`.
pub open spec fn ends_at(blocks: Seq<Block>, i: int, beat: usize) -> bool {
    0 <= i < blocks.len() && blocks[i].bounds.end == beat
}

/// What a pointer at `beat` grabs: the block that starts there, else the block
/// that ends there, else nothing.
pub open spec fn selection_at(blocks: Seq<Block>, beat: usize) -> Selection {
    if exists|i: int| starts_at(blocks, i, beat) {
        Selection::Bound(beat, (choose|i: int| starts_at(blocks, i, beat)) as usize)
    } else if exists|i: int| ends_at(blocks, i, beat) {
        Selection::Bound(beat, (choose|i: int| ends_at(blocks, i, beat)) as usize)
    } else {
        Selection::Free(beat)
    }
}

/// First beat that block `i` may start on without meeting the block before it.
pub open spec fn space_start(blocks: Seq<Block>, i: int) -> usize {
    if 0 < i <= blocks.len() {
        blocks[i - 1].bounds.end
    } else {
        0
    }
}

/// Last beat that block `i` may end on without meeting the block after it.
pub open spec fn space_end(blocks: Seq<Block>, i: int) -> usize {
    if 0 <= i + 1 < blocks.len() {
        blocks[i + 1].bounds.start
    } else {
        usize::MAX
    }
}

/// `block` spans at least one beat and shares none with a block of `blocks`.
pub open spec fn fits(blocks: Seq<Block>, block: Block) -> bool {
    &&& block.valid()
    &&& forall|i: int| 0 <= i < blocks.len() ==> !(#[trigger] blocks[i]).overlaps(block)
}

/// `index` is where `block` goes to keep `blocks` in order: every block before
/// it ends by the time `block` starts, every block from it on starts after
/// `block` has ended.
pub open spec fn is_insert_position(blocks: Seq<Block>, block: Block, index: int) -> bool {
    &&& 0 <= index <= blocks.len()
    &&& forall|j: int| 0 <= j < index ==> (#[trigger] blocks[j]).bounds.end <= block.bounds.start
    &&& forall|j: int| index <= j < blocks.len() ==> block.bounds.end <= (#[trigger] blocks[j]).bounds.start
}

/// `block` with its first beat moved to `start`.
pub open spec fn with_start(block: Block, start: usize) -> Block {
    Block { bounds: Range { start, end: block.bounds.end }, ..block }
}

/// `block` with its end moved to `end`.
pub open spec fn with_end(block: Block, end: usize) -> Block {
    Block { bounds: Range { start: block.bounds.start, end }, ..block }
}

/// Moving the start of block `i`, now at `bound`, to `target` is accepted.
pub open spec fn start_can_move(blocks: Seq<Block>, i: int, bound: usize, target: usize) -> bool {
    &&& 0 <= i < blocks.len()
    &&& bound == blocks[i].bounds.start
    &&& space_start(blocks, i) <= target < blocks[i].bounds.end
}

/// Moving the end of block `i`, now at `bound`, to `target` is accepted.
pub open spec fn end_can_move(blocks: Seq<Block>, i: int, bound: usize, target: usize) -> bool {
    &&& 0 <= i < blocks.len()
    &&& bound != blocks[i].bounds.start
    &&& bound == blocks[i].bounds.end
    &&& blocks[i].bounds.start < target <= space_end(blocks, i)
}

/// The blocks of `blocks` that do not refer to the audio block `id`, in order.
pub open spec fn without_audio_block(blocks: Seq<Block>, id: AudioBlockID) -> Seq<Block> {
    blocks.filter(|b: Block| b.audio_block_id != id)
}

/// The blocks of a well-formed track are sorted by their first beat, strictly,
/// and no two of them share a beat.
pub proof fn lemma_blocks_sorted_and_apart(track: TrackView, i: int, j: int)
    requires
        track.wf(),
        0 <= i < j < track.blocks.len(),
    ensures
        track.blocks[i].bounds.start < track.blocks[j].bounds.start,
        !track.blocks[i].overlaps(track.blocks[j]),
{
    assert(track.blocks[i].valid());
    assert(track.blocks[i].bounds.end <= track.blocks[j].bounds.start);
}

/// The beat map of a well-formed track sends `beat` to `i` if and only if block
/// `i` plays on `beat`; a beat on which no block plays is absent.
pub proof fn lemma_beat_map_exact(track: TrackView, beat: usize, i: usize)
    requires
        track.wf(),
    ensures
        (track.beats.contains_key(beat) && track.beats[beat] == i) <==> covers(track.blocks, i as int, beat),
        !track.beats.contains_key(beat) <==> covering(track.blocks, beat).is_none(),
{
    lemma_beat_map_lookup(track.beats, track.blocks, beat);
}

/// In ordered blocks at most one block plays on a beat.
pub proof fn lemma_covering_unique(blocks: Seq<Block>, i: int, beat: usize)
    requires
        blocks_ordered(blocks),
        covers(blocks, i, beat),
    ensures
        covering(blocks, beat) == Some(i),
{
    let k = choose|k: int| covers(blocks, k, beat);
    if k < i {
        assert(blocks[k].bounds.end <= blocks[i].bounds.start);
    } else if i < k {
        assert(blocks[i].bounds.end <= blocks[k].bounds.start);
    }
}

/// A well-formed beat map has `beat` exactly when a block plays on it, and
/// then names that block.
pub proof fn lemma_beat_map_lookup(beats: Map<usize, usize>, blocks: Seq<Block>, beat: usize)
    requires
        blocks_ordered(blocks),
        beat_map_of(beats, blocks),
    ensures
        beats.contains_key(beat) <==> covering(blocks, beat).is_some(),
        beats.contains_key(beat) ==> covering(blocks, beat) == Some(beats[beat] as int),
{
    if beats.contains_key(beat) {
        lemma_covering_unique(blocks, beats[beat] as int, beat);
    }
    if covering(blocks, beat).is_some() {
        let i = choose|i: int| covers(blocks, i, beat);
        assert(covers(blocks, i, beat));
    }
}

/// Two beat maps of the same ordered blocks are the same map.
pub proof fn lemma_beat_map_unique(a: Map<usize, usize>, b: Map<usize, usize>, blocks: Seq<Block>)
    requires
        blocks_ordered(blocks),
        beat_map_of(a, blocks),
        beat_map_of(b, blocks),
    ensures
        a == b,
{
    assert forall|beat: usize| a.contains_key(beat) <==> b.contains_key(beat) by {
        lemma_beat_map_lookup(a, blocks, beat);
        lemma_beat_map_lookup(b, blocks, beat);
    }
    assert forall|beat: usize| a.contains_key(beat) implies a[beat] == b[beat] by {
        lemma_beat_map_lookup(a, blocks, beat);
        lemma_beat_map_lookup(b, blocks, beat);
    }
    assert(a =~= b);
}

/// Ordered blocks stay ordered when one is taken out.
proof fn lemma_remove_keeps_order(blocks: Seq<Block>, i: int)
    requires
        blocks_ordered(blocks),
        0 <= i < blocks.len(),
    ensures
        blocks_ordered(blocks.remove(i)),
{
    let after = blocks.remove(i);
    assert forall|a: int| 0 <= a < after.len() implies (#[trigger] after[a]).valid() by {
        if a < i {
            assert(after[a] == blocks[a]);
        } else {
            assert(after[a] == blocks[a + 1]);
        }
    }
    assert forall|a: int, b: int| 0 <= a < b < after.len() implies (#[trigger] after[a]).bounds.end <= (
    #[trigger] after[b]).bounds.start by {
        let a0 = if a < i { a } else { a + 1 };
        let b0 = if b < i { b } else { b + 1 };
        assert(after[a] == blocks[a0]);
        assert(after[b] == blocks[b0]);
    }
}

/// Ordered blocks stay ordered when a block goes in at its position.
proof fn lemma_insert_keeps_order(blocks: Seq<Block>, block: Block, index: int)
    requires
        blocks_ordered(blocks),
        block.valid(),
        is_insert_position(blocks, block, index),
    ensures
        blocks_ordered(blocks.insert(index, block)),
{
    let after = blocks.insert(index, block);
    assert forall|a: int| 0 <= a < after.len() implies (#[trigger] after[a]).valid() by {
        if a < index {
            assert(after[a] == blocks[a]);
        } else if a > index {
            assert(after[a] == blocks[a - 1]);
        }
    }
    assert forall|a: int, b: int| 0 <= a < b < after.len() implies (#[trigger] after[a]).bounds.end <= (
    #[trigger] after[b]).bounds.start by {
        if a < index {
            assert(after[a] == blocks[a]);
        } else if a > index {
            assert(after[a] == blocks[a - 1]);
        }
        if b < index {
            assert(after[b] == blocks[b]);
        } else if b > index {
            assert(after[b] == blocks[b - 1]);
        }
    }
}

/// Ordered blocks stay ordered when one is replaced by a block that keeps
/// within the space between its neighbours.
proof fn lemma_update_keeps_order(blocks: Seq<Block>, i: int, block: Block)
    requires
        blocks_ordered(blocks),
        0 <= i < blocks.len(),
        block.valid(),
        space_start(blocks, i) <= block.bounds.start,
        block.bounds.end <= space_end(blocks, i),
    ensures
        blocks_ordered(blocks.update(i, block)),
{
    let after = blocks.update(i, block);
    assert forall|a: int| 0 <= a < after.len() implies (#[trigger] after[a]).valid() by {
        if a != i {
            assert(after[a] == blocks[a]);
        }
    }
    assert forall|a: int, b: int| 0 <= a < b < after.len() implies (#[trigger] after[a]).bounds.end <= (
    #[trigger] after[b]).bounds.start by {
        if a == i {
            assert(blocks[i + 1].valid());
            if b > i + 1 {
                assert(blocks[i + 1].bounds.end <= blocks[b].bounds.start);
            }
        } else if b == i {
            assert(blocks[i - 1].valid());
            if a < i - 1 {
                assert(blocks[a].bounds.end <= blocks[i - 1].bounds.start);
            }
        } else {
            assert(after[a] == blocks[a]);
            assert(after[b] == blocks[b]);
        }
    }
}

/// Adding a block to a track and then removing the block that plays on one
/// of its beats gives back the track there was: `added` is the track after
/// `add_block` has put `block` at `index`, `removed` the track after
/// `remove_block` at `anchor`, which then finds a block to remove.
pub proof fn lemma_add_then_remove_restores(
    before: TrackView,
    added: TrackView,
    removed: TrackView,
    block: Block,
    index: int,
    anchor: usize,
)
    requires
        before.wf(),
        added.wf(),
        removed.wf(),
        fits(before.blocks, block),
        is_insert_position(before.blocks, block, index),
        added.blocks == before.blocks.insert(index, block),
        block.contains(anchor),
        covering(added.blocks, anchor).is_some() ==> removed.blocks == added.blocks.remove(
            covering(added.blocks, anchor).unwrap(),
        ),
    ensures
        covering(added.blocks, anchor) == Some(index),
        removed == before,
{
    assert(added.blocks[index] == block);
    assert(covers(added.blocks, index, anchor));
    lemma_covering_unique(added.blocks, index, anchor);
    assert(added.blocks.remove(index) =~= before.blocks);
    lemma_beat_map_unique(removed.beats, before.beats, before.blocks);
}

/// What a track is: its blocks in order, and its map from a beat to the index
/// of the block that plays on it.
pub struct TrackView {
    pub blocks: Seq<Block>,
    pub beats: Map<usize, usize>,
}

impl TrackView {
    /// The blocks are ordered and the beat map is the one that belongs to them.
    pub open spec fn wf(self) -> bool {
        &&& blocks_ordered(self.blocks)
        &&& beat_map_of(self.beats, self.blocks)
    }
}

/// An ordered run of blocks that do not overlap, with a map from each beat to
/// the block that plays on it.
pub struct Track {
    beats: HashMap<usize, usize>,
    blocks: Vec<Block>,
}

impl View for Track {
    type V = TrackView;

    closed spec fn view(&self) -> TrackView {
        TrackView { blocks: self.blocks@, beats: self.beats@ }
    }
}

impl Clone for Track {
    fn clone(&self) -> (r: Self)
        ensures
            r@ == self@,
    {
        let blocks = self.blocks.clone();
        assert(blocks@ =~= self.blocks@);
        Track { beats: self.beats.clone(), blocks }
    }
}

impl Default for Track {
    fn default() -> (r: Self)
        ensures
            r.wf(),
            r@.blocks.len() == 0,
    {
        Track::new()
    }
}

impl Track {
    pub open spec fn wf(&self) -> bool {
        self@.wf()
    }

    /// A track without blocks.
    pub fn new() -> (r: Self)
        ensures
            r.wf(),
            r@.blocks.len() == 0,
    {
        Track { beats: HashMap::new(), blocks: Vec::new() }
    }

    /// The blocks, in order.
    pub fn blocks(&self) -> (r: &Vec<Block>)
        ensures
            r@ == self@.blocks,
    {
        &self.blocks
    }

    /// The map from each beat on which a block plays to the index of that
    /// block.
    pub fn beats(&self) -> (r: &HashMap<usize, usize>)
        ensures
            r@ == self@.beats,
    {
        &self.beats
    }

    /// Removes every block that refers to the audio block `block_id`.
    pub fn remove_by_audio_block_id(&mut self, block_id: AudioBlockID)
        requires
            old(self).wf(),
        ensures
            final(self).wf(),
            final(self)@.blocks == without_audio_block(old(self)@.blocks, block_id),
    {
        let ghost orig = self.blocks@;
        let ghost keep = |b: Block| b.audio_block_id != block_id;
        let ghost mut seen: int = 0;
        let mut i: usize = 0;
        assert(orig.take(0).filter(keep) =~= Seq::<Block>::empty()) by {
            reveal_with_fuel(Seq::filter, 1);
        }
        assert(self.blocks@ =~= orig.take(0).filter(keep) + orig.skip(0));
        while i < self.blocks.len()
            invariant
                0 <= seen <= orig.len(),
                blocks_ordered(self.blocks@),
                keep == (|b: Block| b.audio_block_id != block_id),
                i == orig.take(seen).filter(keep).len(),
                self.blocks@ == orig.take(seen).filter(keep) + orig.skip(seen),
            decreases self.blocks.len() - i,
        {
            proof {
                assert(orig.take(seen + 1).drop_last() =~= orig.take(seen));
                assert(orig.take(seen + 1).last() == orig[seen]);
                reveal_with_fuel(Seq::filter, 2);
                assert(self.blocks@[i as int] == orig[seen]);
            }
            if self.blocks[i].audio_block_id.0 == block_id.0 {
                proof {
                    lemma_remove_keeps_order(self.blocks@, i as int);
                    assert(self.blocks@.remove(i as int) =~= orig.take(seen + 1).filter(keep) + orig.skip(
                        seen + 1,
                    ));
                }
                self.blocks.remove(i);
            } else {
                proof {
                    assert(self.blocks@ =~= orig.take(seen + 1).filter(keep) + orig.skip(seen + 1));
                }
                i += 1;
            }
            proof {
                seen = seen + 1;
            }
        }
        assert(orig.take(seen) =~= orig);
        self.calculate_beats();
    }

    /// What a pointer at `beat` grabs.
    pub fn get_selection(&self, beat: usize) -> (r: Option<Selection>)
        requires
            self.wf(),
        ensures
            r == Some(selection_at(self@.blocks, beat)),
    {
        let here = self.index_at(beat);
        let before = if beat > 0 {
            self.index_at(beat - 1)
        } else {
            None
        };
        proof {
            assert forall|i: int, k: int|
                starts_at(self.blocks@, i, beat) && starts_at(self.blocks@, k, beat) implies i == k by {
                assert(covers(self.blocks@, i, beat) && covers(self.blocks@, k, beat));
                lemma_covering_unique(self.blocks@, i, beat);
                lemma_covering_unique(self.blocks@, k, beat);
            }
            assert forall|i: int, k: int|
                ends_at(self.blocks@, i, beat) && ends_at(self.blocks@, k, beat) implies i == k by {
                let prev = (beat - 1) as usize;
                assert(covers(self.blocks@, i, prev) && covers(self.blocks@, k, prev));
                lemma_covering_unique(self.blocks@, i, prev);
                lemma_covering_unique(self.blocks@, k, prev);
            }
            assert forall|i: int| starts_at(self.blocks@, i, beat) implies here == Some(i as usize) by {
                assert(covers(self.blocks@, i, beat));
                lemma_covering_unique(self.blocks@, i, beat);
            }
            assert forall|i: int| ends_at(self.blocks@, i, beat) implies before == Some(i as usize) by {
                let prev = (beat - 1) as usize;
                assert(covers(self.blocks@, i, prev));
                lemma_covering_unique(self.blocks@, i, prev);
            }
        }
        if here.is_some() && self.blocks[here.unwrap()].bounds.start == beat {
            assert(starts_at(self.blocks@, here.unwrap() as int, beat));
            Some(Selection::Bound(beat, here.unwrap()))
        } else if before.is_some() && self.blocks[before.unwrap()].bounds.end == beat {
            assert(ends_at(self.blocks@, before.unwrap() as int, beat));
            Some(Selection::Bound(beat, before.unwrap()))
        } else {
            Some(Selection::Free(beat))
        }
    }

    /// Index of the block that plays on `beat`, read off the beat map.
    fn index_at(&self, beat: usize) -> (r: Option<usize>)
        requires
            self.wf(),
        ensures
            match r {
                Some(i) => covering(self@.blocks, beat) == Some(i as int) && i < self@.blocks.len(),
                None => covering(self@.blocks, beat).is_none(),
            },
    {
        proof {
            lemma_beat_map_lookup(self.beats@, self.blocks@, beat);
        }
        match self.beats.get(&beat) {
            Some(i) => Some(*i),
            None => None,
        }
    }

    /// The block that plays on `beat`, if there is one.
    pub fn get_block(&self, beat: usize) -> (r: Option<&Block>)
        requires
            self.wf(),
        ensures
            match covering(self@.blocks, beat) {
                Some(i) => r == Some(&self@.blocks[i]),
                None => r.is_none(),
            },
    {
        match self.index_at(beat) {
            Some(i) => Some(&self.blocks[i]),
            None => None,
        }
    }

    /// The beats over which block `block_index` may stretch without meeting a
    /// neighbour: from the end of the block before it, or 0, to the start of the
    /// block after it, or the largest beat there is.
    pub fn get_space(&self, block_index: usize) -> (r: Range<usize>)
        ensures
            r.start == space_start(self@.blocks, block_index as int),
            r.end == space_end(self@.blocks, block_index as int),
    {
        let len: usize = self.blocks.len();
        let start: usize = if 0 < block_index && block_index <= len {
            self.blocks[block_index - 1].bounds.end
        } else {
            0
        };
        let end: usize = if block_index < len && block_index + 1 < len {
            self.blocks[block_index + 1].bounds.start
        } else {
            usize::MAX
        };
        Range { start, end }
    }

    /// Moves the start or the end of block `block_index` to `target`. `bound`
    /// says which: it is the beat at which that start or end now lies.
    ///
    /// The move is refused, and the track left as it was, when there is no such
    /// block, when `bound` is neither its start nor its end, when the block
    /// would run into the neighbour on that side, and when it would no longer
    /// span a beat.
    pub fn move_block_bound(&mut self, block_index: usize, bound: usize, target: usize) -> (r: bool)
        requires
            old(self).wf(),
        ensures
            final(self).wf(),
            r == (start_can_move(old(self)@.blocks, block_index as int, bound, target) || end_can_move(
                old(self)@.blocks,
                block_index as int,
                bound,
                target,
            )),
            start_can_move(old(self)@.blocks, block_index as int, bound, target) ==> final(self)@.blocks
                == old(self)@.blocks.update(
                block_index as int,
                with_start(old(self)@.blocks[block_index as int], target),
            ),
            end_can_move(old(self)@.blocks, block_index as int, bound, target) ==> final(self)@.blocks
                == old(self)@.blocks.update(
                block_index as int,
                with_end(old(self)@.blocks[block_index as int], target),
            ),
            !r ==> final(self)@ == old(self)@,
    {
        if block_index >= self.blocks.len() {
            return false;
        }
        let space = self.get_space(block_index);
        let start: usize = self.blocks[block_index].bounds.start;
        let end: usize = self.blocks[block_index].bounds.end;
        let audio_block_id = self.blocks[block_index].audio_block_id;
        let format = self.blocks[block_index].format;
        let ghost before = self.blocks@;
        assert(before[block_index as int].valid());
        if bound == start {
            if target >= space.start && target < end {
                self.blocks.set(block_index, Block { bounds: Range { start: target, end }, audio_block_id, format });
                proof {
                    lemma_update_keeps_order(before, block_index as int, self.blocks@[block_index as int]);
                }
                self.calculate_beats();
                true
            } else {
                false
            }
        } else if bound == end {
            if target <= space.end && target > start {
                self.blocks.set(block_index, Block { bounds: Range { start, end: target }, audio_block_id, format });
                proof {
                    lemma_update_keeps_order(before, block_index as int, self.blocks@[block_index as int]);
                }
                self.calculate_beats();
                true
            } else {
                false
            }
        } else {
            false
        }
    }

    /// Adds `block` where it belongs in the order and returns its index, if it
    /// spans at least one beat and shares none with a block of the track.
    /// Otherwise the track stays as it was.
    pub fn add_block(&mut self, block: Block) -> (r: Option<usize>)
        requires
            old(self).wf(),
        ensures
            final(self).wf(),
            r.is_some() == fits(old(self)@.blocks, block),
            match r {
                Some(index) => {
                    &&& is_insert_position(old(self)@.blocks, block, index as int)
                    &&& final(self)@.blocks == old(self)@.blocks.insert(index as int, block)
                },
                None => final(self)@ == old(self)@,
            },
    {
        if block.bounds.start >= block.bounds.end {
            return None;
        }
        let mut index: usize = 0;
        while index < self.blocks.len() && self.blocks[index].bounds.end <= block.bounds.start
            invariant
                index <= self.blocks.len(),
                self.blocks@ == old(self).blocks@,
                forall|j: int| 0 <= j < index ==> (#[trigger] self.blocks@[j]).bounds.end <= block.bounds.start,
            decreases self.blocks.len() - index,
        {
            index += 1;
        }
        if index < self.blocks.len() && self.blocks[index].bounds.start < block.bounds.end {
            assert(self.blocks@[index as int].overlaps(block));
            return None;
        }
        proof {
            let blocks = self.blocks@;
            assert forall|j: int| index <= j < blocks.len() implies block.bounds.end <= (
            #[trigger] blocks[j]).bounds.start by {
                if j > index {
                    assert(blocks[index as int].valid());
                    assert(blocks[index as int].bounds.end <= blocks[j].bounds.start);
                }
            }
            lemma_insert_keeps_order(blocks, block, index as int);
        }
        self.blocks.insert(index, block);
        self.calculate_beats();
        Some(index)
    }

    /// Removes the block that plays on `beat` and says whether there was one.
    pub fn remove_block(&mut self, beat: usize) -> (r: bool)
        requires
            old(self).wf(),
        ensures
            final(self).wf(),
            r == covering(old(self)@.blocks, beat).is_some(),
            r ==> final(self)@.blocks == old(self)@.blocks.remove(covering(old(self)@.blocks, beat).unwrap()),
            !r ==> final(self)@ == old(self)@,
    {
        match self.index_at(beat) {
            Some(index) => {
                proof {
                    lemma_remove_keeps_order(self.blocks@, index as int);
                }
                self.blocks.remove(index);
                self.calculate_beats();
                true
            },
            None => false,
        }
    }

    /// Schedules what the blocks of this track play, after what
    /// `arrangement_index` holds already. A block whose audio block is missing
    /// from `audio_blocks`, or has a stride of zero beats, schedules nothing.
    pub fn compile_index(
        &self,
        arrangement_index: &mut ArrangementAudioSourceIndex,
        audio_blocks: &HashMap<usize, AudioBlock>,
    )
        requires
            old(arrangement_index).wf(),
        ensures
            final(arrangement_index).wf(),
            forall|beat: usize| #[trigger]
                final(arrangement_index).entries(beat) == old(arrangement_index).entries(beat) + blocks_entries(
                    self@.blocks,
                    audio_blocks@,
                    beat,
                ),
    {
        let mut i: usize = 0;
        assert forall|beat: usize| #[trigger]
            arrangement_index.entries(beat) == old(arrangement_index).entries(beat) + blocks_entries(
                self.blocks@.take(0),
                audio_blocks@,
                beat,
            ) by {
            assert(old(arrangement_index).entries(beat) + Seq::<AudioSourceIndex>::empty() =~= old(
                arrangement_index,
            ).entries(beat));
        }
        while i < self.blocks.len()
            invariant
                i <= self.blocks.len(),
                arrangement_index.wf(),
                forall|beat: usize| #[trigger]
                    arrangement_index.entries(beat) == old(arrangement_index).entries(beat) + blocks_entries(
                        self.blocks@.take(i as int),
                        audio_blocks@,
                        beat,
                    ),
            decreases self.blocks.len() - i,
        {
            let ghost before = *arrangement_index;
            compile_block(&self.blocks[i], arrangement_index, audio_blocks);
            proof {
                let upto = self.blocks@.take(i as int + 1);
                assert(upto.drop_last() =~= self.blocks@.take(i as int));
                assert(upto.last() == self.blocks@[i as int]);
                assert forall|beat: usize| #[trigger]
                    arrangement_index.entries(beat) == old(arrangement_index).entries(beat) + blocks_entries(
                        upto,
                        audio_blocks@,
                        beat,
                    ) by {
                    let earlier = blocks_entries(self.blocks@.take(i as int), audio_blocks@, beat);
                    let own = block_entries(self.blocks@[i as int], audio_blocks@, beat);
                    assert(before.entries(beat) == old(arrangement_index).entries(beat) + earlier);
                    assert(arrangement_index.entries(beat) == before.entries(beat) + own);
                    assert(arrangement_index.entries(beat) =~= old(arrangement_index).entries(beat) + (earlier
                        + own));
                }
            }
            i += 1;
        }
        assert(self.blocks@.take(i as int) =~= self.blocks@);
    }

    /// Rebuilds the beat map from the blocks.
    pub fn calculate_beats(&mut self)
        requires
            blocks_ordered(old(self)@.blocks),
        ensures
            final(self)@.blocks == old(self)@.blocks,
            final(self).wf(),
    {
        self.beats.clear();
        let mut i: usize = 0;
        while i < self.blocks.len()
            invariant
                i <= self.blocks.len(),
                self.blocks@ == old(self).blocks@,
                blocks_ordered(self.blocks@),
                beat_map_of(self.beats@, self.blocks@.take(i as int)),
            decreases self.blocks.len() - i,
        {
            let start: usize = self.blocks[i].bounds.start;
            let end: usize = self.blocks[i].bounds.end;
            let ghost before = self.beats@;
            let mut beat: usize = start;
            while beat < end
                invariant
                    i < self.blocks.len(),
                    self.blocks@ == old(self).blocks@,
                    blocks_ordered(self.blocks@),
                    start == self.blocks@[i as int].bounds.start,
                    end == self.blocks@[i as int].bounds.end,
                    start <= beat <= end,
                    beat_map_of(before, self.blocks@.take(i as int)),
                    forall|b: usize| #[trigger]
                        self.beats@.contains_key(b) <==> before.contains_key(b) || start <= b < beat,
                    forall|b: usize| #[trigger]
                        before.contains_key(b) ==> self.beats@[b] == before[b],
                    forall|b: usize| start <= b < beat ==> #[trigger] self.beats@[b] == i,
                decreases end - beat,
            {
                proof {
                    if before.contains_key(beat) {
                        let j = before[beat] as int;
                        assert(covers(self.blocks@.take(i as int), j, beat));
                        assert(self.blocks@[j].bounds.end <= self.blocks@[i as int].bounds.start);
                    }
                }
                self.beats.insert(beat, i);
                beat += 1;
            }
            proof {
                let next = self.blocks@.take(i as int + 1);
                let prev = self.blocks@.take(i as int);
                assert forall|b: usize| #[trigger] self.beats@.contains_key(b) implies covers(
                    next,
                    self.beats@[b] as int,
                    b,
                ) by {
                    if before.contains_key(b) {
                        assert(covers(prev, before[b] as int, b));
                    }
                }
                assert forall|b: usize, j: int| #[trigger] covers(next, j, b) implies self.beats@.contains_key(b)
                    && self.beats@[b] == j by {
                    if j < i {
                        assert(covers(prev, j, b));
                    }
                }
            }
            i += 1;
        }
        assert(self.blocks@.take(i as int) =~= self.blocks@);
    }
}

} // verus!
