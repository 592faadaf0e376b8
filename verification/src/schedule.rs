use vstd::prelude::*;
use vstd::arithmetic::div_mod::lemma_fundamental_div_mod_converse;
use std::collections::HashMap;
use crate::audio_source::AudioSourceID;
use crate::block::{AudioBlock, Block};
use crate::track::TrackView;

verus! {

broadcast use vstd::std_specs::hash::group_hash_axioms;

/// One clip to mix in during a beat.
///
/// At the start of the beat the clip stands at its beat `relative_beat` less the
/// `offset` beats of its audio block; `offset` holds the bit pattern of a
/// single-precision number.
#[derive(Clone, Copy, Debug, PartialEq, Eq, Structural)]
pub struct AudioSourceIndex {
    pub audio_source_id: AudioSourceID,
    pub relative_beat: usize,
    pub offset: u32,
}

/// The entry that plays beat `relative_beat` of the clip of `audio_block`.
pub open spec fn entry_of(audio_block: AudioBlock, relative_beat: usize) -> AudioSourceIndex {
    AudioSourceIndex { audio_source_id: audio_block.audio_id, relative_beat, offset: audio_block.offset }
}

/// How many times the clip of `audio_block` is started within `block`: once
/// every `len_beats` beats from the block's start on. None where the stride is
/// zero.
pub open spec fn cycles(block: Block, audio_block: AudioBlock) -> int {
    if block.valid() && audio_block.len_beats > 0 {
        (block.bounds.end - block.bounds.start - 1) / (audio_block.len_beats as int) + 1
    } else {
        0
    }
}

/// What cycle `cycle` of `block` schedules on `beat`, of the clip's beats below
/// `limit`: the clip's beat that falls on `beat`, if the clip has one and the
/// block has not ended.
pub open spec fn cycle_entries_below(
    block: Block,
    audio_block: AudioBlock,
    cycle: int,
    limit: int,
    beat: usize,
) -> Seq<AudioSourceIndex> {
    let first = block.bounds.start + cycle * audio_block.len_beats;
    if first <= beat && beat - first < limit && beat - first < audio_block.true_len_beats && beat
        < block.bounds.end {
        seq![entry_of(audio_block, (beat - first) as usize)]
    } else {
        Seq::empty()
    }
}

/// What cycle `cycle` of `block` schedules on `beat`.
pub open spec fn cycle_entries(block: Block, audio_block: AudioBlock, cycle: int, beat: usize) -> Seq<
    AudioSourceIndex,
> {
    cycle_entries_below(block, audio_block, cycle, audio_block.true_len_beats as int, beat)
}

/// What the first `n` cycles of `block` schedule on `beat`, earlier cycles
/// first.
pub open spec fn cycles_entries(block: Block, audio_block: AudioBlock, n: int, beat: usize) -> Seq<
    AudioSourceIndex,
>
    decreases n,
{
    if n <= 0 {
        Seq::empty()
    } else {
        cycles_entries(block, audio_block, n - 1, beat) + cycle_entries(block, audio_block, n - 1, beat)
    }
}

/// What `block` schedules on `beat`. Nothing where the table has no audio block
/// for it.
pub open spec fn block_entries(block: Block, audio_blocks: Map<usize, AudioBlock>, beat: usize) -> Seq<
    AudioSourceIndex,
> {
    if audio_blocks.contains_key(block.audio_block_id.0) {
        let audio_block = audio_blocks[block.audio_block_id.0];
        cycles_entries(block, audio_block, cycles(block, audio_block), beat)
    } else {
        Seq::empty()
    }
}

/// What `blocks` schedule on `beat`, earlier blocks first.
pub open spec fn blocks_entries(blocks: Seq<Block>, audio_blocks: Map<usize, AudioBlock>, beat: usize) -> Seq<
    AudioSourceIndex,
>
    decreases blocks.len(),
{
    if blocks.len() == 0 {
        Seq::empty()
    } else {
        blocks_entries(blocks.drop_last(), audio_blocks, beat) + block_entries(
            blocks.last(),
            audio_blocks,
            beat,
        )
    }
}

/// What `tracks` schedule on `beat`, earlier tracks first.
pub open spec fn tracks_entries(tracks: Seq<TrackView>, audio_blocks: Map<usize, AudioBlock>, beat: usize) -> Seq<
    AudioSourceIndex,
>
    decreases tracks.len(),
{
    if tracks.len() == 0 {
        Seq::empty()
    } else {
        tracks_entries(tracks.drop_last(), audio_blocks, beat) + blocks_entries(
            tracks.last().blocks,
            audio_blocks,
            beat,
        )
    }
}

/// The schedule the engine plays from: for each beat on which anything plays,
/// the clips to mix in, in the order in which they were scheduled.
pub struct ArrangementAudioSourceIndex {
    beats: HashMap<usize, Vec<AudioSourceIndex>>,
}

impl View for ArrangementAudioSourceIndex {
    type V = Map<usize, Seq<AudioSourceIndex>>;

    closed spec fn view(&self) -> Map<usize, Seq<AudioSourceIndex>> {
        self.beats@.map_values(|v: Vec<AudioSourceIndex>| v@)
    }
}

impl Default for ArrangementAudioSourceIndex {
    fn default() -> (r: Self)
        ensures
            r.wf(),
            r@ == Map::<usize, Seq<AudioSourceIndex>>::empty(),
    {
        let r = ArrangementAudioSourceIndex { beats: HashMap::new() };
        assert(r@ =~= Map::<usize, Seq<AudioSourceIndex>>::empty());
        r
    }
}

impl ArrangementAudioSourceIndex {
    /// A beat is present only if something plays on it.
    pub open spec fn wf(&self) -> bool {
        forall|beat: usize| #[trigger] self@.contains_key(beat) ==> self@[beat].len() > 0
    }

    /// What is scheduled on `beat`.
    pub open spec fn entries(&self, beat: usize) -> Seq<AudioSourceIndex> {
        if self@.contains_key(beat) {
            self@[beat]
        } else {
            Seq::empty()
        }
    }

    /// The index holds exactly what `tracks` schedule with `audio_blocks`.
    pub open spec fn compiled_from(&self, tracks: Seq<TrackView>, audio_blocks: Map<usize, AudioBlock>) -> bool {
        &&& self.wf()
        &&& forall|beat: usize| #[trigger] self.entries(beat) == tracks_entries(tracks, audio_blocks, beat)
    }

    /// What is scheduled on `beat`, if anything is.
    pub fn get(&self, beat: usize) -> (r: Option<&Vec<AudioSourceIndex>>)
        ensures
            match r {
                Some(v) => self@.contains_key(beat) && v@ == self@[beat],
                None => !self@.contains_key(beat),
            },
    {
        self.beats.get(&beat)
    }

    /// Schedules `entry` on `beat`, after what is scheduled there already.
    pub fn push(&mut self, beat: usize, entry: AudioSourceIndex)
        requires
            old(self).wf(),
        ensures
            final(self).wf(),
            final(self).entries(beat) == old(self).entries(beat).push(entry),
            forall|other: usize| other != beat ==> #[trigger] final(self).entries(other) == old(self).entries(other),
    {
        let mut entries = match self.beats.remove(&beat) {
            Some(entries) => entries,
            None => Vec::new(),
        };
        entries.push(entry);
        self.beats.insert(beat, entries);
        assert(self@[beat] == old(self).entries(beat).push(entry));
        assert forall|other: usize| other != beat implies #[trigger] self.entries(other) == old(self).entries(
            other,
        ) by {
            assert(self@.contains_key(other) == old(self)@.contains_key(other));
        }
        assert forall|b: usize| #[trigger] self@.contains_key(b) implies self@[b].len() > 0 by {
            if b != beat {
                assert(old(self)@.contains_key(b));
                assert(self@[b] == old(self)@[b]);
            }
        }
    }
}

/// Two schedules compiled from the same tracks and the same table of audio
/// blocks are the same schedule.
pub proof fn lemma_compile_deterministic(
    a: ArrangementAudioSourceIndex,
    b: ArrangementAudioSourceIndex,
    tracks: Seq<TrackView>,
    audio_blocks: Map<usize, AudioBlock>,
)
    requires
        a.compiled_from(tracks, audio_blocks),
        b.compiled_from(tracks, audio_blocks),
    ensures
        a@ == b@,
{
    assert forall|beat: usize| a@.contains_key(beat) == b@.contains_key(beat) by {
        assert(a.entries(beat) == b.entries(beat));
    }
    assert forall|beat: usize| #[trigger] a@.contains_key(beat) implies a@[beat] == b@[beat] by {
        assert(a.entries(beat) == b.entries(beat));
    }
    assert(a@ =~= b@);
}

/// `entry`, scheduled on `beat`, comes from `block`: the block plays on that
/// beat, the entry carries the clip and the offset of the block's audio block,
/// and its `relative_beat` is a beat of that clip, no further into the clip
/// than `beat` is into the block.
pub open spec fn entry_from(
    entry: AudioSourceIndex,
    block: Block,
    audio_blocks: Map<usize, AudioBlock>,
    beat: usize,
) -> bool {
    &&& block.contains(beat)
    &&& audio_blocks.contains_key(block.audio_block_id.0)
    &&& entry == entry_of(audio_blocks[block.audio_block_id.0], entry.relative_beat)
    &&& entry.relative_beat < audio_blocks[block.audio_block_id.0].true_len_beats
    &&& entry.relative_beat <= beat - block.bounds.start
}

/// What cycles schedule on a beat comes from the block.
proof fn lemma_cycles_entries_from(block: Block, audio_block: AudioBlock, n: int, beat: usize, k: int)
    requires
        0 <= k < cycles_entries(block, audio_block, n, beat).len(),
    ensures
        block.contains(beat),
        cycles_entries(block, audio_block, n, beat)[k] == entry_of(
            audio_block,
            cycles_entries(block, audio_block, n, beat)[k].relative_beat,
        ),
        cycles_entries(block, audio_block, n, beat)[k].relative_beat < audio_block.true_len_beats,
        cycles_entries(block, audio_block, n, beat)[k].relative_beat <= beat - block.bounds.start,
    decreases n,
{
    let earlier = cycles_entries(block, audio_block, n - 1, beat);
    if k < earlier.len() {
        lemma_cycles_entries_from(block, audio_block, n - 1, beat, k);
    } else {
        assert((n - 1) * audio_block.len_beats >= 0) by (nonlinear_arith)
            requires
                n - 1 >= 0,
                audio_block.len_beats >= 0,
        ;
    }
}

/// What blocks schedule on a beat comes from one of them.
proof fn lemma_blocks_entries_from(blocks: Seq<Block>, audio_blocks: Map<usize, AudioBlock>, beat: usize, k: int)
    requires
        0 <= k < blocks_entries(blocks, audio_blocks, beat).len(),
    ensures
        exists|b: int|
            0 <= b < blocks.len() && entry_from(
                blocks_entries(blocks, audio_blocks, beat)[k],
                #[trigger] blocks[b],
                audio_blocks,
                beat,
            ),
    decreases blocks.len(),
{
    let earlier = blocks_entries(blocks.drop_last(), audio_blocks, beat);
    if k < earlier.len() {
        lemma_blocks_entries_from(blocks.drop_last(), audio_blocks, beat, k);
        let b = choose|b: int|
            0 <= b < blocks.drop_last().len() && entry_from(
                earlier[k],
                #[trigger] blocks.drop_last()[b],
                audio_blocks,
                beat,
            );
        assert(blocks[b] == blocks.drop_last()[b]);
    } else {
        let block = blocks.last();
        let audio_block = audio_blocks[block.audio_block_id.0];
        lemma_cycles_entries_from(block, audio_block, cycles(block, audio_block), beat, k - earlier.len());
        assert(blocks[blocks.len() - 1] == block);
    }
}

/// Every entry of a schedule comes from a block that plays on the entry's beat,
/// and names a beat of that block's clip: its `relative_beat` is below the
/// clip's `true_len_beats`.
pub proof fn lemma_entries_within_clip(
    tracks: Seq<TrackView>,
    audio_blocks: Map<usize, AudioBlock>,
    beat: usize,
    k: int,
)
    requires
        0 <= k < tracks_entries(tracks, audio_blocks, beat).len(),
    ensures
        exists|t: int, b: int|
            0 <= t < tracks.len() && 0 <= b < tracks[t].blocks.len() && entry_from(
                tracks_entries(tracks, audio_blocks, beat)[k],
                #[trigger] tracks[t].blocks[b],
                audio_blocks,
                beat,
            ),
    decreases tracks.len(),
{
    let earlier = tracks_entries(tracks.drop_last(), audio_blocks, beat);
    if k < earlier.len() {
        lemma_entries_within_clip(tracks.drop_last(), audio_blocks, beat, k);
        let (t, b) = choose|t: int, b: int|
            0 <= t < tracks.drop_last().len() && 0 <= b < tracks.drop_last()[t].blocks.len() && entry_from(
                earlier[k],
                #[trigger] tracks.drop_last()[t].blocks[b],
                audio_blocks,
                beat,
            );
        assert(tracks[t] == tracks.drop_last()[t]);
        assert(entry_from(earlier[k], tracks[t].blocks[b], audio_blocks, beat));
    } else {
        let blocks = tracks.last().blocks;
        lemma_blocks_entries_from(blocks, audio_blocks, beat, k - earlier.len());
        let b = choose|b: int|
            0 <= b < blocks.len() && entry_from(
                blocks_entries(blocks, audio_blocks, beat)[k - earlier.len()],
                #[trigger] blocks[b],
                audio_blocks,
                beat,
            );
        let t = tracks.len() - 1;
        assert(entry_from(tracks_entries(tracks, audio_blocks, beat)[k], tracks[t].blocks[b], audio_blocks, beat));
    }
}

/// A block of one beat whose clip lasts one beat schedules that beat of the
/// clip on its own beat, once, and nothing anywhere else.
pub proof fn lemma_one_beat_block(block: Block, audio_blocks: Map<usize, AudioBlock>, beat: usize)
    requires
        block.bounds.end == block.bounds.start + 1,
        audio_blocks.contains_key(block.audio_block_id.0),
        audio_blocks[block.audio_block_id.0].true_len_beats == 1,
        audio_blocks[block.audio_block_id.0].len_beats >= 1,
    ensures
        beat == block.bounds.start ==> block_entries(block, audio_blocks, beat) == seq![
            entry_of(audio_blocks[block.audio_block_id.0], 0),
        ],
        beat != block.bounds.start ==> block_entries(block, audio_blocks, beat) == Seq::<
            AudioSourceIndex,
        >::empty(),
{
    let audio_block = audio_blocks[block.audio_block_id.0];
    assert(cycles(block, audio_block) == 1);
    reveal_with_fuel(cycles_entries, 2);
    assert(0 * audio_block.len_beats == 0);
    assert(cycles_entries(block, audio_block, 1, beat) =~= cycle_entries(block, audio_block, 0, beat));
}

/// Schedules what `block` plays, after what `index` holds already.
pub(crate) fn compile_block(
    block: &Block,
    index: &mut ArrangementAudioSourceIndex,
    audio_blocks: &HashMap<usize, AudioBlock>,
)
    requires
        old(index).wf(),
    ensures
        final(index).wf(),
        forall|beat: usize| #[trigger]
            final(index).entries(beat) == old(index).entries(beat) + block_entries(*block, audio_blocks@, beat),
{
    let start: usize = block.bounds.start;
    let end: usize = block.bounds.end;
    let audio_block = match audio_blocks.get(&block.audio_block_id.0) {
        Some(audio_block) => *audio_block,
        None => {
            assert forall|beat: usize| #[trigger]
                index.entries(beat) == old(index).entries(beat) + block_entries(*block, audio_blocks@, beat) by {
                assert(old(index).entries(beat) + Seq::<AudioSourceIndex>::empty() =~= old(index).entries(beat));
            }
            return ;
        },
    };
    let stride: usize = audio_block.len_beats;
    let clip_beats: usize = audio_block.true_len_beats;
    if stride == 0 || start >= end {
        assert forall|beat: usize| #[trigger]
            index.entries(beat) == old(index).entries(beat) + block_entries(*block, audio_blocks@, beat) by {
            assert(old(index).entries(beat) + Seq::<AudioSourceIndex>::empty() =~= old(index).entries(beat));
        }
        return ;
    }
    let ghost total = cycles(*block, audio_block);
    let ghost mut cycle: int = 0;
    let mut cycle_start: usize = start;
    assert forall|beat: usize| #[trigger]
        index.entries(beat) == old(index).entries(beat) + cycles_entries(*block, audio_block, 0, beat) by {
        assert(old(index).entries(beat) + Seq::<AudioSourceIndex>::empty() =~= old(index).entries(beat));
    }
    loop
        invariant_except_break
            0 <= cycle,
            cycle_start == start + cycle * stride,
            cycle_start < end,
            forall|beat: usize| #[trigger]
                index.entries(beat) == old(index).entries(beat) + cycles_entries(
                    *block,
                    audio_block,
                    cycle,
                    beat,
                ),
        invariant
            index.wf(),
            start == block.bounds.start,
            end == block.bounds.end,
            start < end,
            stride == audio_block.len_beats,
            stride > 0,
            clip_beats == audio_block.true_len_beats,
            total == cycles(*block, audio_block),
        ensures
            forall|beat: usize| #[trigger]
                index.entries(beat) == old(index).entries(beat) + cycles_entries(
                    *block,
                    audio_block,
                    total,
                    beat,
                ),
        decreases end - cycle_start,
    {
        let room: usize = end - cycle_start;
        let span: usize = if clip_beats < room {
            clip_beats
        } else {
            room
        };
        let ghost before = *index;
        let mut relative: usize = 0;
        assert forall|beat: usize| #[trigger]
            index.entries(beat) == before.entries(beat) + cycle_entries_below(
                *block,
                audio_block,
                cycle,
                0,
                beat,
            ) by {
            assert(before.entries(beat) + Seq::<AudioSourceIndex>::empty() =~= before.entries(beat));
        }
        while relative < span
            invariant
                index.wf(),
                relative <= span,
                span <= clip_beats,
                span <= end - cycle_start,
                cycle_start == start + cycle * stride,
                start == block.bounds.start,
                end == block.bounds.end,
                stride == audio_block.len_beats,
                clip_beats == audio_block.true_len_beats,
                forall|beat: usize| #[trigger]
                    index.entries(beat) == before.entries(beat) + cycle_entries_below(
                        *block,
                        audio_block,
                        cycle,
                        relative as int,
                        beat,
                    ),
            decreases span - relative,
        {
            let ghost inner = *index;
            let entry = AudioSourceIndex {
                audio_source_id: audio_block.audio_id,
                relative_beat: relative,
                offset: audio_block.offset,
            };
            let at: usize = cycle_start + relative;
            index.push(at, entry);
            proof {
                assert forall|beat: usize| #[trigger]
                    index.entries(beat) == before.entries(beat) + cycle_entries_below(
                        *block,
                        audio_block,
                        cycle,
                        relative + 1,
                        beat,
                    ) by {
                    let had = cycle_entries_below(*block, audio_block, cycle, relative as int, beat);
                    let has = cycle_entries_below(*block, audio_block, cycle, relative + 1, beat);
                    assert(inner.entries(beat) == before.entries(beat) + had);
                    if beat == at {
                        assert(had =~= Seq::<AudioSourceIndex>::empty());
                        assert(has =~= seq![entry]);
                        assert(index.entries(beat) =~= before.entries(beat) + has);
                    } else {
                        assert(has =~= had);
                    }
                }
            }
            relative += 1;
        }
        proof {
            assert forall|beat: usize| #[trigger]
                index.entries(beat) == old(index).entries(beat) + cycles_entries(
                    *block,
                    audio_block,
                    cycle + 1,
                    beat,
                ) by {
                let done = cycle_entries_below(*block, audio_block, cycle, span as int, beat);
                assert(done =~= cycle_entries(*block, audio_block, cycle, beat));
                assert(before.entries(beat) == old(index).entries(beat) + cycles_entries(
                    *block,
                    audio_block,
                    cycle,
                    beat,
                ));
                assert(index.entries(beat) =~= old(index).entries(beat) + (cycles_entries(
                    *block,
                    audio_block,
                    cycle,
                    beat,
                ) + done));
            }
        }
        if room <= stride {
            proof {
                lemma_fundamental_div_mod_converse(
                    end - start - 1,
                    stride as int,
                    cycle,
                    end - start - 1 - cycle * stride,
                );
            }
            break ;
        }
        proof {
            assert((cycle + 1) * stride == cycle * stride + stride) by (nonlinear_arith);
            cycle = cycle + 1;
        }
        cycle_start += stride;
    }
    assert forall|beat: usize| #[trigger]
        index.entries(beat) == old(index).entries(beat) + block_entries(*block, audio_blocks@, beat) by {
        assert(index.entries(beat) == old(index).entries(beat) + cycles_entries(
            *block,
            audio_block,
            total,
            beat,
        ));
    }
}

} // verus!
