use vstd::prelude::*;
use vstd::arithmetic::div_mod::{lemma_mod_self_0, lemma_small_mod};
use std::collections::HashMap;
use crate::audio_clip::{lemma_whole_len_bounds, AudioClip, AudioClipView};
use crate::audio_source::{AudioSource, AudioSourceFormat, AudioSourceID};
use crate::schedule::{ArrangementAudioSourceIndex, AudioSourceIndex};

verus! {

broadcast use vstd::std_specs::hash::group_hash_axioms;

/// Seconds of samples for which a take has room set aside.
pub const RECORD_SECONDS: u64 = 300;

/// The most samples set aside for a take, whatever the rate.
pub const RECORD_SAMPLES_MAX: u64 = 0x1000_0000;

/// The volume an engine starts with: the bit pattern of one half.
pub const DEFAULT_VOLUME: u64 = 0x3FE0_0000_0000_0000;

/// The tempo an engine starts with: the bit pattern of two beats per second.
pub const DEFAULT_BEATS_PER_SECOND: u64 = 0x4000_0000_0000_0000;

/// The noise level an engine starts with: the bit pattern of a fortieth.
pub const DEFAULT_NOISE_LEVEL: u32 = 0x3CCC_CCCD;

/// The play line is posted this many times a second.
pub const PLAY_LINE_RATE: u32 = 30;

/// What the control surface asks of the engine.
///
/// Tempo and volume are bit patterns of double-precision numbers. The play time
/// is a count of samples: seconds times sample rate times channels.
pub enum Command {
    SetPlaying(bool),
    SetRecording(bool),
    SetPlayTime(u32),
    SetFeedback(bool),
    SetBeatsPerSecond(u64),
    SetVolume(u64),
    SetMetronome(bool),
    RemoveAudioSource(AudioSourceID),
    GetAudioSourceClone(AudioSourceID),
    SetArrangementAudioSourceIndex(ArrangementAudioSourceIndex),
}

/// What the engine answers.
pub enum CommandResponse {
    /// The take that ended, or nothing where no take had captured a frame.
    SetRecording(Option<(AudioSourceID, AudioSourceFormat)>),
    /// A copy of the source asked for, or nothing where there is none.
    GetAudioSourceClone(Option<AudioSource>),
}

/// A command as contracts see it.
pub enum CommandView {
    SetPlaying(bool),
    SetRecording(bool),
    SetPlayTime(u32),
    SetFeedback(bool),
    SetBeatsPerSecond(u64),
    SetVolume(u64),
    SetMetronome(bool),
    RemoveAudioSource(AudioSourceID),
    GetAudioSourceClone(AudioSourceID),
    SetArrangementAudioSourceIndex(Map<usize, Seq<AudioSourceIndex>>),
}

/// An answer as contracts see it.
pub enum CommandResponseView {
    SetRecording(Option<(AudioSourceID, AudioSourceFormat)>),
    GetAudioSourceClone(Option<AudioClipView>),
}

impl View for Command {
    type V = CommandView;

    open spec fn view(&self) -> CommandView {
        match self {
            Command::SetPlaying(v) => CommandView::SetPlaying(*v),
            Command::SetRecording(v) => CommandView::SetRecording(*v),
            Command::SetPlayTime(v) => CommandView::SetPlayTime(*v),
            Command::SetFeedback(v) => CommandView::SetFeedback(*v),
            Command::SetBeatsPerSecond(v) => CommandView::SetBeatsPerSecond(*v),
            Command::SetVolume(v) => CommandView::SetVolume(*v),
            Command::SetMetronome(v) => CommandView::SetMetronome(*v),
            Command::RemoveAudioSource(id) => CommandView::RemoveAudioSource(*id),
            Command::GetAudioSourceClone(id) => CommandView::GetAudioSourceClone(*id),
            Command::SetArrangementAudioSourceIndex(index) => CommandView::SetArrangementAudioSourceIndex(
                index@,
            ),
        }
    }
}

impl Command {
    /// A schedule that comes with a command is well formed.
    pub open spec fn wf(&self) -> bool {
        match self {
            Command::SetArrangementAudioSourceIndex(index) => index.wf(),
            _ => true,
        }
    }
}

impl View for CommandResponse {
    type V = CommandResponseView;

    open spec fn view(&self) -> CommandResponseView {
        match self {
            CommandResponse::SetRecording(v) => CommandResponseView::SetRecording(*v),
            CommandResponse::GetAudioSourceClone(v) => CommandResponseView::GetAudioSourceClone(
                match v {
                    Some(source) => Some(source@),
                    None => None,
                },
            ),
        }
    }
}

/// What the engine makes of one input sample.
#[derive(Clone, Copy, Debug, PartialEq, Eq, Structural)]
pub struct Input {
    /// The sample to scale by the volume and play; nothing stands for silence.
    pub sample: Option<u32>,
    /// The channel that this output sample belongs to.
    pub channel: u32,
    /// Whether this sample is part of a pass that measures the noise level.
    pub calibrating: bool,
}

/// What one step of the transport comes to.
#[derive(Clone, Copy, Debug, PartialEq, Eq, Structural)]
pub struct Tick {
    /// Whether the metronome clicks on this sample.
    pub click: bool,
    /// The frame that the transport has reached.
    pub play_frame: u32,
    /// Whether the play line is due to be posted, at `play_frame`.
    pub play_line: bool,
}

/// The engine's state as contracts see it.
pub struct AudioEngineView {
    pub sample_rate: u32,
    pub channels: u32,
    pub volume: u64,
    pub beats_per_second: u64,
    pub noise_level: u32,
    pub feedback: bool,
    pub metronome: bool,
    pub wait_for_input: bool,
    pub waiting_for_input: bool,
    pub playing: bool,
    pub recording: bool,
    pub noise_sample: u32,
    pub channel: u32,
    pub play_sample: u32,
    pub play_frame: u32,
    pub recording_clip: Option<AudioClipView>,
    pub sources: Map<usize, AudioClipView>,
    pub arrangement_index: Map<usize, Seq<AudioSourceIndex>>,
    pub next_audio_id: usize,
}

/// How many samples a take at this rate and channel count has room for.
pub open spec fn record_limit(sample_rate: u32, channels: u32) -> int {
    if RECORD_SECONDS * sample_rate * channels < RECORD_SAMPLES_MAX {
        RECORD_SECONDS * sample_rate * channels
    } else {
        RECORD_SAMPLES_MAX as int
    }
}

/// The frame of a clip to read when the transport is `beat_frame` frames into
/// a beat and the clip is shifted by `offset_frames`: their sum. Nothing while
/// the sum is negative, which is before the clip sets in, and nothing where it
/// is beyond any frame there can be.
pub open spec fn source_frame_at(beat_frame: u32, offset_frames: i64) -> Option<u32> {
    if 0 <= beat_frame + offset_frames <= u32::MAX {
        Some((beat_frame + offset_frames) as u32)
    } else {
        None
    }
}

impl AudioEngineView {
    /// The device has a channel and a rate that the play line can keep up
    /// with; the channel counter is within the channels; the engine records
    /// only while it plays; the take and the sources are well-formed clips;
    /// every source holds whole frames and has an id that was issued; and the
    /// schedule holds no beat without an entry.
    pub open spec fn wf(self) -> bool {
        &&& self.channels > 0
        &&& self.sample_rate >= PLAY_LINE_RATE
        &&& self.channel < self.channels
        &&& self.recording ==> self.playing
        &&& self.recording_clip.is_some() ==> self.recording_clip.unwrap().wf()
        &&& forall|id: usize| #[trigger]
            self.sources.contains_key(id) ==> {
                &&& id < self.next_audio_id
                &&& self.sources[id].wf()
                &&& self.sources[id].samples.len() % (self.sources[id].format.channels as nat) == 0
            }
        &&& forall|beat: usize| #[trigger]
            self.arrangement_index.contains_key(beat) ==> self.arrangement_index[beat].len() > 0
    }

    /// The empty take that recording starts with.
    pub open spec fn fresh_take(self) -> AudioClipView {
        AudioClipView {
            format: AudioSourceFormat {
                sample_rate: self.sample_rate,
                len_frames: 0,
                channels: self.channels,
                beats_per_second: self.beats_per_second,
            },
            samples: Seq::empty(),
            limit: record_limit(self.sample_rate, self.channels) as usize,
        }
    }

    /// A take is kept when it holds a whole frame and an id is left to give it.
    pub open spec fn keeps_take(self) -> bool {
        &&& self.recording_clip.is_some()
        &&& self.recording_clip.unwrap().whole_len() > 0
        &&& self.next_audio_id < usize::MAX
    }

    /// The take as it is kept: cut back to whole frames.
    pub open spec fn finished_take(self) -> AudioClipView {
        let take = self.recording_clip.unwrap();
        AudioClipView { samples: take.samples.take(take.whole_len()), ..take }
    }

    /// The state after `command` has been applied.
    pub open spec fn after_command(self, command: CommandView) -> AudioEngineView {
        match command {
            CommandView::SetPlaying(v) => AudioEngineView {
                playing: v,
                recording: self.recording && v,
                ..self
            },
            CommandView::SetRecording(true) => AudioEngineView {
                recording_clip: Some(self.fresh_take()),
                waiting_for_input: self.waiting_for_input || self.wait_for_input,
                playing: true,
                recording: true,
                ..self
            },
            CommandView::SetRecording(false) => if self.keeps_take() {
                AudioEngineView {
                    recording: false,
                    recording_clip: None,
                    sources: self.sources.insert(self.next_audio_id, self.finished_take()),
                    next_audio_id: (self.next_audio_id + 1) as usize,
                    ..self
                }
            } else {
                AudioEngineView { recording: false, recording_clip: None, ..self }
            },
            CommandView::SetPlayTime(v) => AudioEngineView { play_sample: v, ..self },
            CommandView::SetFeedback(v) => AudioEngineView { feedback: v, ..self },
            CommandView::SetBeatsPerSecond(v) => AudioEngineView { beats_per_second: v, ..self },
            CommandView::SetVolume(v) => AudioEngineView { volume: v, ..self },
            CommandView::SetMetronome(v) => AudioEngineView { metronome: v, ..self },
            CommandView::RemoveAudioSource(id) => AudioEngineView { sources: self.sources.remove(id.0), ..self },
            CommandView::GetAudioSourceClone(_) => self,
            CommandView::SetArrangementAudioSourceIndex(index) => AudioEngineView {
                arrangement_index: index,
                ..self
            },
        }
    }

    /// The answer to `command`, for the commands that have one.
    pub open spec fn response_to(self, command: CommandView) -> Option<CommandResponseView> {
        match command {
            CommandView::SetRecording(false) => Some(
                CommandResponseView::SetRecording(
                    if self.keeps_take() {
                        Some((AudioSourceID(self.next_audio_id), self.finished_take().format))
                    } else {
                        None
                    },
                ),
            ),
            CommandView::GetAudioSourceClone(id) => Some(
                CommandResponseView::GetAudioSourceClone(
                    if self.sources.contains_key(id.0) {
                        Some(self.sources[id.0])
                    } else {
                        None
                    },
                ),
            ),
            _ => None,
        }
    }

    /// What the engine makes of the sample `popped` from the ring.
    pub open spec fn input_of(self, popped: Option<u32>) -> Input {
        Input {
            sample: if self.feedback {
                popped
            } else {
                None
            },
            channel: ((self.channel + 1) % (self.channels as int)) as u32,
            calibrating: self.noise_sample > 0,
        }
    }

    /// The state after an input sample has been received.
    pub open spec fn after_receive(self) -> AudioEngineView {
        AudioEngineView {
            channel: ((self.channel + 1) % (self.channels as int)) as u32,
            noise_sample: if self.noise_sample > 0 {
                (self.noise_sample - 1) as u32
            } else {
                0
            },
            ..self
        }
    }

    /// Whether an output sample is captured by the take: once the take has
    /// begun, every sample; before, the first sample of channel 0 that is loud
    /// enough, or the first at all where the take does not wait for input. And
    /// only while the take has room.
    pub open spec fn captures(self, loud: bool) -> bool {
        &&& self.recording_clip.is_some()
        &&& self.recording_clip.unwrap().samples.len() > 0 || (self.channel == 0 && (loud
            || !self.waiting_for_input))
        &&& self.recording_clip.unwrap().can_append()
    }

    /// The state after the take has been offered the output sample `sample`.
    pub open spec fn after_record(self, sample: u32, loud: bool) -> AudioEngineView {
        if self.captures(loud) {
            AudioEngineView {
                recording_clip: Some(self.recording_clip.unwrap().appended(sample)),
                waiting_for_input: false,
                ..self
            }
        } else {
            self
        }
    }

    /// The sample counter after one more sample. It starts over past the
    /// largest count.
    pub open spec fn next_play_sample(self) -> u32 {
        if self.play_sample == u32::MAX {
            0
        } else {
            (self.play_sample + 1) as u32
        }
    }

    /// The state after the transport has moved on by one sample, if it is
    /// playing.
    pub open spec fn after_advance(self) -> AudioEngineView {
        if self.playing {
            AudioEngineView {
                play_sample: self.next_play_sample(),
                play_frame: self.next_play_sample() / self.channels,
                ..self
            }
        } else {
            self
        }
    }

    /// What the step of the transport comes to, if it is playing. The
    /// metronome clicks while recording, near a beat. The play line is due on
    /// the first sample of every frame that is a multiple of a thirtieth of the
    /// sample rate.
    pub open spec fn tick(self, near_beat: bool) -> Option<Tick> {
        if self.playing {
            let play_frame = self.next_play_sample() / self.channels;
            Some(
                Tick {
                    click: self.recording && self.metronome && near_beat,
                    play_frame,
                    play_line: self.next_play_sample() % self.channels == 0 && play_frame % (self.sample_rate
                        / PLAY_LINE_RATE) == 0,
                },
            )
        } else {
            None
        }
    }
}

/// The state of the audio engine, stepped once per output sample.
pub struct AudioEngine {
    sample_rate: u32,
    channels: u32,
    volume: u64,
    beats_per_second: u64,
    noise_level: u32,
    feedback: bool,
    metronome: bool,
    wait_for_input: bool,
    waiting_for_input: bool,
    playing: bool,
    recording: bool,
    noise_sample: u32,
    channel: u32,
    play_sample: u32,
    play_frame: u32,
    recording_clip: Option<AudioClip>,
    sources: HashMap<usize, AudioSource>,
    arrangement_index: ArrangementAudioSourceIndex,
    next_audio_id: usize,
}

impl View for AudioEngine {
    type V = AudioEngineView;

    closed spec fn view(&self) -> AudioEngineView {
        AudioEngineView {
            sample_rate: self.sample_rate,
            channels: self.channels,
            volume: self.volume,
            beats_per_second: self.beats_per_second,
            noise_level: self.noise_level,
            feedback: self.feedback,
            metronome: self.metronome,
            wait_for_input: self.wait_for_input,
            waiting_for_input: self.waiting_for_input,
            playing: self.playing,
            recording: self.recording,
            noise_sample: self.noise_sample,
            channel: self.channel,
            play_sample: self.play_sample,
            play_frame: self.play_frame,
            recording_clip: match self.recording_clip {
                Some(clip) => Some(clip@),
                None => None,
            },
            sources: self.sources@.map_values(|s: AudioSource| s@),
            arrangement_index: self.arrangement_index@,
            next_audio_id: self.next_audio_id,
        }
    }
}

impl AudioEngine {
    pub open spec fn wf(&self) -> bool {
        self@.wf()
    }

    /// An engine for a device of the given rate and channel count: stopped, at
    /// the start, with feedback and metronome on, nothing recorded and nothing
    /// scheduled.
    pub fn new(sample_rate: u32, channels: u32) -> (r: Self)
        requires
            channels > 0,
            sample_rate >= PLAY_LINE_RATE,
        ensures
            r.wf(),
            r@ == (AudioEngineView {
                sample_rate,
                channels,
                volume: DEFAULT_VOLUME,
                beats_per_second: DEFAULT_BEATS_PER_SECOND,
                noise_level: DEFAULT_NOISE_LEVEL,
                feedback: true,
                metronome: true,
                wait_for_input: true,
                waiting_for_input: false,
                playing: false,
                recording: false,
                noise_sample: 0,
                channel: 0,
                play_sample: 0,
                play_frame: 0,
                recording_clip: None,
                sources: Map::empty(),
                arrangement_index: Map::empty(),
                next_audio_id: 0,
            }),
    {
        let r = AudioEngine {
            sample_rate,
            channels,
            volume: DEFAULT_VOLUME,
            beats_per_second: DEFAULT_BEATS_PER_SECOND,
            noise_level: DEFAULT_NOISE_LEVEL,
            feedback: true,
            metronome: true,
            wait_for_input: true,
            waiting_for_input: false,
            playing: false,
            recording: false,
            noise_sample: 0,
            channel: 0,
            play_sample: 0,
            play_frame: 0,
            recording_clip: None,
            sources: HashMap::new(),
            arrangement_index: ArrangementAudioSourceIndex::default(),
            next_audio_id: 0,
        };
        assert(r@.sources =~= Map::empty());
        r
    }

    /// Applies one command from the control surface and gives the answer, for
    /// the commands that have one.
    pub fn apply_command(&mut self, command: Command) -> (r: Option<CommandResponse>)
        requires
            old(self).wf(),
            command.wf(),
        ensures
            final(self).wf(),
            final(self)@ == old(self)@.after_command(command@),
            match old(self)@.response_to(command@) {
                Some(response) => r.is_some() && r.unwrap()@ == response,
                None => r.is_none(),
            },
    {
        match command {
            Command::SetPlaying(v) => {
                self.playing = v;
                self.recording = self.recording && v;
                None
            },
            Command::SetRecording(v) => {
                if v {
                    self.start_take();
                    None
                } else {
                    Some(CommandResponse::SetRecording(self.finish_take()))
                }
            },
            Command::SetPlayTime(v) => {
                self.play_sample = v;
                None
            },
            Command::SetFeedback(v) => {
                self.feedback = v;
                None
            },
            Command::SetBeatsPerSecond(v) => {
                self.beats_per_second = v;
                None
            },
            Command::SetVolume(v) => {
                self.volume = v;
                None
            },
            Command::SetMetronome(v) => {
                self.metronome = v;
                None
            },
            Command::RemoveAudioSource(id) => {
                self.sources.remove(&id.0);
                assert(self@.sources =~= old(self)@.sources.remove(id.0));
                None
            },
            Command::GetAudioSourceClone(id) => {
                let copy = match self.sources.get(&id.0) {
                    Some(source) => Some(source.clone()),
                    None => None,
                };
                Some(CommandResponse::GetAudioSourceClone(copy))
            },
            Command::SetArrangementAudioSourceIndex(index) => {
                self.arrangement_index = index;
                None
            },
        }
    }

    /// Begins a take: an empty clip in the device's format at the present
    /// tempo, with room set aside.
    fn start_take(&mut self)
        requires
            old(self).wf(),
        ensures
            final(self).wf(),
            final(self)@ == old(self)@.after_command(CommandView::SetRecording(true)),
    {
        let format = AudioSourceFormat {
            sample_rate: self.sample_rate,
            len_frames: 0,
            channels: self.channels,
            beats_per_second: self.beats_per_second,
        };
        let limit = record_limit_of(self.sample_rate, self.channels);
        self.recording_clip = Some(AudioClip::with_limit(format, limit));
        if self.wait_for_input {
            self.waiting_for_input = true;
        }
        self.playing = true;
        self.recording = true;
    }

    /// Ends the take and keeps it as a new source, if it holds a whole frame.
    fn finish_take(&mut self) -> (r: Option<(AudioSourceID, AudioSourceFormat)>)
        requires
            old(self).wf(),
        ensures
            final(self).wf(),
            final(self)@ == old(self)@.after_command(CommandView::SetRecording(false)),
            r == if old(self)@.keeps_take() {
                Some((AudioSourceID(old(self)@.next_audio_id), old(self)@.finished_take().format))
            } else {
                None
            },
    {
        self.recording = false;
        match self.recording_clip.take() {
            Some(mut clip) => {
                proof {
                    lemma_whole_len_bounds(clip@);
                }
                clip.clean();
                if clip.len_samples() > 0 && self.next_audio_id < usize::MAX {
                    let id: usize = self.next_audio_id;
                    let format = clip.format();
                    self.next_audio_id = id + 1;
                    self.sources.insert(id, AudioSource::AudioClip(clip));
                    assert(self@.sources =~= old(self)@.sources.insert(id, old(self)@.finished_take()));
                    Some((AudioSourceID(id), format))
                } else {
                    None
                }
            },
            None => None,
        }
    }

    /// Takes in what was popped from the ring for this output sample: passes
    /// it on if feedback is on, moves to the next channel, and counts down a
    /// pass that measures the noise level.
    pub fn receive(&mut self, popped: Option<u32>) -> (r: Input)
        requires
            old(self).wf(),
        ensures
            final(self).wf(),
            r == old(self)@.input_of(popped),
            final(self)@ == old(self)@.after_receive(),
    {
        let sample = if self.feedback {
            popped
        } else {
            None
        };
        let channel: u32 = if self.channel + 1 < self.channels {
            self.channel + 1
        } else {
            0
        };
        proof {
            if self.channel + 1 < self.channels {
                lemma_small_mod((self.channel + 1) as nat, self.channels as nat);
            } else {
                lemma_mod_self_0(self.channels as int);
            }
        }
        let calibrating = self.noise_sample > 0;
        if calibrating {
            self.noise_sample = self.noise_sample - 1;
        }
        self.channel = channel;
        Input { sample, channel, calibrating }
    }

    /// Offers the output sample `sample` to the take, and says whether the
    /// take captured it. `loud` says whether the sample is above the noise.
    pub fn record(&mut self, sample: u32, loud: bool) -> (r: bool)
        requires
            old(self).wf(),
        ensures
            final(self).wf(),
            r == old(self)@.captures(loud),
            final(self)@ == old(self)@.after_record(sample, loud),
    {
        match self.recording_clip.take() {
            Some(mut clip) => {
                let due = clip.len_samples() > 0 || (self.channel == 0 && (loud || !self.waiting_for_input));
                let mut captured = false;
                if due {
                    captured = clip.append_sample(sample).is_ok();
                }
                self.recording_clip = Some(clip);
                if captured {
                    self.waiting_for_input = false;
                }
                captured
            },
            None => false,
        }
    }

    /// Moves the transport on by one sample, if it is playing, and says what
    /// that comes to. `near_beat` says whether the frame the transport is at
    /// lies within a hundredth of a second after a beat.
    pub fn advance(&mut self, near_beat: bool) -> (r: Option<Tick>)
        requires
            old(self).wf(),
        ensures
            final(self).wf(),
            r == old(self)@.tick(near_beat),
            final(self)@ == old(self)@.after_advance(),
    {
        if !self.playing {
            return None;
        }
        let click = self.recording && self.metronome && near_beat;
        let play_sample: u32 = if self.play_sample == u32::MAX {
            0
        } else {
            self.play_sample + 1
        };
        let play_frame: u32 = play_sample / self.channels;
        assert(PLAY_LINE_RATE == 30);
        let period: u32 = self.sample_rate / PLAY_LINE_RATE;
        let play_line = play_sample % self.channels == 0 && play_frame % period == 0;
        self.play_sample = play_sample;
        self.play_frame = play_frame;
        Some(Tick { click, play_frame, play_line })
    }

    /// Starts a pass over the next `samples` output samples that measures the
    /// noise level.
    pub fn calibrate_noise(&mut self, samples: u32)
        requires
            old(self).wf(),
        ensures
            final(self).wf(),
            final(self)@ == (AudioEngineView { noise_sample: samples, ..old(self)@ }),
    {
        self.noise_sample = samples;
    }

    /// Sets the noise level that a take waits for input to rise above.
    pub fn set_noise_level(&mut self, noise_level: u32)
        requires
            old(self).wf(),
        ensures
            final(self).wf(),
            final(self)@ == (AudioEngineView { noise_level, ..old(self)@ }),
    {
        self.noise_level = noise_level;
    }

    /// Puts `sample` at `position` of the source `id`, and says whether there
    /// is such a source and it is that long.
    pub fn set_source_sample(&mut self, id: AudioSourceID, position: usize, sample: u32) -> (r: bool)
        requires
            old(self).wf(),
        ensures
            final(self).wf(),
            r == (old(self)@.sources.contains_key(id.0) && position < old(self)@.sources[id.0].samples.len()),
            r ==> final(self)@ == (AudioEngineView {
                sources: old(self)@.sources.insert(
                    id.0,
                    AudioClipView {
                        samples: old(self)@.sources[id.0].samples.update(position as int, sample),
                        ..old(self)@.sources[id.0]
                    },
                ),
                ..old(self)@
            }),
            !r ==> final(self)@ == old(self)@,
    {
        match self.sources.remove(&id.0) {
            Some(AudioSource::AudioClip(mut clip)) => {
                let ghost before = clip@;
                assert(old(self)@.sources.contains_key(id.0) && old(self)@.sources[id.0] == before);
                let done = clip.set_sample(position, sample);
                self.sources.insert(id.0, AudioSource::AudioClip(clip));
                proof {
                    if done {
                        assert(self@.sources =~= old(self)@.sources.insert(
                            id.0,
                            AudioClipView { samples: before.samples.update(position as int, sample), ..before },
                        ));
                    } else {
                        assert(clip@ == before);
                        assert(self@.sources =~= old(self)@.sources);
                    }
                }
                done
            },
            None => {
                assert(self@.sources =~= old(self)@.sources);
                false
            },
        }
    }

    /// The source `id`, if the engine holds it.
    pub fn source(&self, id: AudioSourceID) -> (r: Option<&AudioSource>)
        ensures
            match r {
                Some(source) => self@.sources.contains_key(id.0) && source@ == self@.sources[id.0],
                None => !self@.sources.contains_key(id.0),
            },
    {
        self.sources.get(&id.0)
    }

    /// What is scheduled on `beat`, if anything is.
    pub fn scheduled(&self, beat: u32) -> (r: Option<&Vec<AudioSourceIndex>>)
        ensures
            match r {
                Some(entries) => self@.arrangement_index.contains_key(beat as usize) && entries@
                    == self@.arrangement_index[beat as usize],
                None => !self@.arrangement_index.contains_key(beat as usize),
            },
    {
        self.arrangement_index.get(beat as usize)
    }

    /// How far into its beat the frame `play_frame` lies, for beats of
    /// `beat_len` frames. Nothing for beats of no length.
    pub fn beat_frame(play_frame: u32, beat_len: u32) -> (r: Option<u32>)
        ensures
            r == if beat_len > 0 {
                Some((play_frame % beat_len) as u32)
            } else {
                None
            },
    {
        if beat_len > 0 {
            Some(play_frame % beat_len)
        } else {
            None
        }
    }

    /// The frame of a clip to read `beat_frame` frames into a beat, for a clip
    /// shifted by `offset_frames`.
    pub fn source_frame(beat_frame: u32, offset_frames: i64) -> (r: Option<u32>)
        ensures
            r == source_frame_at(beat_frame, offset_frames),
    {
        let frame: i128 = beat_frame as i128 + offset_frames as i128;
        if 0 <= frame && frame <= u32::MAX as i128 {
            Some(frame as u32)
        } else {
            None
        }
    }

    pub fn sample_rate(&self) -> (r: u32)
        ensures
            r == self@.sample_rate,
    {
        self.sample_rate
    }

    pub fn channels(&self) -> (r: u32)
        ensures
            r == self@.channels,
    {
        self.channels
    }

    pub fn volume(&self) -> (r: u64)
        ensures
            r == self@.volume,
    {
        self.volume
    }

    pub fn beats_per_second(&self) -> (r: u64)
        ensures
            r == self@.beats_per_second,
    {
        self.beats_per_second
    }

    pub fn noise_level(&self) -> (r: u32)
        ensures
            r == self@.noise_level,
    {
        self.noise_level
    }

    pub fn playing(&self) -> (r: bool)
        ensures
            r == self@.playing,
    {
        self.playing
    }

    pub fn recording(&self) -> (r: bool)
        ensures
            r == self@.recording,
    {
        self.recording
    }

    pub fn channel(&self) -> (r: u32)
        ensures
            r == self@.channel,
    {
        self.channel
    }

    pub fn play_sample(&self) -> (r: u32)
        ensures
            r == self@.play_sample,
    {
        self.play_sample
    }

    pub fn play_frame(&self) -> (r: u32)
        ensures
            r == self@.play_frame,
    {
        self.play_frame
    }
}

/// How many samples a take at this rate and channel count has room for.
fn record_limit_of(sample_rate: u32, channels: u32) -> (r: usize)
    ensures
        r == record_limit(sample_rate, channels),
{
    assert(sample_rate * channels <= 0xFFFF_FFFE_0000_0001) by (nonlinear_arith)
        requires
            sample_rate <= 0xFFFF_FFFF,
            channels <= 0xFFFF_FFFF,
    ;
    let per_second: u64 = (sample_rate as u64) * (channels as u64);
    assert(RECORD_SECONDS == 300 && RECORD_SAMPLES_MAX == 0x1000_0000);
    assert(RECORD_SECONDS * sample_rate * channels == 300 * (sample_rate * channels)) by (nonlinear_arith)
        requires
            RECORD_SECONDS == 300,
    ;
    if per_second <= 894_784 {
        (300 * per_second) as usize
    } else {
        0x1000_0000
    }
}

/// No command takes back an id: the next id to issue never falls, and rises
/// by one exactly when a take is kept.
pub proof fn lemma_ids_only_rise(engine: AudioEngineView, command: CommandView)
    requires
        engine.wf(),
    ensures
        engine.after_command(command).next_audio_id >= engine.next_audio_id,
        engine.after_command(command).next_audio_id == engine.next_audio_id + 1 <==> command
            == CommandView::SetRecording(false) && engine.keeps_take(),
        forall|id: usize|
            engine.after_command(command).sources.contains_key(id) && !engine.sources.contains_key(id) ==> id
                == engine.next_audio_id,
{
}

/// A clip that is shifted to set in later is skipped up to the frame at which
/// it sets in, starts with its first frame there, and from then on is read frame
/// after frame.
pub proof fn lemma_source_frame_resumes(beat_frame: u32, offset_frames: i64)
    requires
        offset_frames < 0,
    ensures
        beat_frame + offset_frames < 0 ==> source_frame_at(beat_frame, offset_frames).is_none(),
        beat_frame + offset_frames == 0 ==> source_frame_at(beat_frame, offset_frames) == Some(0u32),
        beat_frame + offset_frames >= 0 ==> source_frame_at(beat_frame, offset_frames) == Some(
            (beat_frame + offset_frames) as u32,
        ),
        beat_frame + offset_frames >= 0 && beat_frame < u32::MAX ==> source_frame_at(
            (beat_frame + 1) as u32,
            offset_frames,
        ) == Some((source_frame_at(beat_frame, offset_frames).unwrap() + 1) as u32),
{
}

} // verus!
