use musix::arrangement::Arrangement;
use musix::audio::{
    AudioEngine, Command, CommandResponse, Input, Tick, DEFAULT_BEATS_PER_SECOND, DEFAULT_NOISE_LEVEL,
    DEFAULT_VOLUME, PLAY_LINE_RATE, RECORD_SAMPLES_MAX, RECORD_SECONDS,
};
use musix::audio_source::{AudioSourceFormat, AudioSourceID};
use musix::block::{AudioBlock, AudioBlockID, Block};
use musix::schedule::{ArrangementAudioSourceIndex, AudioSourceIndex};
use std::collections::HashMap;

fn recorded(response: Option<CommandResponse>) -> Option<(AudioSourceID, AudioSourceFormat)> {
    match response {
        Some(CommandResponse::SetRecording(take)) => take,
        _ => panic!("expected the answer to the end of a take"),
    }
}

/// Records `samples` output samples of value `value`, all of them loud.
fn record_take(engine: &mut AudioEngine, samples: usize, value: f32) -> Option<(AudioSourceID, AudioSourceFormat)> {
    assert!(engine.apply_command(Command::SetRecording(true)).is_none());
    for _ in 0..samples {
        engine.receive(Some(value.to_bits()));
        engine.record(value.to_bits(), true);
        engine.advance(false);
    }
    recorded(engine.apply_command(Command::SetRecording(false)))
}

#[test]
fn engine_starts_stopped_with_its_defaults() {
    let engine = AudioEngine::new(44100, 2);
    assert_eq!(engine.sample_rate(), 44100);
    assert_eq!(engine.channels(), 2);
    assert_eq!(f64::from_bits(engine.volume()), 0.5);
    assert_eq!(f64::from_bits(engine.beats_per_second()), 120.0 / 60.0);
    assert_eq!(f32::from_bits(engine.noise_level()), 0.025);
    assert_eq!(DEFAULT_VOLUME, 0.5f64.to_bits());
    assert_eq!(DEFAULT_BEATS_PER_SECOND, 2.0f64.to_bits());
    assert_eq!(DEFAULT_NOISE_LEVEL, 0.025f32.to_bits());
    assert_eq!(PLAY_LINE_RATE, 30);
    assert!(!engine.playing());
    assert!(!engine.recording());
    assert_eq!(engine.channel(), 0);
    assert_eq!(engine.play_sample(), 0);
    assert_eq!(engine.play_frame(), 0);
    assert!(engine.source(AudioSourceID(0)).is_none());
    assert!(engine.scheduled(0).is_none());
}

#[test]
fn scalar_commands_assign_their_field() {
    let mut engine = AudioEngine::new(44100, 2);
    assert!(engine.apply_command(Command::SetVolume(2.5f64.to_bits())).is_none());
    assert!(engine.apply_command(Command::SetBeatsPerSecond(4.0f64.to_bits())).is_none());
    assert!(engine.apply_command(Command::SetPlayTime(88200)).is_none());
    assert_eq!(f64::from_bits(engine.volume()), 2.5);
    assert_eq!(f64::from_bits(engine.beats_per_second()), 4.0);
    assert_eq!(engine.play_sample(), 88200);
    assert_eq!(engine.play_frame(), 0);
    engine.set_noise_level(0.5f32.to_bits());
    assert_eq!(f32::from_bits(engine.noise_level()), 0.5);
}

#[test]
fn stopping_play_stops_recording() {
    let mut engine = AudioEngine::new(44100, 1);
    assert!(engine.apply_command(Command::SetPlaying(true)).is_none());
    assert!(engine.playing());
    assert!(!engine.recording());
    assert!(engine.apply_command(Command::SetRecording(true)).is_none());
    assert!(engine.playing());
    assert!(engine.recording());
    assert!(engine.apply_command(Command::SetPlaying(true)).is_none());
    assert!(engine.recording());
    assert!(engine.apply_command(Command::SetPlaying(false)).is_none());
    assert!(!engine.playing());
    assert!(!engine.recording());
}

#[test]
fn recording_implies_playing() {
    let mut engine = AudioEngine::new(44100, 1);
    assert!(engine.apply_command(Command::SetRecording(true)).is_none());
    assert!(engine.playing());
    assert!(engine.recording());
}

#[test]
fn stop_without_a_take_answers_no_clip() {
    let mut engine = AudioEngine::new(44100, 1);
    assert_eq!(recorded(engine.apply_command(Command::SetRecording(false))), None);
    assert!(!engine.recording());
    assert!(engine.source(AudioSourceID(0)).is_none());
}

#[test]
fn record_then_play() {
    let mut engine = AudioEngine::new(44100, 1);
    assert!(engine.apply_command(Command::SetBeatsPerSecond(2.0f64.to_bits())).is_none());
    let (id, format) = record_take(&mut engine, 44100, 0.5).unwrap();
    assert_eq!(id, AudioSourceID(0));
    assert_eq!(
        format,
        AudioSourceFormat { sample_rate: 44100, len_frames: 44100, channels: 1, beats_per_second: 2.0f64.to_bits() }
    );
    let source = engine.source(id).unwrap();
    assert_eq!(source.format(), format);
    assert_eq!(source.get_sample(0), Some(0.5f32.to_bits()));
    assert_eq!(source.get_sample(44099), Some(0.5f32.to_bits()));
    assert_eq!(source.get_sample(44100), None);

    let mut arrangement = Arrangement::new();
    arrangement.tracks[0].add_block(Block::new(0..2, AudioBlockID(0), format));
    let mut audio_blocks = HashMap::new();
    audio_blocks.insert(0, AudioBlock::new(id, format, 2));
    let index = arrangement.compile_index(&audio_blocks);
    assert!(engine.apply_command(Command::SetArrangementAudioSourceIndex(index)).is_none());
    assert!(engine.apply_command(Command::SetPlayTime(0)).is_none());
    assert!(engine.apply_command(Command::SetPlaying(true)).is_none());
    let mut seconds = Vec::new();
    for _ in 0..8820 {
        engine.receive(None);
        let tick = engine.advance(false).unwrap();
        if tick.play_line {
            seconds.push(tick.play_frame as f64 / 44100.0);
        }
    }
    assert_eq!(seconds.len(), 6);
    for pair in seconds.windows(2) {
        assert!(pair[0] < pair[1]);
    }
    assert_eq!(seconds[0], 1470.0 / 44100.0);
    assert_eq!(engine.scheduled(0).map(|e| e.len()), Some(1));
    assert_eq!(engine.scheduled(1).map(|e| e.len()), Some(1));
    assert!(engine.scheduled(2).is_none());
}

#[test]
fn take_that_captured_nothing_answers_no_clip() {
    let mut engine = AudioEngine::new(44100, 1);
    assert!(engine.apply_command(Command::SetRecording(true)).is_none());
    for _ in 0..100 {
        engine.receive(Some(0.001f32.to_bits()));
        assert!(!engine.record(0.001f32.to_bits(), false));
    }
    assert_eq!(recorded(engine.apply_command(Command::SetRecording(false))), None);
    assert!(engine.source(AudioSourceID(0)).is_none());
    let (id, _) = record_take(&mut engine, 4, 0.5).unwrap();
    assert_eq!(id, AudioSourceID(0));
}

#[test]
fn take_shorter_than_a_frame_answers_no_clip() {
    let mut engine = AudioEngine::new(44100, 2);
    assert!(engine.apply_command(Command::SetRecording(true)).is_none());
    engine.receive(Some(1));
    assert!(!engine.record(1, true));
    engine.receive(Some(2));
    assert!(engine.record(2, true));
    assert_eq!(recorded(engine.apply_command(Command::SetRecording(false))), None);
}

#[test]
fn take_waits_for_a_loud_sample_on_channel_zero() {
    let mut engine = AudioEngine::new(44100, 2);
    assert!(engine.apply_command(Command::SetRecording(true)).is_none());
    let offered: [(u32, bool); 8] =
        [(1, true), (2, false), (3, false), (4, false), (5, true), (6, true), (7, false), (8, false)];
    let mut captured = Vec::new();
    for (sample, loud) in offered {
        let input = engine.receive(Some(sample));
        captured.push((input.channel, engine.record(sample, loud)));
    }
    assert_eq!(
        captured,
        vec![(1, false), (0, false), (1, false), (0, false), (1, false), (0, true), (1, true), (0, true)]
    );
    let (id, format) = recorded(engine.apply_command(Command::SetRecording(false))).unwrap();
    assert_eq!(format.len_frames, 1);
    let source = engine.source(id).unwrap();
    assert_eq!(source.get_sample(0), Some(6));
    assert_eq!(source.get_sample(1), Some(7));
    assert_eq!(source.get_sample(2), None);
}

#[test]
fn finished_take_holds_whole_frames() {
    let mut engine = AudioEngine::new(48000, 2);
    let (id, format) = record_take(&mut engine, 9, 0.25).unwrap();
    assert_eq!(format.len_frames, 4);
    assert_eq!(format.channels, 2);
    assert_eq!(format.sample_rate, 48000);
    let source = engine.source(id).unwrap();
    assert_eq!(source.get_sample(7), Some(0.25f32.to_bits()));
    assert_eq!(source.get_sample(8), None);
}

#[test]
fn takes_get_increasing_ids() {
    let mut engine = AudioEngine::new(44100, 1);
    for expected in 0..4usize {
        let (id, format) = record_take(&mut engine, 3 + expected, 0.5).unwrap();
        assert_eq!(id, AudioSourceID(expected));
        assert_eq!(format.len_frames as usize, 3 + expected);
    }
    assert!(engine.apply_command(Command::RemoveAudioSource(AudioSourceID(1))).is_none());
    let (id, _) = record_take(&mut engine, 3, 0.5).unwrap();
    assert_eq!(id, AudioSourceID(4));
    assert!(engine.source(AudioSourceID(1)).is_none());
    assert!(engine.source(AudioSourceID(0)).is_some());
}

#[test]
fn take_records_the_tempo_it_was_made_at() {
    let mut engine = AudioEngine::new(44100, 1);
    assert!(engine.apply_command(Command::SetBeatsPerSecond(3.5f64.to_bits())).is_none());
    let (_, format) = record_take(&mut engine, 5, 0.5).unwrap();
    assert_eq!(f64::from_bits(format.beats_per_second), 3.5);
}

#[test]
fn take_stops_growing_at_its_limit() {
    assert_eq!(RECORD_SECONDS, 300);
    assert_eq!(RECORD_SAMPLES_MAX, 1 << 28);
    let mut engine = AudioEngine::new(30, 1);
    assert!(engine.apply_command(Command::SetRecording(true)).is_none());
    let mut captured = 0;
    for _ in 0..9100 {
        engine.receive(Some(1));
        if engine.record(1, true) {
            captured += 1;
        }
    }
    assert_eq!(captured, 9000);
    let (_, format) = recorded(engine.apply_command(Command::SetRecording(false))).unwrap();
    assert_eq!(format.len_frames, 9000);
}

#[test]
fn feedback_passes_the_input_on() {
    let mut engine = AudioEngine::new(44100, 2);
    assert_eq!(engine.receive(Some(7)), Input { sample: Some(7), channel: 1, calibrating: false });
    assert_eq!(engine.receive(None), Input { sample: None, channel: 0, calibrating: false });
    assert!(engine.apply_command(Command::SetFeedback(false)).is_none());
    assert_eq!(engine.receive(Some(7)), Input { sample: None, channel: 1, calibrating: false });
    assert_eq!(engine.receive(None), Input { sample: None, channel: 0, calibrating: false });
    assert!(engine.apply_command(Command::SetFeedback(true)).is_none());
    assert_eq!(engine.receive(Some(9)).sample, Some(9));
}

#[test]
fn channel_goes_round() {
    let mut engine = AudioEngine::new(44100, 3);
    let channels: Vec<u32> = (0..7).map(|_| engine.receive(None).channel).collect();
    assert_eq!(channels, vec![1, 2, 0, 1, 2, 0, 1]);
    assert_eq!(engine.channel(), 1);
    let mut mono = AudioEngine::new(44100, 1);
    assert_eq!(mono.receive(None).channel, 0);
    assert_eq!(mono.receive(None).channel, 0);
}

#[test]
fn noise_pass_counts_down() {
    let mut engine = AudioEngine::new(44100, 1);
    assert!(!engine.receive(None).calibrating);
    engine.calibrate_noise(3);
    assert!(engine.receive(None).calibrating);
    assert!(engine.receive(None).calibrating);
    assert!(engine.receive(None).calibrating);
    assert!(!engine.receive(None).calibrating);
}

#[test]
fn transport_stands_still_while_stopped() {
    let mut engine = AudioEngine::new(44100, 2);
    assert_eq!(engine.advance(true), None);
    assert_eq!(engine.play_sample(), 0);
    assert!(engine.apply_command(Command::SetPlayTime(10)).is_none());
    assert_eq!(engine.advance(false), None);
    assert_eq!(engine.play_sample(), 10);
}

#[test]
fn transport_counts_samples_and_frames() {
    let mut engine = AudioEngine::new(44100, 2);
    assert!(engine.apply_command(Command::SetPlaying(true)).is_none());
    let frames: Vec<u32> = (0..6).map(|_| engine.advance(false).unwrap().play_frame).collect();
    assert_eq!(frames, vec![0, 1, 1, 2, 2, 3]);
    assert_eq!(engine.play_sample(), 6);
    assert_eq!(engine.play_frame(), 3);
}

#[test]
fn transport_starts_over_past_the_largest_count() {
    let mut engine = AudioEngine::new(44100, 1);
    assert!(engine.apply_command(Command::SetPlaying(true)).is_none());
    assert!(engine.apply_command(Command::SetPlayTime(u32::MAX - 1)).is_none());
    assert_eq!(engine.advance(false).unwrap().play_frame, u32::MAX);
    assert_eq!(engine.advance(false), Some(Tick { click: false, play_frame: 0, play_line: true }));
    assert_eq!(engine.advance(false).unwrap().play_frame, 1);
}

#[test]
fn metronome_clicks_while_recording_near_a_beat() {
    let mut engine = AudioEngine::new(44100, 1);
    assert!(engine.apply_command(Command::SetPlaying(true)).is_none());
    assert!(!engine.advance(true).unwrap().click);
    assert!(engine.apply_command(Command::SetRecording(true)).is_none());
    assert!(engine.advance(true).unwrap().click);
    assert!(!engine.advance(false).unwrap().click);
    assert!(engine.apply_command(Command::SetMetronome(false)).is_none());
    assert!(!engine.advance(true).unwrap().click);
    assert!(engine.apply_command(Command::SetMetronome(true)).is_none());
    assert!(engine.advance(true).unwrap().click);
    assert!(engine.apply_command(Command::SetPlaying(false)).is_none());
    assert!(engine.apply_command(Command::SetPlaying(true)).is_none());
    assert!(!engine.advance(true).unwrap().click);
}

#[test]
fn play_line_is_due_once_a_frame_thirty_times_a_second() {
    let mut engine = AudioEngine::new(3000, 2);
    assert!(engine.apply_command(Command::SetPlaying(true)).is_none());
    let mut due = Vec::new();
    for _ in 0..1000 {
        let tick = engine.advance(false).unwrap();
        if tick.play_line {
            due.push((engine.play_sample(), tick.play_frame));
        }
    }
    assert_eq!(due, vec![(200, 100), (400, 200), (600, 300), (800, 400), (1000, 500)]);
}

#[test]
fn removed_source_reads_as_silence() {
    let mut engine = AudioEngine::new(44100, 1);
    let (id, format) = record_take(&mut engine, 8, 0.5).unwrap();
    let mut arrangement = Arrangement::new();
    arrangement.tracks[0].add_block(Block::new(0..4, AudioBlockID(0), format));
    arrangement.tracks[0].add_block(Block::new(6..10, AudioBlockID(0), format));
    let mut audio_blocks = HashMap::new();
    audio_blocks.insert(0, AudioBlock::new(id, format, 2));
    let index = arrangement.compile_index(&audio_blocks);
    assert!(engine.apply_command(Command::SetArrangementAudioSourceIndex(index)).is_none());
    assert!(engine.apply_command(Command::RemoveAudioSource(id)).is_none());
    for beat in 0..10u32 {
        let entries: Vec<AudioSourceIndex> = engine.scheduled(beat).cloned().unwrap_or_default();
        assert_eq!(entries.is_empty(), beat == 4 || beat == 5);
        for entry in entries {
            assert_eq!(entry.audio_source_id, id);
            assert!(engine.source(entry.audio_source_id).is_none());
        }
    }
    assert!(engine.apply_command(Command::RemoveAudioSource(id)).is_none());
    assert!(engine.apply_command(Command::RemoveAudioSource(AudioSourceID(77))).is_none());
}

#[test]
fn clone_source_answers_with_a_deep_copy() {
    let mut engine = AudioEngine::new(44100, 1);
    let (id, format) = record_take(&mut engine, 4, 0.5).unwrap();
    let copy = match engine.apply_command(Command::GetAudioSourceClone(id)) {
        Some(CommandResponse::GetAudioSourceClone(Some(copy))) => copy,
        _ => panic!("expected a copy of the source"),
    };
    assert!(engine.set_source_sample(id, 0, 0.75f32.to_bits()));
    assert_eq!(copy.format(), format);
    assert_eq!(copy.get_sample(0), Some(0.5f32.to_bits()));
    assert_eq!(copy.get_sample(3), Some(0.5f32.to_bits()));
    assert_eq!(copy.get_sample(4), None);
    assert_eq!(engine.source(id).unwrap().get_sample(0), Some(0.75f32.to_bits()));
}

#[test]
fn clone_of_a_missing_source_answers_nothing() {
    let mut engine = AudioEngine::new(44100, 1);
    assert!(matches!(
        engine.apply_command(Command::GetAudioSourceClone(AudioSourceID(3))),
        Some(CommandResponse::GetAudioSourceClone(None))
    ));
}

#[test]
fn set_source_sample_writes_into_a_held_source() {
    let mut engine = AudioEngine::new(44100, 1);
    let (id, format) = record_take(&mut engine, 3, 0.5).unwrap();
    assert!(engine.set_source_sample(id, 2, 0.0f32.to_bits()));
    assert!(!engine.set_source_sample(id, 3, 0.0f32.to_bits()));
    assert!(!engine.set_source_sample(AudioSourceID(5), 0, 0.0f32.to_bits()));
    let source = engine.source(id).unwrap();
    assert_eq!(source.format(), format);
    assert_eq!(source.get_sample(0), Some(0.5f32.to_bits()));
    assert_eq!(source.get_sample(1), Some(0.5f32.to_bits()));
    assert_eq!(source.get_sample(2), Some(0.0f32.to_bits()));
    assert!(engine.source(AudioSourceID(5)).is_none());
}

#[test]
fn installed_index_is_what_is_scheduled() {
    let mut engine = AudioEngine::new(44100, 1);
    let mut index = ArrangementAudioSourceIndex::default();
    let entry = AudioSourceIndex { audio_source_id: AudioSourceID(2), relative_beat: 1, offset: 0.5f32.to_bits() };
    index.push(3, entry);
    assert!(engine.apply_command(Command::SetArrangementAudioSourceIndex(index)).is_none());
    assert_eq!(engine.scheduled(3), Some(&vec![entry]));
    assert!(engine.scheduled(2).is_none());
    assert!(engine
        .apply_command(Command::SetArrangementAudioSourceIndex(ArrangementAudioSourceIndex::default()))
        .is_none());
    assert!(engine.scheduled(3).is_none());
}

#[test]
fn beat_frame_is_the_frame_within_the_beat() {
    assert_eq!(AudioEngine::beat_frame(0, 22050), Some(0));
    assert_eq!(AudioEngine::beat_frame(22049, 22050), Some(22049));
    assert_eq!(AudioEngine::beat_frame(22050, 22050), Some(0));
    assert_eq!(AudioEngine::beat_frame(50000, 22050), Some(5900));
    assert_eq!(AudioEngine::beat_frame(7, 0), None);
}

#[test]
fn source_frame_skips_until_the_clip_sets_in() {
    assert_eq!(AudioEngine::source_frame(0, -3), None);
    assert_eq!(AudioEngine::source_frame(2, -3), None);
    assert_eq!(AudioEngine::source_frame(3, -3), Some(0));
    assert_eq!(AudioEngine::source_frame(4, -3), Some(1));
    assert_eq!(AudioEngine::source_frame(10, 0), Some(10));
    assert_eq!(AudioEngine::source_frame(10, 5), Some(15));
    assert_eq!(AudioEngine::source_frame(u32::MAX, 0), Some(u32::MAX));
    assert_eq!(AudioEngine::source_frame(u32::MAX, 1), None);
    assert_eq!(AudioEngine::source_frame(1, i64::MAX), None);
    assert_eq!(AudioEngine::source_frame(u32::MAX, i64::MIN), None);
    assert_eq!(AudioEngine::source_frame(u32::MAX, -(u32::MAX as i64)), Some(0));
}

#[test]
fn offset_clip_resumes_sample_for_sample() {
    let mut engine = AudioEngine::new(1000, 1);
    assert!(engine.apply_command(Command::SetRecording(true)).is_none());
    for i in 0..600u32 {
        let value = (i as f32).to_bits();
        engine.receive(Some(value));
        assert!(engine.record(value, true));
    }
    let (id, format) = recorded(engine.apply_command(Command::SetRecording(false))).unwrap();
    let mut arrangement = Arrangement::new();
    arrangement.tracks[0].add_block(Block::new(4..6, AudioBlockID(0), format));
    let mut audio_block = AudioBlock::new(id, format, 2);
    audio_block.offset = 0.5f32.to_bits();
    let mut audio_blocks = HashMap::new();
    audio_blocks.insert(0, audio_block);
    let index = arrangement.compile_index(&audio_blocks);
    assert!(engine.apply_command(Command::SetArrangementAudioSourceIndex(index)).is_none());

    let bps = f64::from_bits(engine.beats_per_second());
    let beat_len = (1000.0 / bps).floor() as u32;
    assert_eq!(beat_len, 500);
    let entry = engine.scheduled(4).unwrap()[0];
    let beats_offset = entry.relative_beat as f32 - f32::from_bits(entry.offset);
    assert_eq!(beats_offset, -0.5);
    let offset_frames = (beats_offset as f64 * 1000.0 / bps) as i64;
    assert_eq!(offset_frames, -250);
    let source = engine.source(entry.audio_source_id).unwrap();
    for play_frame in 2000..2500u32 {
        let beat_frame = AudioEngine::beat_frame(play_frame, beat_len).unwrap();
        let read = AudioEngine::source_frame(beat_frame, offset_frames)
            .and_then(|frame| source.get_sample(source.sample_position(frame, 0) as usize))
            .map(f32::from_bits);
        if beat_frame < 250 {
            assert_eq!(read, None);
        } else {
            assert_eq!(read, Some((beat_frame - 250) as f32));
        }
    }
}

#[test]
fn tempo_change_mid_play() {
    let sample_rate = 100u32;
    let channels = 2u32;
    let mut engine = AudioEngine::new(sample_rate, channels);
    assert!(engine.apply_command(Command::SetBeatsPerSecond(2.0f64.to_bits())).is_none());
    assert!(engine.apply_command(Command::SetPlayTime(0)).is_none());
    assert!(engine.apply_command(Command::SetPlaying(true)).is_none());
    let beat_of = |engine: &AudioEngine, play_frame: u32| {
        (play_frame as f64 / sample_rate as f64 * f64::from_bits(engine.beats_per_second())).floor() as u32
    };
    let mut last_beat = 0;
    for expected_sample in 1..=(sample_rate * channels) {
        let tick = engine.advance(false).unwrap();
        assert_eq!(engine.play_sample(), expected_sample);
        assert_eq!(tick.play_frame, expected_sample / channels);
        last_beat = beat_of(&engine, tick.play_frame);
    }
    assert_eq!(engine.play_sample(), sample_rate * channels);
    assert_eq!(last_beat, 2);
    assert!(engine.apply_command(Command::SetBeatsPerSecond(4.0f64.to_bits())).is_none());
    assert_eq!(engine.play_sample(), sample_rate * channels);
    assert_eq!(beat_of(&engine, engine.play_frame()), 4);
    let tick = engine.advance(false).unwrap();
    assert_eq!(engine.play_sample(), sample_rate * channels + 1);
    assert_eq!(tick.play_frame, sample_rate);
    assert_eq!(beat_of(&engine, tick.play_frame), 4);
}

#[test]
fn restarting_a_take_drops_the_unfinished_one() {
    let mut engine = AudioEngine::new(44100, 1);
    assert!(engine.apply_command(Command::SetRecording(true)).is_none());
    engine.receive(Some(1));
    assert!(engine.record(1, true));
    assert!(engine.apply_command(Command::SetRecording(true)).is_none());
    engine.receive(Some(2));
    assert!(engine.record(2, true));
    let (id, format) = recorded(engine.apply_command(Command::SetRecording(false))).unwrap();
    assert_eq!(format.len_frames, 1);
    assert_eq!(engine.source(id).unwrap().get_sample(0), Some(2));
    assert_eq!(recorded(engine.apply_command(Command::SetRecording(false))), None);
}

#[test]
fn record_without_a_take_captures_nothing() {
    let mut engine = AudioEngine::new(44100, 1);
    engine.receive(Some(1));
    assert!(!engine.record(1, true));
    assert_eq!(recorded(engine.apply_command(Command::SetRecording(false))), None);
}
