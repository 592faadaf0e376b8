use musix::audio_clip::{AudioClip, ClipError};
use musix::audio_source::{AudioSource, AudioSourceFormat};

fn format(sample_rate: u32, channels: u32) -> AudioSourceFormat {
    AudioSourceFormat { sample_rate, len_frames: 0, channels, beats_per_second: 2.0f64.to_bits() }
}

fn clip_of(values: &[f32], sample_rate: u32, channels: u32) -> AudioClip {
    let mut clip = AudioClip::empty(format(sample_rate, channels));
    for v in values {
        clip.append_sample(v.to_bits()).unwrap();
    }
    clip
}

fn values(clip: &AudioClip) -> Vec<f32> {
    (0..clip.len_samples()).map(|i| f32::from_bits(clip.get_sample(i).unwrap())).collect()
}

/// The fade of a finished take, as the engine's driver applies it.
fn fade(clip: &mut AudioClip) {
    let span = clip.format().sample_rate / 100;
    for step in 0..clip.fade_steps() {
        let gain = step as f32 / span as f32;
        for channel in 0..clip.format().channels {
            let (head, tail) = clip.fade_targets(step, channel).unwrap();
            let scaled = f32::from_bits(clip.get_sample(head).unwrap()) * gain;
            assert!(clip.set_sample(head, scaled.to_bits()));
            let scaled = f32::from_bits(clip.get_sample(tail).unwrap()) * gain;
            assert!(clip.set_sample(tail, scaled.to_bits()));
        }
    }
}

#[test]
fn empty_clip_has_no_samples() {
    let mut given = format(48000, 2);
    given.len_frames = 99;
    let clip = AudioClip::empty(given);
    assert_eq!(clip.len_samples(), 0);
    assert_eq!(clip.format(), format(48000, 2));
    assert_eq!(clip.get_sample(0), None);
    assert_eq!(clip.fade_steps(), 0);
}

#[test]
fn new_clip_keeps_samples_and_format() {
    let mut given = format(8000, 2);
    given.len_frames = 2;
    let clip = AudioClip::new(vec![1, 2, 3, 4, 5], given);
    assert_eq!(clip.len_samples(), 5);
    assert_eq!(clip.format(), given);
    assert_eq!(clip.get_sample(4), Some(5));
}

#[test]
fn append_counts_frames() {
    let mut clip = AudioClip::empty(format(44100, 2));
    let expected_frames = [0, 1, 1, 2, 2, 3];
    for (i, frames) in expected_frames.iter().enumerate() {
        assert_eq!(clip.append_sample(i as u32), Ok(()));
        assert_eq!(clip.len_samples(), i + 1);
        assert_eq!(clip.format().len_frames, *frames);
    }
    assert_eq!(clip.get_sample(3), Some(3));
}

#[test]
fn append_beyond_the_limit_overflows() {
    let mut clip = AudioClip::with_limit(format(44100, 1), 3);
    assert_eq!(clip.append_sample(10), Ok(()));
    assert_eq!(clip.append_sample(11), Ok(()));
    assert_eq!(clip.append_sample(12), Ok(()));
    assert_eq!(clip.append_sample(13), Err(ClipError::Overflow));
    assert_eq!(clip.len_samples(), 3);
    assert_eq!(clip.format().len_frames, 3);
    assert_eq!(clip.get_sample(2), Some(12));
    assert_eq!(clip.get_sample(3), None);
    let mut none = AudioClip::with_limit(format(44100, 1), 0);
    assert_eq!(none.append_sample(1), Err(ClipError::Overflow));
    assert_eq!(none.len_samples(), 0);
}

#[test]
fn clean_cuts_back_to_whole_frames() {
    for (len, channels, whole) in [(7usize, 3u32, 6usize), (6, 3, 6), (2, 3, 0), (0, 2, 0), (5, 1, 5), (9, 2, 8)] {
        let mut clip = AudioClip::empty(format(44100, channels));
        for i in 0..len {
            clip.append_sample(i as u32).unwrap();
        }
        let frames = clip.format().len_frames;
        clip.clean();
        assert_eq!(clip.len_samples(), whole);
        assert_eq!(clip.len_samples() % channels as usize, 0);
        assert_eq!(clip.format().len_frames, frames);
        assert_eq!(clip.format().len_frames as usize, whole / channels as usize);
        for i in 0..whole {
            assert_eq!(clip.get_sample(i), Some(i as u32));
        }
    }
}

#[test]
fn fade_steps_are_a_hundredth_of_the_rate() {
    let clip = clip_of(&[0.5; 1000], 44100, 1);
    assert_eq!(clip.fade_steps(), 441);
    let clip = clip_of(&[0.5; 100], 44100, 1);
    assert_eq!(clip.fade_steps(), 100);
    let clip = clip_of(&[0.5; 10], 99, 1);
    assert_eq!(clip.fade_steps(), 0);
    let clip = clip_of(&[0.5; 11], 500, 2);
    assert_eq!(clip.fade_steps(), 5);
    let clip = clip_of(&[0.5; 9], 500, 2);
    assert_eq!(clip.fade_steps(), 4);
    let clip = clip_of(&[0.5; 1], 500, 2);
    assert_eq!(clip.fade_steps(), 0);
}

#[test]
fn fade_targets_pair_both_ends() {
    let clip = clip_of(&[0.5; 20], 500, 1);
    assert_eq!(clip.fade_targets(0, 0), Some((0, 19)));
    assert_eq!(clip.fade_targets(1, 0), Some((1, 18)));
    assert_eq!(clip.fade_targets(4, 0), Some((4, 15)));
    assert_eq!(clip.fade_targets(5, 0), None);
    assert_eq!(clip.fade_targets(0, 1), None);
    assert_eq!(clip.fade_targets(usize::MAX, 0), None);
    let short = clip_of(&[0.5; 3], 500, 1);
    assert_eq!(short.fade_targets(2, 0), Some((2, 0)));
    assert_eq!(short.fade_targets(3, 0), None);
    let stereo = clip_of(&[0.5; 41], 500, 2);
    assert_eq!(stereo.fade_targets(0, 0), Some((0, 38)));
    assert_eq!(stereo.fade_targets(0, 1), Some((1, 39)));
    assert_eq!(stereo.fade_targets(3, 1), Some((7, 33)));
    assert_eq!(stereo.fade_targets(4, 0), Some((8, 30)));
    assert_eq!(stereo.fade_targets(4, 2), None);
    assert_eq!(stereo.fade_targets(5, 0), None);
}

#[test]
fn finished_clip_fades_in_and_out() {
    let mut clip = clip_of(&[0.5; 81], 1000, 2);
    clip.clean();
    assert_eq!(clip.len_samples(), 80);
    assert_eq!(clip.len_samples() % 2, 0);
    fade(&mut clip);
    let faded = values(&clip);
    let expected = [0.0f32, 0.05, 0.1, 0.15, 0.2, 0.25, 0.3, 0.35, 0.4, 0.45];
    for channel in 0..2 {
        for frame in 0..10 {
            assert_eq!(faded[frame * 2 + channel], 0.5 * (frame as f32 / 10.0));
            assert!((faded[frame * 2 + channel] - expected[frame]).abs() < 1e-6);
            assert_eq!(faded[(39 - frame) * 2 + channel], faded[frame * 2 + channel]);
        }
        for frame in 1..10 {
            assert!(faded[frame * 2 + channel].abs() > faded[(frame - 1) * 2 + channel].abs());
            assert!(faded[(39 - frame) * 2 + channel].abs() > faded[(40 - frame) * 2 + channel].abs());
        }
        for frame in 10..30 {
            assert_eq!(faded[frame * 2 + channel], 0.5);
        }
    }
}

#[test]
fn short_clip_fades_over_all_its_frames() {
    let mut clip = clip_of(&[1.0; 4], 1000, 1);
    clip.clean();
    assert_eq!(clip.fade_steps(), 4);
    fade(&mut clip);
    let first = 0.0f32;
    let second = 0.1f32 * 0.2f32;
    assert_eq!(values(&clip), vec![first, second, second, first]);
}

#[test]
fn set_sample_writes_within_the_clip_only() {
    let mut clip = clip_of(&[1.0, 2.0, 3.0], 44100, 1);
    assert!(clip.set_sample(1, 9.0f32.to_bits()));
    assert_eq!(values(&clip), vec![1.0, 9.0, 3.0]);
    assert!(!clip.set_sample(3, 4.0f32.to_bits()));
    assert_eq!(values(&clip), vec![1.0, 9.0, 3.0]);
    assert_eq!(clip.format().len_frames, 3);
}

#[test]
fn get_sample_past_the_end_is_none() {
    let clip = clip_of(&[1.0, 2.0], 44100, 2);
    assert_eq!(clip.get_sample(0), Some(1.0f32.to_bits()));
    assert_eq!(clip.get_sample(1), Some(2.0f32.to_bits()));
    assert_eq!(clip.get_sample(2), None);
    assert_eq!(clip.get_sample(usize::MAX), None);
}

#[test]
fn sample_position_is_frame_times_channels_plus_channel() {
    let clip = clip_of(&[0.0; 6], 44100, 3);
    assert_eq!(clip.sample_position(0, 0), 0);
    assert_eq!(clip.sample_position(1, 2), 5);
    assert_eq!(clip.sample_position(7, 1), 22);
    assert_eq!(clip.sample_position(u32::MAX, u32::MAX), u32::MAX as u64 * 3 + u32::MAX as u64);
    let wide = AudioClip::empty(format(44100, u32::MAX));
    assert_eq!(wide.sample_position(u32::MAX, u32::MAX), u32::MAX as u64 * u32::MAX as u64 + u32::MAX as u64);
}

#[test]
fn read_at_the_recorded_tempo_is_the_sample_itself() {
    let samples: Vec<f32> = (0..24).map(|i| i as f32 * 0.25).collect();
    let clip = clip_of(&samples, 44100, 2);
    let recorded = f64::from_bits(clip.format().beats_per_second);
    for playback in [recorded] {
        for frame in 0..12u32 {
            for channel in 0..2u32 {
                let position = (clip.sample_position(frame, channel) as f64 * (playback / recorded)).round() as usize;
                assert_eq!(
                    clip.get_sample(position).map(f32::from_bits),
                    Some(samples[(frame * 2 + channel) as usize])
                );
            }
        }
    }
    let position = (clip.sample_position(12, 0) as f64 * (recorded / recorded)).round() as usize;
    assert_eq!(clip.get_sample(position), None);
}

#[test]
fn read_at_another_tempo_strides_through_the_clip() {
    let samples: Vec<f32> = (0..16).map(|i| i as f32).collect();
    let clip = clip_of(&samples, 44100, 1);
    let recorded = f64::from_bits(clip.format().beats_per_second);
    let position = |frame: u32, playback: f64| (clip.sample_position(frame, 0) as f64 * (playback / recorded)).round() as usize;
    assert_eq!(clip.get_sample(position(3, 4.0)).map(f32::from_bits), Some(6.0));
    assert_eq!(clip.get_sample(position(6, 1.0)).map(f32::from_bits), Some(3.0));
    assert_eq!(clip.get_sample(position(8, 4.0)), None);
}

#[test]
fn clip_clone_is_a_deep_copy() {
    let mut clip = clip_of(&[1.0, 2.0], 44100, 1);
    let copy = clip.clone();
    clip.set_sample(0, 5.0f32.to_bits());
    assert_eq!(values(&copy), vec![1.0, 2.0]);
    assert_eq!(copy.format(), AudioSourceFormat { len_frames: 2, ..format(44100, 1) });
    assert_eq!(values(&clip), vec![5.0, 2.0]);
}

#[test]
fn audio_source_reads_through_to_its_clip() {
    let source = AudioSource::AudioClip(clip_of(&[1.0, 2.0, 3.0, 4.0], 44100, 2));
    assert_eq!(source.format().len_frames, 2);
    assert_eq!(source.sample_position(1, 1), 3);
    assert_eq!(source.get_sample(3), Some(4.0f32.to_bits()));
    assert_eq!(source.get_sample(4), None);
    let copy = source.clone();
    assert_eq!(copy.get_sample(0), Some(1.0f32.to_bits()));
}
