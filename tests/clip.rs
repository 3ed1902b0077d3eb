use audio_engine::clip::{AudioClip, AudioFormat, Frame};

fn bits(values: &[f32]) -> Vec<u32> {
    values.iter().map(|v| v.to_bits()).collect()
}

fn frames_of(clip: &AudioClip) -> Vec<Vec<u32>> {
    clip.frames.iter().map(|f| f.samples.clone()).collect()
}

#[test]
fn stereo_capture_of_three_samples() {
    let mut clip = AudioClip::new(AudioFormat { frame_rate: 44_100, channels: 2 });
    for s in bits(&[0.1, 0.2, 0.3]) {
        clip.push_sample(s);
    }
    assert_eq!(frames_of(&clip), vec![bits(&[0.1, 0.2]), bits(&[0.3])]);
}

#[test]
fn capture_shape_and_order() {
    let samples: Vec<u32> = (1..=7).collect();
    let mut clip = AudioClip::new(AudioFormat { frame_rate: 48_000, channels: 3 });
    for &s in &samples {
        clip.push_sample(s);
    }
    let frames = frames_of(&clip);
    assert_eq!(frames.len(), 3);
    assert_eq!(frames[0].len(), 3);
    assert_eq!(frames[1].len(), 3);
    assert_eq!(frames[2].len(), 1);
    let flat: Vec<u32> = frames.concat();
    assert_eq!(flat, samples);
}

#[test]
fn capture_exact_multiple_fills_every_frame() {
    let mut clip = AudioClip::new(AudioFormat { frame_rate: 48_000, channels: 2 });
    for s in 0..4u32 {
        clip.push_sample(s);
    }
    assert_eq!(frames_of(&clip), vec![vec![0, 1], vec![2, 3]]);
}

#[test]
fn mono_capture_one_frame_per_sample() {
    let mut clip = AudioClip::new(AudioFormat { frame_rate: 8_000, channels: 1 });
    assert!(clip.is_empty());
    clip.push_sample(9);
    clip.push_sample(8);
    assert!(!clip.is_empty());
    assert_eq!(frames_of(&clip), vec![vec![9], vec![8]]);
}

#[test]
fn frame_sample_defaults_to_silence() {
    let mut frame = Frame::new();
    frame.push(0.5f32.to_bits());
    assert_eq!(frame.sample(0), 0.5f32.to_bits());
    assert_eq!(frame.sample(1), 0);
}

#[test]
fn clip_sample_frame_lookup() {
    let mut clip = AudioClip::new(AudioFormat { frame_rate: 100, channels: 2 });
    for s in [1u32, 2, 3] {
        clip.push_sample(s);
    }
    assert_eq!(clip.sample_frame(0, 1), 2);
    assert_eq!(clip.sample_frame(1, 0), 3);
    assert_eq!(clip.sample_frame(1, 1), 0);
    assert_eq!(clip.sample_frame(5, 0), 0);
}

#[test]
fn push_frame_appends_as_given() {
    let mut clip = AudioClip::new(AudioFormat { frame_rate: 100, channels: 2 });
    clip.push_frame(Frame { samples: vec![4, 5] });
    assert_eq!(frames_of(&clip), vec![vec![4, 5]]);
}

#[test]
fn sample_format_multiplies_rate_by_channels() {
    let format = AudioFormat { frame_rate: 22_050, channels: 2 };
    assert_eq!(format.sample_format(), 44_100);
}
