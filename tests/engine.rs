use audio_engine::catalog::{AudioDevices, ConfigRange, DeviceReport, SampleFormat};
use audio_engine::clip::AudioFormat;
use audio_engine::engine::{
    latency_samples, plan_streams, resolve_device, stream_format, Command, ConfigError,
    DeviceChoice, HandleState, OutputState, StreamPlan,
};

fn catalog() -> AudioDevices {
    let r = |name: &str| DeviceReport {
        name: name.to_string(),
        configs: vec![ConfigRange {
            channels: 2,
            min_sample_rate: 44_100,
            max_sample_rate: 48_000,
            sample_format: SampleFormat::F32,
        }],
    };
    AudioDevices::enumerate(&vec![r("line in")], &vec![r("speakers"), r("headphones")]).unwrap()
}

#[test]
fn default_devices_start_running() {
    let mut handle = HandleState::new();
    assert!(!handle.running());
    let plan = handle.restart(&None, &None).unwrap();
    assert_eq!(plan, StreamPlan { input: DeviceChoice::Default, output: DeviceChoice::Default });
    assert!(handle.running());
    handle.devices_refreshed(catalog());
    assert!(handle.running());
    handle.stop_engine();
    assert!(!handle.running());
    handle.start_engine();
    assert!(handle.running());
}

#[test]
fn restart_with_unknown_output_keeps_running_engine() {
    let mut handle = HandleState::new();
    handle.devices_refreshed(catalog());
    handle.restart(&None, &Some("speakers".to_string())).unwrap();
    assert!(handle.running());
    let r = handle.restart(&None, &Some("hdmi".to_string()));
    assert_eq!(r, Err(ConfigError::DeviceNotFound));
    assert!(handle.running());
    assert_eq!(handle.audio_devices.output_devices.entries.len(), 2);
}

#[test]
fn restart_failure_when_stopped_stays_stopped() {
    let mut handle = HandleState::new();
    let r = handle.restart(&Some("line in".to_string()), &None);
    assert_eq!(r, Err(ConfigError::DeviceNotFound));
    assert!(!handle.running());
}

#[test]
fn named_devices_resolve() {
    let devices = catalog();
    let plan = plan_streams(&Some("line in".to_string()), &Some("headphones".to_string()), &devices);
    assert_eq!(
        plan,
        Ok(StreamPlan {
            input: DeviceChoice::Named("line in".to_string()),
            output: DeviceChoice::Named("headphones".to_string()),
        })
    );
    assert_eq!(
        resolve_device(&Some("speakers".to_string()), &devices.input_devices),
        Err(ConfigError::DeviceNotFound)
    );
}

#[test]
fn refresh_is_answered_within_one_callback() {
    let mut state = OutputState::new(AudioFormat { frame_rate: 48_000, channels: 2 });
    let pending = vec![Command::RefreshDevices];
    assert_eq!(state.handle_commands(&pending), 1);
    assert!(state.recording.is_none());
    let pending = vec![Command::RefreshDevices, Command::StartRecording, Command::RefreshDevices];
    assert_eq!(state.handle_commands(&pending), 2);
    assert!(state.recording.as_ref().unwrap().is_empty());
}

#[test]
fn single_command_handling() {
    let mut state = OutputState::new(AudioFormat { frame_rate: 48_000, channels: 2 });
    assert!(state.handle_command(Command::RefreshDevices));
    assert!(!state.handle_command(Command::StartRecording));
    assert!(state.recording.is_some());
}

#[test]
fn output_advances_position_and_passes_samples() {
    let mut state = OutputState::new(AudioFormat { frame_rate: 48_000, channels: 2 });
    assert_eq!(state.output_sample(Some(5)), 5);
    assert_eq!((state.frame, state.channel), (0, 1));
    assert_eq!(state.output_sample(None), 0);
    assert_eq!((state.frame, state.channel), (1, 0));
    state.frame = u32::MAX;
    state.output_sample(Some(1));
    state.output_sample(Some(1));
    assert_eq!((state.frame, state.channel), (0, 0));
}

#[test]
fn recording_starts_on_frame_boundary() {
    let mut state = OutputState::new(AudioFormat { frame_rate: 48_000, channels: 2 });
    state.output_sample(Some(1)); // channel 1
    state.handle_commands(&vec![Command::StartRecording]);
    state.output_sample(Some(2)); // wraps to channel 0: recorded
    state.output_sample(Some(3)); // channel 1: recorded
    state.output_sample(Some(4)); // channel 0: recorded
    let clip = state.recording.as_ref().unwrap();
    let frames: Vec<Vec<u32>> = clip.frames.iter().map(|f| f.samples.clone()).collect();
    assert_eq!(frames, vec![vec![2, 3], vec![4]]);

    let mut state = OutputState::new(AudioFormat { frame_rate: 48_000, channels: 2 });
    state.handle_commands(&vec![Command::StartRecording]);
    state.output_sample(Some(9)); // channel 1: not yet recorded
    assert!(state.recording.as_ref().unwrap().is_empty());
    state.output_sample(Some(8)); // channel 0: recording begins
    assert_eq!(state.recording.as_ref().unwrap().frames[0].samples, vec![8]);
}

#[test]
fn latency_sizes() {
    assert_eq!(latency_samples(240, 2), Ok(480));
    assert_eq!(latency_samples(0, 2), Ok(0));
    assert_eq!(latency_samples(usize::MAX / 2, 2), Err(ConfigError::LatencyTooLarge));
    assert_eq!(latency_samples(usize::MAX, 0), Ok(0));
}

#[test]
fn stream_formats() {
    assert_eq!(stream_format(48_000, 2), Ok(AudioFormat { frame_rate: 24_000, channels: 2 }));
    assert_eq!(stream_format(48_000, 0), Err(ConfigError::UnsupportedConfig));
}
