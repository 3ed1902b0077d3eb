use crate::catalog::{AudioDevices, DeviceTable};
use crate::clip::{capture_one, AudioClip, AudioFormat};
use vstd::prelude::*;

verus! {

/// A control request from the caller to the engine.
#[derive(Clone, Copy, Debug, PartialEq, Eq, Structural)]
pub enum Command {
    RefreshDevices,
    StartRecording,
}

/// Why the engine could not be (re)started.
#[derive(Clone, Copy, Debug, PartialEq, Eq, Structural)]
pub enum ConfigError {
    /// A device was named that the catalog does not list.
    DeviceNotFound,
    /// No device was named and the host has no default one.
    NoDefaultDevice,
    /// The device offers no usable stream configuration.
    UnsupportedConfig,
    /// The requested latency needs a buffer larger than memory can address.
    LatencyTooLarge,
}

/// Which device a stream is to be opened on.
#[derive(Debug, PartialEq, Eq)]
pub enum DeviceChoice {
    Default,
    Named(String),
}

/// The devices a stream pair is to be opened on.
#[derive(Debug, PartialEq, Eq)]
pub struct StreamPlan {
    pub input: DeviceChoice,
    pub output: DeviceChoice,
}

/// The device that a request resolves to against a table: the named one
/// when listed, the host's default when none is named.
pub open spec fn resolves(requested: Option<String>, table: Map<Seq<char>, crate::catalog::DeviceInfo>, r: Result<DeviceChoice, ConfigError>) -> bool {
    match requested {
        None => r == Ok::<DeviceChoice, ConfigError>(DeviceChoice::Default),
        Some(n) => if table.contains_key(n@) {
            r matches Ok(DeviceChoice::Named(m)) && m@ == n@
        } else {
            r == Err::<DeviceChoice, ConfigError>(ConfigError::DeviceNotFound)
        },
    }
}

/// Resolves a requested device against the catalog's table.
pub fn resolve_device(requested: &Option<String>, table: &DeviceTable) -> (r: Result<DeviceChoice, ConfigError>)
    requires
        table.wf(),
    ensures
        resolves(*requested, table@, r),
{
    match requested {
        None => Ok(DeviceChoice::Default),
        Some(name) => {
            if table.contains(name) {
                Ok(DeviceChoice::Named(name.clone()))
            } else {
                Err(ConfigError::DeviceNotFound)
            }
        },
    }
}

/// Resolves both devices of a (re)start request; the input is resolved first.
pub fn plan_streams(
    input_device: &Option<String>,
    output_device: &Option<String>,
    devices: &AudioDevices,
) -> (r: Result<StreamPlan, ConfigError>)
    requires
        devices.wf(),
    ensures
        match r {
            Ok(p) => resolves(*input_device, devices.input_devices@, Ok(p.input))
                && resolves(*output_device, devices.output_devices@, Ok(p.output)),
            Err(e) => e == ConfigError::DeviceNotFound && (
                (input_device matches Some(n) && !devices.input_devices@.contains_key(n@))
                || (output_device matches Some(n) && !devices.output_devices@.contains_key(n@))),
        },
{
    let input = match resolve_device(input_device, &devices.input_devices) {
        Ok(c) => c,
        Err(e) => return Err(e),
    };
    let output = match resolve_device(output_device, &devices.output_devices) {
        Ok(c) => c,
        Err(e) => return Err(e),
    };
    Ok(StreamPlan { input, output })
}

/// The format of an output stream negotiated at `sample_rate` with
/// `channels` channels; the frame rate is the sample rate shared out over
/// the channels.
pub fn stream_format(sample_rate: u32, channels: u16) -> (r: Result<AudioFormat, ConfigError>)
    ensures
        channels == 0 ==> r == Err::<AudioFormat, ConfigError>(ConfigError::UnsupportedConfig),
        channels > 0 ==> r == Ok::<AudioFormat, ConfigError>(
            AudioFormat { frame_rate: (sample_rate / channels as u32) as u32, channels },
        ),
{
    if channels == 0 {
        Err(ConfigError::UnsupportedConfig)
    } else {
        Ok(AudioFormat { frame_rate: sample_rate / channels as u32, channels })
    }
}

/// The number of samples of delay for `latency_frames` frames of
/// `channels` samples each; the buffer holds twice as many, which must be
/// addressable.
pub fn latency_samples(latency_frames: usize, channels: u16) -> (r: Result<usize, ConfigError>)
    ensures
        latency_frames * channels <= (usize::MAX - 1) / 2 ==> r == Ok::<usize, ConfigError>(
            (latency_frames * channels) as usize,
        ),
        latency_frames * channels > (usize::MAX - 1) / 2 ==> r == Err::<usize, ConfigError>(
            ConfigError::LatencyTooLarge,
        ),
{
    let limit: usize = (usize::MAX - 1) / 2;
    if channels == 0 {
        assert(latency_frames * channels == 0) by (nonlinear_arith)
            requires channels == 0;
        return Ok(0);
    }
    if latency_frames > limit / channels as usize {
        assert(latency_frames * channels > limit) by (nonlinear_arith)
            requires
                latency_frames > (limit as int) / (channels as int),
                channels > 0,
                limit >= 0;
        Err(ConfigError::LatencyTooLarge)
    } else {
        assert(latency_frames * channels <= limit) by (nonlinear_arith)
            requires
                latency_frames <= (limit as int) / (channels as int),
                channels > 0,
                limit >= 0;
        Ok(latency_frames * channels as usize)
    }
}

/// How many of `commands` ask for the device catalog.
pub open spec fn refresh_count(commands: Seq<Command>) -> nat
    decreases commands.len(),
{
    if commands.len() == 0 {
        0
    } else {
        refresh_count(commands.drop_last()) + if commands.last() == Command::RefreshDevices {
            1nat
        } else {
            0nat
        }
    }
}

/// A clip has just been started in `format` and holds nothing yet.
pub open spec fn fresh_recording(recording: Option<AudioClip>, format: AudioFormat) -> bool {
    recording matches Some(c) && c@.len() == 0 && c.format == format
}

/// The state of the output callback: the stream's format, its position and
/// the clip being recorded, if any.
pub struct OutputState {
    pub format: AudioFormat,
    pub recording: Option<AudioClip>,
    pub frame: u32,
    pub channel: u16,
}

impl OutputState {
    pub open spec fn wf(&self) -> bool {
        &&& self.format.channels > 0
        &&& self.channel < self.format.channels
        &&& self.recording matches Some(c) ==> c.wf() && c.format == self.format
    }

    /// The state of a stream that has just opened: at the start, not recording.
    pub fn new(format: AudioFormat) -> (r: OutputState)
        requires
            format.channels > 0,
        ensures
            r.wf(),
            r.format == format,
            r.recording.is_none(),
            r.frame == 0,
            r.channel == 0,
    {
        OutputState { format, recording: None, frame: 0, channel: 0 }
    }

    /// Handles one command. A recording request starts a fresh clip in the
    /// stream's format, replacing any under way; a refresh request is left
    /// to the caller to answer, and is reported by returning `true`.
    pub fn handle_command(&mut self, command: Command) -> (r: bool)
        requires
            old(self).wf(),
        ensures
            final(self).wf(),
            final(self).format == old(self).format,
            final(self).frame == old(self).frame,
            final(self).channel == old(self).channel,
            r == (command == Command::RefreshDevices),
            command == Command::RefreshDevices ==> final(self).recording == old(self).recording,
            command == Command::StartRecording ==> fresh_recording(final(self).recording, old(self).format),
    {
        match command {
            Command::RefreshDevices => true,
            Command::StartRecording => {
                self.recording = Some(AudioClip::new(self.format));
                false
            },
        }
    }

    /// Handles each pending command in order and returns how many refresh
    /// requests the caller is to answer.
    pub fn handle_commands(&mut self, commands: &Vec<Command>) -> (r: usize)
        requires
            old(self).wf(),
        ensures
            final(self).wf(),
            final(self).format == old(self).format,
            final(self).frame == old(self).frame,
            final(self).channel == old(self).channel,
            r == refresh_count(commands@),
            !commands@.contains(Command::StartRecording) ==> final(self).recording
                == old(self).recording,
            commands@.contains(Command::StartRecording) ==> fresh_recording(final(self).recording, old(self).format),
    {
        let mut count: usize = 0;
        let mut i: usize = 0;
        while i < commands.len()
            invariant
                i <= commands@.len(),
                self.wf(),
                self.format == old(self).format,
                self.frame == old(self).frame,
                self.channel == old(self).channel,
                count == refresh_count(commands@.take(i as int)),
                count <= i,
                !commands@.take(i as int).contains(Command::StartRecording) ==> self.recording
                    == old(self).recording,
                commands@.take(i as int).contains(Command::StartRecording) ==> fresh_recording(self.recording, old(self).format),
            decreases commands@.len() - i,
        {
            let command = commands[i];
            let ghost before = commands@.take(i as int);
            let refresh = self.handle_command(command);
            proof {
                let next = commands@.take(i + 1);
                assert(next.drop_last() =~= before);
                assert(next =~= before.push(command));
                if before.contains(Command::StartRecording) {
                    let k = choose|k: int| 0 <= k < before.len() && before[k] == Command::StartRecording;
                    assert(next[k] == Command::StartRecording);
                }
                if command == Command::StartRecording {
                    assert(next[i as int] == Command::StartRecording);
                }
                if next.contains(Command::StartRecording) && command != Command::StartRecording {
                    let k = choose|k: int| 0 <= k < next.len() && next[k] == Command::StartRecording;
                    assert(before[k] == Command::StartRecording);
                }
            }
            if refresh {
                count = count + 1;
            }
            i = i + 1;
        }
        assert(commands@.take(i as int) =~= commands@);
        count
    }

    /// Produces one output sample. The position moves on by one channel, and
    /// by one frame when the channels wrap. The sample is the one popped from
    /// the latency buffer, or silence when it had none. While recording, the
    /// sample is captured once the clip holds data or the channels have
    /// wrapped, so that a recording starts on a frame boundary.
    pub fn output_sample(&mut self, popped: Option<u32>) -> (r: u32)
        requires
            old(self).wf(),
        ensures
            final(self).wf(),
            final(self).format == old(self).format,
            final(self).channel == (old(self).channel + 1) % (old(self).format.channels as int),
            final(self).frame == if final(self).channel != 0 {
                old(self).frame
            } else if old(self).frame == u32::MAX {
                0
            } else {
                (old(self).frame + 1) as u32
            },
            r == match popped {
                Some(s) => s,
                None => 0u32,
            },
            match old(self).recording {
                None => final(self).recording.is_none(),
                Some(c) => final(self).recording matches Some(d) && d.format == c.format && d@ == if c@.len() > 0 || final(self).channel == 0 {
                    capture_one(c@, c.format.channels as nat, r)
                } else {
                    c@
                },
            },
    {
        self.channel = (self.channel + 1) % self.format.channels;
        if self.channel == 0 {
            self.frame = self.frame.wrapping_add(1);
        }
        let feedback: u32 = match popped {
            Some(s) => s,
            None => 0,
        };
        let channel = self.channel;
        match &mut self.recording {
            Some(clip) => {
                if !clip.is_empty() || channel == 0 {
                    clip.push_sample(feedback);
                }
            },
            None => {},
        }
        feedback
    }
}

/// The caller's view of the engine: whether a worker runs, and the last
/// catalog it reported.
pub struct HandleState {
    pub running: bool,
    pub audio_devices: AudioDevices,
}

impl HandleState {
    pub open spec fn is_running(&self) -> bool {
        self.running
    }

    pub open spec fn wf(&self) -> bool {
        self.audio_devices.wf()
    }

    /// No worker, and an empty catalog.
    pub fn new() -> (r: HandleState)
        ensures
            r.wf(),
            !r.is_running(),
            r.audio_devices.input_devices@ == Map::<Seq<char>, crate::catalog::DeviceInfo>::empty(),
            r.audio_devices.output_devices@ == Map::<Seq<char>, crate::catalog::DeviceInfo>::empty(),
    {
        HandleState { running: false, audio_devices: AudioDevices::new() }
    }

    /// Whether a worker is associated with the handle.
    pub fn running(&self) -> (r: bool)
        ensures
            r == self.is_running(),
    {
        self.running
    }

    /// Records that a worker has been started.
    pub fn start_engine(&mut self)
        ensures
            final(self).is_running(),
            final(self).audio_devices == old(self).audio_devices,
    {
        self.running = true;
    }

    /// Records that the worker has been torn down.
    pub fn stop_engine(&mut self)
        ensures
            !final(self).is_running(),
            final(self).audio_devices == old(self).audio_devices,
    {
        self.running = false;
    }

    /// Decides a restart: both devices are resolved against the last catalog
    /// before anything is torn down. On success the handle runs the new
    /// worker; on failure nothing changes, and the running worker stays.
    pub fn restart(&mut self, input_device: &Option<String>, output_device: &Option<String>) -> (r:
        Result<StreamPlan, ConfigError>)
        requires
            old(self).wf(),
        ensures
            final(self).wf(),
            final(self).audio_devices == old(self).audio_devices,
            match r {
                Ok(p) => final(self).is_running() && resolves(
                    *input_device,
                    old(self).audio_devices.input_devices@,
                    Ok(p.input),
                ) && resolves(*output_device, old(self).audio_devices.output_devices@, Ok(p.output)),
                Err(e) => final(self).is_running() == old(self).is_running() && e
                    == ConfigError::DeviceNotFound && ((input_device matches Some(n)
                    && !old(self).audio_devices.input_devices@.contains_key(n@)) || (
                output_device matches Some(n)
                    && !old(self).audio_devices.output_devices@.contains_key(n@))),
            },
    {
        let plan = plan_streams(input_device, output_device, &self.audio_devices);
        if plan.is_ok() {
            self.running = true;
        }
        plan
    }

    /// Replaces the catalog wholesale with one the worker reported.
    pub fn devices_refreshed(&mut self, devices: AudioDevices)
        requires
            devices.wf(),
        ensures
            final(self).wf(),
            final(self).audio_devices == devices,
            final(self).is_running() == old(self).is_running(),
    {
        self.audio_devices = devices;
    }
}

} // verus!
