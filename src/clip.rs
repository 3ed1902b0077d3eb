use vstd::arithmetic::div_mod::lemma_fundamental_div_mod_converse;
use vstd::prelude::*;

verus! {

/// Identifies a finished recording handed back to the caller.
#[derive(Clone, Copy, Debug, PartialEq, Eq, Hash, Structural)]
pub struct AudioSourceId(pub u64);

/// The negotiated format of an open output stream.
#[derive(Clone, Copy, Debug, PartialEq, Eq, Structural)]
pub struct AudioFormat {
    pub frame_rate: u32,
    pub channels: u16,
}

impl AudioFormat {
    /// Samples per second over all channels.
    pub fn sample_format(&self) -> (r: u32)
        requires
            self.frame_rate * self.channels <= u32::MAX,
        ensures
            r == self.frame_rate * self.channels,
    {
        self.frame_rate * self.channels as u32
    }
}

/// One recorded frame: up to `channels` samples.
pub struct Frame {
    pub samples: Vec<u32>,
}

impl View for Frame {
    type V = Seq<u32>;

    open spec fn view(&self) -> Seq<u32> {
        self.samples@
    }
}

impl Frame {
    pub fn new() -> (r: Frame)
        ensures
            r@ == Seq::<u32>::empty(),
    {
        Frame { samples: Vec::new() }
    }

    pub fn push(&mut self, sample: u32)
        ensures
            final(self)@ == old(self)@.push(sample),
    {
        self.samples.push(sample);
    }

    /// The sample of `channel`, or silence where the frame holds none.
    pub fn sample(&self, channel: u16) -> (r: u32)
        ensures
            r == if (channel as int) < self@.len() { self@[channel as int] } else { 0 },
    {
        if (channel as usize) < self.samples.len() {
            self.samples[channel as usize]
        } else {
            0
        }
    }
}

/// All samples of `frames`, in order.
pub open spec fn flatten(frames: Seq<Seq<u32>>) -> Seq<u32>
    decreases frames.len(),
{
    if frames.len() == 0 {
        Seq::empty()
    } else {
        flatten(frames.drop_last()) + frames.last()
    }
}

/// The frames after one sample is captured with `channels` samples per frame.
pub open spec fn capture_one(frames: Seq<Seq<u32>>, channels: nat, sample: u32) -> Seq<Seq<u32>> {
    if frames.len() == 0 || frames.last().len() >= channels {
        frames.push(seq![sample])
    } else {
        frames.update(frames.len() - 1, frames.last().push(sample))
    }
}

/// The frames after each of `samples` is captured in turn, starting empty.
pub open spec fn capture(channels: nat, samples: Seq<u32>) -> Seq<Seq<u32>>
    decreases samples.len(),
{
    if samples.len() == 0 {
        Seq::empty()
    } else {
        capture_one(capture(channels, samples.drop_last()), channels, samples.last())
    }
}

/// Every frame holds `channels` samples, but the last, which holds one to `channels`.
pub open spec fn frames_shaped(frames: Seq<Seq<u32>>, channels: nat) -> bool {
    &&& forall|i: int| 0 <= i < frames.len() - 1 ==> #[trigger] frames[i].len() == channels
    &&& frames.len() > 0 ==> 1 <= frames.last().len() <= channels
}

/// The samples of shaped frames number `channels` per full frame plus those of the last.
proof fn lemma_shaped_length(frames: Seq<Seq<u32>>, channels: nat)
    requires
        frames.len() > 0,
        frames_shaped(frames, channels),
    ensures
        flatten(frames).len() == (frames.len() - 1) * channels + frames.last().len(),
    decreases frames.len(),
{
    let rest = frames.drop_last();
    assert(flatten(frames) == flatten(rest) + frames.last());
    if frames.len() > 1 {
        assert(rest.last() == frames[frames.len() - 2]);
        assert(rest.last().len() == channels);
        lemma_shaped_length(rest, channels);
        assert((rest.len() - 1) * channels + channels == rest.len() * channels) by (nonlinear_arith);
    } else {
        assert(flatten(rest) =~= Seq::<u32>::empty());
        assert((frames.len() - 1) * channels == 0) by (nonlinear_arith)
            requires frames.len() == 1;
    }
}

/// Capturing `samples` one by one, with `channels` samples per frame, gives
/// `ceil(N / channels)` frames for `N` samples; every frame but the last is
/// full; and the frames read in order give back exactly `samples`.
pub proof fn lemma_capture_shape(channels: nat, samples: Seq<u32>)
    requires
        channels > 0,
    ensures
        capture(channels, samples).len() == (samples.len() + channels - 1) / channels as int,
        frames_shaped(capture(channels, samples), channels),
        flatten(capture(channels, samples)) == samples,
    decreases samples.len(),
{
    let fs = capture(channels, samples);
    if samples.len() == 0 {
        lemma_fundamental_div_mod_converse(channels - 1, channels as int, 0, channels - 1);
    } else {
        let prev = samples.drop_last();
        let x = samples.last();
        lemma_capture_shape(channels, prev);
        let pf = capture(channels, prev);
        if pf.len() == 0 || pf.last().len() >= channels {
            assert(fs.drop_last() =~= pf);
            assert(fs.last() == seq![x]);
            assert(flatten(fs) =~= prev + seq![x]);
        } else {
            assert(fs.drop_last() =~= pf.drop_last());
            assert(pf.drop_last().push(pf.last()) =~= pf);
            assert(flatten(fs) =~= flatten(pf) + seq![x]);
        }
        assert(samples =~= prev.push(x));
        assert(frames_shaped(fs, channels));
        lemma_shaped_length(fs, channels);
        let k = fs.len();
        let l = fs.last().len();
        assert((k - 1) * channels + l + channels - 1 == k * channels + (l - 1)) by (nonlinear_arith)
            requires k >= 1;
        lemma_fundamental_div_mod_converse(
            samples.len() + channels - 1,
            channels as int,
            k as int,
            l - 1,
        );
    }
}

/// A clip of recorded frames in the format of the stream it was taken from.
pub struct AudioClip {
    pub frames: Vec<Frame>,
    pub format: AudioFormat,
}

impl View for AudioClip {
    type V = Seq<Seq<u32>>;

    open spec fn view(&self) -> Seq<Seq<u32>> {
        self.frames@.map_values(|f: Frame| f@)
    }
}

impl AudioClip {
    /// A clip that capture can grow: at least one channel, and frames of full width.
    pub open spec fn wf(&self) -> bool {
        &&& self.format.channels > 0
        &&& frames_shaped(self@, self.format.channels as nat)
    }

    /// Every sample of the clip, in the order it was captured.
    pub open spec fn samples(&self) -> Seq<u32> {
        flatten(self@)
    }

    pub fn new(format: AudioFormat) -> (r: AudioClip)
        ensures
            r@ == Seq::<Seq<u32>>::empty(),
            r.format == format,
            format.channels > 0 ==> r.wf(),
    {
        AudioClip { frames: Vec::new(), format }
    }

    pub fn is_empty(&self) -> (r: bool)
        ensures
            r == (self@.len() == 0),
    {
        self.frames.len() == 0
    }

    pub fn push_frame(&mut self, frame: Frame)
        ensures
            final(self)@ == old(self)@.push(frame@),
            final(self).format == old(self).format,
    {
        self.frames.push(frame);
        assert(final(self)@ =~= old(self)@.push(frame@));
    }

    /// Captures one sample: it joins the last frame while that frame has room,
    /// and otherwise opens a new frame.
    pub fn push_sample(&mut self, sample: u32)
        requires
            old(self).wf(),
        ensures
            final(self).wf(),
            final(self).format == old(self).format,
            final(self)@ == capture_one(old(self)@, old(self).format.channels as nat, sample),
            final(self).samples() == old(self).samples().push(sample),
    {
        let ghost before = self@;
        let n = self.frames.len();
        if n == 0 || self.frames[n - 1].samples.len() >= self.format.channels as usize {
            let mut samples: Vec<u32> = Vec::new();
            samples.push(sample);
            self.frames.push(Frame { samples });
            assert(self@ =~= before.push(seq![sample]));
            assert(self@.drop_last() =~= before);
        } else {
            let mut last = self.frames.pop().unwrap();
            last.push(sample);
            self.frames.push(last);
            assert(self@ =~= before.update(n - 1, before.last().push(sample)));
            assert(self@.drop_last() =~= before.drop_last());
            assert(before.drop_last().push(before.last()) =~= before);
            assert(flatten(before) == flatten(before.drop_last()) + before.last());
            assert(flatten(self@) =~= flatten(before) + seq![sample]);
        }
    }

    /// The sample of `channel` in the frame at `frame`, or silence past the clip's end.
    pub fn sample_frame(&self, frame: usize, channel: u16) -> (r: u32)
        ensures
            r == if frame < self@.len() && (channel as int) < self@[frame as int].len() {
                self@[frame as int][channel as int]
            } else {
                0
            },
    {
        if frame < self.frames.len() {
            self.frames[frame].sample(channel)
        } else {
            0
        }
    }
}

} // verus!
