//! The scene rendered ahead of playback, and the frame-by-frame bake that
//! produces it. The host renders one frame's video, then its audio, then the
//! next frame's video, and so on; `BakeJob` decides what each answer leads to.
use vstd::prelude::*;

use crate::media::{
    any_translucent, is_tight_bgra_of, rgba_convert_error, rgba_to_tight_bgra, MediaError,
};

verus! {

/// A scene rendered to memory: one BGRA frame and one stereo block per
/// frame. Audio samples are kept as the bit patterns of their `f32` values.
#[derive(Debug, Clone)]
pub struct BakedScene {
    pub name: String,
    pub width: u32,
    pub height: u32,
    pub fps_n: i32,
    pub fps_d: i32,
    pub sample_rate: i32,
    pub has_alpha: bool,
    pub video: Vec<Vec<u8>>,
    pub audio: Vec<(Vec<u32>, Vec<u32>)>,
}

impl BakedScene {
    /// Index of the last frame (0 for an empty scene).
    pub fn last_frame(&self) -> (last: u32)
        ensures
            last == (if self.video@.len() == 0 {
                0
            } else {
                self.video@.len() - 1
            }) as u32,
    {
        let n = self.video.len();
        (if n == 0 {
            0
        } else {
            n - 1
        }) as u32
    }

    pub fn frame_count(&self) -> (count: u32)
        ensures
            count == self.video@.len() as u32,
    {
        self.video.len() as u32
    }
}

/// What the bake asks the host to render next.
#[derive(Debug, Clone, Copy, PartialEq, Eq, Structural)]
pub enum BakeStep {
    Video(u32),
    Audio(u32),
}

/// Why a bake ended without a scene.
#[derive(Debug, Clone, PartialEq, Eq)]
pub enum BakeError {
    /// The user cancelled.
    Cancelled,
    /// A rendered frame could not be converted.
    Media(MediaError),
    /// The host never delivered a requested frame.
    RenderFailed,
    /// Video and audio ended with different frame counts.
    FrameCountMismatch,
    /// The bake produced no frames.
    Empty,
}

/// A bake in progress.
#[derive(Debug)]
pub struct BakeJob {
    last_frame: u32,
    step: BakeStep,
    scene: BakedScene,
}

/// Where a bake stands after an answer from the host.
#[derive(Debug)]
pub enum BakeOutcome {
    /// Request the job's next step.
    Continue(BakeJob),
    Failed(BakeError),
    Finished(BakedScene),
}

/// The two channels of a rendered audio block, a mono block copied to the
/// missing side.
pub open spec fn stereo_channels(left: Seq<u32>, right: Seq<u32>) -> (Seq<u32>, Seq<u32>) {
    let r = if right.len() == 0 && left.len() != 0 {
        left
    } else {
        right
    };
    let l = if left.len() == 0 && r.len() != 0 {
        r
    } else {
        left
    };
    (l, r)
}

/// A rendered block keeps its channels where it has them: a stereo block
/// stays (left, right), a block with one empty side has the other side copied
/// into it, and an empty block stays empty.
pub proof fn lemma_stereo_channels_keep_sides(left: Seq<u32>, right: Seq<u32>)
    ensures
        left.len() != 0 && right.len() != 0 ==> stereo_channels(left, right) == (left, right),
        left.len() != 0 && right.len() == 0 ==> stereo_channels(left, right) == (left, left),
        left.len() == 0 && right.len() != 0 ==> stereo_channels(left, right) == (right, right),
        left.len() == 0 && right.len() == 0 ==> stereo_channels(left, right).0.len() == 0
            && stereo_channels(left, right).1.len() == 0,
{
}

/// A vector holding the samples of `s`.
pub(crate) fn copy_samples(s: &[u32]) -> (v: Vec<u32>)
    ensures
        v@ == s@,
{
    let mut v: Vec<u32> = Vec::new();
    let mut i: usize = 0;
    while i < s.len()
        invariant
            0 <= i <= s@.len(),
            v@ == s@.take(i as int),
        decreases s@.len() - i,
    {
        v.push(s[i]);
        i += 1;
        assert(v@ =~= s@.take(i as int));
    }
    assert(s@.take(s@.len() as int) =~= s@);
    v
}

impl BakeJob {
    /// Frames `0..=last_frame()` are baked, each as video then audio.
    pub closed spec fn last(&self) -> u32 {
        self.last_frame
    }

    /// The step to request next.
    pub closed spec fn next_step(&self) -> BakeStep {
        self.step
    }

    /// The scene baked so far.
    pub closed spec fn baked(&self) -> BakedScene {
        self.scene
    }

    /// The bake is in step: before the video of frame `f`, frames `0..f` are
    /// complete; before its audio, frame `f` has its video only.
    pub open spec fn wf(&self) -> bool {
        match self.next_step() {
            BakeStep::Video(f) => f <= self.last() && self.baked().video@.len() == f
                && self.baked().audio@.len() == f,
            BakeStep::Audio(f) => f <= self.last() && self.baked().video@.len() == f + 1
                && self.baked().audio@.len() == f,
        }
    }

    /// Start baking frames `0..=last_frame` of the scene `name`.
    pub fn new(
        name: String,
        width: u32,
        height: u32,
        fps_n: i32,
        fps_d: i32,
        sample_rate: i32,
        last_frame: u32,
    ) -> (job: Self)
        ensures
            job.wf(),
            job.last() == last_frame,
            job.next_step() == BakeStep::Video(0),
            job.baked().name == name,
            job.baked().width == width,
            job.baked().height == height,
            job.baked().fps_n == fps_n,
            job.baked().fps_d == fps_d,
            job.baked().sample_rate == sample_rate,
            !job.baked().has_alpha,
            job.baked().video@.len() == 0,
            job.baked().audio@.len() == 0,
    {
        Self {
            last_frame,
            step: BakeStep::Video(0),
            scene: BakedScene {
                name,
                width,
                height,
                fps_n,
                fps_d,
                sample_rate,
                has_alpha: false,
                video: Vec::new(),
                audio: Vec::new(),
            },
        }
    }

    pub fn step(&self) -> (step: BakeStep)
        ensures
            step == self.next_step(),
    {
        self.step
    }

    /// Before a step is requested: a cancelled bake ends, any other goes on.
    pub fn resume(self, cancelled: bool) -> (outcome: BakeOutcome)
        ensures
            cancelled ==> outcome == BakeOutcome::Failed(BakeError::Cancelled),
            !cancelled ==> outcome == BakeOutcome::Continue(self),
    {
        if cancelled {
            BakeOutcome::Failed(BakeError::Cancelled)
        } else {
            BakeOutcome::Continue(self)
        }
    }

    /// The host rendered the video of the current frame: `width` x `height`
    /// RGBA with rows `pitch` bytes apart.
    pub fn on_video(self, cancelled: bool, width: u32, height: u32, pitch: u32, rgba: &[u8]) -> (outcome:
        BakeOutcome)
        requires
            self.wf(),
            self.next_step() is Video,
            rgba@.len() <= isize::MAX,
        ensures
            cancelled ==> outcome == BakeOutcome::Failed(BakeError::Cancelled),
            !cancelled ==> match rgba_convert_error(width, height, pitch, rgba@.len() as int) {
                Some(e) => outcome == BakeOutcome::Failed(BakeError::Media(e)),
                None => outcome matches BakeOutcome::Continue(job) && {
                    let before = self.baked();
                    let after = job.baked();
                    &&& job.wf()
                    &&& job.last() == self.last()
                    &&& job.next_step() == BakeStep::Audio(self.next_step()->Video_0)
                    &&& after.video@.len() == before.video@.len() + 1
                    &&& after.video@.drop_last() == before.video@
                    &&& is_tight_bgra_of(
                        after.video@.last()@,
                        rgba@,
                        width as int,
                        height as int,
                        pitch as int,
                    )
                    &&& after.audio@ == before.audio@
                    &&& after.has_alpha == (before.has_alpha || any_translucent(
                        rgba@,
                        width as int,
                        height as int,
                        pitch as int,
                    ))
                    &&& after.width == if before.video@.len() == 0 {
                        width
                    } else {
                        before.width
                    }
                    &&& after.height == if before.video@.len() == 0 {
                        height
                    } else {
                        before.height
                    }
                    &&& after.name == before.name
                    &&& after.fps_n == before.fps_n
                    &&& after.fps_d == before.fps_d
                    &&& after.sample_rate == before.sample_rate
                },
            },
    {
        if cancelled {
            return BakeOutcome::Failed(BakeError::Cancelled);
        }
        let frame = match self.step {
            BakeStep::Video(f) => f,
            BakeStep::Audio(f) => f,
        };
        match rgba_to_tight_bgra(width, height, pitch, rgba) {
            Ok(converted) => {
                let mut job = self;
                if job.scene.video.len() == 0 {
                    job.scene.width = converted.width;
                    job.scene.height = converted.height;
                }
                job.scene.has_alpha = job.scene.has_alpha || converted.has_alpha;
                let ghost before = job.scene.video@;
                job.scene.video.push(converted.bgra);
                assert(job.scene.video@.drop_last() == before);
                job.step = BakeStep::Audio(frame);
                BakeOutcome::Continue(job)
            },
            Err(e) => BakeOutcome::Failed(BakeError::Media(e)),
        }
    }

    /// The host rendered the audio of the current frame. A finished bake
    /// holds video and audio for every frame `0..=last`.
    pub fn on_audio(self, cancelled: bool, left: &[u32], right: &[u32]) -> (outcome: BakeOutcome)
        requires
            self.wf(),
            self.next_step() is Audio,
        ensures
            cancelled ==> outcome == BakeOutcome::Failed(BakeError::Cancelled),
            !cancelled ==> {
                let f = self.next_step()->Audio_0;
                let before = self.baked();
                let block = stereo_channels(left@, right@);
                let pushed = |after: BakedScene|
                    {
                        &&& after.audio@.len() == before.audio@.len() + 1
                        &&& after.audio@.drop_last() == before.audio@
                        &&& after.audio@.last().0@ == block.0
                        &&& after.audio@.last().1@ == block.1
                        &&& after.audio@.last().0@ == if left@.len() != 0 {
                            left@
                        } else {
                            right@
                        }
                        &&& after.audio@.last().1@ == if right@.len() != 0 {
                            right@
                        } else {
                            left@
                        }
                        &&& after.video@ == before.video@
                        &&& after.name == before.name
                        &&& after.width == before.width
                        &&& after.height == before.height
                        &&& after.fps_n == before.fps_n
                        &&& after.fps_d == before.fps_d
                        &&& after.sample_rate == before.sample_rate
                        &&& after.has_alpha == before.has_alpha
                    };
                if f < self.last() {
                    outcome matches BakeOutcome::Continue(job) && job.wf() && job.last()
                        == self.last() && job.next_step() == BakeStep::Video((f + 1) as u32)
                        && pushed(job.baked())
                } else {
                    outcome matches BakeOutcome::Finished(scene) && pushed(scene)
                        && scene.video@.len() == self.last() + 1 && scene.audio@.len()
                        == self.last() + 1
                }
            },
    {
        if cancelled {
            return BakeOutcome::Failed(BakeError::Cancelled);
        }
        let frame = match self.step {
            BakeStep::Video(f) => f,
            BakeStep::Audio(f) => f,
        };
        let mut left_samples = copy_samples(left);
        let mut right_samples = copy_samples(right);
        if right_samples.len() == 0 && left_samples.len() != 0 {
            right_samples = copy_samples(left);
        }
        if left_samples.len() == 0 && right_samples.len() != 0 {
            left_samples = copy_samples(right_samples.as_slice());
        }
        let mut job = self;
        let ghost before = job.scene.audio@;
        job.scene.audio.push((left_samples, right_samples));
        assert(job.scene.audio@.drop_last() == before);
        assert(job.scene.audio@.last().0@ == if left@.len() != 0 {
            left@
        } else {
            right@
        });
        assert(job.scene.audio@.last().1@ == if right@.len() != 0 {
            right@
        } else {
            left@
        });
        if frame < job.last_frame {
            job.step = BakeStep::Video(frame + 1);
            BakeOutcome::Continue(job)
        } else if job.scene.video.len() != job.scene.audio.len() {
            BakeOutcome::Failed(BakeError::FrameCountMismatch)
        } else {
            BakeOutcome::Finished(job.scene)
        }
    }
}

} // verus!
