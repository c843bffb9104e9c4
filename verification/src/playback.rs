//! One tick of playback: which frame and audio go to the sender, how often
//! ticks come, and when a bake may start.
use vstd::prelude::*;

use crate::bake::{copy_samples, BakedScene};
use crate::config::{ColorSpaceSetting, PluginConfig};
use crate::media::{
    at_least_one, is_planar_le_of, max_plane_len, monotonic_step, planar_error, planar_f32_le,
    plane_views, spec_samples_per_frame, samples_per_frame, MediaError, SessionClock,
};
use crate::player::{SceneSummary, Transport};
use crate::sender::{AudioJob, DropSender, LatestSlot, VideoJob};

verus! {

/// Nanoseconds between frames at `fps_n / fps_d` frames per second.
pub fn frame_period(fps_n: i32, fps_d: i32) -> (nanos: u64)
    ensures
        nanos == (1_000_000_000 * at_least_one(fps_d as int)) / at_least_one(fps_n as int),
{
    let n: u64 = if fps_n < 1 { 1 } else { fps_n as u64 };
    let d: u64 = if fps_d < 1 { 1 } else { fps_d as u64 };
    proof {
        assert(1_000_000_000 * d <= 1_000_000_000 * (i32::MAX as int)) by (nonlinear_arith)
            requires
                d <= i32::MAX,
        ;
    }
    (1_000_000_000 * d) / n
}

/// Samples per channel that each audio block carries: the length of the
/// first baked block where it has samples, else the samples of one frame at
/// the scene's rate.
pub open spec fn expected_samples(baked: BakedScene) -> int {
    let first = if baked.audio@.len() > 0 {
        let (l, r) = baked.audio@[0];
        if l@.len() > r@.len() {
            l@.len()
        } else {
            r@.len()
        }
    } else {
        0
    };
    if first > 0 {
        first as int
    } else {
        (spec_samples_per_frame(
            at_least_one(baked.sample_rate as int) as u32,
            baked.fps_n,
            baked.fps_d,
        ) as usize) as int
    }
}

/// `samples` zero samples.
pub open spec fn silence(samples: int) -> Seq<u32> {
    Seq::new(samples as nat, |i: int| 0u32)
}

/// The two channels sent with frame `index`: its baked audio while playing
/// live, silence while a frame is held; an empty channel becomes silence.
pub open spec fn output_channels(baked: BakedScene, index: int, live_audio: bool) -> (
    Seq<u32>,
    Seq<u32>,
) {
    let samples = expected_samples(baked);
    let (l, r) = if live_audio && index < baked.audio@.len() {
        (baked.audio@[index].0@, baked.audio@[index].1@)
    } else {
        (silence(samples), silence(samples))
    };
    (
        if l.len() == 0 {
            silence(samples)
        } else {
            l
        },
        if r.len() == 0 {
            silence(samples)
        } else {
            r
        },
    )
}

/// What a tick sends as audio: while a frame is held (`live_audio` off) both
/// channels are zero samples of the expected length, whatever the frame's
/// baked audio holds; while playing live, each channel that has samples is
/// sent as baked, and an empty one as silence of the expected length.
pub proof fn lemma_output_channels(baked: BakedScene, index: int, live_audio: bool)
    ensures
        ({
            let ch = output_channels(baked, index, live_audio);
            let n = expected_samples(baked);
            &&& !live_audio ==> {
                &&& ch.0.len() == n && ch.1.len() == n
                &&& forall|i: int| 0 <= i < n ==> ch.0[i] == 0u32 && ch.1[i] == 0u32
            }
            &&& (live_audio && 0 <= index < baked.audio@.len()) ==> {
                &&& baked.audio@[index].0@.len() != 0 ==> ch.0 == baked.audio@[index].0@
                &&& baked.audio@[index].1@.len() != 0 ==> ch.1 == baked.audio@[index].1@
                &&& baked.audio@[index].0@.len() == 0 ==> ch.0.len() == n && forall|i: int|
                    0 <= i < n ==> ch.0[i] == 0u32
                &&& baked.audio@[index].1@.len() == 0 ==> ch.1.len() == n && forall|i: int|
                    0 <= i < n ==> ch.1[i] == 0u32
            }
        }),
{
    assert(expected_samples(baked) >= 0);
}

/// The row stride of a frame `width` pixels wide, as `i32` (saturating).
pub open spec fn stride_of(width: u32) -> i32 {
    let w = width as i32;
    if w * 4 > i32::MAX {
        i32::MAX
    } else if w * 4 < i32::MIN {
        i32::MIN
    } else {
        (w * 4) as i32
    }
}

/// `job` carries frame `index` of `baked` with timestamp `ts`.
pub open spec fn is_video_job_for(
    job: VideoJob,
    baked: BakedScene,
    index: int,
    ts: i64,
    color_space: ColorSpaceSetting,
) -> bool {
    &&& job.width == baked.width
    &&& job.height == baked.height
    &&& job.stride == stride_of(baked.width)
    &&& job.bgra@ == baked.video@[index]@
    &&& job.has_alpha == baked.has_alpha
    &&& job.timestamp == ts
    &&& job.fps_n == baked.fps_n
    &&& job.fps_d == baked.fps_d
    &&& job.color_space == color_space
}

/// `job` carries `channels` as planar stereo with timestamp `ts`.
pub open spec fn is_audio_job_for(
    job: AudioJob,
    baked: BakedScene,
    channels: (Seq<u32>, Seq<u32>),
    ts: i64,
) -> bool {
    let planes = seq![channels.0, channels.1];
    &&& is_planar_le_of(job.data@, planes, max_plane_len(planes))
    &&& job.timestamp == ts
    &&& job.sample_rate == baked.sample_rate
    &&& job.channels == 2
    &&& job.samples_per_channel == channels.0.len() as i32
}

/// The buffers a tick allocates stay within what a vector can hold.
pub open spec fn output_fits(baked: BakedScene, index: int, live_audio: bool) -> bool {
    &&& expected_samples(baked) * 8 <= isize::MAX
    &&& (live_audio && 0 <= index < baked.audio@.len()) ==> baked.audio@[index].0@.len() * 8
        <= isize::MAX && baked.audio@[index].1@.len() * 8 <= isize::MAX
}

fn silence_of(samples: usize) -> (v: Vec<u32>)
    ensures
        v@ == silence(samples as int),
{
    let mut v: Vec<u32> = Vec::new();
    let mut i: usize = 0;
    while i < samples
        invariant
            0 <= i <= samples,
            v@ == silence(i as int),
        decreases samples - i,
    {
        v.push(0);
        i += 1;
        assert(v@ =~= silence(i as int));
    }
    v
}

fn expected_samples_of(baked: &BakedScene) -> (n: usize)
    ensures
        n == expected_samples(*baked),
{
    let first: usize = if baked.audio.len() > 0 {
        let block = &baked.audio[0];
        if block.0.len() > block.1.len() {
            block.0.len()
        } else {
            block.1.len()
        }
    } else {
        0
    };
    if first > 0 {
        first
    } else {
        let rate: u32 = if baked.sample_rate < 1 { 1 } else { baked.sample_rate as u32 };
        samples_per_frame(rate, baked.fps_n, baked.fps_d) as usize
    }
}

/// Whether the buffers that `push_output` allocates for frame `index` fit
/// in memory.
pub fn fits_output(baked: &BakedScene, index: u32, live_audio: bool) -> (fits: bool)
    ensures
        fits == output_fits(*baked, index as int, live_audio),
{
    let samples = expected_samples_of(baked) as u64;
    let limit = isize::MAX as u64;
    if samples > limit / 8 {
        return false;
    }
    let idx = index as usize;
    if live_audio && idx < baked.audio.len() {
        let block = &baked.audio[idx];
        let l = block.0.len() as u64;
        let r = block.1.len() as u64;
        l <= limit / 8 && r <= limit / 8
    } else {
        true
    }
}

/// Hand frame `index` of `baked` to the sender: the video (when sent) into
/// the latest-wins slot, the audio (when sent) into the audio queue, both
/// stamped with the next clock timestamp. Nothing happens where the scene has
/// no such frame. An audio block that cannot be encoded is reported and not
/// queued; the video is still handed over.
pub fn push_output(
    config: &PluginConfig,
    baked: &BakedScene,
    index: u32,
    live_audio: bool,
    clock: &mut SessionClock,
    video_slot: &mut LatestSlot<VideoJob>,
    audio_tx: &mut Option<DropSender<AudioJob>>,
) -> (res: Result<(), MediaError>)
    requires
        index < baked.video@.len() && config.send_audio ==> output_fits(
            *baked,
            index as int,
            live_audio,
        ),
    ensures
        index >= baked.video@.len() ==> {
            &&& res is Ok
            &&& final(clock).last_tick() == old(clock).last_tick()
            &&& *final(video_slot) == *old(video_slot)
            &&& *final(audio_tx) == *old(audio_tx)
        },
        index < baked.video@.len() ==> {
            let ts = final(clock).last_tick();
            let channels = output_channels(*baked, index as int, live_audio);
            &&& !live_audio ==> {
                &&& channels.0.len() == expected_samples(*baked)
                &&& channels.1.len() == expected_samples(*baked)
                &&& forall|i: int|
                    0 <= i < channels.0.len() ==> channels.0[i] == 0u32 && channels.1[i] == 0u32
            }
            &&& exists|candidate: i64| ts == monotonic_step(old(clock).last_tick(), candidate)
            &&& ts > old(clock).last_tick() || old(clock).last_tick() == i64::MAX
            &&& config.send_video ==> exists|job: VideoJob|
                #[trigger] is_video_job_for(job, *baked, index as int, ts, config.color_space)
                    && final(video_slot).pushed(*old(video_slot), job)
            &&& !config.send_video ==> *final(video_slot) == *old(video_slot)
            &&& !config.send_audio ==> res is Ok && *final(audio_tx) == *old(audio_tx)
            &&& config.send_audio ==> match planar_error(seq![channels.0, channels.1]) {
                Some(e) => res == Err::<(), MediaError>(e) && *final(audio_tx) == *old(audio_tx),
                None => res is Ok && match *old(audio_tx) {
                    None => *final(audio_tx) is None,
                    Some(tx) => exists|job: AudioJob|
                        #[trigger] is_audio_job_for(job, *baked, channels, ts) && (*final(audio_tx) matches Some(tx2) && tx2.sent(tx, job, tx.has_room())),
                },
            }
        },
{
    proof {
        lemma_output_channels(*baked, index as int, live_audio);
    }
    let idx = index as usize;
    if idx >= baked.video.len() {
        return Ok(());
    }
    let ts = clock.next_monotonic();
    if config.send_video {
        let w = baked.width as i32;
        let stride: i32 = match w.checked_mul(4) {
            Some(s) => s,
            None => if w < 0 {
                i32::MIN
            } else {
                i32::MAX
            },
        };
        let bgra = baked.video[idx].clone();
        assert(bgra@ =~= baked.video@[idx as int]@);
        let job = VideoJob {
            width: baked.width,
            height: baked.height,
            stride,
            bgra,
            has_alpha: baked.has_alpha,
            timestamp: ts,
            fps_n: baked.fps_n,
            fps_d: baked.fps_d,
            color_space: config.color_space,
        };
        assert(is_video_job_for(job, *baked, idx as int, ts, config.color_space));
        video_slot.push(job);
    }
    if config.send_audio {
        let samples = expected_samples_of(baked);
        let (left, right) = if live_audio && idx < baked.audio.len() {
            let block = &baked.audio[idx];
            (copy_samples(block.0.as_slice()), copy_samples(block.1.as_slice()))
        } else {
            (silence_of(samples), silence_of(samples))
        };
        let left = if left.len() == 0 {
            silence_of(samples)
        } else {
            left
        };
        let right = if right.len() == 0 {
            silence_of(samples)
        } else {
            right
        };
        let ghost channels = output_channels(*baked, index as int, live_audio);
        assert(left@ == channels.0 && right@ == channels.1);
        let planes: [&[u32]; 2] = [left.as_slice(), right.as_slice()];
        let ghost pv = plane_views(planes@);
        assert(pv =~= seq![channels.0, channels.1]);
        proof {
            assert(max_plane_len(pv) <= if channels.0.len() > channels.1.len() {
                channels.0.len()
            } else {
                channels.1.len()
            }) by {
                reveal_with_fuel(max_plane_len, 3);
                assert(pv.drop_last().drop_last() =~= Seq::<Seq<u32>>::empty());
                assert(pv.drop_last() =~= seq![channels.0]);
            }
        }
        match planar_f32_le(planes.as_slice()) {
            Ok(data) => {
                let job = AudioJob {
                    data,
                    timestamp: ts,
                    sample_rate: baked.sample_rate,
                    channels: 2,
                    samples_per_channel: left.len() as i32,
                };
                assert(is_audio_job_for(job, *baked, channels, ts));
                match audio_tx {
                    Some(tx) => {
                        let _ = tx.try_send(job);
                    },
                    None => {},
                }
            },
            Err(e) => {
                return Err(e);
            },
        }
    }
    Ok(())
}

/// Why a bake cannot start.
#[derive(Debug, Clone, Copy, PartialEq, Eq, Structural)]
pub enum BakeStartError {
    /// The open scene has no size or no frames.
    InvalidScene,
    /// The host's edit handle is not ready yet.
    EditHandleNotReady,
    /// A bake is already running; the request is ignored.
    AlreadyBaking,
}

/// A bake request is refused while the player is already baking.
pub fn check_not_baking(transport: Transport) -> (res: Result<(), BakeStartError>)
    ensures
        res == if transport == Transport::Baking {
            Err::<(), BakeStartError>(BakeStartError::AlreadyBaking)
        } else {
            Ok(())
        },
{
    match transport {
        Transport::Baking => Err(BakeStartError::AlreadyBaking),
        _ => Ok(()),
    }
}

/// Whether the open scene can be baked: it needs a size and frames, and the
/// host's edit handle must be ready.
pub fn check_bake_start(scene: &SceneSummary, handle_ready: bool) -> (res: Result<
    (),
    BakeStartError,
>)
    ensures
        (scene.width == 0 || scene.height == 0 || scene.frame_count == 0) ==> res == Err::<
            (),
            BakeStartError,
        >(BakeStartError::InvalidScene),
        !(scene.width == 0 || scene.height == 0 || scene.frame_count == 0) ==> (res == if handle_ready {
            Ok::<(), BakeStartError>(())
        } else {
            Err(BakeStartError::EditHandleNotReady)
        }),
{
    if scene.width == 0 || scene.height == 0 || scene.frame_count == 0 {
        return Err(BakeStartError::InvalidScene);
    }
    if !handle_ready {
        return Err(BakeStartError::EditHandleNotReady);
    }
    Ok(())
}

} // verus!
