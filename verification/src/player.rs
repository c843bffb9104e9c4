//! The cue player: it holds the baked scene, shows its first frame until the
//! user cues, plays it by the wall clock (skipping frames rather than falling
//! behind), and holds the last frame when playback runs out.
use std::time::Instant;
use vstd::prelude::*;
use vstd::string::*;

use crate::bake::{BakeError, BakedScene};
use crate::clock::{duration_as_nanos, instant_elapsed, instant_now};
use crate::config::MAX_PREVIEW_WIDTH;
use crate::media::{
    at_least_one, bake_audio_bytes, bake_estimate_fits, bake_video_bytes, decimal,
    decimal_string, downscale_bgra_to_rgba, estimate_bake_bytes, is_rgba_sample_of, playhead_at,
    playhead_frame, preview_rejects, preview_size, round_half_even, round_half_even_div,
    saturate_u64, Playhead, NANOS_PER_SECOND,
};

verus! {

/// Where the player stands.
#[derive(Debug, Clone, Copy, PartialEq, Eq, Structural)]
pub enum Transport {
    Idle,
    Baking,
    HoldFirst,
    Playing,
    HoldLast,
}

impl Transport {
    pub fn as_label(self) -> (label: &'static str)
        ensures
            label@ == match self {
                Transport::Idle => "待機"@,
                Transport::Baking => "描画中"@,
                Transport::HoldFirst => "先頭ホールド"@,
                Transport::Playing => "再生中"@,
                Transport::HoldLast => "最終ホールド"@,
            },
    {
        match self {
            Transport::Idle => "待機",
            Transport::Baking => "描画中",
            Transport::HoldFirst => "先頭ホールド",
            Transport::Playing => "再生中",
            Transport::HoldLast => "最終ホールド",
        }
    }
}

/// What the host reports of the open scene.
#[derive(Debug, Clone)]
pub struct SceneSummary {
    pub name: String,
    pub width: u32,
    pub height: u32,
    pub fps_n: i32,
    pub fps_d: i32,
    pub frame_count: u32,
    pub sample_rate: i32,
}

impl Default for SceneSummary {
    fn default() -> (s: Self)
        ensures
            s.name@ == "—"@,
            s.width == 0,
            s.height == 0,
            s.fps_n == 30,
            s.fps_d == 1,
            s.frame_count == 0,
            s.sample_rate == 48000,
    {
        Self {
            name: "—".to_owned(),
            width: 0,
            height: 0,
            fps_n: 30,
            fps_d: 1,
            frame_count: 0,
            sample_rate: 48000,
        }
    }
}

/// `s` and `t` describe the same scene.
pub open spec fn same_scene(s: SceneSummary, t: SceneSummary) -> bool {
    &&& s.name@ == t.name@
    &&& s.width == t.width
    &&& s.height == t.height
    &&& s.fps_n == t.fps_n
    &&& s.fps_d == t.fps_d
    &&& s.frame_count == t.frame_count
    &&& s.sample_rate == t.sample_rate
}

/// The sample rate as the bake estimate takes it: negative rates count as 0.
pub open spec fn unsigned_rate(rate: i32) -> u32 {
    if rate < 0 {
        0
    } else {
        rate as u32
    }
}

impl SceneSummary {
    /// Index of the last frame (0 for an empty scene).
    pub fn last_frame(&self) -> (last: u32)
        ensures
            last == if self.frame_count == 0 {
                0
            } else {
                (self.frame_count - 1) as u32
            },
    {
        self.frame_count.saturating_sub(1)
    }

    /// Memory a bake of this scene would take.
    pub fn estimated_bytes(&self) -> (bytes: u64)
        requires
            bake_estimate_fits(
                self.width,
                self.height,
                self.frame_count,
                unsigned_rate(self.sample_rate),
                self.fps_n,
                self.fps_d,
            ),
        ensures
            bytes == saturate_u64(
                bake_video_bytes(self.width, self.height, self.frame_count) + bake_audio_bytes(
                    self.frame_count,
                    unsigned_rate(self.sample_rate),
                    self.fps_n,
                    self.fps_d,
                ),
            ),
    {
        let rate: u32 = if self.sample_rate < 0 { 0 } else { self.sample_rate as u32 };
        estimate_bake_bytes(self.width, self.height, self.frame_count, rate, self.fps_n, self.fps_d)
    }

    /// This summary with the dimensions, rate and length the host's edit
    /// information reports; the name is kept. The frame count is one past
    /// the last frame that holds an object.
    pub fn with_edit_info(
        self,
        width: usize,
        height: usize,
        fps_n: i32,
        fps_d: i32,
        frame_max: usize,
        sample_rate: usize,
    ) -> (s: Self)
        ensures
            s.name == self.name,
            s.width == width as u32,
            s.height == height as u32,
            s.fps_n == fps_n,
            s.fps_d == at_least_one(fps_d as int),
            s.frame_count == (if frame_max == usize::MAX {
                usize::MAX as int
            } else {
                frame_max + 1
            }) as u32,
            s.sample_rate == sample_rate as i32,
    {
        let mut s = self;
        s.width = width as u32;
        s.height = height as u32;
        s.fps_n = fps_n;
        s.fps_d = if fps_d < 1 { 1 } else { fps_d };
        s.frame_count = frame_max.saturating_add(1) as u32;
        s.sample_rate = sample_rate as i32;
        s
    }

    /// The frame rate for display.
    pub fn fps_label(&self) -> (label: String)
        ensures
            label@ == fps_text(self.fps_n, self.fps_d),
    {
        if self.fps_d <= 1 {
            let n: u64 = if self.fps_n < 1 { 1 } else { self.fps_n as u64 };
            return decimal_string(n);
        }
        if self.fps_n == 0 {
            return "0.000".to_owned();
        }
        let a: u128 = if self.fps_n < 0 { (-(self.fps_n as i64)) as u128 } else { self.fps_n as u128 };
        let d: u128 = self.fps_d as u128;
        let ghost an = a as nat;
        let ghost dn = d as nat;
        let mut scaled: u128 = a;
        let mut pow: u128 = 1;
        let mut s: u32 = 0;
        while s < 84 && scaled < TWO_POW_52 * d
            invariant
                1 <= a <= 0x8000_0000,
                2 <= d <= i32::MAX,
                an == a,
                dn == d,
                s <= 84,
                pow == two_pow(s as nat),
                scaled == a * pow,
                1 <= pow <= scaled,
                scaled < TWO_POW_52 * d * 2,
                quotient_scale(an, dn, 0) == quotient_scale(an, dn, s as nat),
            decreases 84 - s,
        {
            assert(an * two_pow(s as nat) < TWO_POW_52 * dn);
            assert(!(s as nat >= 84 || an * two_pow(s as nat) >= TWO_POW_52 * dn));
            assert(quotient_scale(an, dn, s as nat) == quotient_scale(an, dn, (s + 1) as nat));
            assert(two_pow((s + 1) as nat) == 2 * two_pow(s as nat));
            scaled = scaled * 2;
            pow = pow * 2;
            s = s + 1;
            assert(scaled == a * pow) by (nonlinear_arith)
                requires
                    scaled == 2 * (a * (pow / 2)),
                    pow % 2 == 0,
            ;
        }
        assert(quotient_scale(an, dn, s as nat) == s);
        let mant = round_half_even(scaled, d);
        assert(mant <= TWO_POW_52 * 2) by {
            assert(scaled / d <= TWO_POW_52 * 2 - 1) by (nonlinear_arith)
                requires
                    scaled < TWO_POW_52 * d * 2,
                    d >= 2,
            ;
        }
        let q = round_half_even(mant * 1000, pow);
        assert(q <= mant * 1000 + 1) by {
            assert((mant * 1000) / (pow as int) <= mant * 1000) by (nonlinear_arith)
                requires
                    pow >= 1,
                    mant >= 0,
            ;
        }
        let whole = (q / 1000) as u64;
        let frac = (q % 1000) as u64;
        let mut text = if self.fps_n < 0 { "-".to_owned() } else { String::new() };
        let digits = decimal_string(whole);
        text.append(digits.as_str());
        text.append(".");
        if frac < 10 {
            text.append("00");
        } else if frac < 100 {
            text.append("0");
        }
        let digits = decimal_string(frac);
        text.append(digits.as_str());
        proof {
            reveal_strlit("");
        }
        assert(text@ =~= fps_text(self.fps_n, self.fps_d));
        text
    }

    fn snapshot(&self) -> (s: Self)
        ensures
            same_scene(s, *self),
    {
        SceneSummary {
            name: self.name.clone(),
            width: self.width,
            height: self.height,
            fps_n: self.fps_n,
            fps_d: self.fps_d,
            frame_count: self.frame_count,
            sample_rate: self.sample_rate,
        }
    }
}

/// `2^s`.
pub open spec fn two_pow(s: nat) -> nat
    decreases s,
{
    if s == 0 {
        1
    } else {
        2 * two_pow((s - 1) as nat)
    }
}

/// `2^52`, the least 53-bit integer.
pub const TWO_POW_52: u128 = 0x10_0000_0000_0000;

/// The least `s` (from `from` on, at most 84) with `a * 2^s >= 2^52 * d`:
/// scaled by `2^s`, the quotient `a / d` has 53 bits before the point.
pub open spec fn quotient_scale(a: nat, d: nat, from: nat) -> nat
    decreases 84 - from,
{
    if from >= 84 || a * two_pow(from) >= TWO_POW_52 * d {
        from
    } else {
        quotient_scale(a, d, from + 1)
    }
}

/// Three decimal places: leading zeros below a hundred.
pub open spec fn three_digits(n: nat) -> Seq<char> {
    if n < 10 {
        "00"@ + decimal(n)
    } else if n < 100 {
        "0"@ + decimal(n)
    } else {
        decimal(n)
    }
}

/// The frame-rate label: the whole rate where the denominator is at most 1
/// (at least 1), else `fps_n / fps_d` as the nearest `f64` (ties to even)
/// written with three decimals, rounded half to even.
pub open spec fn fps_text(fps_n: i32, fps_d: i32) -> Seq<char> {
    if fps_d <= 1 {
        decimal(if fps_n < 1 {
            1
        } else {
            fps_n as nat
        })
    } else if fps_n == 0 {
        "0.000"@
    } else {
        let a: nat = if fps_n < 0 {
            (-fps_n) as nat
        } else {
            fps_n as nat
        };
        let s = quotient_scale(a, fps_d as nat, 0);
        let mant = round_half_even_div(a * two_pow(s), fps_d as nat);
        let q = round_half_even_div(mant * 1000, two_pow(s));
        (if fps_n < 0 {
            "-"@
        } else {
            ""@
        }) + decimal(q / 1000) + "."@ + three_digits(q % 1000)
    }
}

/// The preview image shown in the settings window.
#[derive(Debug, Clone)]
pub struct PreviewFrame {
    pub width: u32,
    pub height: u32,
    pub rgba: Vec<u8>,
    pub generation: u64,
}

/// `p` and `q` are the same preview.
pub open spec fn same_preview(p: Option<PreviewFrame>, q: Option<PreviewFrame>) -> bool {
    match (p, q) {
        (None, None) => true,
        (Some(a), Some(b)) => a.width == b.width && a.height == b.height && a.rgba@ == b.rgba@
            && a.generation == b.generation,
        _ => false,
    }
}

/// The index of the last frame of a baked scene.
pub open spec fn last_frame_of(scene: BakedScene) -> u32 {
    (if scene.video@.len() == 0 {
        0
    } else {
        scene.video@.len() - 1
    }) as u32
}

/// What `output_frame` reports for a player at `transport` holding `baked`,
/// `elapsed_nanos` after playback started, and where the transport goes:
/// nothing while idle or baking, the first frame while holding it, the
/// wall-clock frame with live audio while playing, and the last frame
/// (switching to holding it) once playback runs past the end.
pub open spec fn output_at(transport: Transport, baked: BakedScene, elapsed_nanos: u64) -> (
    Option<(u32, bool)>,
    Transport,
) {
    let last = last_frame_of(baked);
    match transport {
        Transport::Idle | Transport::Baking => (None, transport),
        Transport::HoldFirst => (Some((0u32, false)), transport),
        Transport::HoldLast => (Some((last, false)), transport),
        Transport::Playing => match playhead_at(elapsed_nanos, baked.fps_n, baked.fps_d, last) {
            Playhead::Frame(i) => (Some((i, true)), transport),
            Playhead::PastEnd => (Some((last, false)), Transport::HoldLast),
        },
    }
}

/// The player's stage, with the scene it holds once baked.
enum Stage {
    Idle,
    Baking,
    HoldFirst(BakedScene),
    Playing(BakedScene, Instant),
    HoldLast(BakedScene),
}

/// The cue player's state. One owner drives it; where threads share it they
/// do so behind a lock.
pub struct CuePlayer {
    stage: Stage,
    bake_current: u32,
    bake_total: u32,
    cancel_bake: bool,
    scene: SceneSummary,
    preview: Option<PreviewFrame>,
    preview_gen: u32,
}

impl CuePlayer {
    pub closed spec fn transport_state(&self) -> Transport {
        match self.stage {
            Stage::Idle => Transport::Idle,
            Stage::Baking => Transport::Baking,
            Stage::HoldFirst(_) => Transport::HoldFirst,
            Stage::Playing(_, _) => Transport::Playing,
            Stage::HoldLast(_) => Transport::HoldLast,
        }
    }

    /// The baked scene, held from the end of a bake until it is discarded.
    pub closed spec fn baked_scene(&self) -> Option<BakedScene> {
        match self.stage {
            Stage::HoldFirst(s) => Some(s),
            Stage::Playing(s, _) => Some(s),
            Stage::HoldLast(s) => Some(s),
            _ => None,
        }
    }

    /// When playback started, while playing.
    pub closed spec fn play_origin(&self) -> Option<Instant> {
        match self.stage {
            Stage::Playing(_, o) => Some(o),
            _ => None,
        }
    }

    /// Bake progress: frames done and frames in all.
    pub closed spec fn progress(&self) -> (u32, u32) {
        (self.bake_current, self.bake_total)
    }

    pub closed spec fn cancel_flag(&self) -> bool {
        self.cancel_bake
    }

    pub closed spec fn scene_info(&self) -> SceneSummary {
        self.scene
    }

    pub closed spec fn preview_frame(&self) -> Option<PreviewFrame> {
        self.preview
    }

    /// How many previews were set, wrapping at `u32::MAX`.
    pub closed spec fn preview_count(&self) -> u32 {
        self.preview_gen
    }

    /// A scene is held exactly while the player holds or plays.
    pub proof fn lemma_baked_iff_cued_stage(&self)
        ensures
            self.baked_scene() is Some <==> (self.transport_state() == Transport::HoldFirst
                || self.transport_state() == Transport::Playing || self.transport_state()
                == Transport::HoldLast),
            self.play_origin() is Some <==> self.transport_state() == Transport::Playing,
    {
    }

    /// `self` and `other` agree on everything but the stage.
    pub open spec fn same_but_stage(&self, other: &Self) -> bool {
        &&& self.progress() == other.progress()
        &&& self.cancel_flag() == other.cancel_flag()
        &&& self.scene_info() == other.scene_info()
        &&& self.preview_frame() == other.preview_frame()
        &&& self.preview_count() == other.preview_count()
    }

    pub fn new() -> (p: Self)
        ensures
            p.transport_state() == Transport::Idle,
            p.baked_scene() is None,
            p.progress() == (0u32, 0u32),
            !p.cancel_flag(),
            p.scene_info().name@ == "—"@,
            p.scene_info().width == 0,
            p.scene_info().height == 0,
            p.scene_info().fps_n == 30,
            p.scene_info().fps_d == 1,
            p.scene_info().frame_count == 0,
            p.scene_info().sample_rate == 48000,
            p.preview_frame() is None,
            p.preview_count() == 0,
    {
        Self {
            stage: Stage::Idle,
            bake_current: 0,
            bake_total: 0,
            cancel_bake: false,
            scene: SceneSummary::default(),
            preview: None,
            preview_gen: 0,
        }
    }

    pub fn scene_snapshot(&self) -> (s: SceneSummary)
        ensures
            same_scene(s, self.scene_info()),
    {
        self.scene.snapshot()
    }

    pub fn set_scene(&mut self, scene: SceneSummary)
        ensures
            final(self).scene_info() == scene,
            final(self).transport_state() == old(self).transport_state(),
            final(self).baked_scene() == old(self).baked_scene(),
            final(self).play_origin() == old(self).play_origin(),
            final(self).progress() == old(self).progress(),
            final(self).cancel_flag() == old(self).cancel_flag(),
            final(self).preview_frame() == old(self).preview_frame(),
            final(self).preview_count() == old(self).preview_count(),
    {
        self.scene = scene;
    }

    pub fn set_scene_name(&mut self, name: String)
        ensures
            final(self).scene_info().name == name,
            final(self).scene_info().width == old(self).scene_info().width,
            final(self).scene_info().height == old(self).scene_info().height,
            final(self).scene_info().fps_n == old(self).scene_info().fps_n,
            final(self).scene_info().fps_d == old(self).scene_info().fps_d,
            final(self).scene_info().frame_count == old(self).scene_info().frame_count,
            final(self).scene_info().sample_rate == old(self).scene_info().sample_rate,
            final(self).transport_state() == old(self).transport_state(),
            final(self).baked_scene() == old(self).baked_scene(),
            final(self).play_origin() == old(self).play_origin(),
            final(self).progress() == old(self).progress(),
            final(self).cancel_flag() == old(self).cancel_flag(),
            final(self).preview_frame() == old(self).preview_frame(),
            final(self).preview_count() == old(self).preview_count(),
    {
        self.scene.name = name;
    }

    pub fn transport(&self) -> (t: Transport)
        ensures
            t == self.transport_state(),
    {
        match &self.stage {
            Stage::Idle => Transport::Idle,
            Stage::Baking => Transport::Baking,
            Stage::HoldFirst(_) => Transport::HoldFirst,
            Stage::Playing(_, _) => Transport::Playing,
            Stage::HoldLast(_) => Transport::HoldLast,
        }
    }

    /// The baked scene, if one is held.
    pub fn baked(&self) -> (b: Option<&BakedScene>)
        ensures
            match b {
                Some(s) => self.baked_scene() == Some(*s),
                None => self.baked_scene() is None,
            },
    {
        match &self.stage {
            Stage::HoldFirst(s) => Some(s),
            Stage::Playing(s, _) => Some(s),
            Stage::HoldLast(s) => Some(s),
            _ => None,
        }
    }

    pub fn bake_progress(&self) -> (p: (u32, u32))
        ensures
            p == self.progress(),
    {
        (self.bake_current, self.bake_total)
    }

    pub fn set_bake_progress(&mut self, current: u32, total: u32)
        ensures
            final(self).progress() == (current, total),
            final(self).transport_state() == old(self).transport_state(),
            final(self).baked_scene() == old(self).baked_scene(),
            final(self).play_origin() == old(self).play_origin(),
            final(self).cancel_flag() == old(self).cancel_flag(),
            final(self).scene_info() == old(self).scene_info(),
            final(self).preview_frame() == old(self).preview_frame(),
            final(self).preview_count() == old(self).preview_count(),
    {
        self.bake_current = current;
        self.bake_total = total;
    }

    pub fn cancel_requested(&self) -> (c: bool)
        ensures
            c == self.cancel_flag(),
    {
        self.cancel_bake
    }

    pub fn request_cancel(&mut self)
        ensures
            final(self).cancel_flag(),
            final(self).transport_state() == old(self).transport_state(),
            final(self).baked_scene() == old(self).baked_scene(),
            final(self).play_origin() == old(self).play_origin(),
            final(self).progress() == old(self).progress(),
            final(self).scene_info() == old(self).scene_info(),
            final(self).preview_frame() == old(self).preview_frame(),
            final(self).preview_count() == old(self).preview_count(),
    {
        self.cancel_bake = true;
    }

    /// A bake of `total` frames starts: the previous scene and preview are
    /// discarded and cancellation is reset.
    pub fn begin_bake(&mut self, total: u32)
        ensures
            final(self).transport_state() == Transport::Baking,
            final(self).baked_scene() is None,
            final(self).progress() == (0u32, total),
            !final(self).cancel_flag(),
            final(self).preview_frame() is None,
            final(self).scene_info() == old(self).scene_info(),
            final(self).preview_count() == old(self).preview_count(),
    {
        self.cancel_bake = false;
        self.bake_current = 0;
        self.bake_total = total;
        self.preview = None;
        self.stage = Stage::Baking;
    }

    /// Discard the bake and what it produced; the player goes idle.
    pub fn abort_bake(&mut self)
        ensures
            final(self).transport_state() == Transport::Idle,
            final(self).baked_scene() is None,
            final(self).progress() == (0u32, 0u32),
            final(self).preview_frame() is None,
            final(self).cancel_flag() == old(self).cancel_flag(),
            final(self).scene_info() == old(self).scene_info(),
            final(self).preview_count() == old(self).preview_count(),
    {
        self.stage = Stage::Idle;
        self.preview = None;
        self.bake_current = 0;
        self.bake_total = 0;
    }

    /// The bake produced `scene`: hold its first frame.
    pub fn finish_bake(&mut self, scene: BakedScene)
        ensures
            final(self).transport_state() == Transport::HoldFirst,
            final(self).baked_scene() == Some(scene),
            final(self).same_but_stage(&*old(self)),
    {
        self.stage = Stage::HoldFirst(scene);
    }

    /// Start (or restart) playback from the first frame at `now`, if a scene
    /// with frames is held; otherwise nothing changes.
    pub fn cue_at(&mut self, now: Instant)
        ensures
            (old(self).baked_scene() matches Some(s) && s.video@.len() as u32 != 0) ==> {
                &&& final(self).transport_state() == Transport::Playing
                &&& final(self).baked_scene() == old(self).baked_scene()
                &&& final(self).play_origin() == Some(now)
            },
            !(old(self).baked_scene() matches Some(s) && s.video@.len() as u32 != 0) ==> {
                &&& final(self).transport_state() == old(self).transport_state()
                &&& final(self).baked_scene() == old(self).baked_scene()
                &&& final(self).play_origin() == old(self).play_origin()
            },
            final(self).same_but_stage(&*old(self)),
    {
        let mut stage = Stage::Idle;
        std::mem::swap(&mut stage, &mut self.stage);
        let next = match stage {
            Stage::HoldFirst(s) => if s.frame_count() != 0 {
                Stage::Playing(s, now)
            } else {
                Stage::HoldFirst(s)
            },
            Stage::Playing(s, origin) => if s.frame_count() != 0 {
                Stage::Playing(s, now)
            } else {
                Stage::Playing(s, origin)
            },
            Stage::HoldLast(s) => if s.frame_count() != 0 {
                Stage::Playing(s, now)
            } else {
                Stage::HoldLast(s)
            },
            other => other,
        };
        self.stage = next;
    }

    /// Start (or restart) playback from the first frame, read against the
    /// wall clock (see `cue_at`).
    pub fn cue(&mut self)
        ensures
            (old(self).baked_scene() matches Some(s) && s.video@.len() as u32 != 0) ==> {
                &&& final(self).transport_state() == Transport::Playing
                &&& final(self).baked_scene() == old(self).baked_scene()
                &&& final(self).play_origin() is Some
            },
            !(old(self).baked_scene() matches Some(s) && s.video@.len() as u32 != 0) ==> {
                &&& final(self).transport_state() == old(self).transport_state()
                &&& final(self).baked_scene() == old(self).baked_scene()
                &&& final(self).play_origin() == old(self).play_origin()
            },
            final(self).same_but_stage(&*old(self)),
    {
        self.cue_at(instant_now());
    }

    /// The frame to send `elapsed_nanos` after playback started, and whether
    /// its audio plays (`false` while a frame is held); running past the end
    /// switches to holding the last frame.
    pub fn output_frame_at(&mut self, elapsed_nanos: u64) -> (out: Option<(u32, bool)>)
        ensures
            match old(self).baked_scene() {
                None => out is None && final(self).transport_state() == old(self).transport_state(),
                Some(b) => (out, final(self).transport_state()) == output_at(
                    old(self).transport_state(),
                    b,
                    elapsed_nanos,
                ),
            },
            final(self).baked_scene() == old(self).baked_scene(),
            final(self).transport_state() == Transport::Playing ==> final(self).play_origin()
                == old(self).play_origin(),
            final(self).same_but_stage(&*old(self)),
    {
        let mut stage = Stage::Idle;
        std::mem::swap(&mut stage, &mut self.stage);
        let (out, next) = match stage {
            Stage::Idle => (None, Stage::Idle),
            Stage::Baking => (None, Stage::Baking),
            Stage::HoldFirst(s) => (Some((0u32, false)), Stage::HoldFirst(s)),
            Stage::HoldLast(s) => {
                let last = s.last_frame();
                (Some((last, false)), Stage::HoldLast(s))
            },
            Stage::Playing(s, origin) => {
                let last = s.last_frame();
                match playhead_frame(elapsed_nanos, s.fps_n, s.fps_d, last) {
                    Playhead::Frame(index) => (Some((index, true)), Stage::Playing(s, origin)),
                    Playhead::PastEnd => (Some((last, false)), Stage::HoldLast(s)),
                }
            },
        };
        self.stage = next;
        out
    }

    /// The frame to send now, read against the wall clock (see
    /// `output_frame_at`).
    pub fn output_frame(&mut self) -> (out: Option<(u32, bool)>)
        ensures
            match old(self).baked_scene() {
                None => out is None && final(self).transport_state() == old(self).transport_state(),
                Some(b) => exists|elapsed_nanos: u64|
                    (out, final(self).transport_state()) == #[trigger] output_at(
                        old(self).transport_state(),
                        b,
                        elapsed_nanos,
                    ),
            },
            final(self).baked_scene() == old(self).baked_scene(),
            final(self).transport_state() == Transport::Playing ==> final(self).play_origin()
                == old(self).play_origin(),
            final(self).same_but_stage(&*old(self)),
    {
        let elapsed: u64 = match &self.stage {
            Stage::Playing(_, origin) => {
                let nanos = duration_as_nanos(&instant_elapsed(origin));
                if nanos > u64::MAX as u128 {
                    u64::MAX
                } else {
                    nanos as u64
                }
            },
            _ => 0,
        };
        self.output_frame_at(elapsed)
    }

    /// Stop everything: cancel a running bake and discard the scene.
    pub fn clear(&mut self)
        ensures
            final(self).transport_state() == Transport::Idle,
            final(self).baked_scene() is None,
            final(self).cancel_flag(),
            final(self).progress() == (0u32, 0u32),
            final(self).preview_frame() is None,
            final(self).scene_info() == old(self).scene_info(),
            final(self).preview_count() == old(self).preview_count(),
    {
        self.cancel_bake = true;
        self.abort_bake();
    }

    /// CUE is offered while a scene is held or playing.
    pub fn cue_enabled(&self) -> (enabled: bool)
        ensures
            enabled == (self.transport_state() == Transport::HoldFirst || self.transport_state()
                == Transport::HoldLast || self.transport_state() == Transport::Playing),
    {
        match self.transport() {
            Transport::HoldFirst | Transport::HoldLast | Transport::Playing => true,
            _ => false,
        }
    }

    /// Output runs while a scene is held or playing.
    pub fn sending(&self) -> (sending: bool)
        ensures
            sending == (self.transport_state() == Transport::HoldFirst || self.transport_state()
                == Transport::HoldLast || self.transport_state() == Transport::Playing),
    {
        match self.transport() {
            Transport::HoldFirst | Transport::HoldLast | Transport::Playing => true,
            _ => false,
        }
    }

    /// The index of the frame to send now, 0 when there is none.
    pub fn current_index(&mut self) -> (index: usize)
        ensures
            match old(self).baked_scene() {
                None => index == 0 && final(self).transport_state() == old(self).transport_state(),
                Some(b) => exists|elapsed_nanos: u64|
                    {
                        let (out, t) = #[trigger] output_at(
                            old(self).transport_state(),
                            b,
                            elapsed_nanos,
                        );
                        &&& final(self).transport_state() == t
                        &&& index == match out {
                            Some((i, _)) => i as usize,
                            None => 0usize,
                        }
                    },
            },
            final(self).baked_scene() == old(self).baked_scene(),
            final(self).same_but_stage(&*old(self)),
    {
        match self.output_frame() {
            Some((index, _)) => index as usize,
            None => 0,
        }
    }

    /// Show a new preview image; each gets the next generation number.
    pub fn set_preview(&mut self, width: u32, height: u32, rgba: Vec<u8>)
        ensures
            final(self).preview_frame() matches Some(p) && p.width == width && p.height == height
                && p.rgba == rgba && p.generation == old(self).preview_count() + 1,
            final(self).preview_count() == (if old(self).preview_count() == u32::MAX {
                0
            } else {
                old(self).preview_count() + 1
            }),
            final(self).transport_state() == old(self).transport_state(),
            final(self).baked_scene() == old(self).baked_scene(),
            final(self).play_origin() == old(self).play_origin(),
            final(self).progress() == old(self).progress(),
            final(self).cancel_flag() == old(self).cancel_flag(),
            final(self).scene_info() == old(self).scene_info(),
    {
        let generation = self.preview_gen as u64 + 1;
        self.preview_gen = self.preview_gen.wrapping_add(1);
        self.preview = Some(PreviewFrame { width, height, rgba, generation });
    }

    pub fn preview_snapshot(&self) -> (p: Option<PreviewFrame>)
        ensures
            same_preview(p, self.preview_frame()),
    {
        match &self.preview {
            Some(p) => {
                let rgba = p.rgba.clone();
                assert(rgba@ =~= p.rgba@);
                Some(PreviewFrame { width: p.width, height: p.height, rgba, generation: p.generation })
            },
            None => None,
        }
    }

    /// Refresh the preview from frame `index` of the held scene, scaled to at
    /// most `MAX_PREVIEW_WIDTH` wide. Nothing changes where there is no such
    /// frame or it is too small to preview.
    pub fn update_preview(&mut self, index: u32)
        ensures
            final(self).transport_state() == old(self).transport_state(),
            final(self).baked_scene() == old(self).baked_scene(),
            final(self).play_origin() == old(self).play_origin(),
            final(self).progress() == old(self).progress(),
            final(self).cancel_flag() == old(self).cancel_flag(),
            final(self).scene_info() == old(self).scene_info(),
            match old(self).baked_scene() {
                Some(b) if index < b.video@.len() && b.video@[index as int]@.len() <= isize::MAX
                    && !preview_rejects(
                    b.width,
                    b.height,
                    b.video@[index as int]@.len() as int,
                    MAX_PREVIEW_WIDTH,
                ) => final(self).preview_frame() matches Some(p) && {
                    &&& (p.width as int, p.height as int) == preview_size(
                        b.width,
                        b.height,
                        MAX_PREVIEW_WIDTH,
                    )
                    &&& is_rgba_sample_of(
                        p.rgba@,
                        b.video@[index as int]@,
                        b.width as int,
                        b.height as int,
                        p.width as int,
                        p.height as int,
                    )
                    &&& p.generation == old(self).preview_count() + 1
                },
                _ => final(self).preview_frame() == old(self).preview_frame()
                    && final(self).preview_count() == old(self).preview_count(),
            },
    {
        let scaled = match self.baked() {
            Some(baked) => {
                let i = index as usize;
                if i < baked.video.len() {
                    let frame: &Vec<u8> = &baked.video[i];
                    // A vector never holds more than `isize::MAX` bytes.
                    if frame.len() <= isize::MAX as usize {
                        downscale_bgra_to_rgba(
                            baked.width,
                            baked.height,
                            frame.as_slice(),
                            MAX_PREVIEW_WIDTH,
                        )
                    } else {
                        None
                    }
                } else {
                    None
                }
            },
            None => None,
        };
        if let Some((width, height, rgba)) = scaled {
            self.set_preview(width, height, rgba);
        }
    }

    /// The bake ended with `result`. A cancelled bake, an error or an empty
    /// scene leaves the player idle and reports why; a scene is held at its
    /// first frame.
    pub fn on_bake_done(&mut self, result: Result<BakedScene, BakeError>) -> (res: Result<
        (),
        BakeError,
    >)
        ensures
            old(self).cancel_flag() ==> res == Err::<(), BakeError>(BakeError::Cancelled)
                && final(self).transport_state() == Transport::Idle,
            !old(self).cancel_flag() ==> match result {
                Ok(scene) => if scene.video@.len() == 0 {
                    res == Err::<(), BakeError>(BakeError::Empty) && final(self).transport_state() == Transport::Idle
                } else {
                    res is Ok && final(self).transport_state() == Transport::HoldFirst && final(self).baked_scene() == Some(scene)
                },
                Err(e) => res == Err::<(), BakeError>(e) && final(self).transport_state()
                    == Transport::Idle,
            },
            res is Err ==> final(self).progress() == (0u32, 0u32) && final(self).preview_frame() is None,
            res is Ok ==> final(self).same_but_stage(&*old(self)),
            final(self).cancel_flag() == old(self).cancel_flag(),
            final(self).scene_info() == old(self).scene_info(),
            final(self).preview_count() == old(self).preview_count(),
    {
        if self.cancel_requested() {
            self.abort_bake();
            return Err(BakeError::Cancelled);
        }
        match result {
            Ok(scene) => {
                if scene.video.len() == 0 {
                    self.abort_bake();
                    return Err(BakeError::Empty);
                }
                self.finish_bake(scene);
                Ok(())
            },
            Err(e) => {
                self.abort_bake();
                Err(e)
            },
        }
    }
}

impl Default for CuePlayer {
    fn default() -> (p: Self)
        ensures
            p.transport_state() == Transport::Idle,
            p.progress() == (0u32, 0u32),
            !p.cancel_flag(),
            p.preview_frame() is None,
            p.preview_count() == 0,
    {
        Self::new()
    }
}

/// While a frame is held the clock does not matter: the first frame before
/// the cue, the last frame once playback ran out, both without live audio.
pub proof fn lemma_holds_ignore_clock(baked: BakedScene, e1: u64, e2: u64)
    ensures
        output_at(Transport::HoldFirst, baked, e1) == (Some((0u32, false)), Transport::HoldFirst),
        output_at(Transport::HoldLast, baked, e1) == (
            Some((last_frame_of(baked), false)),
            Transport::HoldLast,
        ),
        output_at(Transport::HoldFirst, baked, e1) == output_at(Transport::HoldFirst, baked, e2),
        output_at(Transport::HoldLast, baked, e1) == output_at(Transport::HoldLast, baked, e2),
{
}

/// A cue starts playback at the first frame, with live audio: for the whole
/// first frame period after the cue (`fps_d / fps_n` seconds), the first frame
/// is sent.
pub proof fn lemma_cue_starts_at_first_frame(baked: BakedScene, elapsed_nanos: u64)
    requires
        baked.video@.len() > 0,
        elapsed_nanos * at_least_one(baked.fps_n as int) < at_least_one(baked.fps_d as int)
            * NANOS_PER_SECOND,
    ensures
        output_at(Transport::Playing, baked, elapsed_nanos) == (
            Some((0u32, true)),
            Transport::Playing,
        ),
{
    let num = elapsed_nanos * at_least_one(baked.fps_n as int);
    let den = at_least_one(baked.fps_d as int) * NANOS_PER_SECOND;
    assert(num >= 0) by (nonlinear_arith)
        requires
            num == elapsed_nanos * at_least_one(baked.fps_n as int),
            elapsed_nanos >= 0,
            at_least_one(baked.fps_n as int) >= 1,
    ;
    vstd::arithmetic::div_mod::lemma_basic_div(num, den);
}

/// Playback never rewinds: a later clock reading shows a later or the same
/// frame, and once it has run past the end it stays past the end.
pub proof fn lemma_playing_never_rewinds(baked: BakedScene, e1: u64, e2: u64)
    requires
        e1 <= e2,
    ensures
        output_at(Transport::Playing, baked, e1).1 == Transport::HoldLast ==> output_at(
            Transport::Playing,
            baked,
            e2,
        ).1 == Transport::HoldLast,
        output_at(Transport::Playing, baked, e2).0 matches Some((i2, true)) ==> output_at(
            Transport::Playing,
            baked,
            e1,
        ).0 matches Some((i1, true)) && i1 <= i2,
{
    crate::media::lemma_playhead_monotonic(e1, e2, baked.fps_n, baked.fps_d, last_frame_of(baked));
}

/// Playback ends on the last frame: when it runs out the player sends the
/// last frame without live audio and switches to holding it.
pub proof fn lemma_playback_ends_on_last_frame(baked: BakedScene, e: u64)
    requires
        output_at(Transport::Playing, baked, e).1 == Transport::HoldLast,
    ensures
        output_at(Transport::Playing, baked, e).0 == Some((last_frame_of(baked), false)),
{
}

/// Whatever the stage and the clock, the frame sent is one the scene has.
pub proof fn lemma_output_frame_in_scene(t: Transport, baked: BakedScene, e: u64)
    requires
        0 < baked.video@.len() <= u32::MAX as int + 1,
    ensures
        output_at(t, baked, e).0 matches Some((i, _)) ==> (i as int) < baked.video@.len(),
{
}

} // verus!
