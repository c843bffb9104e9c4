//! The plugin's settings and how they are normalised before use.
use vstd::prelude::*;
use vstd::string::*;

verus! {

pub const PLUGIN_DISPLAY_NAME: &'static str = "AviUtl2 OMT Live Output";

pub const PLUGIN_AUTHOR_JA: &'static str = "未完成成果物研究所";

pub const PLUGIN_AUTHOR_EN: &'static str = "Mikansei Laboratory";

pub const PROJECT_CONFIG_KEY: &'static str = "omt_live_config";

pub const DEFAULT_QUEUE_DEPTH: usize = 4;

pub const MIN_QUEUE_DEPTH: usize = 1;

pub const MAX_QUEUE_DEPTH: usize = 16;

pub const MAX_SOURCE_NAME_LEN: usize = 63;

pub const MAX_PREVIEW_WIDTH: u32 = 320;

pub const SCENE_HINT: &'static str = "出したいシーンを開いてから描画開始してください。描画中はそのシーンを編集しないでください。";

/// The source name used where none is given.
pub const DEFAULT_SOURCE_NAME: &'static str = "AviUtl2";

/// OMT wire bit of metadata frames.
pub const FRAME_TYPE_METADATA: u8 = 1;

/// OMT wire bit of video frames.
pub const FRAME_TYPE_VIDEO: u8 = 2;

/// OMT wire bit of audio frames.
pub const FRAME_TYPE_AUDIO: u8 = 4;

/// Encoding quality asked of the OMT sender.
#[derive(Debug, Clone, Copy, PartialEq, Eq, Structural)]
pub enum QualitySetting {
    Default,
    Low,
    Medium,
    High,
}

impl QualitySetting {
    /// Every setting, in the order the settings window lists them.
    pub const ALL: [QualitySetting; 4] = [
        QualitySetting::Default,
        QualitySetting::Low,
        QualitySetting::Medium,
        QualitySetting::High,
    ];

    pub fn as_label(self) -> (label: &'static str)
        ensures
            label@ == match self {
                QualitySetting::Default => "Default"@,
                QualitySetting::Low => "Low"@,
                QualitySetting::Medium => "Medium"@,
                QualitySetting::High => "High"@,
            },
    {
        match self {
            QualitySetting::Default => "Default",
            QualitySetting::Low => "Low",
            QualitySetting::Medium => "Medium",
            QualitySetting::High => "High",
        }
    }

}

impl Default for QualitySetting {
    fn default() -> (q: Self)
        ensures
            q == QualitySetting::Default,
    {
        QualitySetting::Default
    }
}

/// Colour space announced with the video.
#[derive(Debug, Clone, Copy, PartialEq, Eq, Structural)]
pub enum ColorSpaceSetting {
    Bt601,
    Bt709,
}

impl ColorSpaceSetting {
    /// Every setting, in the order the settings window lists them.
    pub const ALL: [ColorSpaceSetting; 2] = [ColorSpaceSetting::Bt601, ColorSpaceSetting::Bt709];

    pub fn as_label(self) -> (label: &'static str)
        ensures
            label@ == match self {
                ColorSpaceSetting::Bt601 => "BT.601"@,
                ColorSpaceSetting::Bt709 => "BT.709"@,
            },
    {
        match self {
            ColorSpaceSetting::Bt601 => "BT.601",
            ColorSpaceSetting::Bt709 => "BT.709",
        }
    }

}

impl Default for ColorSpaceSetting {
    fn default() -> (c: Self)
        ensures
            c == ColorSpaceSetting::Bt709,
    {
        ColorSpaceSetting::Bt709
    }
}

/// The settings saved with the project.
#[derive(Debug, Clone, PartialEq, Eq)]
pub struct PluginConfig {
    pub source_name: String,
    pub send_video: bool,
    pub send_audio: bool,
    pub quality: QualitySetting,
    pub color_space: ColorSpaceSetting,
    pub send_queue_depth: usize,
}

impl Default for PluginConfig {
    fn default() -> (c: Self)
        ensures
            c.source_name@ == DEFAULT_SOURCE_NAME@,
            c.send_video,
            c.send_audio,
            c.quality == QualitySetting::Default,
            c.color_space == ColorSpaceSetting::Bt709,
            c.send_queue_depth == DEFAULT_QUEUE_DEPTH,
    {
        Self {
            source_name: DEFAULT_SOURCE_NAME.to_owned(),
            send_video: true,
            send_audio: true,
            quality: QualitySetting::Default,
            color_space: ColorSpaceSetting::Bt709,
            send_queue_depth: DEFAULT_QUEUE_DEPTH,
        }
    }
}

/// Unicode `White_Space`, the characters that `char::is_whitespace` accepts
/// and `str::trim` removes.
pub open spec fn is_white_space(c: char) -> bool {
    let u = c as u32;
    ||| 0x9 <= u <= 0xD
    ||| u == 0x20
    ||| u == 0x85
    ||| u == 0xA0
    ||| u == 0x1680
    ||| 0x2000 <= u <= 0x200A
    ||| u == 0x2028
    ||| u == 0x2029
    ||| u == 0x202F
    ||| u == 0x205F
    ||| u == 0x3000
}

/// Nothing is left of `s` once white space is trimmed.
pub open spec fn is_blank(s: Seq<char>) -> bool {
    forall|i: int| 0 <= i < s.len() ==> #[trigger] is_white_space(s[i])
}

/// The source name after normalisation: the default for a blank name, then
/// cut to its first `MAX_SOURCE_NAME_LEN` characters.
pub open spec fn normalized_source_name(name: Seq<char>) -> Seq<char> {
    let named = if is_blank(name) {
        DEFAULT_SOURCE_NAME@
    } else {
        name
    };
    if named.len() > MAX_SOURCE_NAME_LEN {
        named.take(MAX_SOURCE_NAME_LEN as int)
    } else {
        named
    }
}

/// `n` kept between `MIN_QUEUE_DEPTH` and `MAX_QUEUE_DEPTH`.
pub open spec fn clamp_queue_depth(n: usize) -> usize {
    if n < MIN_QUEUE_DEPTH {
        MIN_QUEUE_DEPTH
    } else if n > MAX_QUEUE_DEPTH {
        MAX_QUEUE_DEPTH
    } else {
        n
    }
}

/// `out` is `c` normalised by `PluginConfig::clamped`.
pub open spec fn is_clamped_from(out: PluginConfig, c: PluginConfig) -> bool {
    &&& out.send_queue_depth == clamp_queue_depth(c.send_queue_depth)
    &&& out.source_name@ == normalized_source_name(c.source_name@)
    &&& out.send_video == (c.send_video || !c.send_audio)
    &&& out.send_audio == c.send_audio
    &&& out.quality == c.quality
    &&& out.color_space == c.color_space
}

/// The OMT frame-type bits these settings subscribe: metadata always, video
/// and audio as enabled.
pub open spec fn frame_type_bits(send_video: bool, send_audio: bool) -> u8 {
    (FRAME_TYPE_METADATA + (if send_video {
        FRAME_TYPE_VIDEO
    } else {
        0
    }) + (if send_audio {
        FRAME_TYPE_AUDIO
    } else {
        0
    })) as u8
}

fn is_white_space_char(c: char) -> (b: bool)
    ensures
        b == is_white_space(c),
{
    let u = c as u32;
    (0x9 <= u && u <= 0xD) || u == 0x20 || u == 0x85 || u == 0xA0 || u == 0x1680 || (0x2000 <= u
        && u <= 0x200A) || u == 0x2028 || u == 0x2029 || u == 0x202F || u == 0x205F || u == 0x3000
}

fn is_blank_str(s: &str) -> (b: bool)
    ensures
        b == is_blank(s@),
{
    let n = s.unicode_len();
    let mut i: usize = 0;
    while i < n
        invariant
            n == s@.len(),
            0 <= i <= n,
            forall|j: int| 0 <= j < i ==> #[trigger] is_white_space(s@[j]),
        decreases n - i,
    {
        let c = s.get_char(i);
        if !is_white_space_char(c) {
            return false;
        }
        i += 1;
    }
    true
}

impl PluginConfig {
    /// Normalise the settings: queue depth within its bounds, a non-blank
    /// source name of at most `MAX_SOURCE_NAME_LEN` characters, and at least
    /// one of video and audio sent.
    pub fn clamped(self) -> (out: Self)
        ensures
            is_clamped_from(out, self),
    {
        let mut out = self;
        out.send_queue_depth = if out.send_queue_depth < MIN_QUEUE_DEPTH {
            MIN_QUEUE_DEPTH
        } else if out.send_queue_depth > MAX_QUEUE_DEPTH {
            MAX_QUEUE_DEPTH
        } else {
            out.send_queue_depth
        };
        if is_blank_str(out.source_name.as_str()) {
            out.source_name = DEFAULT_SOURCE_NAME.to_owned();
        }
        if out.source_name.as_str().unicode_len() > MAX_SOURCE_NAME_LEN {
            let cut = out.source_name.as_str().substring_char(0, MAX_SOURCE_NAME_LEN);
            out.source_name = cut.to_owned();
        }
        if !out.send_video && !out.send_audio {
            out.send_video = true;
        }
        out
    }

    /// The OMT frame types to offer, as wire bits.
    pub fn frame_types(&self) -> (bits: u8)
        ensures
            bits == frame_type_bits(self.send_video, self.send_audio),
    {
        let mut bits = FRAME_TYPE_METADATA;
        if self.send_video {
            bits = bits | FRAME_TYPE_VIDEO;
        }
        if self.send_audio {
            bits = bits | FRAME_TYPE_AUDIO;
        }
        assert(1u8 | 2u8 == 3u8 && 1u8 | 4u8 == 5u8 && 3u8 | 4u8 == 7u8) by (bit_vector);
        bits
    }
}

/// A normalised configuration is in bounds: queue depth within limits, a
/// source name of at most `MAX_SOURCE_NAME_LEN` characters, and video or
/// audio (or both) sent.
pub proof fn lemma_clamped_in_bounds(out: PluginConfig, c: PluginConfig)
    requires
        is_clamped_from(out, c),
    ensures
        MIN_QUEUE_DEPTH <= out.send_queue_depth <= MAX_QUEUE_DEPTH,
        out.source_name@.len() <= MAX_SOURCE_NAME_LEN,
        out.send_video || out.send_audio,
{
    reveal_strlit("AviUtl2");
}

/// Normalising twice changes nothing more than normalising once, for every
/// configuration whose source name does not start with a blank run of
/// `MAX_SOURCE_NAME_LEN` characters followed by more text (cutting such a
/// name leaves it blank, and the second pass replaces it by the default).
pub proof fn lemma_clamped_idempotent(c: PluginConfig, once: PluginConfig, twice: PluginConfig)
    requires
        is_clamped_from(once, c),
        is_clamped_from(twice, once),
        !is_blank(normalized_source_name(c.source_name@)),
    ensures
        twice.source_name@ == once.source_name@,
        twice.send_queue_depth == once.send_queue_depth,
        twice.send_video == once.send_video,
        twice.send_audio == once.send_audio,
        twice.quality == once.quality,
        twice.color_space == once.color_space,
{
    reveal_strlit("AviUtl2");
}

} // verus!
