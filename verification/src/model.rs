//! Clips, tracks, projects and the media library.

use crate::ids::{fresh_id, is_uuid};
use crate::paths::{file_stem, stem_of};
use crate::numbers::{Real, HALF_BITS, ONE_BITS};
use crate::text::{clone_all, clone_option, option_view, owned};
use vstd::prelude::*;

verus! {

/// What a clip shows.
#[derive(Debug, Clone, Copy, PartialEq, Eq, Structural)]
pub enum ClipKind {
    Video,
    Audio,
    Image,
    Title,
    Adjustment,
    Compound,
    Multicam,
    Audition,
    Drawing,
}

/// What a track holds.
#[derive(Debug, Clone, Copy, PartialEq, Eq, Structural)]
pub enum TrackKind {
    Video,
    Audio,
}

/// How a value moves from one keyframe to the next.
#[derive(Debug, Clone, Copy, PartialEq, Eq, Structural)]
pub enum KeyframeInterpolation {
    Linear,
    Hold,
    EaseIn,
    EaseOut,
    EaseInOut,
    Bezier,
}

/// The inner control points of a Bézier segment.
#[derive(Debug, Clone, Copy, PartialEq, Eq, Structural)]
pub struct BezierControls {
    pub x1: Real,
    pub y1: Real,
    pub x2: Real,
    pub y2: Real,
}

/// A value at a time within a clip.
#[derive(Debug, Clone, Copy, PartialEq, Eq, Structural)]
pub struct NumericKeyframe {
    pub time_ns: u64,
    pub value: Real,
    pub interpolation: KeyframeInterpolation,
    pub bezier_controls: Option<BezierControls>,
}

/// A keyframe of a colour parameter, in the parameter's fixed-point unit.
#[derive(Debug, Clone, Copy, PartialEq, Eq, Structural)]
pub struct FixedKeyframe {
    pub time_ns: u64,
    pub value: i64,
}

/// An audio stream of a media file.
#[derive(Debug, Clone)]
pub struct AudioSourceStreamInfo {
    pub stream_index: u32,
    pub channels: u32,
    pub channel_layout: Option<String>,
    pub sample_rate_hz: Option<u32>,
    pub language: Option<String>,
    pub title: Option<String>,
}

/// One of the takes that an audition clip chooses among.
#[derive(Debug, Clone)]
pub struct AuditionTake {
    pub id: String,
    pub label: String,
    pub source_path: String,
    pub source_in: u64,
    pub source_out: u64,
    pub source_timecode_base_ns: Option<u64>,
    pub media_duration_ns: Option<u64>,
}

/// A word of a subtitle with its time.
#[derive(Debug, Clone)]
pub struct SubtitleWord {
    pub start_ns: u64,
    pub end_ns: u64,
    pub text: String,
}

/// A subtitle.
#[derive(Debug, Clone)]
pub struct SubtitleSegment {
    pub id: String,
    pub start_ns: u64,
    pub end_ns: u64,
    pub text: String,
    pub words: Vec<SubtitleWord>,
}

/// A region of the picture, in fractions of its size.
#[derive(Debug, Clone, Copy, PartialEq, Eq, Structural)]
pub struct TrackingRegion {
    pub center_x: Real,
    pub center_y: Real,
    pub width: Real,
    pub height: Real,
    pub rotation_deg: Real,
}

/// Where a tracked region is at a time.
#[derive(Debug, Clone, Copy, PartialEq, Eq, Structural)]
pub struct TrackingSample {
    pub time_ns: u64,
    pub offset_x: Real,
    pub offset_y: Real,
    pub scale_multiplier: Real,
    pub rotation_deg: Real,
    pub confidence: Real,
}

/// The path of a tracked region.
#[derive(Debug, Clone)]
pub struct MotionTracker {
    pub id: String,
    pub label: String,
    pub enabled: bool,
    pub analysis_region: TrackingRegion,
    pub analysis_start_ns: u64,
    pub analysis_end_ns: Option<u64>,
    pub samples: Vec<TrackingSample>,
}

/// How a clip or mask follows a tracker.
#[derive(Debug, Clone)]
pub struct TrackingBinding {
    pub source_clip_id: String,
    pub tracker_id: String,
    pub apply_translation: bool,
    pub apply_scale: bool,
    pub apply_rotation: bool,
    pub offset_x: Real,
    pub offset_y: Real,
    pub scale_multiplier: Real,
    pub rotation_offset_deg: Real,
    pub strength: Real,
    pub smoothing: Real,
}

/// The outline of a mask.
#[derive(Debug, Clone, Copy, PartialEq, Eq, Structural)]
pub enum MaskShape {
    Rectangle,
    Ellipse,
    Path,
}

/// A mask of a clip.
#[derive(Debug, Clone)]
pub struct ClipMask {
    pub shape: MaskShape,
    pub center_x: Real,
    pub center_y: Real,
    pub width: Real,
    pub height: Real,
    pub rotation: Real,
    pub center_x_keyframes: Vec<NumericKeyframe>,
    pub center_y_keyframes: Vec<NumericKeyframe>,
    pub width_keyframes: Vec<NumericKeyframe>,
    pub height_keyframes: Vec<NumericKeyframe>,
    pub rotation_keyframes: Vec<NumericKeyframe>,
    pub tracking_binding: Option<TrackingBinding>,
}

/// A named number of an effect, in ten-thousandths.
#[derive(Debug, Clone)]
pub struct EffectNumber {
    pub name: String,
    pub value: i64,
}

/// A named text of an effect.
#[derive(Debug, Clone)]
pub struct EffectText {
    pub name: String,
    pub value: String,
}

/// An effect plugin applied to a clip.
#[derive(Debug, Clone)]
pub struct Frei0rEffect {
    pub id: String,
    pub plugin_name: String,
    pub enabled: bool,
    pub params: Vec<EffectNumber>,
    pub string_params: Vec<EffectText>,
}

/// A clip on the timeline.
///
/// Colour parameters are whole numbers of ten-thousandths; `temperature` is in tenths of a kelvin.
#[derive(Debug)]
pub struct Clip {
    pub id: String,
    pub label: String,
    pub kind: ClipKind,
    pub source_path: String,
    pub source_in: u64,
    pub source_out: u64,
    pub timeline_start: u64,
    /// Length on the timeline where the clip is retimed.
    pub retimed_duration_ns: Option<u64>,
    pub media_duration_ns: Option<u64>,
    pub source_timecode_base_ns: Option<u64>,
    pub audio_source_stream_index: u32,
    pub audio_source_streams: Vec<AudioSourceStreamInfo>,
    pub scale: Real,
    pub position_x: Real,
    pub position_y: Real,
    pub opacity: Real,
    pub rotate: i32,
    pub flip_h: bool,
    pub flip_v: bool,
    pub crop_left: i32,
    pub crop_right: i32,
    pub crop_top: i32,
    pub crop_bottom: i32,
    pub scale_keyframes: Vec<NumericKeyframe>,
    pub position_x_keyframes: Vec<NumericKeyframe>,
    pub position_y_keyframes: Vec<NumericKeyframe>,
    pub rotate_keyframes: Vec<NumericKeyframe>,
    pub crop_left_keyframes: Vec<NumericKeyframe>,
    pub crop_right_keyframes: Vec<NumericKeyframe>,
    pub crop_top_keyframes: Vec<NumericKeyframe>,
    pub crop_bottom_keyframes: Vec<NumericKeyframe>,
    pub brightness: i64,
    pub contrast: i64,
    pub saturation: i64,
    pub temperature: i64,
    pub tint: i64,
    pub exposure: i64,
    pub black_point: i64,
    pub shadows: i64,
    pub highlights: i64,
    pub denoise: i64,
    pub sharpness: i64,
    pub blur: i64,
    pub brightness_keyframes: Vec<FixedKeyframe>,
    pub contrast_keyframes: Vec<FixedKeyframe>,
    pub saturation_keyframes: Vec<FixedKeyframe>,
    pub temperature_keyframes: Vec<FixedKeyframe>,
    pub tint_keyframes: Vec<FixedKeyframe>,
    pub lut_paths: Vec<String>,
    pub frei0r_effects: Vec<Frei0rEffect>,
    pub render_replace_enabled: bool,
    pub title_text: String,
    pub title_font: String,
    pub title_x: Real,
    pub title_y: Real,
    pub audition_takes: Option<Vec<AuditionTake>>,
    pub audition_active_take_index: usize,
    pub scene_id: Option<String>,
    /// Alignment confidence, from 0 to 1.
    pub script_confidence: Option<Real>,
    pub compound_tracks: Option<Vec<Track>>,
    pub motion_trackers: Vec<MotionTracker>,
    pub tracking_binding: Option<TrackingBinding>,
    pub masks: Vec<ClipMask>,
}

/// A track of clips.
#[derive(Debug)]
pub struct Track {
    pub id: String,
    pub kind: TrackKind,
    pub label: String,
    pub clips: Vec<Clip>,
}

/// A project.
#[derive(Debug)]
pub struct Project {
    pub title: String,
    pub tracks: Vec<Track>,
    pub dirty: bool,
}

/// A file in the media library.
#[derive(Debug, Clone)]
pub struct MediaItem {
    pub source_path: String,
    pub duration_ns: u64,
    pub is_audio_only: bool,
    pub has_audio: bool,
    pub is_image: bool,
    pub is_animated_svg: bool,
    pub is_missing: bool,
    pub source_timecode_base_ns: Option<u64>,
    pub video_width: Option<u32>,
    pub video_height: Option<u32>,
    pub frame_rate_num: Option<u32>,
    pub frame_rate_den: Option<u32>,
    pub codec_summary: Option<String>,
    pub hdr_colorimetry: Option<String>,
    pub audio_source_stream_index: u32,
    pub audio_source_streams: Vec<AudioSourceStreamInfo>,
    pub file_size_bytes: Option<u64>,
    pub bin_id: Option<String>,
}

/// A folder of the media library.
#[derive(Debug, Clone)]
pub struct MediaBin {
    pub id: String,
    pub name: String,
    pub parent_id: Option<String>,
}

/// The media library.
#[derive(Debug, Clone)]
pub struct MediaLibrary {
    pub items: Vec<MediaItem>,
    pub bins: Vec<MediaBin>,
}

/// What probing a media file finds.
#[derive(Debug, Clone)]
pub struct MediaProbeMetadata {
    pub duration_ns: Option<u64>,
    pub is_audio_only: bool,
    pub has_audio: bool,
    pub is_image: bool,
    pub is_animated_svg: bool,
    pub source_timecode_base_ns: Option<u64>,
    pub video_width: Option<u32>,
    pub video_height: Option<u32>,
    pub frame_rate_num: Option<u32>,
    pub frame_rate_den: Option<u32>,
    pub codec_summary: Option<String>,
    pub hdr_colorimetry: Option<String>,
    pub audio_source_streams: Vec<AudioSourceStreamInfo>,
    pub file_size_bytes: Option<u64>,
}

/// The length of the source range, or nothing where it is inverted.
pub open spec fn span(from: u64, to: u64) -> u64 {
    if to >= from {
        (to - from) as u64
    } else {
        0
    }
}

impl Clip {
    /// The length on the timeline.
    pub open spec fn duration_spec(&self) -> u64 {
        match self.retimed_duration_ns {
            Some(d) => d,
            None => span(self.source_in, self.source_out),
        }
    }

    /// The length on the timeline: that of the source range unless the clip is retimed.
    pub fn duration(&self) -> (r: u64)
        ensures
            r == self.duration_spec(),
    {
        match self.retimed_duration_ns {
            Some(d) => d,
            None => self.source_out.saturating_sub(self.source_in),
        }
    }

    /// The clip has no effect, no keyframe and no companion, and every parameter is neutral; it
    /// may carry a title, a scene and takes.
    pub open spec fn is_unedited(&self) -> bool {
        &&& self.retimed_duration_ns is None
        &&& self.media_duration_ns is None
        &&& self.source_timecode_base_ns is None
        &&& self.audio_source_stream_index == 0
        &&& self.audio_source_streams@.len() == 0
        &&& self.scale.bits == ONE_BITS
        &&& self.position_x.bits == 0
        &&& self.position_y.bits == 0
        &&& self.opacity.bits == ONE_BITS
        &&& self.rotate == 0
        &&& !self.flip_h
        &&& !self.flip_v
        &&& self.crop_left == 0
        &&& self.crop_right == 0
        &&& self.crop_top == 0
        &&& self.crop_bottom == 0
        &&& self.scale_keyframes@.len() == 0
        &&& self.position_x_keyframes@.len() == 0
        &&& self.position_y_keyframes@.len() == 0
        &&& self.rotate_keyframes@.len() == 0
        &&& self.crop_left_keyframes@.len() == 0
        &&& self.crop_right_keyframes@.len() == 0
        &&& self.crop_top_keyframes@.len() == 0
        &&& self.crop_bottom_keyframes@.len() == 0
        &&& self.brightness == 0
        &&& self.contrast == 10_000
        &&& self.saturation == 10_000
        &&& self.temperature == 65_000
        &&& self.tint == 0
        &&& self.exposure == 0
        &&& self.black_point == 0
        &&& self.shadows == 0
        &&& self.highlights == 0
        &&& self.denoise == 0
        &&& self.sharpness == 0
        &&& self.blur == 0
        &&& self.brightness_keyframes@.len() == 0
        &&& self.contrast_keyframes@.len() == 0
        &&& self.saturation_keyframes@.len() == 0
        &&& self.temperature_keyframes@.len() == 0
        &&& self.tint_keyframes@.len() == 0
        &&& self.lut_paths@.len() == 0
        &&& self.frei0r_effects@.len() == 0
        &&& !self.render_replace_enabled
        &&& self.title_x.bits == HALF_BITS
        &&& self.title_y.bits == HALF_BITS
        &&& self.compound_tracks is None
        &&& self.motion_trackers@.len() == 0
        &&& self.tracking_binding is None
        &&& self.masks@.len() == 0
    }

    /// The clip is unedited and carries no title, no scene and no takes.
    pub open spec fn is_plain(&self) -> bool {
        &&& self.is_unedited()
        &&& self.title_text@.len() == 0
        &&& self.title_font@ == "Sans Bold 36"@
        &&& self.audition_takes is None
        &&& self.audition_active_take_index == 0
        &&& self.scene_id is None
        &&& self.script_confidence is None
    }

    /// A plain clip that shows its source from the start to `source_out`.
    pub fn new(source_path: &str, source_out: u64, timeline_start: u64, kind: ClipKind) -> (r: Clip)
        ensures
            r.is_plain(),
            is_uuid(r.id@),
            r.source_path@ == source_path@,
            r.label@ == (match stem_of(source_path@) {
                Some(s) => s,
                None => source_path@,
            }),
            r.source_in == 0,
            r.source_out == source_out,
            r.timeline_start == timeline_start,
            r.kind == kind,
    {
        let label = match file_stem(source_path) {
            Some(s) => s,
            None => owned(source_path),
        };
        Clip {
            id: fresh_id(),
            label,
            kind,
            source_path: owned(source_path),
            source_in: 0,
            source_out,
            timeline_start,
            retimed_duration_ns: None,
            media_duration_ns: None,
            source_timecode_base_ns: None,
            audio_source_stream_index: 0,
            audio_source_streams: Vec::new(),
            scale: Real::one(),
            position_x: Real::zero(),
            position_y: Real::zero(),
            opacity: Real::one(),
            rotate: 0,
            flip_h: false,
            flip_v: false,
            crop_left: 0,
            crop_right: 0,
            crop_top: 0,
            crop_bottom: 0,
            scale_keyframes: Vec::new(),
            position_x_keyframes: Vec::new(),
            position_y_keyframes: Vec::new(),
            rotate_keyframes: Vec::new(),
            crop_left_keyframes: Vec::new(),
            crop_right_keyframes: Vec::new(),
            crop_top_keyframes: Vec::new(),
            crop_bottom_keyframes: Vec::new(),
            brightness: 0,
            contrast: 10_000,
            saturation: 10_000,
            temperature: 65_000,
            tint: 0,
            exposure: 0,
            black_point: 0,
            shadows: 0,
            highlights: 0,
            denoise: 0,
            sharpness: 0,
            blur: 0,
            brightness_keyframes: Vec::new(),
            contrast_keyframes: Vec::new(),
            saturation_keyframes: Vec::new(),
            temperature_keyframes: Vec::new(),
            tint_keyframes: Vec::new(),
            lut_paths: Vec::new(),
            frei0r_effects: Vec::new(),
            render_replace_enabled: false,
            title_text: String::new(),
            title_font: owned("Sans Bold 36"),
            title_x: Real::half(),
            title_y: Real::half(),
            audition_takes: None,
            audition_active_take_index: 0,
            scene_id: None,
            script_confidence: None,
            compound_tracks: None,
            motion_trackers: Vec::new(),
            tracking_binding: None,
            masks: Vec::new(),
        }
    }
}

impl Clip {
    /// A clip that chooses among takes and shows the one at `active`.
    pub fn new_audition(timeline_start: u64, takes: Vec<AuditionTake>, active: usize) -> (r: Clip)
        requires
            active < takes@.len(),
        ensures
            r.is_unedited(),
            is_uuid(r.id@),
            r.kind == ClipKind::Audition,
            r.timeline_start == timeline_start,
            r.source_path@ == takes@[active as int].source_path@,
            r.source_in == takes@[active as int].source_in,
            r.source_out == takes@[active as int].source_out,
            r.label@ == takes@[active as int].label@,
            r.audition_takes == Some(takes),
            r.audition_active_take_index == active,
            r.title_text@.len() == 0,
            r.title_font@ == "Sans Bold 36"@,
            r.scene_id is None,
            r.script_confidence is None,
    {
        let mut r = Clip::new(
            &takes[active].source_path,
            takes[active].source_out,
            timeline_start,
            ClipKind::Audition,
        );
        r.source_in = takes[active].source_in;
        r.label = takes[active].label.clone();
        r.audition_takes = Some(takes);
        r.audition_active_take_index = active;
        r
    }
}

impl Clip {
    /// A clip that holds tracks of its own.
    pub fn new_compound(timeline_start: u64, tracks: Vec<Track>) -> (r: Clip)
        ensures
            is_uuid(r.id@),
            r.kind == ClipKind::Compound,
            r.timeline_start == timeline_start,
            r.source_path@.len() == 0,
            r.source_in == 0,
            r.source_out == 0,
            r.compound_tracks == Some(tracks),
    {
        proof {
            reveal_strlit("");
        }
        let mut r = Clip::new("", 0, timeline_start, ClipKind::Compound);
        r.compound_tracks = Some(tracks);
        r
    }
}

impl MediaItem {
    /// A library item of which only the path and the duration are known.
    pub fn new(source_path: &str, duration_ns: u64) -> (r: MediaItem)
        ensures
            r.source_path@ == source_path@,
            r.duration_ns == duration_ns,
            !r.is_missing,
            r.bin_id is None,
            r.audio_source_stream_index == 0,
            r.audio_source_streams@.len() == 0,
    {
        MediaItem {
            source_path: owned(source_path),
            duration_ns,
            is_audio_only: false,
            has_audio: false,
            is_image: false,
            is_animated_svg: false,
            is_missing: false,
            source_timecode_base_ns: None,
            video_width: None,
            video_height: None,
            frame_rate_num: None,
            frame_rate_den: None,
            codec_summary: None,
            hdr_colorimetry: None,
            audio_source_stream_index: 0,
            audio_source_streams: Vec::new(),
            file_size_bytes: None,
            bin_id: None,
        }
    }
}

/// What an audio stream says.
#[verifier::ext_equal]
pub struct StreamView {
    pub stream_index: u32,
    pub channels: u32,
    pub channel_layout: Option<Seq<char>>,
    pub sample_rate_hz: Option<u32>,
    pub language: Option<Seq<char>>,
    pub title: Option<Seq<char>>,
}

impl AudioSourceStreamInfo {
    pub open spec fn view(&self) -> StreamView {
        StreamView {
            stream_index: self.stream_index,
            channels: self.channels,
            channel_layout: option_view(self.channel_layout),
            sample_rate_hz: self.sample_rate_hz,
            language: option_view(self.language),
            title: option_view(self.title),
        }
    }

    /// A copy.
    pub fn copied(&self) -> (r: AudioSourceStreamInfo)
        ensures
            r == *self,
    {
        AudioSourceStreamInfo {
            stream_index: self.stream_index,
            channels: self.channels,
            channel_layout: clone_option(&self.channel_layout),
            sample_rate_hz: self.sample_rate_hz,
            language: clone_option(&self.language),
            title: clone_option(&self.title),
        }
    }

    /// Whether two streams say the same.
    pub fn same_as(&self, other: &AudioSourceStreamInfo) -> (r: bool)
        ensures
            r == (self@ == other@),
    {
        self.stream_index == other.stream_index && self.channels == other.channels
            && crate::text::same_option(&self.channel_layout, &other.channel_layout)
            && self.sample_rate_hz == other.sample_rate_hz && crate::text::same_option(
            &self.language,
            &other.language,
        ) && crate::text::same_option(&self.title, &other.title)
    }
}

/// What each stream says.
pub open spec fn streams_view(s: Seq<AudioSourceStreamInfo>) -> Seq<StreamView> {
    s.map_values(|x: AudioSourceStreamInfo| x@)
}

/// A copy of a list of streams.
pub fn copy_streams(s: &Vec<AudioSourceStreamInfo>) -> (r: Vec<AudioSourceStreamInfo>)
    ensures
        r@ == s@,
{
    let mut r: Vec<AudioSourceStreamInfo> = Vec::with_capacity(s.len());
    let mut i: usize = 0;
    while i < s.len()
        invariant
            i <= s@.len(),
            r@ == s@.subrange(0, i as int),
        decreases s.len() - i,
    {
        r.push(s[i].copied());
        i = i + 1;
    }
    proof {
        assert(r@ =~= s@);
    }
    r
}

/// Whether two lists of streams say the same.
pub fn same_streams(a: &Vec<AudioSourceStreamInfo>, b: &Vec<AudioSourceStreamInfo>) -> (r: bool)
    ensures
        r == (streams_view(a@) == streams_view(b@)),
{
    if a.len() != b.len() {
        proof {
            assert(streams_view(a@).len() != streams_view(b@).len());
        }
        return false;
    }
    let mut i: usize = 0;
    while i < a.len()
        invariant
            i <= a@.len() == b@.len(),
            forall|k: int| 0 <= k < i ==> streams_view(a@)[k] == streams_view(b@)[k],
        decreases a.len() - i,
    {
        if !a[i].same_as(&b[i]) {
            proof {
                assert(streams_view(a@)[i as int] != streams_view(b@)[i as int]);
            }
            return false;
        }
        i = i + 1;
    }
    proof {
        assert(streams_view(a@) =~= streams_view(b@));
    }
    true
}

impl MediaProbeMetadata {
    /// What is known of a file before it is probed: nothing.
    pub open spec fn is_blank(&self) -> bool {
        &&& self.duration_ns is None
        &&& !self.is_audio_only
        &&& !self.has_audio
        &&& !self.is_image
        &&& !self.is_animated_svg
        &&& self.source_timecode_base_ns is None
        &&& self.video_width is None
        &&& self.video_height is None
        &&& self.frame_rate_num is None
        &&& self.frame_rate_den is None
        &&& self.codec_summary is None
        &&& self.hdr_colorimetry is None
        &&& self.audio_source_streams@.len() == 0
        &&& self.file_size_bytes is None
    }

    /// A copy.
    pub fn copied(&self) -> (r: MediaProbeMetadata)
        ensures
            r.duration_ns == self.duration_ns,
            r.is_audio_only == self.is_audio_only,
            r.has_audio == self.has_audio,
            r.is_image == self.is_image,
            r.is_animated_svg == self.is_animated_svg,
            r.source_timecode_base_ns == self.source_timecode_base_ns,
            r.video_width == self.video_width,
            r.video_height == self.video_height,
            r.frame_rate_num == self.frame_rate_num,
            r.frame_rate_den == self.frame_rate_den,
            r.codec_summary == self.codec_summary,
            r.hdr_colorimetry == self.hdr_colorimetry,
            r.audio_source_streams@ == self.audio_source_streams@,
            r.file_size_bytes == self.file_size_bytes,
    {
        MediaProbeMetadata {
            duration_ns: self.duration_ns,
            is_audio_only: self.is_audio_only,
            has_audio: self.has_audio,
            is_image: self.is_image,
            is_animated_svg: self.is_animated_svg,
            source_timecode_base_ns: self.source_timecode_base_ns,
            video_width: self.video_width,
            video_height: self.video_height,
            frame_rate_num: self.frame_rate_num,
            frame_rate_den: self.frame_rate_den,
            codec_summary: clone_option(&self.codec_summary),
            hdr_colorimetry: clone_option(&self.hdr_colorimetry),
            audio_source_streams: copy_streams(&self.audio_source_streams),
            file_size_bytes: self.file_size_bytes,
        }
    }
}

impl Default for MediaProbeMetadata {
    fn default() -> (r: Self)
        ensures
            r.is_blank(),
    {
        MediaProbeMetadata {
            duration_ns: None,
            is_audio_only: false,
            has_audio: false,
            is_image: false,
            is_animated_svg: false,
            source_timecode_base_ns: None,
            video_width: None,
            video_height: None,
            frame_rate_num: None,
            frame_rate_den: None,
            codec_summary: None,
            hdr_colorimetry: None,
            audio_source_streams: Vec::new(),
            file_size_bytes: None,
        }
    }
}

impl Track {
    /// An empty video track.
    pub fn new_video(label: &str) -> (r: Track)
        ensures
            is_uuid(r.id@),
            r.kind == TrackKind::Video,
            r.label@ == label@,
            r.clips@.len() == 0,
    {
        Track { id: fresh_id(), kind: TrackKind::Video, label: owned(label), clips: Vec::new() }
    }
}

impl Project {
    /// A project without tracks.
    pub fn new(title: &str) -> (r: Project)
        ensures
            r.title@ == title@,
            r.tracks@.len() == 0,
            !r.dirty,
    {
        Project { title: owned(title), tracks: Vec::new(), dirty: false }
    }
}

impl MediaLibrary {
    /// An empty library.
    pub fn new() -> (r: MediaLibrary)
        ensures
            r.items@.len() == 0,
            r.bins@.len() == 0,
    {
        MediaLibrary { items: Vec::new(), bins: Vec::new() }
    }
}

// -------------------------------------------------------------------- copies
/// A copy of a list of plain values.
pub fn copy_plain<T: Copy>(s: &Vec<T>) -> (r: Vec<T>)
    ensures
        r@ == s@,
{
    let mut r: Vec<T> = Vec::with_capacity(s.len());
    let mut i: usize = 0;
    while i < s.len()
        invariant
            i <= s@.len(),
            r@ == s@.subrange(0, i as int),
        decreases s.len() - i,
    {
        r.push(s[i]);
        i = i + 1;
    }
    proof {
        assert(r@ =~= s@);
    }
    r
}

/// Whether two effect numbers are the same.
pub open spec fn same_number(a: EffectNumber, b: EffectNumber) -> bool {
    &&& a.name@ == b.name@
    &&& a.value == b.value
}

impl EffectNumber {
    /// A copy.
    pub fn copied(&self) -> (r: EffectNumber)
        ensures
            same_number(*self, r),
    {
        EffectNumber {
            name: self.name.clone(),
            value: self.value,
        }
    }
}

/// Whether two lists of effect numbers are the same.
pub open spec fn same_numbers(a: Seq<EffectNumber>, b: Seq<EffectNumber>) -> bool {
    a.len() == b.len() && forall|i: int| 0 <= i < a.len() ==> same_number(#[trigger] a[i], b[i])
}

/// A copy of a list of effect numbers.
pub fn copy_numbers(s: &Vec<EffectNumber>) -> (r: Vec<EffectNumber>)
    ensures
        same_numbers(s@, r@),
{
    let mut r: Vec<EffectNumber> = Vec::with_capacity(s.len());
    let mut i: usize = 0;
    while i < s.len()
        invariant
            i <= s@.len(),
            r@.len() == i,
            forall|k: int| 0 <= k < i ==> same_number(#[trigger] s@[k], r@[k]),
        decreases s.len() - i,
    {
        r.push(s[i].copied());
        i = i + 1;
    }
    r
}

/// Whether two effect texts are the same.
pub open spec fn same_effect_text(a: EffectText, b: EffectText) -> bool {
    &&& a.name@ == b.name@
    &&& a.value@ == b.value@
}

impl EffectText {
    /// A copy.
    pub fn copied(&self) -> (r: EffectText)
        ensures
            same_effect_text(*self, r),
    {
        EffectText {
            name: self.name.clone(),
            value: self.value.clone(),
        }
    }
}

/// Whether two lists of effect texts are the same.
pub open spec fn same_texts(a: Seq<EffectText>, b: Seq<EffectText>) -> bool {
    a.len() == b.len() && forall|i: int| 0 <= i < a.len() ==> same_effect_text(#[trigger] a[i], b[i])
}

/// A copy of a list of effect texts.
pub fn copy_texts(s: &Vec<EffectText>) -> (r: Vec<EffectText>)
    ensures
        same_texts(s@, r@),
{
    let mut r: Vec<EffectText> = Vec::with_capacity(s.len());
    let mut i: usize = 0;
    while i < s.len()
        invariant
            i <= s@.len(),
            r@.len() == i,
            forall|k: int| 0 <= k < i ==> same_effect_text(#[trigger] s@[k], r@[k]),
        decreases s.len() - i,
    {
        r.push(s[i].copied());
        i = i + 1;
    }
    r
}

/// Whether two effects are the same.
pub open spec fn same_effect(a: Frei0rEffect, b: Frei0rEffect) -> bool {
    &&& a.id@ == b.id@
    &&& a.plugin_name@ == b.plugin_name@
    &&& a.enabled == b.enabled
    &&& same_numbers(a.params@, b.params@)
    &&& same_texts(a.string_params@, b.string_params@)
}

impl Frei0rEffect {
    /// A copy.
    pub fn copied(&self) -> (r: Frei0rEffect)
        ensures
            same_effect(*self, r),
    {
        Frei0rEffect {
            id: self.id.clone(),
            plugin_name: self.plugin_name.clone(),
            enabled: self.enabled,
            params: copy_numbers(&self.params),
            string_params: copy_texts(&self.string_params),
        }
    }
}

/// Whether two lists of effects are the same.
pub open spec fn same_effects(a: Seq<Frei0rEffect>, b: Seq<Frei0rEffect>) -> bool {
    a.len() == b.len() && forall|i: int| 0 <= i < a.len() ==> same_effect(#[trigger] a[i], b[i])
}

/// A copy of a list of effects.
pub fn copy_effects(s: &Vec<Frei0rEffect>) -> (r: Vec<Frei0rEffect>)
    ensures
        same_effects(s@, r@),
{
    let mut r: Vec<Frei0rEffect> = Vec::with_capacity(s.len());
    let mut i: usize = 0;
    while i < s.len()
        invariant
            i <= s@.len(),
            r@.len() == i,
            forall|k: int| 0 <= k < i ==> same_effect(#[trigger] s@[k], r@[k]),
        decreases s.len() - i,
    {
        r.push(s[i].copied());
        i = i + 1;
    }
    r
}

/// Whether two takes are the same.
pub open spec fn same_take(a: AuditionTake, b: AuditionTake) -> bool {
    &&& a.id@ == b.id@
    &&& a.label@ == b.label@
    &&& a.source_path@ == b.source_path@
    &&& a.source_in == b.source_in
    &&& a.source_out == b.source_out
    &&& a.source_timecode_base_ns == b.source_timecode_base_ns
    &&& a.media_duration_ns == b.media_duration_ns
}

impl AuditionTake {
    /// A copy.
    pub fn copied(&self) -> (r: AuditionTake)
        ensures
            same_take(*self, r),
    {
        AuditionTake {
            id: self.id.clone(),
            label: self.label.clone(),
            source_path: self.source_path.clone(),
            source_in: self.source_in,
            source_out: self.source_out,
            source_timecode_base_ns: self.source_timecode_base_ns,
            media_duration_ns: self.media_duration_ns,
        }
    }
}

/// Whether two optional lists of takes are the same.
pub open spec fn same_takes(a: Option<Vec<AuditionTake>>, b: Option<Vec<AuditionTake>>) -> bool {
    match (a, b) {
        (Some(x), Some(y)) => same_take_lists(x@, y@),
        (None, None) => true,
        _ => false,
    }
}

/// Whether two lists of takes are the same.
pub open spec fn same_take_lists(a: Seq<AuditionTake>, b: Seq<AuditionTake>) -> bool {
    a.len() == b.len() && forall|i: int| 0 <= i < a.len() ==> same_take(#[trigger] a[i], b[i])
}

/// A copy of a list of takes.
pub fn copy_takes(s: &Vec<AuditionTake>) -> (r: Vec<AuditionTake>)
    ensures
        same_take_lists(s@, r@),
{
    let mut r: Vec<AuditionTake> = Vec::with_capacity(s.len());
    let mut i: usize = 0;
    while i < s.len()
        invariant
            i <= s@.len(),
            r@.len() == i,
            forall|k: int| 0 <= k < i ==> same_take(#[trigger] s@[k], r@[k]),
        decreases s.len() - i,
    {
        r.push(s[i].copied());
        i = i + 1;
    }
    r
}

/// Whether two trackers are the same.
pub open spec fn same_tracker(a: MotionTracker, b: MotionTracker) -> bool {
    &&& a.id@ == b.id@
    &&& a.label@ == b.label@
    &&& a.enabled == b.enabled
    &&& a.analysis_region == b.analysis_region
    &&& a.analysis_start_ns == b.analysis_start_ns
    &&& a.analysis_end_ns == b.analysis_end_ns
    &&& a.samples@ == b.samples@
}

impl MotionTracker {
    /// A copy.
    pub fn copied(&self) -> (r: MotionTracker)
        ensures
            same_tracker(*self, r),
    {
        MotionTracker {
            id: self.id.clone(),
            label: self.label.clone(),
            enabled: self.enabled,
            analysis_region: self.analysis_region,
            analysis_start_ns: self.analysis_start_ns,
            analysis_end_ns: self.analysis_end_ns,
            samples: copy_plain(&self.samples),
        }
    }
}

/// Whether two lists of trackers are the same.
pub open spec fn same_trackers(a: Seq<MotionTracker>, b: Seq<MotionTracker>) -> bool {
    a.len() == b.len() && forall|i: int| 0 <= i < a.len() ==> same_tracker(#[trigger] a[i], b[i])
}

/// A copy of a list of trackers.
pub fn copy_trackers(s: &Vec<MotionTracker>) -> (r: Vec<MotionTracker>)
    ensures
        same_trackers(s@, r@),
{
    let mut r: Vec<MotionTracker> = Vec::with_capacity(s.len());
    let mut i: usize = 0;
    while i < s.len()
        invariant
            i <= s@.len(),
            r@.len() == i,
            forall|k: int| 0 <= k < i ==> same_tracker(#[trigger] s@[k], r@[k]),
        decreases s.len() - i,
    {
        r.push(s[i].copied());
        i = i + 1;
    }
    r
}

/// A copy of an optional binding.
pub fn copy_binding(b: &Option<TrackingBinding>) -> (r: Option<TrackingBinding>)
    ensures
        r == *b,
{
    match b {
        Some(x) => Some(x.copied()),
        None => None,
    }
}

impl TrackingBinding {
    /// A copy.
    pub fn copied(&self) -> (r: TrackingBinding)
        ensures
            r == *self,
    {
        TrackingBinding {
            source_clip_id: self.source_clip_id.clone(),
            tracker_id: self.tracker_id.clone(),
            apply_translation: self.apply_translation,
            apply_scale: self.apply_scale,
            apply_rotation: self.apply_rotation,
            offset_x: self.offset_x,
            offset_y: self.offset_y,
            scale_multiplier: self.scale_multiplier,
            rotation_offset_deg: self.rotation_offset_deg,
            strength: self.strength,
            smoothing: self.smoothing,
        }
    }
}

/// Whether two masks are the same.
pub open spec fn same_mask(a: ClipMask, b: ClipMask) -> bool {
    &&& a.shape == b.shape
    &&& a.center_x == b.center_x
    &&& a.center_y == b.center_y
    &&& a.width == b.width
    &&& a.height == b.height
    &&& a.rotation == b.rotation
    &&& a.center_x_keyframes@ == b.center_x_keyframes@
    &&& a.center_y_keyframes@ == b.center_y_keyframes@
    &&& a.width_keyframes@ == b.width_keyframes@
    &&& a.height_keyframes@ == b.height_keyframes@
    &&& a.rotation_keyframes@ == b.rotation_keyframes@
    &&& a.tracking_binding == b.tracking_binding
}

impl ClipMask {
    /// A copy.
    pub fn copied(&self) -> (r: ClipMask)
        ensures
            same_mask(*self, r),
    {
        ClipMask {
            shape: self.shape,
            center_x: self.center_x,
            center_y: self.center_y,
            width: self.width,
            height: self.height,
            rotation: self.rotation,
            center_x_keyframes: copy_plain(&self.center_x_keyframes),
            center_y_keyframes: copy_plain(&self.center_y_keyframes),
            width_keyframes: copy_plain(&self.width_keyframes),
            height_keyframes: copy_plain(&self.height_keyframes),
            rotation_keyframes: copy_plain(&self.rotation_keyframes),
            tracking_binding: copy_binding(&self.tracking_binding),
        }
    }
}

/// Whether two lists of masks are the same.
pub open spec fn same_masks(a: Seq<ClipMask>, b: Seq<ClipMask>) -> bool {
    a.len() == b.len() && forall|i: int| 0 <= i < a.len() ==> same_mask(#[trigger] a[i], b[i])
}

/// A copy of a list of masks.
pub fn copy_masks(s: &Vec<ClipMask>) -> (r: Vec<ClipMask>)
    ensures
        same_masks(s@, r@),
{
    let mut r: Vec<ClipMask> = Vec::with_capacity(s.len());
    let mut i: usize = 0;
    while i < s.len()
        invariant
            i <= s@.len(),
            r@.len() == i,
            forall|k: int| 0 <= k < i ==> same_mask(#[trigger] s@[k], r@[k]),
        decreases s.len() - i,
    {
        r.push(s[i].copied());
        i = i + 1;
    }
    r
}

/// Whether two clips are the same in every respect.
pub open spec fn same_clip(a: Clip, b: Clip) -> bool
    decreases a,
{
    &&& a.id@ == b.id@
    &&& a.label@ == b.label@
    &&& a.kind == b.kind
    &&& a.source_path@ == b.source_path@
    &&& a.source_in == b.source_in
    &&& a.source_out == b.source_out
    &&& a.timeline_start == b.timeline_start
    &&& a.retimed_duration_ns == b.retimed_duration_ns
    &&& a.media_duration_ns == b.media_duration_ns
    &&& a.source_timecode_base_ns == b.source_timecode_base_ns
    &&& a.audio_source_stream_index == b.audio_source_stream_index
    &&& a.audio_source_streams@ == b.audio_source_streams@
    &&& a.scale == b.scale
    &&& a.position_x == b.position_x
    &&& a.position_y == b.position_y
    &&& a.opacity == b.opacity
    &&& a.rotate == b.rotate
    &&& a.flip_h == b.flip_h
    &&& a.flip_v == b.flip_v
    &&& a.crop_left == b.crop_left
    &&& a.crop_right == b.crop_right
    &&& a.crop_top == b.crop_top
    &&& a.crop_bottom == b.crop_bottom
    &&& a.scale_keyframes@ == b.scale_keyframes@
    &&& a.position_x_keyframes@ == b.position_x_keyframes@
    &&& a.position_y_keyframes@ == b.position_y_keyframes@
    &&& a.rotate_keyframes@ == b.rotate_keyframes@
    &&& a.crop_left_keyframes@ == b.crop_left_keyframes@
    &&& a.crop_right_keyframes@ == b.crop_right_keyframes@
    &&& a.crop_top_keyframes@ == b.crop_top_keyframes@
    &&& a.crop_bottom_keyframes@ == b.crop_bottom_keyframes@
    &&& a.brightness == b.brightness
    &&& a.contrast == b.contrast
    &&& a.saturation == b.saturation
    &&& a.temperature == b.temperature
    &&& a.tint == b.tint
    &&& a.exposure == b.exposure
    &&& a.black_point == b.black_point
    &&& a.shadows == b.shadows
    &&& a.highlights == b.highlights
    &&& a.denoise == b.denoise
    &&& a.sharpness == b.sharpness
    &&& a.blur == b.blur
    &&& a.brightness_keyframes@ == b.brightness_keyframes@
    &&& a.contrast_keyframes@ == b.contrast_keyframes@
    &&& a.saturation_keyframes@ == b.saturation_keyframes@
    &&& a.temperature_keyframes@ == b.temperature_keyframes@
    &&& a.tint_keyframes@ == b.tint_keyframes@
    &&& a.lut_paths@ == b.lut_paths@
    &&& same_effects(a.frei0r_effects@, b.frei0r_effects@)
    &&& a.render_replace_enabled == b.render_replace_enabled
    &&& a.title_text@ == b.title_text@
    &&& a.title_font@ == b.title_font@
    &&& a.title_x == b.title_x
    &&& a.title_y == b.title_y
    &&& same_takes(a.audition_takes, b.audition_takes)
    &&& a.audition_active_take_index == b.audition_active_take_index
    &&& option_view(a.scene_id) == option_view(b.scene_id)
    &&& a.script_confidence == b.script_confidence
    &&& match (a.compound_tracks, b.compound_tracks) {
        (Some(x), Some(y)) => same_tracks(x@, y@),
        (None, None) => true,
        _ => false,
    }
    &&& same_trackers(a.motion_trackers@, b.motion_trackers@)
    &&& a.tracking_binding == b.tracking_binding
    &&& same_masks(a.masks@, b.masks@)
}

/// Whether two tracks are the same in every respect.
pub open spec fn same_track(a: Track, b: Track) -> bool
    decreases a,
{
    &&& a.id@ == b.id@
    &&& a.kind == b.kind
    &&& a.label@ == b.label@
    &&& a.clips@.len() == b.clips@.len()
    &&& forall|i: int| 0 <= i < a.clips@.len() ==> same_clip(#[trigger] a.clips@[i], b.clips@[i])
}

/// Whether two lists of tracks are the same in every respect.
pub open spec fn same_tracks(a: Seq<Track>, b: Seq<Track>) -> bool
    decreases a,
{
    a.len() == b.len() && forall|i: int| 0 <= i < a.len() ==> same_track(#[trigger] a[i], b[i])
}

impl Clip {
    /// A copy, with the same identifier.
    pub fn copied(&self) -> (r: Clip)
        ensures
            same_clip(*self, r),
        decreases self,
    {
        let compound_tracks = match &self.compound_tracks {
            Some(t) => Some(copy_tracks(t)),
            None => None,
        };
        Clip {
            id: self.id.clone(),
            label: self.label.clone(),
            kind: self.kind,
            source_path: self.source_path.clone(),
            source_in: self.source_in,
            source_out: self.source_out,
            timeline_start: self.timeline_start,
            retimed_duration_ns: self.retimed_duration_ns,
            media_duration_ns: self.media_duration_ns,
            source_timecode_base_ns: self.source_timecode_base_ns,
            audio_source_stream_index: self.audio_source_stream_index,
            audio_source_streams: copy_streams(&self.audio_source_streams),
            scale: self.scale,
            position_x: self.position_x,
            position_y: self.position_y,
            opacity: self.opacity,
            rotate: self.rotate,
            flip_h: self.flip_h,
            flip_v: self.flip_v,
            crop_left: self.crop_left,
            crop_right: self.crop_right,
            crop_top: self.crop_top,
            crop_bottom: self.crop_bottom,
            scale_keyframes: copy_plain(&self.scale_keyframes),
            position_x_keyframes: copy_plain(&self.position_x_keyframes),
            position_y_keyframes: copy_plain(&self.position_y_keyframes),
            rotate_keyframes: copy_plain(&self.rotate_keyframes),
            crop_left_keyframes: copy_plain(&self.crop_left_keyframes),
            crop_right_keyframes: copy_plain(&self.crop_right_keyframes),
            crop_top_keyframes: copy_plain(&self.crop_top_keyframes),
            crop_bottom_keyframes: copy_plain(&self.crop_bottom_keyframes),
            brightness: self.brightness,
            contrast: self.contrast,
            saturation: self.saturation,
            temperature: self.temperature,
            tint: self.tint,
            exposure: self.exposure,
            black_point: self.black_point,
            shadows: self.shadows,
            highlights: self.highlights,
            denoise: self.denoise,
            sharpness: self.sharpness,
            blur: self.blur,
            brightness_keyframes: copy_plain(&self.brightness_keyframes),
            contrast_keyframes: copy_plain(&self.contrast_keyframes),
            saturation_keyframes: copy_plain(&self.saturation_keyframes),
            temperature_keyframes: copy_plain(&self.temperature_keyframes),
            tint_keyframes: copy_plain(&self.tint_keyframes),
            lut_paths: clone_all(&self.lut_paths),
            frei0r_effects: copy_effects(&self.frei0r_effects),
            render_replace_enabled: self.render_replace_enabled,
            title_text: self.title_text.clone(),
            title_font: self.title_font.clone(),
            title_x: self.title_x,
            title_y: self.title_y,
            audition_takes: match &self.audition_takes {
                Some(t) => Some(copy_takes(t)),
                None => None,
            },
            audition_active_take_index: self.audition_active_take_index,
            scene_id: clone_option(&self.scene_id),
            script_confidence: self.script_confidence,
            compound_tracks,
            motion_trackers: copy_trackers(&self.motion_trackers),
            tracking_binding: copy_binding(&self.tracking_binding),
            masks: copy_masks(&self.masks),
        }
    }
}

impl Track {
    /// A copy, with the same identifier.
    pub fn copied(&self) -> (r: Track)
        ensures
            same_track(*self, r),
        decreases self,
    {
        let mut clips: Vec<Clip> = Vec::with_capacity(self.clips.len());
        let mut i: usize = 0;
        while i < self.clips.len()
            invariant
                i <= self.clips@.len(),
                clips@.len() == i,
                forall|k: int| 0 <= k < i ==> same_clip(#[trigger] self.clips@[k], clips@[k]),
            decreases self.clips.len() - i,
        {
            clips.push(self.clips[i].copied());
            i = i + 1;
        }
        Track { id: self.id.clone(), kind: self.kind, label: self.label.clone(), clips }
    }
}

/// A copy of a list of tracks.
pub fn copy_tracks(s: &Vec<Track>) -> (r: Vec<Track>)
    ensures
        same_tracks(s@, r@),
    decreases s,
{
    let mut r: Vec<Track> = Vec::with_capacity(s.len());
    let mut i: usize = 0;
    while i < s.len()
        invariant
            i <= s@.len(),
            r@.len() == i,
            forall|k: int| 0 <= k < i ==> same_track(#[trigger] s@[k], r@[k]),
        decreases s.len() - i,
    {
        r.push(s[i].copied());
        i = i + 1;
    }
    r
}

/// A copy of a clip is the clip in every respect: in identity, source, place, look, titles, takes,
/// tracking and masks.
pub proof fn lemma_same_clip(a: Clip, b: Clip)
    requires
        same_clip(a, b),
    ensures
        a.id@ == b.id@,
        a.label@ == b.label@,
        a.kind == b.kind,
        a.source_path@ == b.source_path@,
        a.source_in == b.source_in,
        a.source_out == b.source_out,
        a.timeline_start == b.timeline_start,
        a.retimed_duration_ns == b.retimed_duration_ns,
        a.media_duration_ns == b.media_duration_ns,
        a.source_timecode_base_ns == b.source_timecode_base_ns,
        a.audio_source_stream_index == b.audio_source_stream_index,
        a.audio_source_streams@ == b.audio_source_streams@,
        a.scale == b.scale,
        a.position_x == b.position_x,
        a.position_y == b.position_y,
        a.opacity == b.opacity,
        a.rotate == b.rotate,
        a.flip_h == b.flip_h,
        a.flip_v == b.flip_v,
        a.crop_left == b.crop_left,
        a.crop_right == b.crop_right,
        a.crop_top == b.crop_top,
        a.crop_bottom == b.crop_bottom,
        a.scale_keyframes@ == b.scale_keyframes@,
        a.position_x_keyframes@ == b.position_x_keyframes@,
        a.position_y_keyframes@ == b.position_y_keyframes@,
        a.rotate_keyframes@ == b.rotate_keyframes@,
        a.crop_left_keyframes@ == b.crop_left_keyframes@,
        a.crop_right_keyframes@ == b.crop_right_keyframes@,
        a.crop_top_keyframes@ == b.crop_top_keyframes@,
        a.crop_bottom_keyframes@ == b.crop_bottom_keyframes@,
        a.brightness == b.brightness,
        a.contrast == b.contrast,
        a.saturation == b.saturation,
        a.temperature == b.temperature,
        a.tint == b.tint,
        a.exposure == b.exposure,
        a.black_point == b.black_point,
        a.shadows == b.shadows,
        a.highlights == b.highlights,
        a.denoise == b.denoise,
        a.sharpness == b.sharpness,
        a.blur == b.blur,
        a.brightness_keyframes@ == b.brightness_keyframes@,
        a.contrast_keyframes@ == b.contrast_keyframes@,
        a.saturation_keyframes@ == b.saturation_keyframes@,
        a.temperature_keyframes@ == b.temperature_keyframes@,
        a.tint_keyframes@ == b.tint_keyframes@,
        a.lut_paths@ == b.lut_paths@,
        same_effects(a.frei0r_effects@, b.frei0r_effects@),
        a.render_replace_enabled == b.render_replace_enabled,
        a.title_text@ == b.title_text@,
        a.title_font@ == b.title_font@,
        a.title_x == b.title_x,
        a.title_y == b.title_y,
        same_takes(a.audition_takes, b.audition_takes),
        a.audition_active_take_index == b.audition_active_take_index,
        option_view(a.scene_id) == option_view(b.scene_id),
        a.script_confidence == b.script_confidence,
        same_trackers(a.motion_trackers@, b.motion_trackers@),
        a.tracking_binding == b.tracking_binding,
        same_masks(a.masks@, b.masks@),
        a.compound_tracks is Some <==> b.compound_tracks is Some,
        a.compound_tracks matches Some(x) ==> x@.len() == b.compound_tracks->Some_0@.len(),
{
    reveal_with_fuel(same_tracks, 2);
}

/// A copy of a track has its identity, kind and name, and a copy of each of its clips, in order.
pub proof fn lemma_same_track(a: Track, b: Track, i: int)
    requires
        same_track(a, b),
    ensures
        a.id@ == b.id@,
        a.kind == b.kind,
        a.label@ == b.label@,
        a.clips@.len() == b.clips@.len(),
        0 <= i < a.clips@.len() ==> same_clip(a.clips@[i], b.clips@[i]),
{
}

/// The length of a part of a source is how far its end is behind its start, and a clip that runs at
/// another speed has the length that it runs.
pub proof fn lemma_duration(c: Clip, d: u64)
    ensures
        c.retimed_duration_ns == Some(d) ==> c.duration_spec() == d,
        c.retimed_duration_ns is None && c.source_in <= c.source_out ==> c.source_in
            + c.duration_spec() == c.source_out,
        c.retimed_duration_ns is None && c.source_in > c.source_out ==> c.duration_spec() == 0,
{
}

/// A copy of a take is the take in every respect.
pub proof fn lemma_same_take(a: AuditionTake, b: AuditionTake)
    requires
        same_take(a, b),
    ensures
        a.id@ == b.id@,
        a.label@ == b.label@,
        a.source_path@ == b.source_path@,
        a.source_in == b.source_in,
        a.source_out == b.source_out,
        a.source_timecode_base_ns == b.source_timecode_base_ns,
        a.media_duration_ns == b.media_duration_ns,
{
}

/// A copy of a mask is the mask in every respect.
pub proof fn lemma_same_mask(a: ClipMask, b: ClipMask)
    requires
        same_mask(a, b),
    ensures
        a.shape == b.shape,
        a.center_x == b.center_x,
        a.center_y == b.center_y,
        a.width == b.width,
        a.height == b.height,
        a.rotation == b.rotation,
        a.center_x_keyframes@ == b.center_x_keyframes@,
        a.center_y_keyframes@ == b.center_y_keyframes@,
        a.width_keyframes@ == b.width_keyframes@,
        a.height_keyframes@ == b.height_keyframes@,
        a.rotation_keyframes@ == b.rotation_keyframes@,
        a.tracking_binding == b.tracking_binding,
{
}

/// A copy of a tracker is the tracker in every respect.
pub proof fn lemma_same_tracker(a: MotionTracker, b: MotionTracker)
    requires
        same_tracker(a, b),
    ensures
        a.id@ == b.id@,
        a.label@ == b.label@,
        a.enabled == b.enabled,
        a.analysis_region == b.analysis_region,
        a.analysis_start_ns == b.analysis_start_ns,
        a.analysis_end_ns == b.analysis_end_ns,
        a.samples@ == b.samples@,
{
}

} // verus!
