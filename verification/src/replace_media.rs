//! Swapping a clip's source file for another one.
//!
//! Transform, masks, motion tracking, titles and colour grading are relative to the picture, so
//! they are carried over unchanged. Only the trim range, the metadata of the source and the
//! choice of audio stream depend on the file.

use crate::model::{
    copy_streams, same_streams, streams_view, AudioSourceStreamInfo, AuditionTake, Clip, MediaItem,
    MediaProbeMetadata, StreamView,
};
use crate::text::{clone_option, option_view, owned, same, same_option};
use vstd::prelude::*;
use vstd::string::*;

verus! {

/// Why a source could not be replaced.
#[derive(Debug, Clone, PartialEq, Eq)]
pub enum ReplaceMediaError {
    /// The new file ends before the clip's in-point, so that clamping the out-point would invert
    /// the trim range.
    SourceOutWouldInvert { source_in_ns: u64, new_duration_ns: u64 },
    /// The new file has no duration.
    NewMediaUnusable { reason: &'static str },
}

/// What replacing a source changed.
#[derive(Debug, Clone)]
pub struct ReplaceMediaSummary {
    pub old_dims: Option<(u32, u32)>,
    pub new_dims: Option<(u32, u32)>,
    /// Whether a crop field was rescaled.
    pub crop_rescaled: bool,
    /// Old and new out-point, where it was clamped.
    pub source_out_clamped: Option<(u64, u64)>,
    /// Whether the proportions of the picture changed.
    pub aspect_changed: bool,
    /// Whether the audio stream was reset because the new file has no such stream.
    pub audio_stream_reset: bool,
}

impl ReplaceMediaError {
    /// The error in words. `source_in` and `new_duration` are the two times in seconds.
    pub fn message(&self, source_in: &str, new_duration: &str) -> (r: String)
        ensures
            r@ == (match *self {
                ReplaceMediaError::SourceOutWouldInvert { .. } => "New media is "@ + new_duration@
                    + "s but the clip starts at "@ + source_in@
                    + "s — trim the clip to start earlier or pick a longer file."@,
                ReplaceMediaError::NewMediaUnusable { reason } => "New media is not usable: "@
                    + reason@,
            }),
    {
        match self {
            ReplaceMediaError::SourceOutWouldInvert { .. } => {
                let mut r = owned("New media is ");
                r.append(new_duration);
                r.append("s but the clip starts at ");
                r.append(source_in);
                r.append("s — trim the clip to start earlier or pick a longer file.");
                r
            },
            ReplaceMediaError::NewMediaUnusable { reason } => {
                let mut r = owned("New media is not usable: ");
                r.append(reason);
                r
            },
        }
    }
}

impl Default for ReplaceMediaSummary {
    fn default() -> (r: Self)
        ensures
            r == (ReplaceMediaSummary {
                old_dims: None,
                new_dims: None,
                crop_rescaled: false,
                source_out_clamped: None,
                aspect_changed: false,
                audio_stream_reset: false,
            }),
    {
        ReplaceMediaSummary {
            old_dims: None,
            new_dims: None,
            crop_rescaled: false,
            source_out_clamped: None,
            aspect_changed: false,
            audio_stream_reset: false,
        }
    }
}

/// The duration of a probed file, or 0 where it is not known.
pub open spec fn duration_of(meta: MediaProbeMetadata) -> u64 {
    match meta.duration_ns {
        Some(d) => d,
        None => 0,
    }
}

/// Whether a probed file cannot be used: it has no duration and is no still image.
pub open spec fn is_unusable(meta: MediaProbeMetadata) -> bool {
    duration_of(meta) == 0 && !meta.is_image
}

/// Whether a probed file ends before the in-point.
pub open spec fn would_invert(source_in: u64, meta: MediaProbeMetadata) -> bool {
    duration_of(meta) > 0 && source_in >= duration_of(meta)
}

/// The picture size of a probed file, where it is known and not empty.
pub open spec fn picture_size(meta: MediaProbeMetadata) -> Option<(u32, u32)> {
    match (meta.video_width, meta.video_height) {
        (Some(w), Some(h)) => if w > 0 && h > 0 {
            Some((w, h))
        } else {
            None
        },
        _ => None,
    }
}

/// Whether a file with these streams has a stream `index`. Without any stream, 0 stands for none.
pub open spec fn has_stream(index: u32, streams: Seq<AudioSourceStreamInfo>) -> bool {
    if streams.len() == 0 {
        index == 0
    } else {
        exists|i: int| 0 <= i < streams.len() && (#[trigger] streams[i]).stream_index == index
    }
}

/// A take after its file has been probed anew.
pub open spec fn refreshed(t: AuditionTake, path: Seq<char>, meta: MediaProbeMetadata) -> AuditionTake {
    if t.source_path@ == path {
        AuditionTake {
            media_duration_ns: meta.duration_ns,
            source_timecode_base_ns: meta.source_timecode_base_ns,
            ..t
        }
    } else {
        t
    }
}

/// Whether the takes after a swap are those before it, refreshed.
pub open spec fn takes_refreshed(
    before: Option<Vec<AuditionTake>>,
    after: Option<Vec<AuditionTake>>,
    path: Seq<char>,
    meta: MediaProbeMetadata,
) -> bool {
    match (before, after) {
        (Some(b), Some(a)) => {
            &&& a@.len() == b@.len()
            &&& forall|i: int| 0 <= i < b@.len() ==> #[trigger] a@[i] == refreshed(b@[i], path, meta)
        },
        (None, None) => true,
        _ => false,
    }
}

/// Whether a file with these streams has a stream `index`.
pub fn audio_stream_index_valid(index: u32, streams: &Vec<AudioSourceStreamInfo>) -> (r: bool)
    ensures
        r == has_stream(index, streams@),
{
    if streams.len() == 0 {
        return index == 0;
    }
    let mut i: usize = 0;
    while i < streams.len()
        invariant
            i <= streams@.len(),
            forall|k: int| 0 <= k < i ==> (#[trigger] streams@[k]).stream_index != index,
        decreases streams.len() - i,
    {
        if streams[i].stream_index == index {
            return true;
        }
        i = i + 1;
    }
    false
}

/// Updates the takes that point at the file that the host clip now shows.
pub fn sync_active_audition_take_with_host(
    takes: &mut Vec<AuditionTake>,
    host_new_path: &str,
    new_meta: &MediaProbeMetadata,
)
    ensures
        final(takes)@.len() == old(takes)@.len(),
        forall|i: int|
            0 <= i < old(takes)@.len() ==> #[trigger] final(takes)@[i] == refreshed(
                old(takes)@[i],
                host_new_path@,
                *new_meta,
            ),
{
    let ghost before = takes@;
    let mut i: usize = 0;
    while i < takes.len()
        invariant
            i <= takes@.len() == before.len(),
            forall|k: int|
                0 <= k < i ==> #[trigger] takes@[k] == refreshed(
                    before[k],
                    host_new_path@,
                    *new_meta,
                ),
            forall|k: int| i <= k < takes@.len() ==> #[trigger] takes@[k] == before[k],
        decreases takes.len() - i,
    {
        if same(&takes[i].source_path, host_new_path) {
            takes[i].media_duration_ns = new_meta.duration_ns;
            takes[i].source_timecode_base_ns = new_meta.source_timecode_base_ns;
        }
        i = i + 1;
    }
}

/// The picture size of a clip's present source. A clip does not carry it.
pub fn clip_old_dims(_clip: &Clip) -> (r: Option<(u32, u32)>)
    ensures
        r is None,
{
    None
}

/// Whether a clip is cropped, from the start or by a keyframe.
pub open spec fn is_cropped(c: Clip) -> bool {
    ||| c.crop_left != 0
    ||| c.crop_right != 0
    ||| c.crop_top != 0
    ||| c.crop_bottom != 0
    ||| c.crop_left_keyframes@.len() > 0
    ||| c.crop_right_keyframes@.len() > 0
    ||| c.crop_top_keyframes@.len() > 0
    ||| c.crop_bottom_keyframes@.len() > 0
}

/// Whether two picture sizes are known and differ. A side of zero counts as one pixel.
pub open spec fn is_resized(old_dims: Option<(u32, u32)>, new_dims: Option<(u32, u32)>) -> bool {
    match (old_dims, new_dims) {
        (Some(o), Some(n)) => n.0 != (if o.0 == 0 {
            1
        } else {
            o.0
        }) || n.1 != (if o.1 == 0 {
            1
        } else {
            o.1
        }),
        _ => false,
    }
}

/// Whether the crop of a clip, which is in pixels, has to follow a change of the picture size.
pub fn crop_must_rescale(
    clip: &Clip,
    old_dims: Option<(u32, u32)>,
    new_dims: Option<(u32, u32)>,
) -> (r: bool)
    ensures
        r == (is_cropped(*clip) && is_resized(old_dims, new_dims)),
{
    let cropped: bool = clip.crop_left != 0 || clip.crop_right != 0 || clip.crop_top != 0
        || clip.crop_bottom != 0 || clip.crop_left_keyframes.len() > 0
        || clip.crop_right_keyframes.len() > 0 || clip.crop_top_keyframes.len() > 0
        || clip.crop_bottom_keyframes.len() > 0;
    match (old_dims, new_dims) {
        (Some((ow, oh)), Some((nw, nh))) => {
            let width: u32 = if ow == 0 {
                1
            } else {
                ow
            };
            let height: u32 = if oh == 0 {
                1
            } else {
                oh
            };
            cropped && (nw != width || nh != height)
        },
        _ => false,
    }
}

/// Makes `new_path` the clip's source, with the out-point and the choice of audio stream adapted
/// to the new file. Everything else stays; on an error, everything does.
pub fn apply_replace_media(clip: &mut Clip, new_path: &str, new_meta: &MediaProbeMetadata) -> (r:
    Result<ReplaceMediaSummary, ReplaceMediaError>)
    ensures
        r is Err <==> is_unusable(*new_meta) || would_invert(old(clip).source_in, *new_meta),
        r is Err ==> *final(clip) == *old(clip),
        is_unusable(*new_meta) ==> (r matches Err(ReplaceMediaError::NewMediaUnusable { reason })
            && reason@ == "probe returned zero duration"@),
        would_invert(old(clip).source_in, *new_meta) ==> r == Err::<
            ReplaceMediaSummary,
            ReplaceMediaError,
        >(
            ReplaceMediaError::SourceOutWouldInvert {
                source_in_ns: old(clip).source_in,
                new_duration_ns: duration_of(*new_meta),
            },
        ),
        r is Ok ==> ({
            let d = duration_of(*new_meta);
            let clamped = d > 0 && old(clip).source_out > d;
            let valid = has_stream(
                old(clip).audio_source_stream_index,
                new_meta.audio_source_streams@,
            );
            &&& r->Ok_0 == (ReplaceMediaSummary {
                old_dims: None,
                new_dims: picture_size(*new_meta),
                crop_rescaled: false,
                source_out_clamped: if clamped {
                    Some((old(clip).source_out, d))
                } else {
                    None
                },
                aspect_changed: false,
                audio_stream_reset: !valid,
            })
            &&& final(clip).source_path@ == new_path@
            &&& final(clip).audio_source_streams@ == new_meta.audio_source_streams@
            &&& takes_refreshed(
                old(clip).audition_takes,
                final(clip).audition_takes,
                new_path@,
                *new_meta,
            )
            &&& *final(clip) == (Clip {
                source_path: final(clip).source_path,
                audio_source_streams: final(clip).audio_source_streams,
                audition_takes: final(clip).audition_takes,
                source_out: if clamped {
                    d
                } else {
                    old(clip).source_out
                },
                media_duration_ns: new_meta.duration_ns,
                source_timecode_base_ns: new_meta.source_timecode_base_ns,
                audio_source_stream_index: if valid {
                    old(clip).audio_source_stream_index
                } else {
                    0
                },
                ..*old(clip)
            })
        }),
{
    let new_duration_ns: u64 = match new_meta.duration_ns {
        Some(d) => d,
        None => 0,
    };
    if new_duration_ns == 0 && !new_meta.is_image {
        return Err(ReplaceMediaError::NewMediaUnusable { reason: "probe returned zero duration" });
    }
    if clip.source_in >= new_duration_ns && new_duration_ns > 0 {
        return Err(
            ReplaceMediaError::SourceOutWouldInvert {
                source_in_ns: clip.source_in,
                new_duration_ns,
            },
        );
    }
    let mut summary: ReplaceMediaSummary = ReplaceMediaSummary::default();
    summary.old_dims = clip_old_dims(clip);
    if let (Some(w), Some(h)) = (new_meta.video_width, new_meta.video_height) {
        if w > 0 && h > 0 {
            summary.new_dims = Some((w, h));
        }
    }
    if new_duration_ns > 0 && clip.source_out > new_duration_ns {
        summary.source_out_clamped = Some((clip.source_out, new_duration_ns));
        clip.source_out = new_duration_ns;
    }
    clip.source_path = owned(new_path);
    clip.media_duration_ns = new_meta.duration_ns;
    clip.source_timecode_base_ns = new_meta.source_timecode_base_ns;
    clip.audio_source_streams = copy_streams(&new_meta.audio_source_streams);
    if !audio_stream_index_valid(clip.audio_source_stream_index, &clip.audio_source_streams) {
        clip.audio_source_stream_index = 0;
        summary.audio_stream_reset = true;
    }
    if let Some(takes) = &mut clip.audition_takes {
        sync_active_audition_take_with_host(takes, new_path, new_meta);
    }
    Ok(summary)
}

/// What a library item says.
#[verifier::ext_equal]
pub struct ItemView {
    pub source_path: Seq<char>,
    pub duration_ns: u64,
    pub is_audio_only: bool,
    pub has_audio: bool,
    pub is_image: bool,
    pub is_animated_svg: bool,
    pub is_missing: bool,
    pub source_timecode_base_ns: Option<u64>,
    pub video_width: Option<u32>,
    pub video_height: Option<u32>,
    pub frame_rate_num: Option<u32>,
    pub frame_rate_den: Option<u32>,
    pub codec_summary: Option<Seq<char>>,
    pub hdr_colorimetry: Option<Seq<char>>,
    pub audio_source_stream_index: u32,
    pub audio_source_streams: Seq<StreamView>,
    pub file_size_bytes: Option<u64>,
    pub bin_id: Option<Seq<char>>,
}

/// What a library item says.
pub open spec fn item_view(i: MediaItem) -> ItemView {
    ItemView {
        source_path: i.source_path@,
        duration_ns: i.duration_ns,
        is_audio_only: i.is_audio_only,
        has_audio: i.has_audio,
        is_image: i.is_image,
        is_animated_svg: i.is_animated_svg,
        is_missing: i.is_missing,
        source_timecode_base_ns: i.source_timecode_base_ns,
        video_width: i.video_width,
        video_height: i.video_height,
        frame_rate_num: i.frame_rate_num,
        frame_rate_den: i.frame_rate_den,
        codec_summary: option_view(i.codec_summary),
        hdr_colorimetry: option_view(i.hdr_colorimetry),
        audio_source_stream_index: i.audio_source_stream_index,
        audio_source_streams: streams_view(i.audio_source_streams@),
        file_size_bytes: i.file_size_bytes,
        bin_id: option_view(i.bin_id),
    }
}

/// A library item after its file has been replaced: everything that was probed comes from the
/// new file, and the item is no longer missing.
pub open spec fn replaced_item(i: MediaItem, path: Seq<char>, meta: MediaProbeMetadata) -> ItemView {
    ItemView {
        source_path: path,
        duration_ns: duration_of(meta),
        is_audio_only: meta.is_audio_only,
        has_audio: meta.has_audio,
        is_image: meta.is_image,
        is_animated_svg: meta.is_animated_svg,
        is_missing: false,
        source_timecode_base_ns: meta.source_timecode_base_ns,
        video_width: meta.video_width,
        video_height: meta.video_height,
        frame_rate_num: meta.frame_rate_num,
        frame_rate_den: meta.frame_rate_den,
        codec_summary: option_view(meta.codec_summary),
        hdr_colorimetry: option_view(meta.hdr_colorimetry),
        audio_source_stream_index: if has_stream(
            i.audio_source_stream_index,
            meta.audio_source_streams@,
        ) {
            i.audio_source_stream_index
        } else {
            0
        },
        audio_source_streams: streams_view(meta.audio_source_streams@),
        file_size_bytes: meta.file_size_bytes,
        bin_id: option_view(i.bin_id),
    }
}

/// Whether two lists with equal views have the same stream numbers.
proof fn lemma_same_streams(a: Seq<AudioSourceStreamInfo>, b: Seq<AudioSourceStreamInfo>, index: u32)
    requires
        streams_view(a) == streams_view(b),
    ensures
        has_stream(index, a) == has_stream(index, b),
{
    assert(a.len() == streams_view(a).len() && b.len() == streams_view(b).len());
    assert forall|i: int| 0 <= i < a.len() implies (#[trigger] a[i]).stream_index
        == b[i].stream_index by {
        assert(streams_view(a)[i] == streams_view(b)[i]);
    }
    if exists|i: int| 0 <= i < a.len() && (#[trigger] a[i]).stream_index == index {
        let i = choose|i: int| 0 <= i < a.len() && (#[trigger] a[i]).stream_index == index;
        assert(b[i].stream_index == index);
    }
    if exists|i: int| 0 <= i < b.len() && (#[trigger] b[i]).stream_index == index {
        let i = choose|i: int| 0 <= i < b.len() && (#[trigger] b[i]).stream_index == index;
        assert(a[i].stream_index == index);
    }
}

/// Makes `new_path` the file of a library item. Says whether anything changed.
pub fn apply_library_replace(
    item: &mut MediaItem,
    new_path: &str,
    new_meta: &MediaProbeMetadata,
) -> (r: bool)
    ensures
        item_view(*final(item)) == replaced_item(*old(item), new_path@, *new_meta),
        r == (item_view(*final(item)) != item_view(*old(item))),
{
    let duration: u64 = match new_meta.duration_ns {
        Some(d) => d,
        None => 0,
    };
    let unchanged: bool = same(&item.source_path, new_path) && item.duration_ns == duration
        && item.is_audio_only == new_meta.is_audio_only && item.has_audio == new_meta.has_audio
        && item.is_image == new_meta.is_image && item.is_animated_svg == new_meta.is_animated_svg
        && item.source_timecode_base_ns == new_meta.source_timecode_base_ns && item.video_width
        == new_meta.video_width && item.video_height == new_meta.video_height
        && item.frame_rate_num == new_meta.frame_rate_num && item.frame_rate_den
        == new_meta.frame_rate_den && same_option(&item.codec_summary, &new_meta.codec_summary)
        && same_option(&item.hdr_colorimetry, &new_meta.hdr_colorimetry) && same_streams(
        &item.audio_source_streams,
        &new_meta.audio_source_streams,
    ) && item.file_size_bytes == new_meta.file_size_bytes && !item.is_missing;
    item.source_path = owned(new_path);
    item.duration_ns = duration;
    item.is_audio_only = new_meta.is_audio_only;
    item.has_audio = new_meta.has_audio;
    item.is_image = new_meta.is_image;
    item.is_animated_svg = new_meta.is_animated_svg;
    item.source_timecode_base_ns = new_meta.source_timecode_base_ns;
    item.video_width = new_meta.video_width;
    item.video_height = new_meta.video_height;
    item.frame_rate_num = new_meta.frame_rate_num;
    item.frame_rate_den = new_meta.frame_rate_den;
    item.codec_summary = clone_option(&new_meta.codec_summary);
    item.hdr_colorimetry = clone_option(&new_meta.hdr_colorimetry);
    item.audio_source_streams = copy_streams(&new_meta.audio_source_streams);
    item.file_size_bytes = new_meta.file_size_bytes;
    item.is_missing = false;
    if item.audio_source_stream_index != 0 && !audio_stream_index_valid(
        item.audio_source_stream_index,
        &item.audio_source_streams,
    ) {
        item.audio_source_stream_index = 0;
        return true;
    }
    !unchanged
}

/// A library item whose file is replaced by the same file once more does not change again.
pub proof fn lemma_library_replace_settles(
    before: MediaItem,
    after: MediaItem,
    path: Seq<char>,
    meta: MediaProbeMetadata,
)
    requires
        item_view(after) == replaced_item(before, path, meta),
    ensures
        replaced_item(after, path, meta) == item_view(after),
{
    lemma_same_streams(
        after.audio_source_streams@,
        meta.audio_source_streams@,
        after.audio_source_stream_index,
    );
}

/// A library item whose file is replaced tells of the new file all that was probed of it, and that
/// it is there; it stays in its bin. The stream that is used stays where the new file has it, and is
/// the first else.
pub proof fn lemma_replaced_item(i: MediaItem, path: Seq<char>, meta: MediaProbeMetadata)
    ensures
        ({
            let r = replaced_item(i, path, meta);
            &&& r.source_path == path && !r.is_missing
            &&& meta.duration_ns matches Some(d) ==> r.duration_ns == d
            &&& meta.duration_ns is None ==> r.duration_ns == 0
            &&& r.is_audio_only == meta.is_audio_only && r.has_audio == meta.has_audio
            &&& r.is_image == meta.is_image && r.is_animated_svg == meta.is_animated_svg
            &&& r.video_width == meta.video_width && r.video_height == meta.video_height
            &&& r.frame_rate_num == meta.frame_rate_num && r.frame_rate_den == meta.frame_rate_den
            &&& r.source_timecode_base_ns == meta.source_timecode_base_ns
            &&& r.file_size_bytes == meta.file_size_bytes
            &&& r.codec_summary == option_view(meta.codec_summary)
            &&& r.hdr_colorimetry == option_view(meta.hdr_colorimetry)
            &&& r.audio_source_streams == streams_view(meta.audio_source_streams@)
            &&& r.bin_id == option_view(i.bin_id)
            &&& r.audio_source_stream_index == i.audio_source_stream_index
                || r.audio_source_stream_index == 0
            &&& (exists|k: int|
                0 <= k < meta.audio_source_streams@.len() && (
                #[trigger] meta.audio_source_streams@[k]).stream_index
                    == i.audio_source_stream_index) ==> r.audio_source_stream_index
                == i.audio_source_stream_index
            &&& (meta.audio_source_streams@.len() > 0 && forall|k: int|
                0 <= k < meta.audio_source_streams@.len() ==> (
                #[trigger] meta.audio_source_streams@[k]).stream_index
                    != i.audio_source_stream_index) ==> r.audio_source_stream_index == 0
        }),
{
}

/// Only the takes of a file learn of its new length and time base, and they keep all else.
pub proof fn lemma_refreshed(t: AuditionTake, path: Seq<char>, meta: MediaProbeMetadata)
    ensures
        t.source_path@ != path ==> refreshed(t, path, meta) == t,
        t.source_path@ == path ==> refreshed(t, path, meta).media_duration_ns == meta.duration_ns
            && refreshed(t, path, meta).source_timecode_base_ns == meta.source_timecode_base_ns,
        refreshed(t, path, meta).id == t.id,
        refreshed(t, path, meta).label == t.label,
        refreshed(t, path, meta).source_path == t.source_path,
        refreshed(t, path, meta).source_in == t.source_in,
        refreshed(t, path, meta).source_out == t.source_out,
{
}

/// A file cannot stand in where it has neither a length nor is a picture, or where it ends before
/// the clip begins.
pub proof fn lemma_unusable(meta: MediaProbeMetadata, source_in: u64, d: u64)
    ensures
        meta.is_image ==> !is_unusable(meta),
        meta.duration_ns == Some(d) && d > 0 ==> !is_unusable(meta) && (would_invert(
            source_in,
            meta,
        ) <==> d <= source_in),
        meta.duration_ns is None ==> !would_invert(source_in, meta) && (is_unusable(meta)
            <==> !meta.is_image),
{
}

/// Any crop, set or over time, counts.
pub proof fn lemma_cropped(c: Clip)
    ensures
        c.crop_left != 0 || c.crop_right != 0 || c.crop_top != 0 || c.crop_bottom != 0
            ==> is_cropped(c),
        c.crop_left_keyframes@.len() > 0 || c.crop_right_keyframes@.len() > 0
            || c.crop_top_keyframes@.len() > 0 || c.crop_bottom_keyframes@.len() > 0 ==> is_cropped(
            c,
        ),
        c.crop_left == 0 && c.crop_right == 0 && c.crop_top == 0 && c.crop_bottom == 0
            && c.crop_left_keyframes@.len() == 0 && c.crop_right_keyframes@.len() == 0
            && c.crop_top_keyframes@.len() == 0 && c.crop_bottom_keyframes@.len() == 0
            ==> !is_cropped(c),
{
}

} // verus!
