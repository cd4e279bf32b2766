use ultimateslice::model::{AudioSourceStreamInfo, Clip, ClipKind, MediaItem, MediaProbeMetadata};
use ultimateslice::numbers::Real;
use ultimateslice::replace_media::{
    apply_library_replace, apply_replace_media, audio_stream_index_valid, crop_must_rescale,
    ReplaceMediaError,
};

fn make_clip_with_source(path: &str, source_out_ns: u64) -> Clip {
    Clip::new(path, source_out_ns, 0, ClipKind::Video)
}

fn value(x: f64) -> Real {
    Real { bits: x.to_bits() }
}

fn stream_info(stream_index: u32, channels: u32) -> AudioSourceStreamInfo {
    AudioSourceStreamInfo {
        stream_index,
        channels,
        channel_layout: None,
        sample_rate_hz: Some(48_000),
        language: None,
        title: None,
    }
}

fn meta(width: u32, height: u32, duration_ns: u64) -> MediaProbeMetadata {
    let mut m = MediaProbeMetadata::default();
    m.duration_ns = Some(duration_ns);
    m.video_width = Some(width);
    m.video_height = Some(height);
    m
}

#[test]
fn source_out_clamps_when_new_media_shorter() {
    let mut clip = make_clip_with_source("/old.mp4", 10_000_000_000);
    let summary =
        apply_replace_media(&mut clip, "/new.mp4", &meta(1920, 1080, 5_000_000_000)).unwrap();
    assert_eq!(clip.source_out, 5_000_000_000);
    assert_eq!(summary.source_out_clamped, Some((10_000_000_000, 5_000_000_000)));
}

#[test]
fn replace_returns_err_when_clamping_would_invert_range() {
    let mut clip = make_clip_with_source("/old.mp4", 10_000_000_000);
    clip.source_in = 8_000_000_000;
    let result = apply_replace_media(&mut clip, "/new.mp4", &meta(1920, 1080, 5_000_000_000));
    assert!(matches!(result, Err(ReplaceMediaError::SourceOutWouldInvert { .. })));
    assert_eq!(clip.source_path, "/old.mp4");
    assert_eq!(clip.source_in, 8_000_000_000);
    assert_eq!(clip.source_out, 10_000_000_000);
}

#[test]
fn replace_updates_source_path_and_metadata_on_success() {
    let mut clip = make_clip_with_source("/old.mp4", 5_000_000_000);
    let mut new_meta = meta(1920, 1080, 10_000_000_000);
    new_meta.source_timecode_base_ns = Some(123_456_789);
    apply_replace_media(&mut clip, "/new.mp4", &new_meta).unwrap();
    assert_eq!(clip.source_path, "/new.mp4");
    assert_eq!(clip.media_duration_ns, Some(10_000_000_000));
    assert_eq!(clip.source_timecode_base_ns, Some(123_456_789));
    assert_eq!(clip.source_out, 5_000_000_000);
}

#[test]
fn replace_does_not_touch_normalized_fields() {
    let mut clip = make_clip_with_source("/old.mp4", 5_000_000_000);
    clip.scale = value(1.7);
    clip.position_x = value(0.25);
    clip.position_y = value(-0.1);
    clip.rotate = 45;
    clip.flip_h = true;
    clip.title_x = value(0.3);
    clip.title_y = value(0.7);
    apply_replace_media(&mut clip, "/new.mp4", &meta(3840, 2160, 10_000_000_000)).unwrap();
    assert_eq!(clip.scale, value(1.7));
    assert_eq!(clip.position_x, value(0.25));
    assert_eq!(clip.position_y, value(-0.1));
    assert_eq!(clip.rotate, 45);
    assert!(clip.flip_h);
    assert_eq!(clip.title_x, value(0.3));
    assert_eq!(clip.title_y, value(0.7));
}

#[test]
fn audio_stream_index_resets_when_chosen_stream_missing() {
    let mut clip = make_clip_with_source("/old.mp4", 5_000_000_000);
    clip.audio_source_stream_index = 3;
    let mut new_meta = meta(1920, 1080, 10_000_000_000);
    new_meta.audio_source_streams = vec![stream_info(0, 2)];
    let summary = apply_replace_media(&mut clip, "/new.mp4", &new_meta).unwrap();
    assert_eq!(clip.audio_source_stream_index, 0);
    assert!(summary.audio_stream_reset);
}

#[test]
fn audio_stream_index_kept_when_still_valid() {
    let mut clip = make_clip_with_source("/old.mp4", 5_000_000_000);
    clip.audio_source_stream_index = 1;
    let mut new_meta = meta(1920, 1080, 10_000_000_000);
    new_meta.audio_source_streams = vec![stream_info(0, 2), stream_info(1, 6)];
    let summary = apply_replace_media(&mut clip, "/new.mp4", &new_meta).unwrap();
    assert_eq!(clip.audio_source_stream_index, 1);
    assert!(!summary.audio_stream_reset);
}

#[test]
fn replace_returns_err_on_zero_duration_video() {
    let mut clip = make_clip_with_source("/old.mp4", 5_000_000_000);
    let mut busted = MediaProbeMetadata::default();
    busted.duration_ns = Some(0);
    busted.video_width = Some(1920);
    busted.video_height = Some(1080);
    let result = apply_replace_media(&mut clip, "/new.mp4", &busted);
    assert!(matches!(result, Err(ReplaceMediaError::NewMediaUnusable { .. })));
}

#[test]
fn replace_accepts_zero_duration_for_image() {
    let mut clip = make_clip_with_source("/old.mp4", 5_000_000_000);
    let mut image_meta = MediaProbeMetadata::default();
    image_meta.duration_ns = None;
    image_meta.is_image = true;
    image_meta.video_width = Some(1920);
    image_meta.video_height = Some(1080);
    let summary = apply_replace_media(&mut clip, "/new.png", &image_meta).unwrap();
    assert_eq!(clip.source_out, 5_000_000_000);
    assert!(summary.source_out_clamped.is_none());
}

#[test]
fn only_the_first_stream_exists_where_none_are_known() {
    assert!(audio_stream_index_valid(0, &vec![]));
    assert!(!audio_stream_index_valid(1, &vec![]));
    assert!(audio_stream_index_valid(4, &vec![stream_info(4, 2)]));
    assert!(!audio_stream_index_valid(0, &vec![stream_info(4, 2)]));
}

#[test]
fn library_item_takes_over_the_new_file() {
    let mut item = MediaItem::new("/old.mp4", 4);
    assert!(apply_library_replace(&mut item, "/new.mp4", &meta(640, 360, 9)));
    assert_eq!(item.source_path, "/new.mp4");
    assert_eq!(item.duration_ns, 9);
    assert_eq!(item.video_width, Some(640));
    let again = meta(640, 360, 9);
    assert!(!apply_library_replace(&mut item, "/new.mp4", &again));
}

#[test]
fn library_item_without_its_stream_settles() {
    let mut item = MediaItem::new("/old.mp4", 4);
    item.audio_source_stream_index = 7;
    let mut new_meta = meta(640, 360, 9);
    new_meta.audio_source_streams = vec![stream_info(4, 2)];
    assert!(apply_library_replace(&mut item, "/new.mp4", &new_meta));
    assert_eq!(item.audio_source_stream_index, 0);
    assert!(!apply_library_replace(&mut item, "/new.mp4", &new_meta));
}

#[test]
fn crop_follows_a_new_picture_size() {
    let mut clip = make_clip_with_source("/old.mp4", 5_000_000_000);
    let old = Some((1920, 1080));
    assert!(!crop_must_rescale(&clip, old, Some((3840, 2160))));
    clip.crop_top = 200;
    assert!(crop_must_rescale(&clip, old, Some((3840, 2160))));
    assert!(crop_must_rescale(&clip, old, Some((1440, 1080))));
    assert!(!crop_must_rescale(&clip, old, old));
    assert!(!crop_must_rescale(&clip, None, old));
    assert!(!crop_must_rescale(&clip, old, None));
}
