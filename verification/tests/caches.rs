use ultimateslice::extraction::JobQueue;
use ultimateslice::model::{Clip, ClipKind, EffectNumber, Frei0rEffect};
use ultimateslice::numbers::Real;
use ultimateslice::proxy_files::SourceSignature;
use ultimateslice::render_replace_cache::{
    build_bake_video_filter, cache_key_for_clip, cache_root_dir, has_duration, is_bakeable_kind,
    RenderReplaceAnswer, RenderReplaceCache, RenderReplaceStatus,
};
use ultimateslice::sidecars::{
    CachedFile, Eviction, OnDisk, SidecarAnswer, SidecarCache, SidecarResult, SidecarStatus,
};
use ultimateslice::thumb_cache;
use ultimateslice::thumb_cache::{rgba_to_surface, RawFrame, ThumbnailCache, THUMB_BYTES};
use ultimateslice::voice_enhance_cache;
use ultimateslice::voice_enhance_cache::{
    build_voice_enhance_filter_string, voice_enhance_args, voice_enhance_root, VoiceEnhanceAnswer,
    VoiceEnhanceCache, VoiceFilterNumbers,
};
use ultimateslice::waveform_cache::{
    build_lod_levels, choose_lod_level, sample_peaks_from_level, RawPeaks, WaveformCache,
};

// ---------------------------------------------------------------- sound
fn bits(v: &[f32]) -> Vec<u32> {
    v.iter().map(|x| x.to_bits()).collect()
}

fn value(x: f64) -> Real {
    Real { bits: x.to_bits() }
}

#[test]
fn build_lod_levels_max_pools_successive_levels() {
    let levels = build_lod_levels(&bits(&[0.1, 0.4, 0.3, 0.2, 0.8]));
    assert_eq!(levels.len(), 3);
    assert_eq!(levels[0], bits(&[0.4, 0.3, 0.8]));
    assert_eq!(levels[1], bits(&[0.4, 0.8]));
    assert_eq!(levels[2], bits(&[0.8]));
}

#[test]
fn what_is_no_peak_counts_as_zero() {
    let levels = build_lod_levels(&bits(&[f32::NAN, -1.0, 0.5, f32::NAN, -0.25]));
    assert_eq!(levels[0], bits(&[0.0, 0.5, 0.0]));
    assert_eq!(levels.last(), Some(&bits(&[0.5])));
    assert_eq!(sample_peaks_from_level(&bits(&[-1.0, 0.25]), &vec![(0, 1), (0, 2)]), bits(&[0.0, 0.25]));
}

#[test]
fn choose_lod_level_prefers_near_one_bucket_per_pixel() {
    assert_eq!(choose_lod_level(value(0.8), 6), 0);
    assert_eq!(choose_lod_level(value(1.9), 6), 0);
    assert_eq!(choose_lod_level(value(2.0), 6), 1);
    assert_eq!(choose_lod_level(value(3.5), 6), 1);
    assert_eq!(choose_lod_level(value(16.0), 6), 4);
}

#[test]
fn levels_stay_among_those_there_are() {
    assert_eq!(choose_lod_level(value(1e300), 6), 6);
    assert_eq!(choose_lod_level(value(f64::INFINITY), 2000), 2000);
    assert_eq!(choose_lod_level(value(f64::NAN), 6), 0);
    assert_eq!(choose_lod_level(value(-8.0), 6), 0);
}

/// The windows of a range, as the caller computes them.
fn windows(level: usize, from_ns: u64, to_ns: u64, width: usize) -> Vec<(usize, usize)> {
    let scale = (1usize << level) as f64;
    let from = from_ns as f64 / 1e9;
    let dur = (to_ns as f64 / 1e9 - from).max(0.001);
    let start = from * 100.0 / scale;
    let per_px = dur * 100.0 / (width as f64 * scale);
    (0..width)
        .map(|px| {
            (
                (start + px as f64 * per_px) as usize,
                (start + (px + 1) as f64 * per_px).ceil() as usize,
            )
        })
        .collect()
}

#[test]
fn get_peaks_uses_lod_for_zoomed_out_ranges() {
    let raw = [
        0.2, 0.1, 0.05, 0.1, 0.2, 0.15, 0.1, 0.05, 0.2, 0.1, 0.05, 0.1, 0.2, 0.15, 0.1, 0.05, 0.4,
        0.3, 0.2, 0.1, 0.4, 0.35, 0.2, 0.1, 0.4, 0.3, 0.2, 0.1, 0.4, 0.35, 0.2, 0.1, 0.6, 0.5, 0.3,
        0.2, 0.6, 0.55, 0.3, 0.2, 0.6, 0.5, 0.3, 0.2, 0.6, 0.55, 0.3, 0.2, 0.9, 0.7, 0.4, 0.2, 0.9,
        0.8, 0.4, 0.2, 0.9, 0.7, 0.4, 0.2, 0.9, 0.8, 0.4, 0.2,
    ];
    let mut cache = WaveformCache::new();
    cache.poll(vec![RawPeaks { key: "clip".to_string(), peaks: bits(&raw) }]);
    let level = cache.level_for("clip", value(0.64 * 100.0 / 4.0)).unwrap();
    assert_eq!(level, 4);
    let peaks = cache.get_peaks("clip", level, &windows(level, 0, 640_000_000, 4)).unwrap();
    assert_eq!(peaks, bits(&[0.2, 0.4, 0.6, 0.9]));
}

#[test]
fn poll_reports_when_new_waveform_data_arrives() {
    let mut cache = WaveformCache::new();
    assert_eq!(cache.request("clip"), vec!["clip".to_string()]);
    let news = cache.poll(vec![RawPeaks { key: "clip".to_string(), peaks: bits(&[0.2, 0.5, 0.1]) }]);
    assert!(news.0);
    assert_eq!(cache.data.get("clip"), Some(&bits(&[0.2, 0.5, 0.1])));
    assert_eq!(cache.queue.in_flight, 0);
    assert!(!cache.loading.contains("clip"));
    assert!(!cache.poll(vec![]).0);
}

#[test]
fn peaks_without_windows_or_levels_are_none() {
    let mut cache = WaveformCache::new();
    assert!(cache.get_peaks("clip", 0, &vec![(0, 1)]).is_none());
    cache.poll(vec![RawPeaks { key: "clip".to_string(), peaks: vec![4, 7] }]);
    assert!(cache.get_peaks("clip", 0, &vec![]).is_none());
    assert!(cache.get_peaks("clip", 2, &vec![(0, 1)]).is_none());
    assert_eq!(cache.get_peaks("clip", 1, &vec![(0, 1)]), Some(vec![7]));
    assert_eq!(sample_peaks_from_level(&vec![4, 7, 1], &vec![(1, 1), (9, 9), (0, 9)]), vec![7, 0, 7]);
}

#[test]
fn reading_is_bounded_and_can_wait() {
    let mut cache = WaveformCache::new();
    assert!(cache.set_extraction_paused(true).is_empty());
    for i in 0..6 {
        assert!(cache.request(&format!("s{i}")).is_empty());
    }
    let started = cache.set_extraction_paused(false);
    assert_eq!(started, vec!["s0", "s1", "s2", "s3"]);
    let (_, more) = cache.poll(vec![RawPeaks { key: "s0".to_string(), peaks: vec![] }]);
    assert_eq!(more, vec!["s4"]);
    assert!(cache.data.get("s0").is_none());
}

#[test]
fn queue_starts_the_oldest_first() {
    let mut q: JobQueue<u8> = JobQueue::new();
    assert_eq!(q.push(1), vec![1]);
    q.in_flight = 4;
    assert!(q.push(2).is_empty());
    q.finish();
    assert_eq!(q.flush(), vec![2]);
}

// ---------------------------------------------------------------- pictures
#[test]
fn pictures_share_a_key_for_two_seconds() {
    assert_eq!(thumb_cache::cache_key("/a.mp4", 0), "/a.mp4@0s");
    assert_eq!(thumb_cache::cache_key("/a.mp4", 3_999_999_999), "/a.mp4@2s");
    assert_eq!(thumb_cache::cache_key("/a.mp4", 4_000_000_000), "/a.mp4@4s");
}

#[test]
fn pictures_are_drawn_in_the_order_of_the_screen() {
    let mut rgba = vec![0u8; THUMB_BYTES];
    rgba[..4].copy_from_slice(&[1, 2, 3, 4]);
    let s = rgba_to_surface(&rgba);
    assert_eq!(&s[..4], &[3, 2, 1, 4]);
    assert_eq!(rgba_to_surface(&s), rgba);
    let short = rgba_to_surface(&vec![9, 9, 9]);
    assert_eq!(short, vec![0u8; THUMB_BYTES]);
}

#[test]
fn pictures_become_ready() {
    let mut cache = ThumbnailCache::new();
    let (known, jobs) = cache.request("/a.mp4", 1);
    assert!(!known);
    assert_eq!(jobs.len(), 1);
    assert_eq!(jobs[0].key, "/a.mp4@0s");
    assert!(cache.request("/a.mp4", 2).1.is_empty());
    let (keys, _) = cache.poll_ready_keys(vec![RawFrame {
        key: "/a.mp4@0s".to_string(),
        data: vec![1, 2, 3, 4],
    }]);
    assert_eq!(keys, vec!["/a.mp4@0s"]);
    assert!(cache.request("/a.mp4", 0).0);
    assert_eq!(cache.get("/a.mp4", 5).map(|s| s[0]), Some(3));
    assert!(!cache.poll(vec![RawFrame { key: "x".to_string(), data: vec![] }]).0);
}

// ---------------------------------------------------------------- rendered clips
fn make_clip() -> Clip {
    Clip::new("/tmp/fake.mp4", 5_000_000_000, 0, ClipKind::Video)
}

#[test]
fn signature_stable_across_unrelated_changes() {
    let mut a = make_clip();
    a.brightness = 1000;
    a.lut_paths.push("/tmp/look.cube".into());
    let key_a = cache_key_for_clip(&a, None);
    let mut b = a.copied();
    b.timeline_start = 12_000_000_000;
    b.label = "Renamed".to_string();
    b.scale = value(2.5);
    b.position_x = value(0.3);
    b.position_y = value(-0.4);
    b.opacity = value(0.5);
    b.rotate = 45;
    let key_b = cache_key_for_clip(&b, None);
    assert_eq!(key_a, key_b, "signature should survive live-scope edits");
}

#[test]
fn signature_changes_on_brightness() {
    let a = make_clip();
    let mut b = a.copied();
    b.brightness = 2500;
    assert_ne!(cache_key_for_clip(&a, None), cache_key_for_clip(&b, None));
}

#[test]
fn signature_changes_on_lut_addition() {
    let a = make_clip();
    let mut b = a.copied();
    b.lut_paths.push("/tmp/another.cube".into());
    assert_ne!(cache_key_for_clip(&a, None), cache_key_for_clip(&b, None));
}

#[test]
fn signature_changes_on_frei0r_param() {
    let mut a = make_clip();
    a.frei0r_effects.push(Frei0rEffect {
        id: "eff-1".into(),
        plugin_name: "boxblur".into(),
        enabled: true,
        params: vec![EffectNumber { name: "Size".to_string(), value: 1000 }],
        string_params: vec![],
    });
    let mut b = a.copied();
    b.frei0r_effects[0].params[0].value = 2000;
    assert_ne!(cache_key_for_clip(&a, None), cache_key_for_clip(&b, None));
}

#[test]
fn signature_changes_with_the_source_file() {
    let a = make_clip();
    let s = SourceSignature { len: 5, modified_secs: 6, modified_nanos: 7 };
    assert_ne!(cache_key_for_clip(&a, None), cache_key_for_clip(&a, Some(s)));
}

#[test]
fn request_is_noop_after_ready() {
    let mut cache = RenderReplaceCache::new("/cache".to_string());
    let clip = make_clip();
    assert!(matches!(
        cache.request(&clip, None, "null", OnDisk::Complete),
        RenderReplaceAnswer::Touch { .. }
    ));
    assert_eq!(cache.status(&clip, None), RenderReplaceStatus::Ready);
    let before = cache.progress().total;
    cache.request(&clip, None, "null", OnDisk::Absent);
    assert_eq!(cache.progress().total, before);
}

#[test]
fn retry_clears_failed_state() {
    let mut cache = RenderReplaceCache::new("/cache".to_string());
    let clip = make_clip();
    let job = match cache.request(&clip, None, "null", OnDisk::Absent) {
        RenderReplaceAnswer::Render(job) => job,
        _ => panic!("a job is expected"),
    };
    cache.poll(vec![SidecarResult {
        cache_key: job.cache_key,
        output_path: job.output_path,
        success: false,
    }]);
    assert_eq!(cache.status(&clip, None), RenderReplaceStatus::Failed);
    assert!(cache.retry(&clip, None));
    assert!(!cache.retry(&clip, None));
}

#[test]
fn request_skips_non_bakeable_kinds() {
    let mut cache = RenderReplaceCache::new("/cache".to_string());
    for kind in [
        ClipKind::Compound,
        ClipKind::Multicam,
        ClipKind::Title,
        ClipKind::Adjustment,
        ClipKind::Drawing,
    ] {
        let mut clip = Clip::new("", 5_000_000_000, 0, kind);
        clip.render_replace_enabled = true;
        let before = cache.progress().total;
        cache.request(&clip, None, "null", OnDisk::Absent);
        assert_eq!(cache.progress().total, before, "non-bakeable kind should not queue a job");
    }
}

#[test]
fn request_skips_empty_source_path() {
    let mut cache = RenderReplaceCache::new("/cache".to_string());
    let mut clip = Clip::new("", 5_000_000_000, 0, ClipKind::Video);
    clip.render_replace_enabled = true;
    let before = cache.progress().total;
    cache.request(&clip, None, "null", OnDisk::Absent);
    assert_eq!(cache.progress().total, before);
}

#[test]
fn is_bakeable_kind_covers_file_backed_kinds() {
    assert!(is_bakeable_kind(&ClipKind::Video));
    assert!(is_bakeable_kind(&ClipKind::Image));
    assert!(is_bakeable_kind(&ClipKind::Audio));
    assert!(!is_bakeable_kind(&ClipKind::Compound));
    assert!(!is_bakeable_kind(&ClipKind::Multicam));
    assert!(!is_bakeable_kind(&ClipKind::Title));
    assert!(!is_bakeable_kind(&ClipKind::Adjustment));
    assert!(!is_bakeable_kind(&ClipKind::Drawing));
}

#[test]
fn rendered_clips_have_a_directory_and_filters() {
    assert_eq!(
        cache_root_dir(&Some("/c".to_string()), &None),
        "/c/ultimateslice/render_replace"
    );
    assert!(!has_duration(0));
    assert!(has_duration(5_000_000_000));
    assert!(build_bake_video_filter(&vec!["a".to_string(), "b".to_string()]).contains("b"));
}

// ---------------------------------------------------------------- voices
#[test]
fn voices_are_enhanced_once() {
    let mut cache = VoiceEnhanceCache::new("/v".to_string());
    let job = match cache.request("/a.wav", 50, OnDisk::Absent) {
        VoiceEnhanceAnswer::Render(j) => j,
        _ => panic!("a job is expected"),
    };
    assert_eq!(job.hundredths, 50);
    assert!(matches!(cache.request("/a.wav", 50, OnDisk::Absent), VoiceEnhanceAnswer::Nothing));
    assert_ne!(
        voice_enhance_cache::cache_key("/a.wav", 50),
        voice_enhance_cache::cache_key("/a.wav", 51)
    );
    cache.poll(vec![SidecarResult {
        cache_key: job.cache_key,
        output_path: job.output_path.clone(),
        success: true,
    }]);
    assert_eq!(cache.get_path("/a.wav", 50), Some(&job.output_path));
    cache.invalidate_all();
    assert_eq!(cache.get_path("/a.wav", 50), None);
}

#[test]
fn voice_filters_and_arguments() {
    let n = VoiceFilterNumbers {
        noise_db: "-25".to_string(),
        mud_gain: "-2".to_string(),
        presence_gain: "3".to_string(),
        ratio: "2".to_string(),
        makeup: "1".to_string(),
    };
    assert!(build_voice_enhance_filter_string(&n).contains("-25"));
    let args = voice_enhance_args("/a.wav", "/b.wav", "f");
    assert!(args.contains(&"/a.wav".to_string()) && args.contains(&"/b.wav".to_string()));
    assert_eq!(
        voice_enhance_root(&None, &Some("/h".to_string())),
        "/h/.cache/ultimateslice/voice_enhance"
    );
}

// ---------------------------------------------------------------- files beside
#[test]
fn sidecars_are_rendered_and_kept() {
    let mut cache = SidecarCache::new("/s".to_string());
    let path = cache.output_path("k", ".mov");
    assert_eq!(path, "/s/k.mov");
    match cache.ask("k", &path, OnDisk::Empty) {
        SidecarAnswer::Render { remove_stale } => assert!(remove_stale),
        _ => panic!("a render is expected"),
    }
    assert_eq!(cache.status("k"), SidecarStatus::Pending);
    cache.poll(vec![SidecarResult {
        cache_key: "k".to_string(),
        output_path: path.clone(),
        success: true,
    }]);
    assert_eq!(cache.status("k"), SidecarStatus::Ready);
    assert_eq!(cache.get("k"), Some(&path));
    cache.forget(&path);
    assert_eq!(cache.status("k"), SidecarStatus::Idle);
}

#[test]
fn oldest_files_are_evicted_until_the_cap_holds() {
    let file = |p: &str, len: u64, t: u64| CachedFile { path: p.to_string(), len, modified_ns: t };
    let mut e = Eviction::begin(vec![file("/new", 6, 30), file("/old", 5, 10), file("/mid", 4, 20)], 7);
    assert_eq!(e.victim().map(|f| f.path.as_str()), Some("/old"));
    e.settle(true);
    assert_eq!(e.victim().map(|f| f.path.as_str()), Some("/mid"));
    e.settle(true);
    assert!(e.victim().is_none());
}
