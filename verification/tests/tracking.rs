use ultimateslice::model::{
    Clip, ClipKind, ClipMask, MaskShape, MotionTracker, Track, TrackingBinding, TrackingRegion,
    TrackingSample,
};
use ultimateslice::numbers::Real;
use ultimateslice::tracking::{
    candidate_rects, check_tracking_job, compute_auto_crop_binding, extract_plane_patch,
    find_best_match, finished_analysis, run_tracking_job, source_frame_step_ns, split_frames,
    tracking_cache_root, AutoCropBindingValues, MotionSearch, PixelRect, PixelRegion, RegionKey,
    TrackingCache, TrackingFailure, TrackingJob, WorkerUpdate, YuvFrame,
};
use ultimateslice::tracking_bindings::{
    apply_tracking_bindings_to_tracks, collect_target_local_times, plan_tracking_bindings,
    ClipValues, LaneValues,
};

fn number(x: f64) -> Real {
    Real { bits: x.to_bits() }
}

fn float(x: Real) -> f64 {
    f64::from_bits(x.bits)
}

fn region_of(cx: f64, cy: f64, w: f64, h: f64) -> (TrackingRegion, RegionKey) {
    let q = |v: f64| (v * 10_000.0).round() as i64;
    (
        TrackingRegion {
            center_x: number(cx),
            center_y: number(cy),
            width: number(w),
            height: number(h),
            rotation_deg: number(0.0),
        },
        RegionKey {
            center_x: q(cx),
            center_y: q(cy),
            width: q(w),
            height: q(h),
            rotation_deg: q(0.0),
        },
    )
}

fn job(end_ns: u64, region: (TrackingRegion, RegionKey)) -> TrackingJob {
    TrackingJob::new("tracker-1", "Subject", "/tmp/source.mp4", 0, 0, end_ns, region.0, region.1)
}

fn pixels(r: &TrackingRegion, w: usize, h: usize) -> PixelRegion {
    PixelRegion {
        width: (float(r.width) * w as f64 * 2.0).round() as i32,
        height: (float(r.height) * h as f64 * 2.0).round() as i32,
        center_x: (float(r.center_x) * w as f64).round() as i32,
        center_y: (float(r.center_y) * h as f64).round() as i32,
    }
}

fn make_synthetic_plane(width: usize, height: usize, x: usize, y: usize) -> Vec<u8> {
    let mut frame = vec![20u8; width * height];
    for row in 0..height {
        for col in 0..width {
            frame[row * width + col] += ((row + col) % 5) as u8;
        }
    }
    for row in y..(y + 8).min(height) {
        for col in x..(x + 8).min(width) {
            frame[row * width + col] = 230;
        }
    }
    frame
}

fn make_synthetic_yuv(width: usize, height: usize, x: usize, y: usize) -> YuvFrame {
    let plane = make_synthetic_plane(width, height, x, y);
    YuvFrame {
        u: plane.iter().map(|p| p.saturating_add(8)).collect(),
        v: plane.iter().map(|p| p.saturating_sub(8)).collect(),
        y: plane,
    }
}

fn make_color_distinct_yuv(width: usize, height: usize, x: usize, y: usize) -> YuvFrame {
    let mut f = YuvFrame {
        y: vec![0u8; width * height],
        u: vec![0u8; width * height],
        v: vec![0u8; width * height],
    };
    for row in 0..height {
        for col in 0..width {
            let noise = (((row * 7 + col * 13) % 5) as u8).saturating_sub(2);
            let at = row * width + col;
            f.y[at] = 128 + noise;
            f.u[at] = 128 + noise;
            f.v[at] = 128 + noise;
        }
    }
    for row in (y + 2)..(y + 6).min(height) {
        for col in (x + 2)..(x + 6).min(width) {
            let at = row * width + col;
            f.y[at] = 130;
            f.u[at] = 210;
            f.v[at] = 50;
        }
    }
    f
}

fn mean(p: &[u8]) -> f64 {
    p.iter().map(|v| *v as f64).sum::<f64>() / p.len() as f64
}

fn difference(a: &[u8], b: &[u8]) -> u64 {
    let (ma, mb) = (mean(a), mean(b));
    a.iter()
        .zip(b)
        .map(|(x, y)| ((*x as f64 - ma) - (*y as f64 - mb)).abs() as u64)
        .sum()
}

fn patches(f: &YuvFrame, w: usize, h: usize, r: PixelRect) -> Vec<Vec<u8>> {
    [&f.y, &f.u, &f.v].iter().map(|p| extract_plane_patch(p, w, h, r)).collect()
}

/// Follows the region through the frames. Returns the offsets in pixels.
fn follow(frames: &[YuvFrame], job: &TrackingJob, w: usize, h: usize) -> (Vec<(i32, i32)>, (usize, usize)) {
    let region = pixels(&job.analysis_region, w, h);
    let mut search =
        MotionSearch::begin(job, region, w, h, frames.len(), false).expect("a search");
    let template = patches(&frames[0], w, h, search.current);
    while !search.is_done() {
        let frame = &frames[search.progress().0];
        let rects = search.next_candidates();
        let scores = rects
            .iter()
            .map(|r| {
                patches(frame, w, h, *r).iter().zip(&template).map(|(a, b)| difference(b, a)).sum()
            })
            .collect();
        search.take_scores(&rects, &scores, false).expect("a match");
    }
    (search.positions.iter().map(|p| (p.dx, p.dy)).collect(), search.progress())
}

#[test]
fn tracking_job_cache_key_changes_with_region() {
    let mut a = job(1_000_000_000, region_of(0.5, 0.5, 0.25, 0.25));
    let mut b = a.copied();
    b.analysis_region.center_x = number(0.65);
    b.region_key.center_x = 6500;
    a.frame_step_ns = 200_000_000;
    b.frame_step_ns = 200_000_000;
    assert_ne!(a.cache_key(), b.cache_key());
}

#[test]
fn track_motion_sequence_detects_translation() {
    let (width, height) = (64usize, 40usize);
    let frames: Vec<YuvFrame> =
        (0..5).map(|idx| make_synthetic_yuv(width, height, 18 + idx * 2, 10 + idx)).collect();
    let mut job = job(
        500_000_000,
        region_of(22.0 / 64.0, 14.0 / 40.0, 4.0 / 64.0, 4.0 / 40.0),
    );
    job.frame_step_ns = 100_000_000;
    job.search_radius_px = 6;
    let (found, progress) = follow(&frames, &job, width, height);
    assert_eq!(found.len(), 5);
    assert_eq!(found[1].0, 2);
    assert_eq!(found[2].0, 4);
    assert_eq!(found[3].1, 3);
    assert_eq!(progress, (5, 5));
}

#[test]
fn track_motion_sequence_detects_chroma_only_target() {
    let (width, height) = (64usize, 40usize);
    let frames: Vec<YuvFrame> = (0..5)
        .map(|idx| make_color_distinct_yuv(width, height, 18 + idx * 3, 10 + idx * 2))
        .collect();
    let mut job = job(
        500_000_000,
        region_of(22.0 / 64.0, 14.0 / 40.0, 4.0 / 64.0, 4.0 / 40.0),
    );
    job.frame_step_ns = 100_000_000;
    job.search_radius_px = 8;
    let (found, _) = follow(&frames, &job, width, height);
    assert_eq!(found.len(), 5);
    assert!((found[2].0 as f64 / 64.0 - 6.0 / 64.0).abs() < 0.03);
    assert!((found[2].1 as f64 / 40.0 - 4.0 / 40.0).abs() < 0.03);
}

#[test]
fn track_motion_sequence_honors_cancel_flag() {
    let job = job(100_000_000, region_of(0.5, 0.5, 0.25, 0.25));
    let region = pixels(&job.analysis_region, 32, 18);
    match MotionSearch::begin(&job, region, 32, 18, 1, true) {
        Err((failure, message)) => {
            assert_eq!(failure, TrackingFailure::Cancelled);
            assert_eq!(message, "Tracking canceled");
        }
        Ok(_) => panic!("the search was canceled"),
    }
}

#[test]
fn tracking_without_frames_or_candidates_fails() {
    let job = job(100_000_000, region_of(0.5, 0.5, 0.25, 0.25));
    let region = pixels(&job.analysis_region, 32, 18);
    match MotionSearch::begin(&job, region, 32, 18, 0, false) {
        Err((_, message)) => assert_eq!(message, "No video frames extracted for tracking"),
        Ok(_) => panic!("there is no frame"),
    }
    assert!(find_best_match(&vec![], &vec![]).is_err());
    let small = PixelRect { x: 0, y: 0, width: 8, height: 8 };
    assert_eq!(candidate_rects(small, 8, 8, 3), vec![small]);
    let m = find_best_match(&candidate_rects(small, 9, 8, 1), &vec![5, 3]).unwrap();
    assert_eq!((m.rect.x, m.best, m.second), (1, 3, 5));
}

/// A sample between two, as the caller computes it.
fn offset_at(samples: &[TrackingSample], at: u64, pick: fn(&TrackingSample) -> f64) -> f64 {
    let last = samples.last().unwrap();
    if at >= last.time_ns {
        return pick(last);
    }
    let (a, b) = (&samples[0], &samples[1]);
    let t = (at - a.time_ns) as f64 / (b.time_ns - a.time_ns) as f64;
    pick(a) + (pick(b) - pick(a)) * t
}

fn sample(time_ns: u64, x: f64, y: f64) -> TrackingSample {
    TrackingSample {
        time_ns,
        offset_x: number(x),
        offset_y: number(y),
        scale_multiplier: number(1.0),
        rotation_deg: number(0.0),
        confidence: number(1.0),
    }
}

fn binding() -> TrackingBinding {
    TrackingBinding {
        source_clip_id: "source-clip".to_string(),
        tracker_id: "tracker-1".to_string(),
        apply_translation: true,
        apply_scale: false,
        apply_rotation: false,
        offset_x: number(0.0),
        offset_y: number(0.0),
        scale_multiplier: number(1.0),
        rotation_offset_deg: number(0.0),
        strength: number(1.0),
        smoothing: number(0.0),
    }
}

fn lane(times: &Option<Vec<u64>>, samples: &[TrackingSample], shift: u64, base: f64) -> LaneValues {
    let at = |pick: fn(&TrackingSample) -> f64| -> Vec<Real> {
        match times {
            Some(t) => t.iter().map(|t| number(base + offset_at(samples, t + shift, pick))).collect(),
            None => vec![],
        }
    };
    LaneValues {
        x: at(|s| float(s.offset_x)),
        y: at(|s| float(s.offset_y)),
        scale: vec![],
        second_scale: vec![],
        rotation: vec![],
    }
}

#[test]
fn apply_tracking_bindings_to_tracks_projects_samples_onto_clip_and_mask() {
    let mut source = Clip::new("/tmp/source.mp4", 2_000_000_000, 2_000_000_000, ClipKind::Video);
    source.id = "source-clip".to_string();
    let samples = vec![sample(0, 0.0, 0.0), sample(1_000_000_000, 0.2, -0.1)];
    source.motion_trackers.push(MotionTracker {
        id: "tracker-1".to_string(),
        label: "Subject".to_string(),
        enabled: true,
        analysis_region: region_of(0.5, 0.5, 0.25, 0.25).0,
        analysis_start_ns: 0,
        analysis_end_ns: None,
        samples: samples.clone(),
    });
    let mut target = Clip::new("/tmp/overlay.png", 2_000_000_000, 2_500_000_000, ClipKind::Image);
    target.id = "target-clip".to_string();
    target.tracking_binding = Some(binding());
    target.masks.push(ClipMask {
        shape: MaskShape::Rectangle,
        center_x: number(0.5),
        center_y: number(0.5),
        width: number(0.25),
        height: number(0.25),
        rotation: number(0.0),
        center_x_keyframes: vec![],
        center_y_keyframes: vec![],
        width_keyframes: vec![],
        height_keyframes: vec![],
        rotation_keyframes: vec![],
        tracking_binding: Some(binding()),
    });
    let mut track = Track::new_video("Video");
    track.clips = vec![source, target];
    let mut tracks = vec![track];
    let plans = plan_tracking_bindings(&tracks);
    let values: Vec<Vec<ClipValues>> = plans
        .iter()
        .map(|row| {
            row.iter()
                .map(|p| ClipValues {
                    own: lane(&p.own.translation, &samples, 500_000_000, 0.0),
                    mask: lane(&p.mask.translation, &samples, 500_000_000, 0.5),
                })
                .collect()
        })
        .collect();
    apply_tracking_bindings_to_tracks(&mut tracks, &values);

    let resolved = tracks[0].clips.iter().find(|clip| clip.id == "target-clip").unwrap();
    let times: Vec<u64> = resolved.position_x_keyframes.iter().map(|k| k.time_ns).collect();
    assert_eq!(times, vec![0, 500_000_000, 2_000_000_000]);
    assert!((float(resolved.position_x_keyframes[0].value) - 0.1).abs() < 1e-6);
    assert!((float(resolved.position_x_keyframes[1].value) - 0.2).abs() < 1e-6);
    assert!((float(resolved.position_y_keyframes[0].value) + 0.05).abs() < 1e-6);
    assert!((float(resolved.position_y_keyframes[1].value) + 0.1).abs() < 1e-6);

    let mask = resolved.masks.first().expect("mask should still exist");
    let times: Vec<u64> = mask.center_x_keyframes.iter().map(|k| k.time_ns).collect();
    assert_eq!(times, vec![0, 500_000_000, 2_000_000_000]);
    assert!((float(mask.center_x_keyframes[0].value) - 0.6).abs() < 1e-6);
    assert!((float(mask.center_x_keyframes[1].value) - 0.7).abs() < 1e-6);
    assert!((float(mask.center_y_keyframes[0].value) - 0.45).abs() < 1e-6);
    assert!((float(mask.center_y_keyframes[1].value) - 0.4).abs() < 1e-6);
}

#[test]
fn times_of_a_target_are_sorted_and_bounded() {
    let samples = vec![sample(0, 0.0, 0.0), sample(60, 0.0, 0.0), sample(900, 0.0, 0.0)];
    assert_eq!(collect_target_local_times(50, 100, 20, &samples, &vec![10, 500]), vec![0, 10, 30, 100]);
}

#[test]
fn auto_crop_binding_wrapper_sets_expected_fields() {
    let b = compute_auto_crop_binding(
        "clip-id",
        "tracker-id",
        AutoCropBindingValues {
            scale_multiplier: number(1.818),
            offset_x: number(0.0),
            offset_y: number(0.0),
        },
    );
    assert_eq!(b.source_clip_id, "clip-id");
    assert_eq!(b.tracker_id, "tracker-id");
    assert!(b.apply_translation);
    assert!(b.apply_scale);
    assert!(!b.apply_rotation);
    assert!((float(b.strength) - 1.0).abs() < 1e-9);
    assert!((float(b.scale_multiplier) - 1.818).abs() < 0.01);
}

#[test]
fn tracking_jobs_run_once_and_can_be_canceled() {
    let mut cache = TrackingCache::new("/t".to_string());
    let j = job(1_000_000_000, region_of(0.5, 0.5, 0.25, 0.25));
    let (key, start) = cache.request(&j, None);
    assert!(start);
    assert!(!cache.request(&j, None).1);
    cache.poll(vec![WorkerUpdate::Progress {
        cache_key: key.clone(),
        processed_samples: 2,
        total_samples: 5,
    }]);
    assert_eq!(cache.job_progress(&key).map(|p| p.processed_samples), Some(2));
    assert!(cache.cancel(&key));
    assert!(cache.is_canceled(&key));
    let failed = Err((TrackingFailure::Cancelled, "Tracking canceled".to_string()));
    let done = cache.poll(vec![WorkerUpdate::Done(run_tracking_job(key, j.copied(), failed))]);
    assert!(done[0].canceled);
    let (key, start) = cache.request(&j, None);
    assert!(start);
    let analysis = finished_analysis(&j, vec![sample(0, 0.0, 0.0)]);
    let done = cache.poll(vec![WorkerUpdate::Done(run_tracking_job(key, j.copied(), Ok(analysis)))]);
    assert!(done[0].tracker.is_some());
    assert_eq!(cache.get_for_job(&j).map(|t| t.samples.len()), Some(1));
    assert!(cache.progress().samples.is_none());
}

#[test]
fn frames_and_sources_are_checked() {
    assert_eq!(split_frames(&vec![1, 2, 3, 4, 5, 6], 1).unwrap().len(), 2);
    assert!(split_frames(&vec![], 4).is_err());
    let j = job(1_000_000_000, region_of(0.5, 0.5, 0.25, 0.25));
    assert!(check_tracking_job(&j, false, false).is_ok());
    assert!(check_tracking_job(&j, true, false).is_err());
    assert!(check_tracking_job(&j, false, true).is_err());
    assert_eq!(source_frame_step_ns(Some(25), Some(1)), 40_000_000);
    assert_eq!(
        tracking_cache_root(&Some("/c".to_string()), &None),
        "/c/ultimateslice/tracking"
    );
}
