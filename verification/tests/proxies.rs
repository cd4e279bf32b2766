use ultimateslice::proxy_cache::{
    plan_stale_cleanup, HwFailures, ProxyCache, ProxyJob, ProxyResult, ProxyWorkerUpdate,
};
use ultimateslice::proxy_files::{
    append_owned_entry, candidate_proxy_paths, cleanup_proxy_dir_variants, existing_proxy_path_for,
    local_proxy_cache_dir, owned_entries_text, ownership_index_path, proxy_file_is_ready,
    proxy_matches_current_source, proxy_source_signature_path, prune_stale_owned_entries,
    purge_sidecar_proxy_cache_for_sources, read_owned_entries, read_signature_record,
    remove_owned_entries, sidecar_proxy_usage_for_sources, signature_record, Candidate,
    DurationProbe, FoundFile, OwnedEntry, SidecarListing, SourceSignature,
};
use ultimateslice::proxy_names::{
    alongside_proxy_path_for, is_proxy_cache_artifact_name, is_sidecar_proxy_path,
    legacy_alongside_proxy_path_for, local_proxy_path_for, proxy_key,
    proxy_key_with_codec_and_vidstab, proxy_key_with_vidstab, proxy_source_hash_from_path,
    sidecar_proxy_dir_for, source_path_hash, ProxyCodec, ProxyScale, ProxyVariantSpec, Smoothing,
    Variant,
};
use ultimateslice::proxy_transcode::{
    build_proxy_filter, duration_probe_args, failure_tail, height_probe_args, is_heavy,
    parse_source_height, read_progress_line, transcode_args, vidstab_analysis_args, vidstab_trf_path, HeavyPermit, HwEncoderFamily,
    Transcode, TranscodeAction,
};

fn steadied(x: f32) -> Smoothing {
    Smoothing {
        positive: x > 0.0,
        label: format!("{x:.2}"),
        hundredths: (x * 100.0).round() as i32,
        tenths: (x * 10.0).round() as i32,
        thirtieths: (x * 30.0).round() as i32,
    }
}

fn variant(source: &str, height: u32, codec: ProxyCodec, hundredths: i32) -> Variant<'_> {
    Variant {
        source_path: source,
        scale: ProxyScale::MaxHeight(height),
        lut_path: None,
        codec,
        vidstab_enabled: hundredths > 0,
        hundredths,
    }
}

fn name_of(path: &str) -> String {
    path.rsplit('/').next().unwrap().to_string()
}

fn file(path: &str, len: u64) -> FoundFile {
    FoundFile { name: name_of(path), is_dir: false, len: Some(len), ready: true }
}

#[test]
fn proxy_key_h264_default_matches_legacy_shape() {
    let none = steadied(0.0);
    let key_legacy = proxy_key_with_vidstab("/tmp/a.mp4", None, false, &none);
    let key_h264 =
        proxy_key_with_codec_and_vidstab("/tmp/a.mp4", None, ProxyCodec::H264, false, &none);
    assert_eq!(key_legacy, key_h264);
    assert_eq!(key_legacy, "/tmp/a.mp4");
}

#[test]
fn proxy_key_codec_separates_h264_from_hevc_paths() {
    let lut = Some("/luts/lut.cube");
    let none = steadied(0.0);
    let key_h264 =
        proxy_key_with_codec_and_vidstab("/tmp/a.mp4", lut, ProxyCodec::H264, false, &none);
    let key_hevc =
        proxy_key_with_codec_and_vidstab("/tmp/a.mp4", lut, ProxyCodec::Hevc, false, &none);
    assert_ne!(key_h264, key_hevc, "switching codec must produce a distinct cache key");
    assert!(!key_h264.contains("|c:"));
    assert!(key_hevc.ends_with("|c:hevc"));
    let path_h264 = local_proxy_path_for(&variant("/tmp/a.mp4", 1080, ProxyCodec::H264, 0), "/tmp");
    let path_hevc = local_proxy_path_for(&variant("/tmp/a.mp4", 1080, ProxyCodec::Hevc, 0), "/tmp");
    assert!(path_h264.is_some() && path_hevc.is_some());
    assert_ne!(path_h264, path_hevc);
}

#[test]
fn max_height_filter_caps_height_preserves_aspect_and_avoids_upscale() {
    assert_eq!(
        ProxyScale::MaxHeight(1080).ffmpeg_scale_filter(),
        "scale=-2:'min(1080,ih)':flags=lanczos"
    );
    assert_eq!(
        ProxyScale::MaxHeight(640).ffmpeg_scale_filter(),
        "scale=-2:'min(640,ih)':flags=lanczos"
    );
}

#[test]
fn max_height_suffix_uses_height_p_form() {
    assert_eq!(ProxyScale::MaxHeight(1080).suffix(), "1080p");
    assert_eq!(ProxyScale::MaxHeight(640).suffix(), "640p");
}

#[test]
fn ready_source_paths_recovers_source_prefix_from_composite_keys() {
    let mut cache = ProxyCache::new("/tmp/root".to_string());
    cache.proxies.insert("/tmp/clip-a.mp4".to_string(), "/tmp/proxy-a.mp4".to_string());
    cache.proxies.insert(
        "/tmp/clip-b.mp4|lut:/tmp/look.cube".to_string(),
        "/tmp/proxy-b.mp4".to_string(),
    );
    cache.proxies.insert(
        "/tmp/clip-b.mp4|lut:/tmp/look.cube|vs:0.50".to_string(),
        "/tmp/proxy-b-vs.mp4".to_string(),
    );
    cache.proxies.insert("/tmp/clip-c.mp4|vs:0.30".to_string(), "/tmp/proxy-c.mp4".to_string());
    let ready = cache.ready_source_paths();
    assert!(ready.contains("/tmp/clip-a.mp4"));
    assert!(ready.contains("/tmp/clip-b.mp4"));
    assert!(ready.contains("/tmp/clip-c.mp4"));
    assert_eq!(ready.len(), 3);
}

#[test]
fn ready_source_paths_is_empty_when_no_proxies_ready() {
    let cache = ProxyCache::new("/tmp/root".to_string());
    assert!(cache.ready_source_paths().is_empty());
}

#[test]
fn sidecar_proxy_path_detection_matches_directory_name() {
    assert!(is_sidecar_proxy_path("/tmp/project/UltimateSlice.cache/a.proxy_1080p.mp4"));
    assert!(!is_sidecar_proxy_path("/tmp/ultimateslice/proxies/a.proxy_1080p.mp4"));
}

#[test]
fn cleanup_for_unload_removes_sidecar_when_proxy_mode_disabled() {
    let side = "/p/UltimateSlice.cache/clip.proxy_half.mp4";
    let mut cache = ProxyCache::new("/root".to_string());
    cache.proxies.insert("k".to_string(), side.to_string());
    let doomed = cache.sidecar_cleanup_candidates().members();
    assert_eq!(doomed, vec![side.to_string()]);
    cache.cleanup_for_unload(false, &vec![], &doomed);
    assert!(cache.proxies.get("k").is_none());
}

#[test]
fn cleanup_for_unload_preserves_sidecar_when_proxy_mode_enabled() {
    let side = "/p/UltimateSlice.cache/clip.proxy_half.mp4";
    let local = "/root/cleanup-policy-test.proxy_1080p.mp4";
    let mut cache = ProxyCache::new("/root".to_string());
    cache.proxies.insert("side".to_string(), side.to_string());
    cache.proxies.insert("local".to_string(), local.to_string());
    let doomed = cache.local_cleanup_candidates().members();
    assert_eq!(doomed, vec![local.to_string()]);
    cache.cleanup_for_unload(true, &doomed, &vec![side.to_string()]);
    assert!(cache.proxies.get("side").is_some());
    assert!(cache.proxies.get("local").is_none());
}

#[test]
fn proxy_paths_stay_stable_for_source_edits_but_change_for_variant_state() {
    let root = "/tmp/root";
    let plain = variant("/s/clip-a.mp4", 1080, ProxyCodec::H264, 0);
    let steady = variant("/s/clip-a.mp4", 1080, ProxyCodec::H264, 45);
    let other = variant("/t/clip-b.mp4", 1080, ProxyCodec::H264, 0);
    let plain_local = local_proxy_path_for(&plain, root).unwrap();
    let plain_sidecar = alongside_proxy_path_for(&plain).unwrap();
    assert_ne!(plain_local, local_proxy_path_for(&steady, root).unwrap());
    assert_ne!(plain_sidecar, alongside_proxy_path_for(&steady).unwrap());
    assert_ne!(plain_local, local_proxy_path_for(&other, root).unwrap());
    assert_eq!(plain_local, local_proxy_path_for(&plain, root).unwrap());
    assert_eq!(plain_sidecar, alongside_proxy_path_for(&plain).unwrap());
}

fn stamp(len: u64) -> SourceSignature {
    SourceSignature { len, modified_secs: 100, modified_nanos: 7 }
}

#[test]
fn existing_proxy_path_uses_source_signature_to_reuse_or_invalidate() {
    let proxy_path =
        local_proxy_path_for(&variant("/s/clip-a.mp4", 1080, ProxyCodec::H264, 0), "/tmp/root")
            .unwrap();
    let stored = read_signature_record(&signature_record(&stamp(6)));
    assert_eq!(stored, Some(stamp(6)));
    let candidate = |current: bool| {
        vec![Candidate { path: proxy_path.clone(), ready: true, current }]
    };
    let same = proxy_matches_current_source(Some(stamp(6)), stored, Some((200, 0)));
    assert_eq!(existing_proxy_path_for(&candidate(same)), Some(proxy_path.clone()));
    let changed = proxy_matches_current_source(Some(stamp(22)), stored, Some((200, 0)));
    assert!(existing_proxy_path_for(&candidate(changed)).is_none());
}

#[test]
fn existing_proxy_path_reuses_legacy_sidecar_proxy_names() {
    let legacy =
        legacy_alongside_proxy_path_for("/s/clip-a.mp4", ProxyScale::MaxHeight(1080), None).unwrap();
    let paths =
        candidate_proxy_paths(&variant("/s/clip-a.mp4", 1080, ProxyCodec::H264, 0), "/tmp/root");
    assert!(paths.contains(&Some(legacy.clone())));
    let current = proxy_matches_current_source(Some(stamp(6)), None, Some((200, 0)));
    let found: Vec<Candidate> = paths
        .into_iter()
        .flatten()
        .map(|path| {
            let ready = path == legacy;
            Candidate { path, ready, current }
        })
        .collect();
    assert_eq!(existing_proxy_path_for(&found), Some(legacy));
}

fn spec(source: &str, height: u32) -> ProxyVariantSpec {
    ProxyVariantSpec::new(source.to_string(), ProxyScale::MaxHeight(height), None, false, 0)
}

#[test]
fn cleanup_stale_variants_only_touches_current_source_hashes() {
    let root = "/tmp/root";
    let (a, b) = ("/s/clip-a.mp4", "/s/clip-b.mp4");
    let specs = [spec(a, 1080), spec(a, 640), spec(b, 640)];
    let locals: Vec<String> = specs.iter().map(|s| s.local_proxy_path(root).unwrap()).collect();
    let sides: Vec<String> = specs.iter().map(|s| s.alongside_proxy_path().unwrap()).collect();
    let plan = plan_stale_cleanup(&vec![spec(a, 1080)], root).unwrap();
    let files: Vec<FoundFile> = locals.iter().map(|p| file(p, 5)).collect();
    let gone = cleanup_proxy_dir_variants(root, &files, &plan.desired_local, &plan.local_digests);
    let gone_local: Vec<String> = gone.iter().map(|r| r.path.clone()).collect();
    assert_eq!(gone_local, vec![locals[1].clone()]);
    assert!(gone[0].with_record);
    assert_eq!(plan.sidecar_dirs, vec!["/s/UltimateSlice.cache".to_string()]);
    let files: Vec<FoundFile> = sides.iter().map(|p| file(p, 5)).collect();
    let gone = cleanup_proxy_dir_variants(
        &plan.sidecar_dirs[0],
        &files,
        &plan.desired_sidecar,
        &plan.sidecar_digests[0],
    );
    let gone_side: Vec<String> = gone.iter().map(|r| r.path.clone()).collect();
    assert_eq!(gone_side, vec![sides[1].clone()]);
    let mut cache = ProxyCache::new(root.to_string());
    let summary = cache.cleanup_stale_variants(&gone_local, &gone_side);
    assert_eq!(summary.removed_local, 1);
    assert_eq!(summary.removed_sidecar, 1);
}

fn beside(a: &str, b: &str) -> (Vec<String>, Vec<SidecarListing>) {
    let side_a = alongside_proxy_path_for(&variant(a, 1080, ProxyCodec::H264, 0)).unwrap();
    let side_b = alongside_proxy_path_for(&variant(b, 640, ProxyCodec::H264, 0)).unwrap();
    let all = vec![
        side_a.clone(),
        proxy_source_signature_path(&side_a),
        side_b.clone(),
        proxy_source_signature_path(&side_b),
    ];
    let listing = SidecarListing {
        dir: sidecar_proxy_dir_for(a).unwrap(),
        exists: true,
        files: all.iter().map(|p| file(p, 5)).collect(),
    };
    (all, vec![listing])
}

#[test]
fn sidecar_proxy_usage_for_sources_counts_matching_proxy_artifacts() {
    let (a, b) = ("/s/clip-a.mp4", "/s/clip-b.mp4");
    let (_, listings) = beside(a, b);
    let usage = sidecar_proxy_usage_for_sources(&vec![a.to_string()], &listings);
    assert_eq!(usage.directories.len(), 1);
    assert_eq!(usage.file_count, 2);
    assert!(usage.size_bytes > 0);
}

#[test]
fn purge_sidecar_proxy_cache_for_sources_only_removes_matching_artifacts() {
    let (a, b) = ("/s/clip-a.mp4", "/s/clip-b.mp4");
    let (all, listings) = beside(a, b);
    let (removed, files) = purge_sidecar_proxy_cache_for_sources(&vec![a.to_string()], &listings);
    assert_eq!(removed.file_count, 2);
    assert_eq!(files, vec![all[0].clone(), all[1].clone()]);
}

#[test]
fn names_of_proxies_tell_their_source() {
    let source = "/s/clip-a.mp4";
    let path = local_proxy_path_for(&variant(source, 1080, ProxyCodec::H264, 0), "/r").unwrap();
    assert_eq!(proxy_source_hash_from_path(&path), Some(source_path_hash(source)));
    for ending in [".partial", ".source-meta", ".source-meta.partial"] {
        let beside = format!("{path}{ending}");
        assert_eq!(proxy_source_hash_from_path(&beside), Some(source_path_hash(source)));
    }
    assert!(is_proxy_cache_artifact_name(&name_of(&path)));
    assert!(!is_proxy_cache_artifact_name("holiday.mp4"));
    assert_eq!(proxy_key(source, None), source);
}

#[test]
fn proxies_are_ready_by_size_and_probe() {
    assert!(!proxy_file_is_ready(None, None));
    assert!(!proxy_file_is_ready(Some(0), None));
    assert!(proxy_file_is_ready(Some(5), None));
    let probe = |positive: bool| DurationProbe { ran: true, succeeded: true, positive };
    assert!(proxy_file_is_ready(Some(5), Some(probe(true))));
    assert!(!proxy_file_is_ready(Some(5), Some(probe(false))));
}

#[test]
fn ownership_is_written_and_read_back() {
    assert_eq!(ownership_index_path("/r"), "/r/ownership-index-v1.txt");
    let mut entries: Vec<OwnedEntry> = vec![];
    assert!(append_owned_entry(&mut entries, "/r", "/r/a.mp4", 10));
    assert!(!append_owned_entry(&mut entries, "/r", "/elsewhere/a.mp4", 10));
    let back = read_owned_entries(&owned_entries_text(&entries));
    assert_eq!(back.len(), 1);
    assert_eq!((back[0].created_at, back[0].path.as_str()), (10, "/r/a.mp4"));
    assert!(remove_owned_entries(&back, &vec!["/r/a.mp4".to_string()]).is_empty());
    let present = vec!["/r/a.mp4".to_string()];
    let p = prune_stale_owned_entries(&back, "/r", 1000, 100, &present);
    assert_eq!(p.removed, vec!["/r/a.mp4".to_string()]);
    assert!(p.kept.is_empty());
    let p = prune_stale_owned_entries(&back, "/r", 50, 100, &present);
    assert_eq!(p.kept.len(), 1);
    assert!(local_proxy_cache_dir(&Some("/c".to_string())).starts_with("/c/"));
}

#[test]
fn malformed_signatures_are_refused() {
    assert_eq!(read_signature_record(""), None);
    assert_eq!(read_signature_record("1 x"), None);
}

#[test]
fn proxies_are_made_once() {
    let mut cache = ProxyCache::new("/root".to_string());
    let job = cache.request("/s/a.mp4", ProxyScale::MaxHeight(640), None, None).unwrap();
    assert_eq!(job.key(), "/s/a.mp4");
    assert!(cache.request("/s/a.mp4", ProxyScale::MaxHeight(640), None, None).is_none());
    let done = cache.poll(vec![
        ProxyWorkerUpdate::Progress {
            cache_key: job.key(),
            scale: job.scale,
            written_bytes: 3,
            estimated_bytes: 9,
        },
        ProxyWorkerUpdate::Done(ProxyResult {
            cache_key: job.key(),
            scale: job.scale,
            proxy_path: "/root/a.proxy.mp4".to_string(),
            success: true,
            owned_local: true,
        }),
    ]);
    assert_eq!(done.resolved, vec!["/s/a.mp4".to_string()]);
    assert_eq!(done.owned_paths, vec!["/root/a.proxy.mp4".to_string()]);
    assert_eq!(cache.get("/s/a.mp4", None), Some(&"/root/a.proxy.mp4".to_string()));
    cache.invalidate_all();
    assert_eq!(cache.get("/s/a.mp4", None), None);
    let found = Some("/root/b.mp4".to_string());
    assert!(cache.request("/s/b.mp4", ProxyScale::MaxHeight(640), None, found).is_none());
    assert!(cache.get("/s/b.mp4", None).is_some());
}

#[test]
fn each_scale_is_asked_for_on_its_own() {
    let (large, small) = (ProxyScale::MaxHeight(1080), ProxyScale::MaxHeight(640));
    let mut cache = ProxyCache::new("/root".to_string());
    let first = cache.request("/s/a.mp4", large, None, None).unwrap();
    assert!(cache.request("/s/a.mp4", large, None, None).is_none());
    assert_eq!(cache.progress().total, 1);
    let second = cache.request("/s/a.mp4", small, None, None).unwrap();
    assert_eq!((second.key(), second.scale), (first.key(), small));
    assert_eq!(cache.progress().total, 2);
    let done = |job: &ProxyJob, path: &str, success: bool| {
        ProxyWorkerUpdate::Done(ProxyResult {
            cache_key: job.key(),
            scale: job.scale,
            proxy_path: path.to_string(),
            success,
            owned_local: false,
        })
    };
    cache.poll(vec![done(&first, "/root/a.1080p.mp4", true)]);
    assert_eq!(cache.get("/s/a.mp4", None), Some(&"/root/a.1080p.mp4".to_string()));
    assert_eq!(cache.progress().completed, 1);
    assert!(cache.progress().in_flight);
    cache.poll(vec![done(&second, "", false)]);
    assert!(!cache.progress().in_flight);
    assert!(cache.request("/s/a.mp4", small, None, None).is_none());
    let third = cache.request("/s/a.mp4", ProxyScale::MaxHeight(480), None, None).unwrap();
    cache.poll(vec![done(&third, "/root/a.480p.mp4", true)]);
    assert_eq!(cache.get("/s/a.mp4", None), Some(&"/root/a.480p.mp4".to_string()));
    assert!(cache.request("/s/a.mp4", large, None, None).is_none());
    assert_eq!(cache.local_cleanup_candidates().len(), 2);
    cache.cleanup_local_cache_for_unload(&vec!["/root/a.480p.mp4".to_string()]);
    assert_eq!(cache.get("/s/a.mp4", None), None);
    let found = Some("/root/a.1080p.mp4".to_string());
    assert!(cache.request("/s/a.mp4", large, None, found).is_none());
    assert!(cache.get("/s/a.mp4", None).is_some());
}

#[test]
fn failed_hardware_is_not_used_again() {
    let mut f = HwFailures::new();
    let nvenc = Some(HwEncoderFamily::Nvenc);
    assert_eq!(f.usable_encoder("/a", nvenc), nvenc);
    f.note_encoder("/a", HwEncoderFamily::Nvenc);
    assert_eq!(f.usable_encoder("/a", nvenc), None);
    f.note_decoder("/a", "cuda");
    assert_eq!(f.usable_decoder("/a", Some("cuda".to_string())), None);
}

#[test]
fn heavy_sources_take_turns() {
    let mut p = HeavyPermit::new(1);
    assert!(p.acquire());
    assert!(!p.acquire());
    p.release();
    assert!(p.acquire());
    assert!(is_heavy(Some(4000)));
    assert!(!is_heavy(Some(480)));
    assert_eq!(parse_source_height("1080\n"), Some(1080));
    assert_eq!(parse_source_height("x"), None);
}

#[test]
fn transcoding_falls_back_to_software() {
    let (mut t, first) = Transcode::begin(
        "/r/a.mp4".to_string(),
        None,
        false,
        Some(HwEncoderFamily::Nvenc),
        None,
    );
    assert!(matches!(first, TranscodeAction::MakeDirectory { .. }));
    match t.step(true) {
        TranscodeAction::Run { encoder, .. } => assert_eq!(encoder, Some(HwEncoderFamily::Nvenc)),
        _ => panic!("a run is expected"),
    }
    match t.step(false) {
        TranscodeAction::Run { encoder, .. } => assert_eq!(encoder, None),
        _ => panic!("a second run is expected"),
    }
    assert!(matches!(t.step(true), TranscodeAction::CheckPartial { .. }));
    assert!(matches!(t.step(true), TranscodeAction::Rename { .. }));
    assert!(matches!(t.step(true), TranscodeAction::CheckOutput { .. }));
    match t.step(true) {
        TranscodeAction::Finish { proxy_path, success, .. } => {
            assert_eq!(proxy_path, "/r/a.mp4");
            assert!(success);
        }
        _ => panic!("the end is expected"),
    }
}

#[test]
fn failed_steps_are_cleared_up() {
    let (mut t, _) = Transcode::begin(
        "/r/a.mp4".to_string(),
        None,
        false,
        Some(HwEncoderFamily::Vaapi),
        Some("cuda".to_string()),
    );
    assert!(t.aftermath(false).discard.is_none());
    t.step(true);
    let mut failures = HwFailures::new();
    let a = t.aftermath(false);
    assert_eq!(a.discard.as_deref(), Some("/r/a.mp4.partial"));
    assert_eq!((a.failed_encoder, &a.failed_decoder), (Some(HwEncoderFamily::Vaapi), &None));
    failures.note("/s/a.mp4", &a);
    assert!(failures.vaapi && !failures.nvenc && failures.decoders.is_empty());
    t.step(false);
    let a = t.aftermath(false);
    assert_eq!((a.failed_encoder, a.failed_decoder.as_deref()), (None, Some("cuda")));
    failures.note("/s/a.mp4", &a);
    assert!(failures.decoders.contains("cuda"));
    t.step(false);
    t.step(true);
    assert_eq!(t.aftermath(false).discard.as_deref(), Some("/r/a.mp4.partial"));
    t.step(true);
    t.step(true);
    let a = t.aftermath(false);
    assert_eq!((a.discard.as_deref(), a.with_record), (Some("/r/a.mp4"), true));
    assert!(t.aftermath(true).discard.is_none());
}

#[test]
fn transcoding_arguments_and_progress() {
    let filter =
        build_proxy_filter("/s/a.mp4", ProxyScale::MaxHeight(640), &vec![], false, &steadied(0.0));
    assert!(filter.contains("min(640,ih)"));
    let args =
        transcode_args("/s/a.mp4", "/r/a.mp4", &filter, None, &None, ProxyCodec::H264, &None);
    assert!(args.contains(&"/s/a.mp4".to_string()));
    assert!(args.contains(&"libx264".to_string()));
    assert!(vidstab_trf_path("/s/a.mp4").ends_with(".trf"));
    assert!(!vidstab_analysis_args("/s/a.mp4", ProxyScale::MaxHeight(640), &steadied(0.5)).is_empty());
    let mut recent: Vec<String> = vec![];
    assert_eq!(read_progress_line(&mut recent, "total_size=42"), Some(42));
    assert_eq!(read_progress_line(&mut recent, "oh no"), None);
    assert!(failure_tail(&recent).contains("oh no"));
}

#[test]
fn cleanup_takes_unfinished_files_of_the_sources_only() {
    let root = "/tmp/root";
    let (a, b) = ("/s/clip-a.mp4", "/s/clip-b.mp4");
    let plan = plan_stale_cleanup(&vec![spec(a, 1080)], root).unwrap();
    let path = spec(a, 1080).local_proxy_path(root).unwrap();
    let other = spec(b, 1080).local_proxy_path(root).unwrap();
    let names = [
        format!("{path}.partial"),
        format!("{path}.source-meta.partial"),
        format!("{path}.source-meta"),
        format!("{other}.partial"),
        format!("{root}/notes.partial"),
        ownership_index_path(root),
    ];
    let files: Vec<FoundFile> = names.iter().map(|p| file(p, 5)).collect();
    let gone = cleanup_proxy_dir_variants(root, &files, &plan.desired_local, &plan.local_digests);
    let paths: Vec<String> = gone.iter().map(|r| r.path.clone()).collect();
    assert_eq!(paths, vec![names[0].clone(), names[1].clone()]);
    assert!(gone.iter().all(|r| !r.with_record));
}

#[test]
fn probes_ask_for_height_and_duration() {
    assert_eq!(
        height_probe_args("/s/a.mp4").join(" "),
        "-v error -select_streams v:0 -show_entries stream=height \
         -of default=noprint_wrappers=1:nokey=1 /s/a.mp4"
    );
    assert_eq!(
        duration_probe_args("/s/a.mp4").join(" "),
        "-v error -show_entries format=duration -of default=nokey=1:noprint_wrappers=1 /s/a.mp4"
    );
}

#[test]
fn a_request_without_stabilisation_has_none() {
    let mut cache = ProxyCache::new("/tmp/root".to_string());
    let job = cache.request("/s/a.mp4", ProxyScale::MaxHeight(640), None, None).unwrap();
    assert!(!job.vidstab_enabled);
    assert_eq!(job.vidstab_smoothing.label, "0.00");
    assert_eq!(job.vidstab_smoothing.hundredths, 0);
}
