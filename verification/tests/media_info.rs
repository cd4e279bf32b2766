use ultimateslice::keyed::StringSet;
use ultimateslice::model::{Clip, ClipKind, MediaItem, MediaProbeMetadata, Project, Track};
use ultimateslice::probe_cache::{
    extract_creation_time_ns, extract_embedded_timecode, ffprobe_args, ffprobe_codec_summary,
    ffprobe_dimensions, image_codec_summary, is_image_file, is_svg_file, parse_timecode_to_ns, pretty_codec_name,
    probe_media_metadata, probe_result, CreationTime, Discovered, MediaProbeCache, ProbeFacts,
    ProbeQuestion,
    SvgAnalysis, VideoStream,
};
use ultimateslice::project_health::{
    build_media_availability_index, collect_snapshot, directory_usage, format_proxy_sidecar_paths,
    missing_source_paths, purge_path, summarize_path, DirectoryFacts, DirectoryUsage, FileTree,
    HealthDirectories, PathState, ProjectHealthPathCategory, ProjectHealthPathKind,
    ProxySidecarUsage, PurgeAction,
};

#[test]
fn test_parse_timecode_to_ns_ntsc_23976() {
    let ns = parse_timecode_to_ns("20:13:33:07", 24000, 1001).unwrap();
    assert_eq!(ns, 72_886_104_958_333);
}

#[test]
fn test_parse_timecode_to_ns_integer_24fps() {
    let ns = parse_timecode_to_ns("01:00:00:00", 24, 1).unwrap();
    assert_eq!(ns, 3_600_000_000_000);
}

#[test]
fn test_parse_timecode_drop_frame_separator() {
    let ns = parse_timecode_to_ns("00:00:01;00", 30000, 1001).unwrap();
    assert_eq!(ns, 1_001_000_000);
}

#[test]
fn test_parse_timecode_invalid() {
    assert!(parse_timecode_to_ns("invalid", 24000, 1001).is_none());
    assert!(parse_timecode_to_ns("00:00:00", 24000, 1001).is_none());
}

#[test]
fn test_pretty_codec_name() {
    assert_eq!(pretty_codec_name("h264"), "H.264");
    assert_eq!(pretty_codec_name("aac"), "AAC");
    assert_eq!(pretty_codec_name("pcm_s24le"), "PCM");
}

#[test]
fn test_image_codec_summary() {
    assert_eq!(image_codec_summary("/tmp/example.jpeg").as_deref(), Some("JPEG"));
    assert_eq!(image_codec_summary("/tmp/example.SVG").as_deref(), Some("SVG"));
    assert_eq!(image_codec_summary("/tmp/example.unknown"), None);
}

#[test]
fn test_ffprobe_dimensions_empty_output() {
    assert_eq!(ffprobe_dimensions(&None), (None, None));
}

#[test]
fn ffprobe_outputs_are_read() {
    assert_eq!(ffprobe_dimensions(&Some("1920,1080\n".to_string())), (Some(1920), Some(1080)));
    assert_eq!(ffprobe_codec_summary(&None), None);
}

#[test]
fn embedded_timecode_is_the_one_that_parses() {
    assert_eq!(
        extract_embedded_timecode(&Some("01:00:00:00\n".to_string()), 24, 1),
        Some(3_600_000_000_000)
    );
    assert_eq!(extract_embedded_timecode(&None, 24, 1), None);
}

#[test]
fn creation_time_gives_the_time_of_day() {
    let t = CreationTime { hour: Some(1), minute: Some(2), second: Some(3), microsecond: Some(4) };
    assert_eq!(extract_creation_time_ns(t), Some(3_723_000_004_000));
    let t = CreationTime { hour: None, minute: Some(2), second: Some(3), microsecond: Some(4) };
    assert_eq!(extract_creation_time_ns(t), None);
}

#[test]
fn image_and_drawing_files_go_by_extension() {
    assert!(is_image_file("/a/b.PNG"));
    assert!(!is_image_file("/a/b.mp4"));
    assert!(is_svg_file("/a/b.svg"));
}

fn no_facts() -> ProbeFacts {
    ProbeFacts {
        file_size_bytes: None,
        dimensions_output: None,
        codec_output: None,
        timecode_output: None,
        svg: None,
        discovered: None,
    }
}

#[test]
fn metadata_of_a_video_file() {
    let mut facts = no_facts();
    facts.file_size_bytes = Some(12);
    facts.discovered = Some(Discovered {
        duration_ns: Some(5_000),
        video: Some(VideoStream { width: 640, height: 360, rate_num: 25, rate_den: 1 }),
        has_audio: true,
        created: None,
    });
    let m = probe_media_metadata("/a/clip.mp4", &facts);
    assert_eq!(m.duration_ns, Some(5_000));
    assert!(m.has_audio);
    assert!(!m.is_audio_only);
    assert!(!m.is_image);
}

#[test]
fn metadata_of_an_animated_drawing() {
    let mut facts = no_facts();
    facts.svg = Some(SvgAnalysis { is_animated: true, duration_ns: Some(7) });
    let m = probe_media_metadata("/a/clip.svg", &facts);
    assert!(m.is_image);
    assert!(m.is_animated_svg);
}

#[test]
fn probe_cache_asks_once_and_keeps_results() {
    let mut cache = MediaProbeCache::new();
    assert!(cache.request("/a.mp4"));
    assert!(!cache.request("/a.mp4"));
    let mut found = MediaProbeMetadata::default();
    found.duration_ns = Some(9);
    let ready = cache.poll(vec![probe_result("/a.mp4".to_string(), found)]);
    assert_eq!(ready, vec!["/a.mp4".to_string()]);
    assert_eq!(cache.get("/a.mp4").map(|r| r.duration_ns), Some(9));
    assert!(!cache.request("/a.mp4"));
    assert!(cache.get("/b.mp4").is_none());
}

fn nested_project() -> Project {
    let mut project = Project::new("Health");
    project.tracks.clear();
    let mut outer = Track::new_video("V1");
    let mut inner = Track::new_video("Inner");
    inner.clips.push(Clip::new("nested.mp4", 1_000_000_000, 0, ClipKind::Video));
    let mut compound = Clip::new_compound(0, vec![inner]);
    compound.label = "Compound".into();
    compound.id = "compound".into();
    outer.clips.push(compound);
    project.tracks.push(outer);
    project
}

#[test]
fn missing_source_paths_include_nested_compound_sources() {
    let project = nested_project();
    let library = vec![MediaItem::new("top.mp4", 1_000_000_000)];
    let missing = missing_source_paths(&project, &library, &StringSet::new());
    assert!(missing.iter().any(|path| path == "nested.mp4"));
    assert!(missing.iter().any(|path| path == "top.mp4"));
}

#[test]
fn present_sources_are_not_missing() {
    let project = nested_project();
    let library = vec![MediaItem::new("top.mp4", 1_000_000_000)];
    let mut present = StringSet::new();
    present.insert("nested.mp4".to_string());
    assert_eq!(missing_source_paths(&project, &library, &present), vec!["top.mp4".to_string()]);
    let index = build_media_availability_index(&project, &library, &present);
    assert_eq!(index.get("nested.mp4"), Some(&true));
    assert_eq!(index.get("top.mp4"), Some(&false));
}

fn facts(path: &str, files: usize, bytes: u64) -> DirectoryFacts {
    DirectoryFacts {
        path: path.to_string(),
        exists: true,
        usage: DirectoryUsage { file_count: files, size_bytes: bytes },
    }
}

#[test]
fn snapshot_sums_generated_and_model_bytes() {
    let generated = directory_usage(&FileTree::Directory {
        entries: vec![FileTree::File { len: 10 }],
    });
    let models = directory_usage(&FileTree::Directory {
        entries: vec![FileTree::File { len: 20 }],
    });
    let generated_summary = summarize_path(
        ProjectHealthPathKind::AutoTags,
        ProjectHealthPathCategory::GeneratedCache,
        "Generated",
        &DirectoryFacts { path: "/t/generated".to_string(), exists: true, usage: generated },
        true,
    );
    let model_summary = summarize_path(
        ProjectHealthPathKind::ClipSearchModels,
        ProjectHealthPathCategory::InstalledModel,
        "Model",
        &DirectoryFacts { path: "/t/models".to_string(), exists: true, usage: models },
        false,
    );
    assert_eq!(generated_summary.size_bytes, 10);
    assert_eq!(generated_summary.file_count, 1);
    assert_eq!(model_summary.size_bytes, 20);
    assert_eq!(model_summary.file_count, 1);
}

#[test]
fn whole_snapshot_adds_up() {
    let dirs = HealthDirectories {
        proxy_local: facts("/p", 1, 1),
        background_removal: facts("/b", 1, 2),
        frame_interpolation: facts("/f", 1, 4),
        voice_enhancement: facts("/v", 1, 8),
        clip_embeddings: facts("/c", 1, 16),
        auto_tags: facts("/a", 1, 32),
        clip_search_models: facts("/m1", 1, 100),
        background_removal_model: facts("/m2", 1, 200),
        frame_interpolation_model: facts("/m3", 1, 400),
        stt_models: facts("/m4", 1, 800),
        prerender: Some(facts("/r", 1, 64)),
    };
    let sidecars = ProxySidecarUsage { directories: vec![], file_count: 1, size_bytes: 128 };
    let s = collect_snapshot(&nested_project(), &vec![], &StringSet::new(), &sidecars, &dirs);
    assert_eq!(s.generated_cache_bytes, 255);
    assert_eq!(s.installed_model_bytes, 1500);
    assert_eq!(s.offline_paths, vec!["nested.mp4".to_string()]);
}

#[test]
fn directories_are_counted_to_the_bottom() {
    let tree = FileTree::Directory {
        entries: vec![
            FileTree::File { len: 3 },
            FileTree::Directory { entries: vec![FileTree::File { len: 4 }, FileTree::Absent] },
        ],
    };
    assert_eq!(directory_usage(&tree), DirectoryUsage { file_count: 2, size_bytes: 7 });
    assert_eq!(directory_usage(&FileTree::Absent), DirectoryUsage { file_count: 0, size_bytes: 0 });
}

#[test]
fn sidecar_paths_are_listed_shortly() {
    assert_eq!(
        format_proxy_sidecar_paths(&vec![]),
        "UltimateSlice.cache/ beside project source media"
    );
    assert_eq!(format_proxy_sidecar_paths(&vec!["/a".into(), "/b".into()]), "/a\n/b");
}

#[test]
fn purging_goes_by_what_is_there() {
    assert_eq!(purge_path(PathState::Missing), PurgeAction::CreateDirectory);
    assert_eq!(purge_path(PathState::Directory), PurgeAction::RecreateDirectory);
    assert_eq!(purge_path(PathState::Other), PurgeAction::RemoveFile);
}

#[test]
fn questions_of_the_prober() {
    assert_eq!(
        ffprobe_args(ProbeQuestion::Timecode, "/a.mov").join(" "),
        "-v quiet -select_streams v:0 -show_entries stream_tags=timecode -of csv=p=0 /a.mov"
    );
    assert_eq!(
        ffprobe_args(ProbeQuestion::Dimensions, "/a.png").join(" "),
        "-v quiet -show_entries stream=width,height -of csv=p=0 /a.png"
    );
    assert_eq!(
        ffprobe_args(ProbeQuestion::Codecs, "/a.mov").join(" "),
        "-v quiet -show_entries stream=codec_type,codec_name -of csv=p=0 /a.mov"
    );
}
