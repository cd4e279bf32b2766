use ultimateslice::music_gen;
use ultimateslice::music_gen::{
    align_codebooks, check_samples, draw_bits, draw_token, find_model_dir, past_name, present_name,
    run_music_gen, tensor_source, top_k, worker_breakdown, Generation, MusicGenCache, MusicGenJob,
    TensorSource, BOS_TOKEN, MAX_NEW_TOKENS,
};
use ultimateslice::numbers::Real;
use ultimateslice::sam_cache::{
    begin_segment, best_score_index, check_frame, check_prompt, find_pt_checkpoint_in, find_sam_model_paths,
    install_status, interpret_mask_shape, locate_mask, missing_files, model_install_dir,
    preprocess_image_for_sam, required_files, rescale_mask, segment_result, BoxPrompt,
    DecoderOutputs, DirectoryListing, LastPixel, Output, SamInstallStatus, SamModelPaths,
    DECODER_FILENAME, IMAGE_ENCODER_FILENAME, LANGUAGE_ENCODER_FILENAME, SAM_INPUT_SIZE,
};
use ultimateslice::stt_cache::{
    build_segments, chosen_language, clean_whisper_text, find_stt_model_path, merge_tokens,
    run_stt_job, source_uri, ModelListing, RawSegment, RawToken, SttCache, SttFailure,
};

fn listing(dir: &str, files: &[&str]) -> DirectoryListing {
    DirectoryListing {
        dir: dir.to_string(),
        files: files.iter().map(|f| f.to_string()).collect(),
    }
}

#[test]
fn sam_model_paths_from_dir_builds_expected_layout() {
    let dir = "/tmp/sam3-test";
    let paths = SamModelPaths::from_dir(dir);
    assert_eq!(paths.image_encoder, format!("{dir}/{IMAGE_ENCODER_FILENAME}"));
    assert_eq!(paths.language_encoder, format!("{dir}/{LANGUAGE_ENCODER_FILENAME}"));
    assert_eq!(paths.decoder, format!("{dir}/{DECODER_FILENAME}"));
    assert_eq!(paths.all_paths().len(), 3);
}

#[test]
fn sam_filenames_use_sam3_prefix() {
    assert!(IMAGE_ENCODER_FILENAME.starts_with("sam3_"));
    assert!(LANGUAGE_ENCODER_FILENAME.starts_with("sam3_"));
    assert!(DECODER_FILENAME.starts_with("sam3_"));
    assert!(IMAGE_ENCODER_FILENAME.ends_with(".onnx"));
    assert!(LANGUAGE_ENCODER_FILENAME.ends_with(".onnx"));
    assert!(DECODER_FILENAME.ends_with(".onnx"));
}

#[test]
fn sam_required_files_matches_expected_count() {
    let required = required_files();
    assert_eq!(required.len(), 3);
    assert!(required.contains(&IMAGE_ENCODER_FILENAME.to_string()));
    assert!(required.contains(&LANGUAGE_ENCODER_FILENAME.to_string()));
    assert!(required.contains(&DECODER_FILENAME.to_string()));
}

#[test]
fn install_status_short_labels_round_trip() {
    assert_eq!(SamInstallStatus::Installed.short_label(), "✓ Installed");
    assert_eq!(SamInstallStatus::NotInstalled.short_label(), "Not installed");
    let partial = SamInstallStatus::Partial { missing: vec![DECODER_FILENAME.to_string()] };
    assert_eq!(partial.short_label(), "⚠ Partial (2/3 files)");
    assert!(SamInstallStatus::Installed.is_ready());
    assert!(!partial.is_ready());
    assert!(!SamInstallStatus::NotInstalled.is_ready());
}

#[test]
fn model_install_dir_ends_in_sam3() {
    let dir = model_install_dir(&None, &Some("/home/u".to_string()));
    assert!(dir.ends_with("ultimateslice/models/sam3"));
    let dir = model_install_dir(&Some("/data".to_string()), &None);
    assert_eq!(dir, "/data/ultimateslice/models/sam3");
}

#[test]
fn sam_model_paths_all_files_present_detected_via_is_file() {
    let none = listing("/m", &[]);
    assert_eq!(missing_files(&none).len(), 3);
    let all = listing("/m", &[IMAGE_ENCODER_FILENAME, LANGUAGE_ENCODER_FILENAME, DECODER_FILENAME]);
    assert!(missing_files(&all).is_empty());
    assert!(find_sam_model_paths(&vec![none, all]).is_some());
}

#[test]
fn sam_model_paths_partial_install_detected() {
    let d = listing("/m", &[IMAGE_ENCODER_FILENAME, DECODER_FILENAME]);
    let missing = missing_files(&d);
    assert_eq!(missing, vec![LANGUAGE_ENCODER_FILENAME.to_string()]);
    let status = SamInstallStatus::Partial { missing: missing.clone() };
    assert_eq!(status.short_label(), "⚠ Partial (2/3 files)");
    assert!(!status.is_ready());
}

#[test]
fn sam_model_paths_empty_dir_is_not_installed() {
    let d = listing("/m", &[]);
    assert_eq!(3 - missing_files(&d).len(), 0);
    assert!(find_sam_model_paths(&vec![d]).is_none());
}

#[test]
fn sam_install_status_not_installed_when_no_candidate_exists() {
    let status = install_status(&vec![]);
    assert!(matches!(status, SamInstallStatus::NotInstalled));
}

#[test]
fn install_status_prefers_complete_then_partial_then_checkpoint() {
    let checkpoint = || listing("/c", &["sam3.pt"]);
    let partial = || listing("/p", &[IMAGE_ENCODER_FILENAME]);
    let all = || listing("/a", &[IMAGE_ENCODER_FILENAME, LANGUAGE_ENCODER_FILENAME, DECODER_FILENAME]);
    assert!(matches!(
        install_status(&vec![checkpoint(), partial(), all()]),
        SamInstallStatus::Installed
    ));
    match install_status(&vec![checkpoint(), partial()]) {
        SamInstallStatus::Partial { missing } => assert_eq!(missing.len(), 2),
        _ => panic!("partial expected"),
    }
    match install_status(&vec![checkpoint()]) {
        SamInstallStatus::PtCheckpointOnly { pt_path } => assert_eq!(pt_path, "/c/sam3.pt"),
        _ => panic!("checkpoint expected"),
    }
}

#[test]
fn pt_checkpoint_only_status_rendered_by_short_label() {
    let status = SamInstallStatus::PtCheckpointOnly {
        pt_path: "/fake/sam3.1_multiplex.pt".to_string(),
    };
    assert_eq!(status.short_label(), "⚠ PyTorch checkpoint — needs ONNX export");
    assert!(!status.is_ready());
}

#[test]
fn find_pt_checkpoint_in_detects_sam3_variants() {
    assert!(find_pt_checkpoint_in(&listing("/t", &[])).is_none());
    assert!(find_pt_checkpoint_in(&listing("/t", &["unrelated.bin"])).is_none());
    let found = find_pt_checkpoint_in(&listing("/t", &["unrelated.bin", "sam3.1_multiplex.pt"]))
        .expect("should detect sam3.1_multiplex.pt");
    assert_eq!(found, "/t/sam3.1_multiplex.pt");
}

#[test]
fn find_pt_checkpoint_in_matches_alternative_sam3_filenames() {
    for filename in ["sam3.pt", "sam3_large.pt", "sam3_multiplex.pt", "sam3.1.pt"] {
        let found = find_pt_checkpoint_in(&listing("/t", &[filename]));
        assert_eq!(found, Some(format!("/t/{filename}")));
    }
}

#[test]
fn find_pt_checkpoint_in_ignores_non_sam3_pickles() {
    assert!(find_pt_checkpoint_in(&listing("/t", &["rife.pkl", "flownet.pt"])).is_none());
}

/// Nearest source lines for the scaled picture, as the caller computes them.
fn nearest(src: usize, longest: usize) -> Vec<usize> {
    let scale = SAM_INPUT_SIZE as f32 / longest as f32;
    let padded = ((src as f32 * scale).round() as usize).min(SAM_INPUT_SIZE);
    let ratio = src as f32 / padded.max(1) as f32;
    (0..padded).map(|d| ((d as f32 * ratio) as usize).min(src - 1)).collect()
}

fn at(tensor: &[u8], c: usize, y: usize, x: usize) -> u8 {
    tensor[(c * SAM_INPUT_SIZE + y) * SAM_INPUT_SIZE + x]
}

#[test]
fn preprocess_image_landscape_padded_on_bottom() {
    let (src_w, src_h) = (200usize, 100usize);
    let rgb: Vec<u8> = vec![0xff; src_w * src_h * 3];
    let (rows, cols) = (nearest(src_h, 200), nearest(src_w, 200));
    let t = preprocess_image_for_sam(&rgb, src_w, src_h, &rows, &cols);
    assert_eq!(t.len(), 3 * SAM_INPUT_SIZE * SAM_INPUT_SIZE);
    assert_eq!(cols.len(), SAM_INPUT_SIZE);
    assert!((rows.len() as i32 - 504).abs() <= 1);
    assert_eq!(at(&t, 0, 0, 0), 0xff);
    assert_eq!(at(&t, 0, rows.len() - 1, cols.len() - 1), 0xff);
    assert_eq!(at(&t, 0, rows.len(), 0), 0);
    assert_eq!(at(&t, 1, SAM_INPUT_SIZE - 1, SAM_INPUT_SIZE - 1), 0);
}

#[test]
fn preprocess_image_portrait_padded_on_right() {
    let (src_w, src_h) = (100usize, 200usize);
    let rgb: Vec<u8> = vec![0x80; src_w * src_h * 3];
    let (rows, cols) = (nearest(src_h, 200), nearest(src_w, 200));
    let t = preprocess_image_for_sam(&rgb, src_w, src_h, &rows, &cols);
    assert_eq!(rows.len(), SAM_INPUT_SIZE);
    assert!((cols.len() as i32 - 504).abs() <= 1);
    assert_eq!(at(&t, 0, 0, 0), 0x80);
    assert_eq!(at(&t, 0, 0, cols.len()), 0);
}

#[test]
fn preprocess_image_square_source_fills_entire_1008() {
    let src = 500usize;
    let rgb: Vec<u8> = vec![123; src * src * 3];
    let lines = nearest(src, src);
    let t = preprocess_image_for_sam(&rgb, src, src, &lines, &lines);
    assert_eq!(lines.len(), SAM_INPUT_SIZE);
    assert_eq!(at(&t, 0, 0, 0), 123);
    assert_eq!(at(&t, 2, SAM_INPUT_SIZE - 1, SAM_INPUT_SIZE - 1), 123);
}

#[test]
fn preprocess_image_preserves_channel_order() {
    let rgb: Vec<u8> = vec![10, 20, 30];
    let lines = nearest(1, 1);
    let t = preprocess_image_for_sam(&rgb, 1, 1, &lines, &lines);
    assert_eq!(at(&t, 0, 0, 0), 10);
    assert_eq!(at(&t, 1, 0, 0), 20);
    assert_eq!(at(&t, 2, 0, 0), 30);
}

#[test]
fn interpret_mask_shape_handles_common_variants() {
    assert_eq!(interpret_mask_shape(&vec![3, 128, 128]).unwrap(), (3, 128, 128));
    assert_eq!(interpret_mask_shape(&vec![3, 128, 128, 1]).unwrap(), (3, 128, 128));
    assert_eq!(interpret_mask_shape(&vec![3, 1, 128, 128]).unwrap(), (3, 128, 128));
    assert_eq!(interpret_mask_shape(&vec![1, 3, 128, 128]).unwrap(), (3, 128, 128));
    assert!(interpret_mask_shape(&vec![128]).is_err());
    assert!(interpret_mask_shape(&vec![5, 5, 5, 5, 5]).is_err());
}

#[test]
fn mask_is_located_and_bounds_are_checked() {
    let m = locate_mask((2, 3, 4), 1, 24).unwrap();
    assert_eq!((m.start, m.height, m.width), (12, 3, 4));
    assert_eq!(
        locate_mask((2, 3, 4), 2, 24).unwrap_err(),
        "best score index 2 out of range for 2 masks"
    );
    assert!(locate_mask((2, 3, 4), 1, 23).is_err());
    let flat: Vec<bool> = vec![false, true, false, true];
    let m = locate_mask((1, 2, 2), 0, 4).unwrap();
    assert_eq!(
        rescale_mask(&flat, m, &vec![0, 1], &vec![1, 1, 0]),
        vec![255, 255, 0, 255, 255, 0]
    );
}

#[test]
fn frames_are_checked_before_segmenting() {
    assert!(check_frame(12, 2, 2).is_ok());
    assert_eq!(
        check_frame(0, 0, 2).unwrap_err(),
        "segment_with_box: source dimensions must be non-zero"
    );
    assert_eq!(
        check_frame(11, 2, 2).unwrap_err(),
        "segment_with_box: rgb length 11 does not match 2x2x3 (12)"
    );
}

fn value(x: f32) -> Real {
    Real { bits: (x as f64).to_bits() }
}

#[test]
fn best_score_is_the_first_largest_number() {
    let scores = vec![value(0.1), value(0.5), value(0.5), value(-0.2)];
    assert_eq!(best_score_index(&scores), (1, value(0.5)));
    let scores = vec![value(f32::NAN), value(-3.0), value(f32::NAN), value(-1.0)];
    assert_eq!(best_score_index(&scores), (3, value(-1.0)));
    let scores = vec![value(f32::NAN)];
    assert_eq!(best_score_index(&scores), (0, value(f32::NEG_INFINITY)));
}

#[test]
fn box_prompt_from_corners_normalizes_orientation() {
    let b = BoxPrompt::from_corners(value(50.0), value(80.0), value(10.0), value(20.0));
    assert_eq!(b.x1, value(10.0));
    assert_eq!(b.y1, value(20.0));
    assert_eq!(b.x2, value(50.0));
    assert_eq!(b.y2, value(80.0));
}

#[test]
fn box_prompt_clamp_to_source_clips_oob_corners() {
    let last = LastPixel { x: value(100.0 - 1.0), y: value(80.0 - 1.0) };
    let b = BoxPrompt::from_corners(value(-10.0), value(-5.0), value(200.0), value(300.0))
        .clamp_to_source(last);
    assert_eq!(b.x1, value(0.0));
    assert_eq!(b.y1, value(0.0));
    assert_eq!(b.x2, value(99.0));
    assert_eq!(b.y2, value(79.0));
    assert_eq!(b.clamp_to_source(last), b);
}

#[test]
fn boxes_outside_the_picture_are_refused() {
    let last = LastPixel { x: value(99.0), y: value(79.0) };
    let inside = BoxPrompt::from_corners(value(1.0), value(2.0), value(3.0), value(4.0));
    assert_eq!(check_prompt(inside, last).unwrap(), inside);
    let reversed = BoxPrompt { x1: inside.x2, y1: inside.y2, x2: inside.x1, y2: inside.y1 };
    assert_eq!(check_prompt(reversed, last).unwrap(), inside);
    let outside = BoxPrompt::from_corners(value(200.0), value(2.0), value(300.0), value(4.0));
    assert_eq!(
        check_prompt(outside, last).unwrap_err(),
        "segment_with_box: prompt box has zero area after clamping"
    );
}

#[test]
fn segmenting_begins_with_frame_and_box() {
    let last = LastPixel { x: value(1.0), y: value(1.0) };
    let whole = BoxPrompt::from_corners(value(0.0), value(0.0), value(9.0), value(9.0));
    let reversed = BoxPrompt { x1: whole.x2, y1: whole.y1, x2: whole.x1, y2: whole.y2 };
    let asked = begin_segment(12, 2, 2, reversed, last).unwrap();
    assert_eq!(asked, begin_segment(12, 2, 2, whole, last).unwrap());
    assert_eq!((asked.x1, asked.x2), (value(0.0), value(1.0)));
    assert!(begin_segment(11, 2, 2, whole, last).unwrap_err().contains("rgb length 11"));
    let flat = BoxPrompt { y2: whole.y1, ..whole };
    assert!(begin_segment(12, 2, 2, flat, last).unwrap_err().contains("zero area"));
}

fn outputs(scores: Vec<f32>, shape: Vec<i64>, flat: Vec<bool>) -> DecoderOutputs {
    let scores: Vec<Real> = scores.into_iter().map(value).collect();
    DecoderOutputs { scores: Output::Read(scores), masks: Output::Read((shape, flat)) }
}

#[test]
fn segment_takes_the_mask_with_the_best_score() {
    let flat = vec![true, true, true, true, false, true, false, true];
    let o = outputs(vec![0.25, 0.75], vec![2, 2, 2], flat);
    let r = segment_result(o, 3, 2, &vec![0, 1], &vec![1, 1, 0]).unwrap();
    assert_eq!(r.mask, vec![255, 255, 0, 255, 255, 0]);
    assert_eq!((r.src_w, r.src_h, r.score), (3, 2, value(0.75)));
}

#[test]
fn segment_says_what_is_wrong_with_the_output() {
    let rows: Vec<usize> = vec![0];
    let error = |o: DecoderOutputs| segment_result(o, 1, 1, &rows, &rows).unwrap_err();
    let lost = |o: &str| Output::Unreadable { error: o.to_string() };
    let masks = || Output::Read((vec![1i64, 1, 1], vec![true]));
    let scores = || Output::Read(vec![value(1.0)]);
    assert_eq!(
        error(DecoderOutputs { scores: Output::Missing, masks: Output::Missing }),
        "decoder output missing 'scores'"
    );
    assert_eq!(
        error(DecoderOutputs {
            scores: Output::Unreadable { error: "x".to_string() },
            masks: masks()
        }),
        "decoder scores extract: x"
    );
    assert_eq!(
        error(DecoderOutputs { scores: Output::Read(vec![]), masks: Output::Missing }),
        "decoder returned zero-length scores vector"
    );
    assert_eq!(
        error(DecoderOutputs { scores: scores(), masks: Output::Missing }),
        "decoder output missing 'masks'"
    );
    assert_eq!(
        error(DecoderOutputs { scores: scores(), masks: lost("y") }),
        "decoder masks extract: y"
    );
    assert_eq!(
        error(outputs(vec![1.0], vec![7, -2], vec![])),
        "masks shape: unsupported masks rank/shape: [7, -2]"
    );
    assert_eq!(
        error(outputs(vec![0.0, 1.0], vec![1, 1, 1], vec![true])),
        "best score index 1 out of range for 1 masks"
    );
    assert_eq!(
        error(outputs(vec![1.0], vec![1, 2, 2], vec![true])),
        "masks tensor truncated: expected at least 4 elements, got 1"
    );
}

// ---------------------------------------------------------------- music
fn music_job(id: &str) -> MusicGenJob {
    MusicGenJob {
        job_id: id.to_string(),
        prompt: "calm piano".to_string(),
        duration_secs: Real { bits: 1.0f64.to_bits() },
        output_path: String::new(),
        track_id: "t".to_string(),
        timeline_start_ns: 3,
    }
}

#[test]
fn music_is_asked_for_once_and_only_with_a_model() {
    let mut none = MusicGenCache::new(None, "/out".to_string());
    assert!(!none.is_available());
    assert!(none.request(music_job("a")).is_none());
    let mut cache = MusicGenCache::new(Some("/m".to_string()), "/out".to_string());
    let job = cache.request(music_job("a")).unwrap();
    assert_eq!(job.output_path, "/out/musicgen_a.wav");
    assert!(cache.request(music_job("a")).is_none());
    assert!(cache.progress().in_flight);
    let done = cache.poll(vec![run_music_gen(&job, Ok(5))]);
    assert_eq!(done[0].duration_ns, 5);
    assert!(done[0].success);
    let p = cache.progress();
    assert_eq!((p.total, p.completed, p.in_flight), (1, 1, false));
}

#[test]
fn failures_of_music_are_told() {
    let r = run_music_gen(&music_job("a"), Err("no".to_string()));
    assert_eq!((r.success, r.error.as_deref(), r.duration_ns), (false, Some("no"), 0));
    let r = worker_breakdown(&music_job("a"), "boom");
    assert_eq!(r.error.as_deref(), Some("Worker panic: boom"));
    assert_eq!(check_samples(0).unwrap_err(), "EnCodec produced no audio samples");
    assert!(check_samples(1).is_ok());
}

#[test]
fn music_model_is_the_first_complete_directory() {
    let part = listing("/x", &["tokenizer.json"]);
    let whole = listing(
        "/y",
        &["text_encoder.onnx", "decoder_model_merged.onnx", "encodec_decode.onnx", "tokenizer.json"],
    );
    assert_eq!(find_model_dir(&vec![part, whole]), Some("/y".to_string()));
    assert_eq!(find_model_dir(&vec![]), None);
    assert_eq!(
        music_gen::model_install_dir(&None, &Some("/h".to_string())),
        "/h/.local/share/ultimateslice/models/musicgen-small"
    );
    assert_eq!(
        music_gen::music_gen_cache_dir(&Some("/d".to_string()), &None),
        "/d/ultimateslice/generated-music"
    );
    assert_eq!(
        music_gen::candidate_dirs(&Some("/bin".to_string()), &Some("/d".to_string()), &None)[0],
        "/bin/data/models/musicgen-small"
    );
}

#[test]
fn tensors_are_named_layer_by_layer() {
    assert_eq!(past_name(0), "past_key_values.0.decoder.key");
    assert_eq!(past_name(7), "past_key_values.1.encoder.value");
    assert_eq!(present_name(94), "present.23.encoder.key");
}

#[test]
fn tensors_of_the_encoder_stay() {
    assert_eq!(tensor_source(true, 2, &Some(vec![1, 16, 4, 64])), TensorSource::Previous);
    assert_eq!(tensor_source(true, 0, &Some(vec![1, 16, 4, 64])), TensorSource::Output);
    assert_eq!(tensor_source(true, 0, &Some(vec![0, 16, 4, 64])), TensorSource::Previous);
    assert_eq!(tensor_source(false, 2, &Some(vec![1, 16, 4, 64])), TensorSource::Output);
    assert_eq!(tensor_source(false, 0, &None), TensorSource::Empty);
}

#[test]
fn delayed_codebooks_are_lined_up() {
    let mut g = Generation::begin(6);
    assert_eq!(g.decoder_ids(), vec![BOS_TOKEN; 4]);
    assert!(!g.uses_cache());
    let mut step: i64 = 0;
    while !g.is_done() {
        let t = step * 10;
        g.take_step(4 * 2048, &vec![t, t + 1, t + 2, t + 3]);
        step += 1;
    }
    assert_eq!(g.tokens[1], vec![2048, 2048, 11, 21, 31, 41, 51]);
    let (codes, n) = align_codebooks(&g.tokens).unwrap();
    assert_eq!(n, 3);
    assert_eq!(codes, vec![0, 10, 20, 11, 21, 31, 22, 32, 42, 33, 43, 53]);
    assert_eq!(g.decoder_ids(), vec![50, 51, 52, 53]);
}

#[test]
fn short_scores_give_start_tokens_and_short_pieces_nothing() {
    let mut g = Generation::begin(1);
    assert_eq!(g.scores_for(0, 2047), None);
    assert_eq!(g.scores_for(0, 2048), Some(0));
    assert_eq!(g.scores_for(1, 8192), None);
    g.take_step(2047, &vec![1, 1, 1, 1]);
    assert_eq!(g.tokens[0], vec![2048, 2048]);
    assert_eq!(align_codebooks(&g.tokens).unwrap_err(), "No tokens generated");
    assert_eq!(Generation::begin(99999).steps, MAX_NEW_TOKENS);
}

#[test]
fn likeliest_tokens_are_drawn() {
    assert_eq!(top_k(&vec![30, 10, 20, 10], 3), vec![1, 3, 2]);
    assert_eq!(top_k(&vec![5], 250), vec![0]);
    assert_eq!(draw_token(&vec![7, 8, 9], &vec![false, true, true]), 8);
    assert_eq!(draw_token(&vec![7, 8, 9], &vec![false, false, false]), 9);
    assert_eq!(draw_token(&vec![], &vec![]), 0);
    let seed = (123u64 ^ 2048).wrapping_mul(6364136223846793005).wrapping_add(1442695040888963407);
    assert_eq!(draw_bits(123, 2048), seed >> 33);
}

// ---------------------------------------------------------------- speech
#[test]
fn speech_is_asked_for_once_and_only_with_a_model() {
    let mut none = SttCache::new(None, true);
    assert!(none.request("/a.mp4", 0, 9, "en").is_none());
    let mut cache = SttCache::new(Some("/m.bin".to_string()), true);
    let job = cache.request("/a.mp4", 0, 9, "en").unwrap();
    assert_eq!(job.model_path, "/m.bin");
    assert!(cache.request("/a.mp4", 0, 9, "en").is_none());
    let raw = vec![RawSegment {
        t0: 0,
        t1: 100,
        text: " It 's there".to_string(),
        tokens: vec![
            RawToken { t0: 0, t1: 1, text: "[_BEG_]".to_string() },
            RawToken { t0: 0, t1: 50, text: " It".to_string() },
            RawToken { t0: 50, t1: 60, text: "'s".to_string() },
            RawToken { t0: 60, t1: 100, text: " there".to_string() },
            RawToken { t0: 100, t1: 101, text: ".".to_string() },
        ],
    }];
    let done = cache.poll(vec![run_stt_job(job.cache_key, Ok(raw))]);
    assert_eq!(done.len(), 1);
    assert_eq!(done[0].source_path, "/a.mp4");
    assert_eq!(done[0].segments[0].text, "It's there");
    assert_eq!(done[0].segments[0].words.len(), 2);
    assert_eq!(done[0].segments[0].words[0].text, "It's");
    assert_eq!(done[0].segments[0].words[0].end_ns, 600_000_000);
    assert_eq!(done[0].segments[0].words[1].text, "there.");
    assert_eq!(cache.progress().completed, 1);
}

#[test]
fn failed_speech_is_not_asked_for_again() {
    let mut cache = SttCache::new(Some("/m.bin".to_string()), true);
    let job = cache.request("/a.mp4", 0, 9, "en").unwrap();
    let failed = run_stt_job(job.cache_key, Err(SttFailure::NotCompiled));
    assert!(!failed.success);
    assert!(cache.poll(vec![failed]).is_empty());
    assert!(cache.last_error.is_some());
    assert!(cache.request("/a.mp4", 0, 9, "en").is_none());
}

#[test]
fn speech_models_and_languages() {
    let dirs = vec![
        ModelListing { dir: "/x".to_string(), files: vec!["readme.txt".to_string()] },
        ModelListing { dir: "/y".to_string(), files: vec!["ggml-base.bin".to_string()] },
    ];
    let found = find_stt_model_path(&dirs);
    assert_eq!(found.as_deref(), Some("/y/ggml-base.bin"));
    assert_eq!(chosen_language("en"), Some("en".to_string()));
    assert!(source_uri("/a b.mp4").starts_with("file://"));
    assert_eq!(clean_whisper_text("  Hi  there , you 's"), "Hi there, you's");
    assert_eq!(clean_whisper_text("\tHi there \n"), "Hi there");
    let once = clean_whisper_text(" a ] b  ( c ) ! ");
    assert_eq!(once, "a] b ( c)!");
    assert_eq!(clean_whisper_text(&once), once);
    assert!(merge_tokens(&vec![]).is_empty());
    assert!(build_segments(&vec![]).is_empty());
}
