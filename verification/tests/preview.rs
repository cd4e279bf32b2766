use ultimateslice::model::{Clip, ClipKind};
use ultimateslice::numbers::Real;
use ultimateslice::player::{
    is_software_decoder, va_decoder_names, worker_threads, DecoderRank, PlaybackPriority, Player,
    PlayerState, RankChoice, SeekAction,
};
use ultimateslice::prerender_effects::{
    prerender_build_frei0r_effects_filter, EffectUse, Frei0rNativeType, NativeParam, NumberSetting,
    PluginInfo, PluginParam, TextSetting,
};
use ultimateslice::prerender_filters::{
    prerender_append_mask_filter, prerender_build_anamorphic_filter, prerender_build_blur_filter,
    prerender_build_chroma_key_filter, prerender_build_color_filter, prerender_build_denoise_filter,
    prerender_build_grading_filter, prerender_build_lut_filter,
    prerender_build_minterpolate_filter, prerender_build_motion_blur_filter,
    prerender_build_sharpen_filter, prerender_build_temperature_tint_filter,
    prerender_build_transition_adelay_filter, prerender_build_transition_tpad_filter,
    prerender_clip_has_keyframed_overlay, ColorInputs, KeyframeCounts, LutPath, MaskAlpha,
    SlowMotionInterp, TemperatureInputs, TransitionPrerenderSpec,
};
use ultimateslice::prerender_geometry::{
    prerender_build_crop_filter, prerender_build_flip_filter,
    prerender_build_keyframed_overlay_tail, prerender_build_rotation_filter,
    prerender_build_scale_position_filter, prerender_build_scale_translate_filter, OverlayInputs,
    ScaledPlace,
};
use ultimateslice::prerender_titles::{
    prerender_build_title_filter, TitleAnimation, TitleColor, TitleInputs,
};
use ultimateslice::reference_still::{
    announced_size_fits, filename_for_id, load_decoded, reference_stills_dir, still_from,
    still_path, write_png, RawPng, ScopeFrame,
};
use ultimateslice::thumbnail::{frame_pipeline_description, path_to_uri};
use ultimateslice::voiceover::{
    find_non_overlapping_start, launch_description, voiceover_cache_dir, CaptureSource,
    RecorderState, VoiceoverRecorder,
};

fn number(x: f64) -> Real {
    Real { bits: x.to_bits() }
}

fn s(x: &str) -> String {
    x.to_string()
}

// ---------------------------------------------------------------- stills
fn make_frame(w: usize, h: usize, seed: u8) -> ScopeFrame {
    let mut data = vec![0u8; w * h * 4];
    for (i, px) in data.chunks_exact_mut(4).enumerate() {
        px[0] = ((i as u8).wrapping_add(seed)).wrapping_mul(3);
        px[1] = ((i as u8).wrapping_add(seed)).wrapping_mul(5);
        px[2] = ((i as u8).wrapping_add(seed)).wrapping_mul(7);
        px[3] = 255;
    }
    ScopeFrame { data, width: w, height: h }
}

#[test]
fn write_png_produces_readable_file() {
    let frame = make_frame(16, 9, 42);
    let bytes = write_png(&frame).expect("write");
    assert_eq!(&bytes[..8], b"\x89PNG\r\n\x1a\n");
}

#[test]
fn write_png_rejects_empty_frame() {
    let frame = ScopeFrame { data: vec![], width: 0, height: 0 };
    assert!(write_png(&frame).is_err());
}

#[test]
fn write_png_rejects_short_buffer() {
    let frame = ScopeFrame { data: vec![0u8; 10], width: 4, height: 4 };
    assert!(write_png(&frame).is_err());
}

#[test]
fn written_stills_come_back() {
    let mut frame = make_frame(16, 9, 42);
    let want = frame.data.clone();
    frame.data.extend_from_slice(&[1, 2, 3]);
    let bytes = write_png(&frame).unwrap();
    assert!(announced_size_fits(&bytes));
    let still = load_decoded(&bytes).unwrap();
    assert_eq!((still.width, still.height), (16, 9));
    assert_eq!(still.rgba, want);
}

#[test]
fn broken_stills_are_refused() {
    assert_eq!(
        write_png(&ScopeFrame { data: vec![0; 3], width: 1, height: 1 }).unwrap_err(),
        "frame buffer incomplete: have 3, need 4"
    );
    assert!(load_decoded(&vec![1, 2, 3]).unwrap_err().starts_with("png read_info: "));
    let mut bytes = write_png(&make_frame(16, 9, 42)).unwrap();
    bytes.truncate(60);
    assert!(load_decoded(&bytes).unwrap_err().starts_with("png "));
    let mut huge = write_png(&make_frame(1, 1, 0)).unwrap();
    for b in &mut huge[16..24] {
        *b = 255;
    }
    assert!(!announced_size_fits(&huge));
}

#[test]
fn long_rows_read_back() {
    let frame = ScopeFrame { data: vec![7; 0x80_0001 * 4], width: 0x80_0001, height: 1 };
    let bytes = write_png(&frame).unwrap();
    assert!(announced_size_fits(&bytes));
    let still = load_decoded(&bytes).unwrap();
    assert_eq!((still.width, still.height), (0x80_0001, 1));
    assert!(still.rgba == frame.data);
}

#[test]
fn stills_without_alpha_become_opaque() {
    let raw = |depth: u8, color: u8, data: Vec<u8>| RawPng { width: 1, height: 1, depth, color, data };
    assert_eq!(still_from(raw(8, 2, vec![1, 2, 3])).unwrap().rgba, vec![1, 2, 3, 255]);
    assert_eq!(
        still_from(raw(16, 6, vec![])).unwrap_err(),
        "unsupported PNG bit depth: Sixteen"
    );
    assert_eq!(
        still_from(raw(8, 0, vec![])).unwrap_err(),
        "unsupported PNG color type: Grayscale"
    );
    assert_eq!(filename_for_id("abc"), "abc.png");
    let home = Some(s("/h"));
    assert_eq!(reference_stills_dir(&None, &home), "/h/.cache/ultimateslice/reference_stills");
    assert_eq!(
        still_path("abc.png", &None, &home),
        "/h/.cache/ultimateslice/reference_stills/abc.png"
    );
}

#[test]
fn addresses_of_files() {
    assert_eq!(path_to_uri("/a.mp4", &Some(s("/real/a.mp4"))), "file:///real/a.mp4");
    assert_eq!(path_to_uri("/a.mp4", &None), "file:///a.mp4");
    assert_eq!(path_to_uri("file:///a.mp4", &Some(s("/x"))), "file:///a.mp4");
    assert_eq!(path_to_uri("https://a/b", &None), "https://a/b");
    assert!(frame_pipeline_description("file:///a").starts_with("uridecodebin uri=\"file:///a\" ! "));
}

// ---------------------------------------------------------------- voice
#[test]
fn recording_goes_through_its_states() {
    let mut r = VoiceoverRecorder::new();
    let plan = r.plan_recording("/v", &CaptureSource::Default { sound_server: true }, true).unwrap();
    assert!(plan.file_path.starts_with("/v/voiceover_") && plan.file_path.ends_with(".wav"));
    assert_eq!(plan.file_path.len(), "/v/voiceover_.wav".len() + 36);
    assert!(plan.launch.starts_with("pulsesrc ! audioconvert"));
    assert!(plan.launch.contains("channels=1"));
    assert_eq!(r.stop_recording(100, 5).unwrap_err(), "Not recording");
    assert_eq!(r.start_recording(7, &plan.file_path).unwrap(), plan.file_path);
    assert!(r.is_recording());
    assert_eq!(r.start_recording(7, "/x").unwrap_err(), "Already recording");
    assert_eq!(r.stop_recording(100, 5).unwrap(), (plan.file_path.clone(), 5, 7));
    assert!(matches!(r.state(), RecorderState::Finished { duration_ns: 5, .. }));
    r.reset();
    assert!(matches!(r.state(), RecorderState::Idle));
}

#[test]
fn empty_recordings_are_errors() {
    let mut r = VoiceoverRecorder::new();
    r.start_recording(0, "/v/a.wav").unwrap();
    assert_eq!(
        r.stop_recording(44, 5).unwrap_err(),
        "No audio data captured (file size 44 bytes). Check microphone permissions."
    );
    assert!(matches!(r.state(), RecorderState::Error(_)));
    r.start_recording(0, "/v/a.wav").unwrap();
    assert_eq!(r.stop_recording(45, 0).unwrap_err(), "Recording produced zero-length audio");
    r.start_recording(0, "/v/a.wav").unwrap();
    assert_eq!(r.cancel(), Some(s("/v/a.wav")));
    assert_eq!(r.cancel(), None);
}

#[test]
fn recording_sources_and_directories() {
    let d = launch_description(&CaptureSource::Device(Some(s("a\"b"))), false, "/x\"y");
    assert!(d.starts_with("pulsesrc device=\"a\\\"b\" ! "));
    assert!(d.ends_with("filesink location=\"/x\\\"y\""));
    assert!(launch_description(&CaptureSource::Device(None), false, "/x").starts_with("autoaudiosrc"));
    assert_eq!(voiceover_cache_dir(&Some(s("/d")), &None), "/d/ultimateslice/voiceovers");
    assert_eq!(
        voiceover_cache_dir(&Some(s("")), &Some(s("/h"))),
        "/h/.local/share/ultimateslice/voiceovers"
    );
    assert_eq!(voiceover_cache_dir(&None, &None), "/tmp/ultimateslice/voiceovers");
}

#[test]
fn a_place_is_found_behind_other_clips() {
    let clips = vec![
        Clip::new("/a", 10, 20, ClipKind::Audio),
        Clip::new("/b", 10, 0, ClipKind::Audio),
        Clip::new("/c", 5, 30, ClipKind::Audio),
    ];
    assert_eq!(find_non_overlapping_start(&clips, 0, 10), 10);
    assert_eq!(find_non_overlapping_start(&clips, 12, 10), 35);
    assert_eq!(find_non_overlapping_start(&clips, 12, 8), 12);
    assert_eq!(find_non_overlapping_start(&vec![], 3, 9), 3);
    let late = vec![Clip::new("/a.mp4", 10, u64::MAX - 10, ClipKind::Video)];
    assert_eq!(find_non_overlapping_start(&late, 5, 100), 5);
}

// ---------------------------------------------------------------- player
fn player() -> Player {
    Player::new(
        true,
        vec![DecoderRank { name: s("vah264dec"), rank: 256 }],
        vec![DecoderRank { name: s("vtdec"), rank: 128 }],
    )
    .0
}

#[test]
fn colours_stay_within_limits() {
    let p = player();
    let (b, c, sat) = p.set_color(number(-3.5), number(2.5), number(0.25));
    assert_eq!((b, c, sat), (number(-1.0), number(2.0), number(0.25)));
    let (b, c, sat) = p.set_color(number(1.5), number(-0.5), number(2.0));
    assert_eq!((b, c, sat), (number(1.0), number(0.0), number(2.0)));
    assert_eq!(p.set_denoise_sharpness(number(21.0)), number(20.0));
    assert_eq!(p.set_denoise_sharpness(number(-20.5)), number(-20.0));
    assert_eq!(p.set_denoise_sharpness(number(-6.0)), number(-6.0));
}

#[test]
fn players_start_in_software() {
    let (p, ranks) = Player::new(true, vec![DecoderRank { name: s("vah264dec"), rank: 256 }], vec![]);
    assert_eq!(p.state(), PlayerState::Stopped);
    assert_eq!(p.decode_mode_name(), "software_filtered");
    assert_eq!(ranks[0].rank, RankChoice::Marginal);
    assert!(p.vaapi_available());
    assert_eq!(va_decoder_names()[0], "vah264dec");
}

#[test]
fn hardware_decoding_is_given_up_after_an_error() {
    let mut p = player();
    let ranks = p.load("file:///a").unwrap();
    assert_eq!(ranks[0].rank, RankChoice::Original(256));
    assert_eq!(ranks[1].rank, RankChoice::Original(128));
    p.loaded();
    assert_eq!(p.state(), PlayerState::Paused);
    p.play();
    let again = p.fallback_to_software_after_error().unwrap();
    assert_eq!(again.uri, "file:///a");
    assert_eq!(again.ranks.unwrap()[1].rank, RankChoice::Disabled);
    p.reloaded();
    assert_eq!(p.state(), PlayerState::Playing);
    assert!(p.fallback_to_software_after_error().is_none());
    assert!(p.load("file:///a").is_none());
    assert_eq!(p.decode_mode_name(), "software_filtered");
    assert!(p.load("file:///b").is_some());
    assert_eq!(p.current_uri().as_deref(), Some("file:///b"));
}

#[test]
fn seeks_are_skipped_made_or_put_off() {
    let mut p = player();
    p.set_source_frame_duration(40);
    assert_eq!(p.seek(85, false), SeekAction::Now { position_ns: 85, accurate: false });
    assert_eq!(p.seek(99, false), SeekAction::Skip);
    assert_eq!(p.seek(120, true), SeekAction::Later { arm: true });
    assert_eq!(p.seek_accurate(200, true), SeekAction::Later { arm: false });
    assert_eq!(p.dispatch_pending_seek(), Some((200, true)));
    assert_eq!(p.dispatch_pending_seek(), None);
    p.set_source_playback_priority(PlaybackPriority::Accurate);
    assert_eq!(p.seek(85, false), SeekAction::Now { position_ns: 85, accurate: true });
    assert_eq!(p.step_forward(90, 100, 40, false).0, 100);
    assert_eq!(p.step_backward(30, 40, false).0, 0);
}

#[test]
fn playing_changes_the_policy() {
    let mut p = player();
    let smooth = p.play();
    assert_eq!((smooth.max_buffers, smooth.leaky, smooth.max_lateness_ns), (2, true, 20_000_000));
    let exact = p.set_source_playback_priority(PlaybackPriority::Accurate);
    assert_eq!((exact.max_buffers, exact.leaky, exact.max_lateness_ns), (6, false, -1));
    assert_eq!(p.toggle_play_pause().max_buffers, 8);
    assert_eq!(p.state(), PlayerState::Paused);
    p.toggle_play_pause();
    assert_eq!(p.state(), PlayerState::Playing);
    p.stop();
    assert_eq!(p.state(), PlayerState::Stopped);
    p.pause();
    p.set_hardware_acceleration(false);
    assert!(p.load("file:///a").is_none());
}

#[test]
fn pictures_are_turned_and_sized() {
    let p = player();
    assert_eq!(p.set_prescale_resolution(1, 99999), (160, 1080));
    let t = p.set_transform(-4, 3, 2, 1, 270, true, false);
    assert_eq!((t.left, t.right, t.rotate_method, t.flip_method), (0, 3, "clockwise", "horizontal-flip"));
    assert_eq!(p.set_transform(0, 0, 0, 0, 90, true, true).rotate_method, "counterclockwise");
    assert_eq!(worker_threads(Some(64)), 8);
    assert_eq!(worker_threads(Some(1)), 2);
    assert_eq!(worker_threads(None), 2);
    assert!(is_software_decoder("avdec_h264"));
    assert!(!is_software_decoder("vah264dec"));
}

// ---------------------------------------------------------------- filters
fn transition() -> TransitionPrerenderSpec {
    TransitionPrerenderSpec {
        outgoing_input: 0,
        incoming_input: 1,
        xfade_transition: s("fade"),
        duration_ns: 10,
        before_cut_ns: 5,
        after_cut_ns: 5,
    }
}

#[test]
fn transitions_pad_and_delay() {
    let t = transition();
    assert_eq!(
        prerender_build_transition_tpad_filter(Some(&t), 500_000_000, 1, "0.500000", "0.000000"),
        ",tpad=start_duration=0.500000:start_mode=clone"
    );
    assert_eq!(
        prerender_build_transition_tpad_filter(Some(&t), 500_000_000, 0, "0.500000", "0.000000"),
        ",tpad=stop_mode=clone:stop_duration=0.000000"
    );
    assert_eq!(prerender_build_transition_tpad_filter(None, 1, 1, "", ""), "");
    assert_eq!(prerender_build_transition_adelay_filter(Some(&t), 1_000_001, 1), ",adelay=2:all=1");
    assert_eq!(prerender_build_transition_adelay_filter(Some(&t), 1, 1), ",adelay=1:all=1");
    assert_eq!(prerender_build_transition_adelay_filter(Some(&t), 0, 1), "");
    assert_eq!(prerender_build_transition_adelay_filter(Some(&t), 9, 0), "");
}

fn color(brightness: f64, exposure: f64, keyframes: usize) -> ColorInputs {
    ColorInputs {
        brightness_keyframes: keyframes,
        contrast_keyframes: 0,
        saturation_keyframes: 0,
        brightness: number(brightness),
        contrast: number(1.0),
        saturation: number(1.0),
        exposure: number(exposure),
        brightness_expr: s("B"),
        contrast_expr: s("C"),
        saturation_expr: s("S"),
        exposure_brightness: s("0.1"),
        exposure_contrast: s("0.2"),
        brightness_text: s("b"),
        contrast_text: s("c"),
        saturation_text: s("d"),
    }
}

#[test]
fn colour_filters() {
    assert_eq!(prerender_build_color_filter(&color(0.0, 0.0, 0)), "");
    assert_eq!(prerender_build_color_filter(&color(-0.0, 0.0, 0)), "");
    assert_eq!(
        prerender_build_color_filter(&color(0.1, 0.0, 0)),
        ",eq=brightness=b:contrast=c:saturation=d"
    );
    assert_eq!(
        prerender_build_color_filter(&color(0.0, 0.0, 1)),
        ",eq=brightness='B':contrast='C':saturation='S':eval=frame"
    );
    assert_eq!(
        prerender_build_color_filter(&color(0.0, 0.5, 1)),
        ",eq=brightness='(B)+0.1':contrast='(C)+0.2':saturation='S':eval=frame"
    );
}

#[test]
fn temperature_filters() {
    let mut t = TemperatureInputs {
        temperature_keyframes: 0,
        tint_keyframes: 0,
        temperature_off_neutral: true,
        tint: number(0.5),
        red: s("r"),
        green: s("g"),
        blue: s("b"),
        temperature_expr: s("T"),
        temperature_text: s("5000"),
        tint_expr: s("I"),
        tint_red: s("1"),
        tint_green: s("2"),
        tint_blue: s("3"),
    };
    assert_eq!(
        prerender_build_temperature_tint_filter(&t, true),
        ",frei0r=filter_name=coloradj_RGB:filter_params=r|g|b|0.333"
    );
    assert_eq!(
        prerender_build_temperature_tint_filter(&t, false),
        ",colortemperature=temperature=5000,colorbalance=rm=1:gm=2:bm=3"
    );
    t.tint_keyframes = 1;
    assert_eq!(
        prerender_build_temperature_tint_filter(&t, true),
        ",colortemperature=temperature=5000,colorbalance=rm='(I)*0.25':gm='(-(I))*0.5':bm='(I)*0.25':eval=frame"
    );
}

#[test]
fn sharpness_and_table_filters() {
    assert_eq!(prerender_build_denoise_filter(number(0.0), "1", "2", "3", "4"), "");
    assert_eq!(prerender_build_denoise_filter(number(0.5), "1", "2", "3", "4"), ",hqdn3d=1:2:3:4");
    assert_eq!(
        prerender_build_sharpen_filter(number(-0.5), "x"),
        ",unsharp=lx=5:ly=5:la=x:cx=5:cy=5:ca=x"
    );
    assert_eq!(prerender_build_blur_filter(number(0.5), "5"), ",boxblur=5:5");
    assert_eq!(prerender_build_blur_filter(number(-0.5), "5"), "");
    assert_eq!(prerender_build_anamorphic_filter(true, "1.33"), ",scale=iw*1.33:ih,setsar=1");
    let luts = vec![
        LutPath { path: s("/a:b.cube"), exists: true },
        LutPath { path: s("/gone.cube"), exists: false },
        LutPath { path: s(""), exists: true },
    ];
    assert_eq!(prerender_build_lut_filter(&luts, false), ",lut3d=/a\\:b.cube");
    assert_eq!(prerender_build_lut_filter(&luts, true), "");
    assert_eq!(
        prerender_build_chroma_key_filter(true, 0x0a_bc_0f, "0.1", "0.2"),
        ",colorkey=0x0ABC0F:0.1:0.2"
    );
    assert_eq!(prerender_build_grading_filter(&vec![number(0.0), number(0.1)], ",lutrgb"), ",lutrgb");
    assert_eq!(prerender_build_grading_filter(&vec![number(0.0)], ",lutrgb"), "");
}

fn still_counts() -> KeyframeCounts {
    KeyframeCounts {
        scale: 0,
        position_x: 0,
        position_y: 0,
        rotate: 0,
        crop_left: 0,
        crop_right: 0,
        crop_top: 0,
        crop_bottom: 0,
        opacity: 0,
    }
}

#[test]
fn motion_filters() {
    let mut k = still_counts();
    assert!(!prerender_clip_has_keyframed_overlay(&k));
    let blur = |k: &KeyframeCounts, shutter: f64, speed: f64, raw: i32| {
        prerender_build_motion_blur_filter(true, number(shutter), k, number(speed), raw, 24)
    };
    assert_eq!(blur(&k, 180.0, 1.0, 2), "");
    assert_eq!(
        blur(&k, 180.0, 2.0, 2),
        ",minterpolate=fps=96:mi_mode=blend,tmix=frames=2:weights='1 1',fps=24"
    );
    k.rotate = 1;
    assert_eq!(blur(&k, 360.2, 1.0, 4), ",tmix=frames=2:weights='1 1'");
    assert_eq!(blur(&k, 0.5, 1.0, 4), "");
    assert!(!prerender_clip_has_keyframed_overlay(&k));
    k.opacity = 1;
    assert!(!prerender_clip_has_keyframed_overlay(&k));
    for lane in 0..7 {
        let mut k = still_counts();
        match lane {
            0 => k.scale = 1,
            1 => k.position_x = 1,
            2 => k.position_y = 1,
            3 => k.crop_left = 1,
            4 => k.crop_right = 1,
            5 => k.crop_top = 1,
            _ => k.crop_bottom = 1,
        }
        assert!(prerender_clip_has_keyframed_overlay(&k));
    }
    let fill = |i: SlowMotionInterp, speed: f64, keys: &[f64]| {
        let keys = keys.iter().map(|x| number(*x)).collect();
        prerender_build_minterpolate_filter(i, number(speed), &keys, 30)
    };
    assert_eq!(fill(SlowMotionInterp::Blend, 0.5, &[]), ",minterpolate=fps=30:mi_mode=blend");
    assert_eq!(fill(SlowMotionInterp::OpticalFlow, 1.0, &[1.0, 0.5]), ",minterpolate=fps=30:mi_mode=mci");
    assert_eq!(fill(SlowMotionInterp::Ai, 0.5, &[]), "");
    assert_eq!(fill(SlowMotionInterp::Blend, 1.0, &[]), "");
    assert_eq!(fill(SlowMotionInterp::Off, 0.5, &[]), "");
}

#[test]
fn mask_filters() {
    let mut nodes = vec![];
    assert!(!prerender_append_mask_filter(&mut nodes, "a", "b", &None, 4, 2));
    assert!(prerender_append_mask_filter(&mut nodes, "a", "b", &Some(MaskAlpha::Expression(s("E"))), 4, 2));
    assert_eq!(
        nodes[0],
        "[a]geq=lum='lum(X,Y)':cb='cb(X,Y)':cr='cr(X,Y)':a='alpha(X,Y)*(E)'[b]"
    );
    nodes.clear();
    assert!(prerender_append_mask_filter(&mut nodes, "a", "b", &Some(MaskAlpha::Raster(s("/m:x"))), 4, 2));
    assert_eq!(nodes[0], "movie='/m\\:x',format=gray,scale=4:2[b_mask]");
    assert_eq!(nodes[1], "[a][b_mask]alphamerge[b]");
}

#[test]
fn geometry_filters() {
    assert_eq!(prerender_build_crop_filter(0, -5, 0, 0, 100, 50, false), "");
    assert_eq!(
        prerender_build_crop_filter(10, 20, 5, 0, 100, 50, true),
        ",crop=70:45:10:5,pad=100:50:10:5:black@0.0"
    );
    assert_eq!(
        prerender_build_crop_filter(90, 20, 0, 0, 100, 50, false),
        ",crop=1:50:90:0,pad=100:50:90:0:black"
    );
    assert_eq!(
        prerender_build_rotation_filter(1, 0, true, "A", "x"),
        ",rotate='-(A)*PI/180':fillcolor=black@0"
    );
    assert_eq!(prerender_build_rotation_filter(0, 0, true, "A", "x"), "");
    assert_eq!(prerender_build_rotation_filter(0, 90, false, "A", "-1.57"), ",rotate=-1.57:fillcolor=black");
    assert_eq!(prerender_build_flip_filter(true, true), ",hflip,vflip");
    assert_eq!(
        prerender_build_scale_translate_filter(50, 40, -10, 20, 100, 50, true),
        ",scale=50:40,crop=40:30:10:0,pad=100:50:0:20:black@0"
    );
    assert_eq!(
        prerender_build_scale_translate_filter(50, 40, 10, 5, 100, 50, false),
        ",scale=50:40,pad=100:50:10:5:black"
    );
}

#[test]
fn placed_pictures() {
    let mut p = ScaledPlace {
        scale: number(2.0),
        neutral: false,
        direct: false,
        width: 200,
        height: 100,
        direct_x: 3,
        direct_y: 4,
        x: 50,
        y: -1,
    };
    assert_eq!(
        prerender_build_scale_position_filter(&p, 100, 50, false),
        ",scale=200:100,crop=100:50:50:-1"
    );
    p.neutral = true;
    assert_eq!(prerender_build_scale_position_filter(&p, 100, 50, false), "");
    p.neutral = false;
    p.direct = true;
    assert_eq!(
        prerender_build_scale_position_filter(&p, 100, 50, false),
        ",scale=200:100,crop=97:46:0:0,pad=100:50:3:4:black"
    );
}

#[test]
fn moving_pictures_lie_over_a_background() {
    let o = OverlayInputs {
        scale_expr: s("S"),
        position_x_expr: s("X"),
        position_y_expr: s("Y"),
        opacity_expr: s("O"),
        duration: s("2.000000"),
        direct: false,
    };
    let t = prerender_build_keyframed_overlay_tail(&o, "in", "out", 4, 2, 24, 1, true, true, ",hflip");
    assert_eq!(
        t,
        "[in]scale=w='max(1,4*(S))':h='max(1,2*(S))':eval=frame[outfg];color=c=black@0:size=4x2:r=24/1:d=2.000000[outbg];[outbg][outfg]overlay=x='(W-w)*(1+(X))/2':y='(H-h)*(1+(Y))/2':eval=frame,geq=lum='lum(X,Y)':cb='cb(X,Y)':cr='cr(X,Y)':a='alpha(X,Y)*(O)'[outraw];[outraw]format=yuv420p,hflip[out]"
    );
    let t = prerender_build_keyframed_overlay_tail(&o, "in", "out", 4, 2, 24, 1, false, false, "");
    assert!(t.ends_with("[outraw]null[out]"));
}

#[test]
fn effect_filters() {
    let numbers = || {
        vec![
            NumberSetting { name: s("r"), text: s("0.100000"), above_half: false },
            NumberSetting { name: s("on"), text: s("1.000000"), above_half: true },
        ]
    };
    let unknown = EffectUse {
        enabled: true,
        plugin_name: s("glow"),
        plugin: None,
        numbers: numbers(),
        texts: vec![],
    };
    let native = EffectUse {
        enabled: true,
        plugin_name: s("x"),
        plugin: Some(PluginInfo {
            ffmpeg_name: s("tint0r"),
            native_params: vec![
                NativeParam { native_type: Frei0rNativeType::Color, properties: vec![s("r"), s("g")] },
                NativeParam { native_type: Frei0rNativeType::Bool, properties: vec![s("on")] },
                NativeParam { native_type: Frei0rNativeType::NativeString, properties: vec![s("t")] },
            ],
            params: vec![],
        }),
        numbers: numbers(),
        texts: vec![TextSetting { name: s("t"), value: s("hi") }],
    };
    let listed = EffectUse {
        enabled: true,
        plugin_name: s("x"),
        plugin: Some(PluginInfo {
            ffmpeg_name: s("mix"),
            native_params: vec![],
            params: vec![
                PluginParam { name: s("r"), is_string: false, default_number: s("9"), default_string: None },
                PluginParam { name: s("q"), is_string: false, default_number: s("9"), default_string: None },
                PluginParam { name: s("w"), is_string: true, default_number: s(""), default_string: Some(s("d")) },
            ],
        }),
        numbers: numbers(),
        texts: vec![],
    };
    let off = EffectUse {
        enabled: false,
        plugin_name: s("off"),
        plugin: None,
        numbers: vec![],
        texts: vec![],
    };
    let bare = EffectUse {
        enabled: true,
        plugin_name: s("bare"),
        plugin: None,
        numbers: vec![],
        texts: vec![],
    };
    assert_eq!(
        prerender_build_frei0r_effects_filter(&vec![unknown, native, off, listed, bare]),
        ",frei0r=filter_name=glow:filter_params=0.100000|1.000000,frei0r=filter_name=tint0r:filter_params=0.100000/0.000000/0.000000|y|hi,frei0r=filter_name=mix:filter_params=0.100000|9|d,frei0r=filter_name=bare"
    );
    assert_eq!(prerender_build_frei0r_effects_filter(&vec![]), "");
}

fn ink(red: u8) -> TitleColor {
    TitleColor { red, green: 0, blue: 255, alpha: s("1.0000") }
}

fn title(text: &str, animation: TitleAnimation) -> TitleInputs {
    TitleInputs {
        text: s(text),
        animation,
        font_option: s("font='Sans'"),
        size: s("48.00"),
        x: s("0.500000"),
        y: s("0.900000"),
        color: ink(16),
        outline_width: number(0.0),
        outline_text: s("1.0"),
        outline_color: ink(1),
        shadow: false,
        shadow_x: 2,
        shadow_y: -3,
        shadow_color: ink(2),
        bg_box: false,
        box_padding: 4,
        box_color: ink(3),
        duration: s("1.0000"),
        moments: vec![s("0.0000"), s("0.5000")],
    }
}

#[test]
fn title_filters() {
    let start = ",drawtext=font='Sans':text='a\\:b':fontsize=48.00:fontcolor=1000ff";
    let place = ":x='(0.500000)*w-text_w/2':y='(0.900000)*h-text_h/2'";
    assert_eq!(prerender_build_title_filter(&title(" \n", TitleAnimation::Plain)), "");
    assert_eq!(
        prerender_build_title_filter(&title("a:b", TitleAnimation::Pop)),
        format!("{start}@1.0000{place}")
    );
    assert_eq!(
        prerender_build_title_filter(&title("a:b", TitleAnimation::Fade)),
        format!("{start}{place}:alpha='min(1,max(0,t/1.0000))*1.0000'")
    );
    let mut t = title("a:b", TitleAnimation::Plain);
    t.outline_width = number(1.0);
    t.shadow = true;
    t.bg_box = true;
    assert_eq!(
        prerender_build_title_filter(&t),
        format!("{start}@1.0000{place}:borderw=1.0:bordercolor=0100ff@1.0000:shadowx=2:shadowy=-3:shadowcolor=0200ff@1.0000:box=1:boxcolor=0300ff@1.0000:boxborderw=4")
    );
}

#[test]
fn typed_titles_appear_letter_by_letter() {
    let f = prerender_build_title_filter(&title("hi", TitleAnimation::Typewriter));
    assert_eq!(f.matches(",drawtext=").count(), 2);
    assert!(f.contains("text='h':"));
    assert!(f.contains(":enable='between(t\\,0.0000\\,0.5000)'"));
    assert!(f.ends_with(":enable='gte(t\\,0.5000)'"));
}
