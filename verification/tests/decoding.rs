use ultimateslice::decoding::{
    append_peaks, decode_samples, picture_elements, route_for_picture, route_for_sound,
    SampleGather, StreamRoute, SAMPLES_PER_PEAK,
};
use ultimateslice::proxy_mirror::{Mirror, MirrorAction, MirrorStage};
use ultimateslice::tracking::{decoding_is_over, DecoderState, TrackingFailure};

fn sound(samples: &[f32]) -> Vec<u8> {
    let mut r: Vec<u8> = Vec::new();
    for s in samples {
        r.extend_from_slice(&s.to_le_bytes());
    }
    r
}

#[test]
fn samples_are_little_endian_and_whole() {
    let mut bytes = sound(&[1.0, -0.25]);
    bytes.push(7);
    assert_eq!(decode_samples(&bytes), vec![1.0f32.to_bits(), (-0.25f32).to_bits()]);
}

#[test]
fn peaks_are_the_loudest_of_each_run() {
    let mut samples = vec![0.0f32; SAMPLES_PER_PEAK + 2];
    samples[3] = -0.5;
    samples[4] = 0.25;
    samples[5] = f32::NAN;
    samples[SAMPLES_PER_PEAK] = 0.75;
    let mut peaks: Vec<u32> = vec![9];
    append_peaks(&mut peaks, &sound(&samples));
    assert_eq!(peaks, vec![9, 0.5f32.to_bits(), 0.75f32.to_bits()]);
    append_peaks(&mut peaks, &sound(&[]));
    assert_eq!(peaks.len(), 3);
}

#[test]
fn gathering_stops_at_the_limit() {
    let mut g = SampleGather::new(3);
    assert!(!g.take(&sound(&[0.1, 0.2])));
    assert!(g.take(&sound(&[0.3, 0.4])));
    let got = g.finish().unwrap();
    assert_eq!(got, vec![0.1f32.to_bits(), 0.2f32.to_bits(), 0.3f32.to_bits()]);
    let mut g = SampleGather::new(3);
    assert!(!g.take(&sound(&[0.1])));
    assert_eq!(g.finish().unwrap().len(), 1);
    assert!(SampleGather::new(3).finish().is_none());
}

#[test]
fn streams_go_their_way() {
    let video = vec!["meta/x".to_string(), "video/x-raw".to_string()];
    let audio = vec!["audio/x-raw".to_string()];
    assert_eq!(route_for_picture(&video, false), StreamRoute::Chain);
    assert_eq!(route_for_picture(&video, true), StreamRoute::Leave);
    assert_eq!(route_for_picture(&audio, false), StreamRoute::Drain);
    assert_eq!(route_for_sound("audio/x-raw", false), StreamRoute::Chain);
    assert_eq!(route_for_sound("audio/x-raw", true), StreamRoute::Leave);
    assert_eq!(route_for_sound("video/x-raw", false), StreamRoute::Leave);
    assert_eq!(picture_elements(true)[0], "imagefreeze");
    assert_eq!(
        picture_elements(false),
        vec!["videoconvert", "videoscale", "capsfilter", "appsink"]
    );
}

#[test]
fn tracking_waits_for_the_decoder() {
    assert_eq!(decoding_is_over(false, &DecoderState::Running).unwrap(), false);
    assert_eq!(decoding_is_over(false, &DecoderState::Ended { success: true }).unwrap(), true);
    let e = decoding_is_over(false, &DecoderState::Ended { success: false }).unwrap_err();
    assert_eq!(e, (TrackingFailure::Failed, "ffmpeg tracking decode failed".to_string()));
    let e = decoding_is_over(true, &DecoderState::Ended { success: true }).unwrap_err();
    assert_eq!(e, (TrackingFailure::Cancelled, "Tracking canceled".to_string()));
    let e = decoding_is_over(false, &DecoderState::Unknown { error: "gone".to_string() });
    assert_eq!(
        e.unwrap_err().1,
        "Failed waiting for ffmpeg tracking decode: gone"
    );
}

#[test]
fn mirrored_proxy_gets_its_name_last() {
    assert!(Mirror::begin("/a/p.mp4", "/a/p.mp4").is_none());
    let mut m = Mirror::begin("/c/p.mp4", "/v/UltimateSlice.cache/p.mp4").unwrap();
    assert!(matches!(
        m.action(),
        MirrorAction::MakeDirectory { dir } if dir == "/v/UltimateSlice.cache"
    ));
    assert!(matches!(
        m.step(true),
        MirrorAction::Copy { from, to }
            if from == "/c/p.mp4" && to == "/v/UltimateSlice.cache/p.mp4.partial"
    ));
    assert!(matches!(m.step(true), MirrorAction::Check { .. }));
    assert!(matches!(m.step(true), MirrorAction::Rename { .. }));
    assert!(matches!(m.step(false), MirrorAction::LookFor { .. }));
    assert!(matches!(m.step(true), MirrorAction::Replace { .. }));
    assert!(matches!(m.step(true), MirrorAction::WriteRecord { .. }));
    assert!(matches!(m.step(true), MirrorAction::Finish));
    assert_eq!(m.stage, MirrorStage::Done);
}

#[test]
fn failed_mirror_is_discarded() {
    let mut m = Mirror::begin("/c/p.mp4", "/v/p.mp4").unwrap();
    assert!(matches!(m.step(true), MirrorAction::Copy { .. }));
    assert!(matches!(m.step(true), MirrorAction::Check { .. }));
    assert!(matches!(
        m.step(false),
        MirrorAction::Discard { path } if path == "/v/p.mp4.partial"
    ));
    assert!(matches!(m.step(true), MirrorAction::Finish));
    let mut m = Mirror::begin("/c/p.mp4", "/v/p.mp4").unwrap();
    assert!(matches!(m.step(false), MirrorAction::Finish));
}
