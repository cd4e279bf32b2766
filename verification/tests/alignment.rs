use ultimateslice::model::{ClipKind, MediaLibrary, Project, SubtitleSegment, SubtitleWord, TrackKind};
use ultimateslice::numbers::Real;
use ultimateslice::script::{Scene, Script, ScriptElement, ScriptElementKind};
use ultimateslice::script_align::{
    align_transcripts_to_script, character_names, coarse_terms, resolve_overlapping_regions,
    smith_waterman_align, tokenize, transcript_words, word_indices_to_timestamps, AlignmentResult,
    CandidateRegion, SceneMapping, SceneScore, Transcript,
};
use ultimateslice::script_assembly::{apply_assembly_plan, build_assembly_plan};

fn number(x: f64) -> Real {
    Real { bits: x.to_bits() }
}

fn make_segment(text: &str, start_ns: u64, end_ns: u64) -> SubtitleSegment {
    let n = text.split_whitespace().count() as u64;
    let dur = (end_ns - start_ns) / n.max(1);
    let words = text
        .split_whitespace()
        .enumerate()
        .map(|(i, w)| SubtitleWord {
            start_ns: start_ns + i as u64 * dur,
            end_ns: start_ns + (i as u64 + 1) * dur,
            text: w.to_string(),
        })
        .collect();
    SubtitleSegment { id: "segment".to_string(), start_ns, end_ns, text: text.to_string(), words }
}

fn make_scene(id: &str, heading: &str, dialogue: &[&str]) -> Scene {
    let mut full = vec![heading.to_lowercase()];
    let elements = dialogue
        .iter()
        .map(|d| {
            full.push(d.to_lowercase());
            ScriptElement {
                kind: ScriptElementKind::Dialogue,
                text: d.to_string(),
                character: None,
            }
        })
        .collect();
    Scene {
        id: id.to_string(),
        scene_number: None,
        heading: heading.to_string(),
        elements,
        full_text: full.join(" "),
    }
}

fn script_of(scenes: Vec<Scene>) -> Script {
    Script { path: "test.fountain".to_string(), title: None, scenes }
}

/// The similarities, computed from the terms as the caller does.
fn scores(script: &Script, t: &Transcript) -> Vec<SceneScore> {
    let lists: Vec<Vec<String>> = script.scenes.iter().map(|s| tokenize(&s.full_text)).collect();
    let words = transcript_words(&t.segments);
    let names = character_names(script);
    (0..lists.len())
        .map(|i| {
            let (mut shared, mut all) = (0.0f64, 0.0f64);
            for term in coarse_terms(&lists, i, &words, &names) {
                let idf = if term.document_frequency == 0 {
                    1.0
                } else {
                    (lists.len() as f64 / term.document_frequency as f64).ln().max(0.0)
                };
                let weight = idf * if term.is_character { 2.0 } else { 1.0 };
                if term.shared {
                    shared += weight;
                }
                all += weight;
            }
            let coarse = if all > 0.0 { shared / all } else { 0.0 };
            let most = lists[i].len().min(words.len()) as f64 * 2.0;
            let fine = if most > 0.0 {
                (smith_waterman_align(&words, &lists[i]).0 as f64 / most).min(1.0)
            } else {
                0.0
            };
            SceneScore {
                coarse: number(coarse),
                confidence: number((coarse * 0.4 + fine * 0.6).min(1.0)),
            }
        })
        .collect()
}

fn align(script: &Script, clips: Vec<(&str, Vec<SubtitleSegment>)>, threshold: f64) -> AlignmentResult {
    let transcripts: Vec<Transcript> = clips
        .into_iter()
        .map(|(p, segments)| Transcript { source_path: p.to_string(), segments })
        .collect();
    let rows = transcripts.iter().map(|t| scores(script, t)).collect();
    align_transcripts_to_script(
        script,
        &transcripts,
        &rows,
        number(threshold),
        number(threshold * 0.3),
    )
}

fn words(list: &[&str]) -> Vec<String> {
    list.iter().map(|s| s.to_string()).collect()
}

#[test]
fn test_smith_waterman_exact_match() {
    let a = words(&["hello", "world", "foo"]);
    let b = words(&["hello", "world"]);
    let (score, start, end) = smith_waterman_align(&a, &b);
    assert!(score > 0);
    assert_eq!(start, 0);
    assert_eq!(end, 1);
}

#[test]
fn test_smith_waterman_no_match() {
    let a = words(&["aaa", "bbb"]);
    let b = words(&["ccc", "ddd"]);
    let (score, _, _) = smith_waterman_align(&a, &b);
    assert_eq!(score, 0);
}

#[test]
fn test_align_basic() {
    let script = script_of(vec![
        make_scene("s1", "INT. OFFICE - DAY", &["hello there john"]),
        make_scene("s2", "EXT. PARK - NIGHT", &["the birds are singing"]),
    ]);
    let result = align(
        &script,
        vec![
            ("clip1.mp4", vec![make_segment("hello there john", 0, 3_000_000_000)]),
            ("clip2.mp4", vec![make_segment("the birds are singing", 0, 4_000_000_000)]),
        ],
        0.1,
    );
    assert_eq!(result.mappings.len(), 2);
    assert!(result.unmatched_clips.is_empty());
    assert_eq!(result.mappings[0].scene_id, "s1");
    assert_eq!(result.mappings[1].scene_id, "s2");
}

#[test]
fn test_align_unmatched() {
    let script = script_of(vec![make_scene("s1", "INT. OFFICE", &["specific dialogue here"])]);
    let result = align(
        &script,
        vec![(
            "random.mp4",
            vec![make_segment("completely different content about nothing", 0, 5_000_000_000)],
        )],
        0.8,
    );
    assert!(result.mappings.is_empty());
    assert_eq!(result.unmatched_clips.len(), 1);
}

#[test]
fn test_tokenize() {
    let tokens = tokenize("Hello, World! It's a test.");
    assert_eq!(tokens, vec!["hello", "world", "it's", "a", "test"]);
}

#[test]
fn test_multi_scene_clip_splitting() {
    let script = script_of(vec![
        make_scene(
            "s1",
            "INT. KITCHEN - MORNING",
            &["good morning honey would you like some coffee"],
        ),
        make_scene(
            "s2",
            "INT. KITCHEN - MORNING LATER",
            &["the eggs are burning oh no call the fire department"],
        ),
    ]);
    let result = align(
        &script,
        vec![(
            "kitchen_take.mp4",
            vec![
                make_segment("good morning honey would you like some coffee", 0, 4_000_000_000),
                make_segment(
                    "the eggs are burning oh no call the fire department",
                    4_000_000_000,
                    9_000_000_000,
                ),
            ],
        )],
        0.1,
    );
    assert_eq!(result.mappings.len(), 2, "one mapping for each scene");
    assert!(result.unmatched_clips.is_empty(), "Clip should not be unmatched");
    assert_eq!(result.mappings[0].clip_source_path, "kitchen_take.mp4");
    assert_eq!(result.mappings[1].clip_source_path, "kitchen_take.mp4");
    assert_eq!(result.mappings[0].scene_id, "s1");
    assert_eq!(result.mappings[1].scene_id, "s2");
    assert!(
        result.mappings[0].source_out_ns <= result.mappings[1].source_in_ns
            || result.mappings[0].source_in_ns >= result.mappings[1].source_out_ns
    );
}

fn region(scene_idx: usize, confidence: f64, t_start: usize, t_end: usize) -> CandidateRegion {
    CandidateRegion { scene_idx, confidence: number(confidence), t_start, t_end }
}

#[test]
fn test_resolve_overlapping_regions() {
    let accepted = resolve_overlapping_regions(&vec![region(0, 0.9, 0, 5), region(1, 0.7, 3, 8)]);
    assert_eq!(accepted.len(), 1, "Overlapping regions: only highest confidence kept");
    assert_eq!(accepted[0].scene_idx, 0);
}

#[test]
fn test_resolve_non_overlapping_regions() {
    let accepted = resolve_overlapping_regions(&vec![region(0, 0.9, 0, 4), region(1, 0.8, 5, 9)]);
    assert_eq!(accepted.len(), 2, "Non-overlapping regions should both be kept");
    assert_eq!(accepted[0].scene_idx, 0);
    assert_eq!(accepted[1].scene_idx, 1);
}

#[test]
fn accepted_regions_are_in_the_order_of_the_transcript() {
    let accepted = resolve_overlapping_regions(&vec![region(0, 0.9, 5, 9), region(1, 0.8, 0, 4)]);
    assert_eq!(accepted[0].scene_idx, 1);
    assert_eq!(accepted[1].scene_idx, 0);
}

#[test]
fn test_single_scene_clip_still_works() {
    let script = script_of(vec![
        make_scene("s1", "INT. OFFICE", &["hello there john how are you"]),
        make_scene("s2", "EXT. PARK", &["the weather is beautiful today"]),
    ]);
    let result = align(
        &script,
        vec![("office.mp4", vec![make_segment("hello there john how are you", 0, 3_000_000_000)])],
        0.1,
    );
    assert_eq!(result.mappings.len(), 1);
    assert_eq!(result.mappings[0].scene_id, "s1");
}

#[test]
fn alignment_takes_the_best_block_in_either_order() {
    let a = words(&["x", "the", "old", "red", "car", "stops"]);
    let b = words(&["the", "red", "car", "y", "z"]);
    // Three matches and the gap at "old".
    assert_eq!(smith_waterman_align(&a, &b), (5, 1, 4));
    assert_eq!(smith_waterman_align(&b, &a).0, 5);
    // A repeated word before the block is not part of it.
    let stutter = words(&["the", "the", "cat"]);
    assert_eq!(smith_waterman_align(&stutter, &words(&["the", "cat"])), (4, 1, 2));
    let early = words(&["cat", "z", "z", "the", "cat"]);
    assert_eq!(smith_waterman_align(&early, &words(&["the", "cat"])), (4, 3, 4));
    assert_eq!(smith_waterman_align(&a, &words(&["none"])).0, 0);
}

#[test]
fn words_have_their_times() {
    let segments = vec![make_segment("one two", 0, 20), make_segment("three", 30, 40)];
    assert_eq!(word_indices_to_timestamps(&segments, 1, 2), (10, 40));
}

#[test]
fn nothing_to_align_leaves_every_clip_unmatched() {
    let result = align(&script_of(vec![]), vec![("a.mp4", vec![make_segment("hi", 0, 1)])], 0.1);
    assert_eq!(result.unmatched_clips, vec!["a.mp4"]);
}

fn make_script() -> Script {
    Script {
        path: "test.fountain".to_string(),
        title: Some("Test Movie".to_string()),
        scenes: vec![
            Scene {
                id: "s1".to_string(),
                scene_number: None,
                heading: "INT. OFFICE - DAY".to_string(),
                elements: vec![ScriptElement {
                    kind: ScriptElementKind::Dialogue,
                    text: "Hello".to_string(),
                    character: Some("JOHN".to_string()),
                }],
                full_text: "int. office - day hello".to_string(),
            },
            Scene {
                id: "s2".to_string(),
                scene_number: None,
                heading: "EXT. PARK - NIGHT".to_string(),
                elements: vec![ScriptElement {
                    kind: ScriptElementKind::Action,
                    text: "Birds sing".to_string(),
                    character: None,
                }],
                full_text: "ext. park - night birds sing".to_string(),
            },
        ],
    }
}

fn mapping(path: &str, scene: &str, confidence: f64, from: u64, to: u64, text: &str) -> SceneMapping {
    SceneMapping {
        clip_source_path: path.to_string(),
        scene_id: scene.to_string(),
        confidence: number(confidence),
        source_in_ns: from,
        source_out_ns: to,
        transcript_excerpt: text.to_string(),
    }
}

#[test]
fn test_build_assembly_plan_basic() {
    let alignment = AlignmentResult {
        mappings: vec![
            mapping("clip1.mp4", "s1", 0.9, 0, 3_000_000_000, "hello"),
            mapping("clip2.mp4", "s2", 0.85, 0, 4_000_000_000, "birds sing"),
        ],
        unmatched_clips: vec!["extra.mp4".to_string()],
    };
    let plan = build_assembly_plan(&make_script(), &alignment, 0, 3_000_000_000, true);
    assert_eq!(plan.video_clips.len(), 2);
    assert_eq!(plan.title_clips.len(), 2);
    assert_eq!(plan.unmatched_paths.len(), 1);
    assert_eq!(plan.title_clips[0].timeline_start, 0);
    assert_eq!(plan.video_clips[0].timeline_start, 3_000_000_000);
    assert_eq!(plan.title_clips[1].timeline_start, 6_000_000_000);
    assert_eq!(plan.video_clips[1].timeline_start, 9_000_000_000);
}

#[test]
fn test_build_assembly_plan_no_titles() {
    let alignment = AlignmentResult {
        mappings: vec![mapping("clip1.mp4", "s1", 0.9, 0, 3_000_000_000, "hello")],
        unmatched_clips: Vec::new(),
    };
    let plan = build_assembly_plan(&make_script(), &alignment, 0, 3_000_000_000, false);
    assert!(plan.title_clips.is_empty());
    assert_eq!(plan.video_clips.len(), 1);
    assert_eq!(plan.video_clips[0].timeline_start, 0);
}

#[test]
fn test_multi_take_scene_creates_audition() {
    let alignment = AlignmentResult {
        mappings: vec![
            mapping("take_a.mp4", "s1", 0.9, 0, 3_000_000_000, "hello"),
            mapping("take_b.mp4", "s1", 0.7, 0, 3_500_000_000, "hello"),
        ],
        unmatched_clips: Vec::new(),
    };
    let plan = build_assembly_plan(&make_script(), &alignment, 0, 3_000_000_000, false);
    assert_eq!(plan.video_clips.len(), 1, "Multiple takes => single audition");
    let clip = &plan.video_clips[0];
    assert_eq!(clip.kind, ClipKind::Audition);
    assert_eq!(clip.source_path, "take_a.mp4", "Best confidence is active take");
    assert_eq!(clip.alternate_takes.len(), 1);
    assert_eq!(clip.alternate_takes[0].source_path, "take_b.mp4");
}

#[test]
fn test_multi_take_apply_creates_audition_clip() {
    let alignment = AlignmentResult {
        mappings: vec![
            mapping("/tmp/take_a.mp4", "s1", 0.95, 0, 2_000_000_000, "hello"),
            mapping("/tmp/take_b.mp4", "s1", 0.6, 0, 2_500_000_000, "hello"),
        ],
        unmatched_clips: Vec::new(),
    };
    let plan = build_assembly_plan(&make_script(), &alignment, 0, 0, false);
    let mut project = Project::new("Test");
    let mut library = MediaLibrary::new();
    apply_assembly_plan(&mut project, &mut library, &plan);
    let video_track =
        project.tracks.iter().find(|t| t.kind == TrackKind::Video).expect("video track");
    assert_eq!(video_track.clips.len(), 1);
    let clip = &video_track.clips[0];
    assert_eq!(clip.kind, ClipKind::Audition);
    assert!(clip.audition_takes.is_some());
    let takes = clip.audition_takes.as_ref().unwrap();
    assert_eq!(takes.len(), 2, "Active + 1 alternate = 2 takes");
    assert_eq!(takes[0].source_path, "/tmp/take_a.mp4");
    assert_eq!(takes[1].source_path, "/tmp/take_b.mp4");
    assert_eq!(clip.audition_active_take_index, 0);
    assert_eq!(clip.scene_id.as_deref(), Some("s1"));
}

#[test]
fn test_same_source_subclips_not_grouped_as_audition() {
    let alignment = AlignmentResult {
        mappings: vec![
            mapping("long_take.mp4", "s1", 0.9, 0, 2_000_000_000, "first part"),
            mapping("long_take.mp4", "s1", 0.8, 2_000_000_000, 4_000_000_000, "second part"),
        ],
        unmatched_clips: Vec::new(),
    };
    let plan = build_assembly_plan(&make_script(), &alignment, 0, 0, false);
    assert_eq!(plan.video_clips.len(), 2);
    assert_eq!(plan.video_clips[0].kind, ClipKind::Video);
    assert_eq!(plan.video_clips[1].kind, ClipKind::Video);
    assert!(plan.video_clips[0].alternate_takes.is_empty());
    assert!(plan.video_clips[1].alternate_takes.is_empty());
}
