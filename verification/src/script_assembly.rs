//! Script-to-timeline assembly: which clips to create, where they go on the timeline, and which
//! title cards announce the scenes.

use crate::ids::{fresh_id, is_uuid};
use crate::model::{
    copy_tracks, same_tracks, AuditionTake, Clip, ClipKind, MediaBin, MediaItem, MediaLibrary,
    Project, Track, TrackKind,
};
use crate::numbers::Real;
use crate::order::{ints, order_by, order_by_keys, positions, lemma_order_by};
use crate::paths::{file_stem, stem_of};
use crate::script::{Scene, Script};
use crate::script_align::{
    descending, mappings_view, picked, AlignmentResult, MappingView, SceneMapping,
};
use crate::text::{
    clone_all, clone_option, decimal, option_view, owned, push_wide, same, views,
};
use vstd::prelude::*;

verus! {

/// An alternate take within an audition clip.
#[derive(Debug, Clone)]
pub struct PlannedTake {
    pub source_path: String,
    pub source_in: u64,
    pub source_out: u64,
    pub confidence: Real,
}

/// A clip to be created during timeline assembly.
#[derive(Debug, Clone)]
pub struct PlannedClip {
    pub source_path: String,
    pub source_in: u64,
    pub source_out: u64,
    pub timeline_start: u64,
    pub scene_id: Option<String>,
    pub scene_heading: Option<String>,
    pub confidence: Option<Real>,
    pub kind: ClipKind,
    /// Takes from other source files that match the same scene. Where there are any, the clip
    /// becomes an audition whose active take is the clip itself.
    pub alternate_takes: Vec<PlannedTake>,
}

/// What an assembled timeline is made of.
#[derive(Debug, Clone)]
pub struct AssemblyPlan {
    pub video_clips: Vec<PlannedClip>,
    pub title_clips: Vec<PlannedClip>,
    pub unmatched_paths: Vec<String>,
    pub script_path: String,
}

/// What a take says.
#[verifier::ext_equal]
pub struct TakeView {
    pub source_path: Seq<char>,
    pub source_in: u64,
    pub source_out: u64,
    pub confidence: Real,
}

/// What a planned clip says.
#[verifier::ext_equal]
pub struct PlannedView {
    pub source_path: Seq<char>,
    pub source_in: u64,
    pub source_out: u64,
    pub timeline_start: u64,
    pub scene_id: Option<Seq<char>>,
    pub scene_heading: Option<Seq<char>>,
    pub confidence: Option<Real>,
    pub kind: ClipKind,
    pub alternate_takes: Seq<TakeView>,
}

impl PlannedTake {
    pub open spec fn view(&self) -> TakeView {
        TakeView {
            source_path: self.source_path@,
            source_in: self.source_in,
            source_out: self.source_out,
            confidence: self.confidence,
        }
    }
}

/// What each take says.
pub open spec fn takes_view(s: Seq<PlannedTake>) -> Seq<TakeView> {
    s.map_values(|t: PlannedTake| t@)
}

impl PlannedClip {
    pub open spec fn view(&self) -> PlannedView {
        PlannedView {
            source_path: self.source_path@,
            source_in: self.source_in,
            source_out: self.source_out,
            timeline_start: self.timeline_start,
            scene_id: option_view(self.scene_id),
            scene_heading: option_view(self.scene_heading),
            confidence: self.confidence,
            kind: self.kind,
            alternate_takes: takes_view(self.alternate_takes@),
        }
    }
}

/// What each planned clip says.
pub open spec fn planned_view(s: Seq<PlannedClip>) -> Seq<PlannedView> {
    s.map_values(|c: PlannedClip| c@)
}

/// A plan under way: what has been planned and where the next clip goes.
#[verifier::ext_equal]
pub struct PlanView {
    pub video: Seq<PlannedView>,
    pub titles: Seq<PlannedView>,
    pub cursor: int,
}

/// The mappings of one scene, in the order in which they stand.
pub open spec fn of_scene(mappings: Seq<MappingView>, id: Seq<char>) -> Seq<MappingView>
    decreases mappings.len(),
{
    if mappings.len() == 0 {
        Seq::empty()
    } else if mappings.last().scene_id == id {
        of_scene(mappings.drop_last(), id).push(mappings.last())
    } else {
        of_scene(mappings.drop_last(), id)
    }
}

/// Mappings by descending confidence.
pub open spec fn best_first(m: Seq<MappingView>) -> Seq<MappingView> {
    picked(m, order_by(m.map_values(|x: MappingView| descending(x.confidence))))
}

/// Mappings by where they begin in their source.
pub open spec fn by_source_in(m: Seq<MappingView>) -> Seq<MappingView> {
    picked(m, order_by(m.map_values(|x: MappingView| x.source_in_ns as int)))
}

/// The length of a mapping, or nothing where its range is inverted.
pub open spec fn length(m: MappingView) -> int {
    if m.source_out_ns >= m.source_in_ns {
        m.source_out_ns - m.source_in_ns
    } else {
        0
    }
}

/// Whether all mappings come from one source file.
pub open spec fn one_source(m: Seq<MappingView>) -> bool {
    forall|i: int| 0 <= i < m.len() ==> (#[trigger] m[i]).clip_source_path == m[0].clip_source_path
}

/// A video clip for a mapping.
pub open spec fn video_clip(m: MappingView, scene: Seq<char>, start: int) -> PlannedView {
    PlannedView {
        source_path: m.clip_source_path,
        source_in: m.source_in_ns,
        source_out: m.source_out_ns,
        timeline_start: start as u64,
        scene_id: Some(scene),
        scene_heading: None,
        confidence: Some(m.confidence),
        kind: ClipKind::Video,
        alternate_takes: Seq::empty(),
    }
}

/// A title card for a scene.
pub open spec fn title_card(
    scene: Seq<char>,
    heading: Seq<char>,
    duration_ns: u64,
    start: int,
) -> PlannedView {
    PlannedView {
        source_path: Seq::empty(),
        source_in: 0,
        source_out: duration_ns,
        timeline_start: start as u64,
        scene_id: Some(scene),
        scene_heading: Some(heading),
        confidence: None,
        kind: ClipKind::Title,
        alternate_takes: Seq::empty(),
    }
}

/// The plan with a clip for each of `m` that has a length, one after the other.
pub open spec fn with_parts(p: PlanView, m: Seq<MappingView>, scene: Seq<char>, gap_ns: u64) -> PlanView
    decreases m.len(),
{
    if m.len() == 0 {
        p
    } else {
        let front = with_parts(p, m.drop_last(), scene, gap_ns);
        if length(m.last()) == 0 {
            front
        } else {
            PlanView {
                video: front.video.push(video_clip(m.last(), scene, front.cursor)),
                cursor: front.cursor + length(m.last()) + gap_ns,
                ..front
            }
        }
    }
}

/// The takes of those of `m` that come from another file than `path`.
pub open spec fn other_takes(m: Seq<MappingView>, path: Seq<char>) -> Seq<TakeView>
    decreases m.len(),
{
    if m.len() == 0 {
        Seq::empty()
    } else {
        let front = other_takes(m.drop_last(), path);
        let x = m.last();
        if x.clip_source_path != path {
            front.push(
                TakeView {
                    source_path: x.clip_source_path,
                    source_in: x.source_in_ns,
                    source_out: x.source_out_ns,
                    confidence: x.confidence,
                },
            )
        } else {
            front
        }
    }
}

/// The plan with the clips of one scene. Parts of one source file follow one another; where
/// several files match, the best is one clip with the others as its takes.
pub open spec fn with_scene(
    p: PlanView,
    mappings: Seq<MappingView>,
    scene: Seq<char>,
    heading: Seq<char>,
    gap_ns: u64,
    title_ns: u64,
    include_titles: bool,
) -> PlanView {
    let found = best_first(of_scene(mappings, scene));
    if found.len() == 0 {
        p
    } else {
        let titled = if include_titles {
            PlanView {
                titles: p.titles.push(title_card(scene, heading, title_ns, p.cursor)),
                cursor: p.cursor + title_ns + gap_ns,
                ..p
            }
        } else {
            p
        };
        if one_source(found) {
            with_parts(titled, by_source_in(found), scene, gap_ns)
        } else if length(found[0]) == 0 {
            titled
        } else {
            let takes = other_takes(found, found[0].clip_source_path);
            PlanView {
                video: titled.video.push(
                    PlannedView {
                        kind: ClipKind::Audition,
                        alternate_takes: takes,
                        ..video_clip(found[0], scene, titled.cursor)
                    },
                ),
                cursor: titled.cursor + length(found[0]) + gap_ns,
                ..titled
            }
        }
    }
}

/// The plan for the first `n` scenes.
pub open spec fn plan_upto(
    script: Script,
    mappings: Seq<MappingView>,
    gap_ns: u64,
    title_ns: u64,
    include_titles: bool,
    n: nat,
) -> PlanView
    decreases n,
{
    if n == 0 {
        PlanView { video: Seq::empty(), titles: Seq::empty(), cursor: 0 }
    } else {
        let s = script.scenes@[n - 1];
        with_scene(
            plan_upto(script, mappings, gap_ns, title_ns, include_titles, (n - 1) as nat),
            mappings,
            s.id@,
            s.heading@,
            gap_ns,
            title_ns,
            include_titles,
        )
    }
}

/// The plan for a whole script.
pub open spec fn plan_of(
    script: Script,
    mappings: Seq<MappingView>,
    gap_ns: u64,
    title_ns: u64,
    include_titles: bool,
) -> PlanView {
    plan_upto(script, mappings, gap_ns, title_ns, include_titles, script.scenes@.len())
}

proof fn lemma_parts_grow(p: PlanView, m: Seq<MappingView>, scene: Seq<char>, gap_ns: u64, k: int)
    requires
        0 <= k <= m.len(),
    ensures
        p.cursor <= with_parts(p, m.subrange(0, k), scene, gap_ns).cursor <= with_parts(
            p,
            m,
            scene,
            gap_ns,
        ).cursor,
    decreases m.len(),
{
    if k == m.len() {
        assert(m.subrange(0, k) =~= m);
        if k > 0 {
            lemma_parts_grow(p, m.drop_last(), scene, gap_ns, k - 1);
        }
    } else {
        lemma_parts_grow(p, m.drop_last(), scene, gap_ns, k);
        assert(m.drop_last().subrange(0, k) =~= m.subrange(0, k));
    }
}

proof fn lemma_plan_grows(
    script: Script,
    mappings: Seq<MappingView>,
    gap_ns: u64,
    title_ns: u64,
    include_titles: bool,
    k: nat,
    n: nat,
)
    requires
        k <= n,
    ensures
        0 <= plan_upto(script, mappings, gap_ns, title_ns, include_titles, k).cursor <= plan_upto(
            script,
            mappings,
            gap_ns,
            title_ns,
            include_titles,
            n,
        ).cursor,
    decreases n,
{
    if n > 0 {
        let s = script.scenes@[n - 1];
        let before = plan_upto(script, mappings, gap_ns, title_ns, include_titles, (n - 1) as nat);
        let found = best_first(of_scene(mappings, s.id@));
        let titled = if include_titles {
            PlanView {
                titles: before.titles.push(title_card(s.id@, s.heading@, title_ns, before.cursor)),
                cursor: before.cursor + title_ns + gap_ns,
                ..before
            }
        } else {
            before
        };
        lemma_parts_grow(titled, by_source_in(found), s.id@, gap_ns, 0);
        assert(by_source_in(found).subrange(0, 0) =~= Seq::empty());
        if k < n {
            lemma_plan_grows(
                script,
                mappings,
                gap_ns,
                title_ns,
                include_titles,
                k,
                (n - 1) as nat,
            );
        } else {
            lemma_plan_grows(
                script,
                mappings,
                gap_ns,
                title_ns,
                include_titles,
                0,
                (n - 1) as nat,
            );
        }
    }
}

fn select(mappings: &Vec<SceneMapping>, id: &str) -> (r: Vec<SceneMapping>)
    ensures
        mappings_view(r@) == of_scene(mappings_view(mappings@), id@),
{
    let ghost all = mappings_view(mappings@);
    let mut r: Vec<SceneMapping> = Vec::new();
    let mut i: usize = 0;
    proof {
        assert(mappings_view(r@) =~= of_scene(all.subrange(0, 0), id@));
    }
    while i < mappings.len()
        invariant
            i <= mappings@.len(),
            all == mappings_view(mappings@),
            mappings_view(r@) == of_scene(all.subrange(0, i as int), id@),
        decreases mappings.len() - i,
    {
        let ghost before = r@;
        proof {
            assert(all.subrange(0, i + 1).drop_last() =~= all.subrange(0, i as int));
            assert(all.subrange(0, i + 1).last() == mappings@[i as int]@);
        }
        if same(&mappings[i].scene_id, id) {
            r.push(mappings[i].copied());
            proof {
                assert(mappings_view(r@) =~= mappings_view(before).push(mappings@[i as int]@));
            }
        }
        i = i + 1;
    }
    proof {
        assert(all.subrange(0, i as int) =~= all);
    }
    r
}

fn pick_mappings(s: &Vec<SceneMapping>, keys: &Vec<u64>) -> (r: Vec<SceneMapping>)
    requires
        keys@.len() == s@.len(),
    ensures
        mappings_view(r@) == picked(mappings_view(s@), order_by(ints(keys@))),
        r@.len() == s@.len(),
{
    let order = order_by_keys(keys);
    let mut r: Vec<SceneMapping> = Vec::new();
    let mut k: usize = 0;
    while k < order.len()
        invariant
            k <= order@.len() == s@.len(),
            forall|a: int| 0 <= a < order@.len() ==> #[trigger] order@[a] < s@.len(),
            r@.len() == k,
            forall|x: int| 0 <= x < k ==> #[trigger] r@[x] == s@[order@[x] as int],
        decreases order.len() - k,
    {
        r.push(s[order[k]].copied());
        k = k + 1;
    }
    proof {
        assert(mappings_view(r@) =~= picked(mappings_view(s@), positions(order@)));
    }
    r
}

fn sort_best_first(s: &Vec<SceneMapping>) -> (r: Vec<SceneMapping>)
    ensures
        mappings_view(r@) == best_first(mappings_view(s@)),
        r@.len() == s@.len(),
{
    let mut keys: Vec<u64> = Vec::new();
    let mut i: usize = 0;
    while i < s.len()
        invariant
            i <= s@.len(),
            keys@.len() == i,
            forall|x: int| 0 <= x < i ==> #[trigger] keys@[x] == descending(s@[x].confidence),
        decreases s.len() - i,
    {
        keys.push(u64::MAX - s[i].confidence.rank());
        i = i + 1;
    }
    proof {
        assert(ints(keys@) =~= mappings_view(s@).map_values(
            |x: MappingView| descending(x.confidence),
        ));
    }
    pick_mappings(s, &keys)
}

fn sort_by_source_in(s: &Vec<SceneMapping>) -> (r: Vec<SceneMapping>)
    ensures
        mappings_view(r@) == by_source_in(mappings_view(s@)),
        r@.len() == s@.len(),
{
    let mut keys: Vec<u64> = Vec::new();
    let mut i: usize = 0;
    while i < s.len()
        invariant
            i <= s@.len(),
            keys@.len() == i,
            forall|x: int| 0 <= x < i ==> #[trigger] keys@[x] == s@[x].source_in_ns,
        decreases s.len() - i,
    {
        keys.push(s[i].source_in_ns);
        i = i + 1;
    }
    proof {
        assert(ints(keys@) =~= mappings_view(s@).map_values(
            |x: MappingView| x.source_in_ns as int,
        ));
    }
    pick_mappings(s, &keys)
}

fn from_one_source(m: &Vec<SceneMapping>) -> (r: bool)
    ensures
        r == one_source(mappings_view(m@)),
{
    let ghost v = mappings_view(m@);
    let mut i: usize = 1;
    while i < m.len()
        invariant
            1 <= i,
            v == mappings_view(m@),
            forall|k: int| 0 <= k < i && k < v.len() ==> (#[trigger] v[k]).clip_source_path
                == v[0].clip_source_path,
        decreases m.len() - i,
    {
        if !same(&m[i].clip_source_path, &m[0].clip_source_path) {
            proof {
                assert(v[i as int].clip_source_path != v[0].clip_source_path);
            }
            return false;
        }
        i = i + 1;
    }
    true
}

fn takes_from_others(m: &Vec<SceneMapping>, path: &str) -> (r: Vec<PlannedTake>)
    ensures
        takes_view(r@) == other_takes(mappings_view(m@), path@),
{
    let ghost all = mappings_view(m@);
    let mut r: Vec<PlannedTake> = Vec::new();
    let mut i: usize = 0;
    proof {
        assert(takes_view(r@) =~= other_takes(all.subrange(0, 0), path@));
    }
    while i < m.len()
        invariant
            i <= m@.len(),
            all == mappings_view(m@),
            takes_view(r@) == other_takes(all.subrange(0, i as int), path@),
        decreases m.len() - i,
    {
        let ghost before = r@;
        proof {
            assert(all.subrange(0, i + 1).drop_last() =~= all.subrange(0, i as int));
            assert(all.subrange(0, i + 1).last() == m@[i as int]@);
        }
        if !same(&m[i].clip_source_path, path) {
            let t = PlannedTake {
                source_path: m[i].clip_source_path.clone(),
                source_in: m[i].source_in_ns,
                source_out: m[i].source_out_ns,
                confidence: m[i].confidence,
            };
            let ghost tv = t@;
            r.push(t);
            proof {
                assert(takes_view(r@) =~= takes_view(before).push(tv));
            }
        }
        i = i + 1;
    }
    proof {
        assert(all.subrange(0, i as int) =~= all);
    }
    r
}

fn push_planned(list: &mut Vec<PlannedClip>, c: PlannedClip)
    ensures
        planned_view(final(list)@) == planned_view(old(list)@).push(c@),
{
    let ghost before = list@;
    let ghost cv = c@;
    list.push(c);
    proof {
        assert(planned_view(list@) =~= planned_view(before).push(cv));
    }
}

/// Builds an assembly plan from alignment results and script scene order.
///
/// * `gap_ns` — the gap between clips (0 for butt edits).
/// * `title_duration_ns` — the length of scene title cards.
/// * `include_titles` — whether scenes get title cards.
///
/// The whole plan has to fit the timeline.
pub fn build_assembly_plan(
    script: &Script,
    alignment: &AlignmentResult,
    gap_ns: u64,
    title_duration_ns: u64,
    include_titles: bool,
) -> (r: AssemblyPlan)
    requires
        plan_of(
            *script,
            mappings_view(alignment.mappings@),
            gap_ns,
            title_duration_ns,
            include_titles,
        ).cursor <= u64::MAX,
    ensures
        ({
            let plan = plan_of(
                *script,
                mappings_view(alignment.mappings@),
                gap_ns,
                title_duration_ns,
                include_titles,
            );
            &&& planned_view(r.video_clips@) == plan.video
            &&& planned_view(r.title_clips@) == plan.titles
        }),
        views(r.unmatched_paths@) == views(alignment.unmatched_clips@),
        r.script_path@ == script.path@,
        forall|i: int|
            0 <= i < r.title_clips@.len() ==> is_scene_card(#[trigger] r.title_clips@[i], *script),
        forall|i: int|
            0 <= i < r.video_clips@.len() ==> is_mapped_clip(
                #[trigger] r.video_clips@[i],
                alignment.mappings@,
            ),
{
    let ghost all = mappings_view(alignment.mappings@);
    let mut video: Vec<PlannedClip> = Vec::new();
    let mut titles: Vec<PlannedClip> = Vec::new();
    let mut cursor: u64 = 0;
    let mut n: usize = 0;
    proof {
        assert(planned_view(video@) =~= Seq::empty());
        assert(planned_view(titles@) =~= Seq::empty());
    }
    while n < script.scenes.len()
        invariant
            n <= script.scenes@.len(),
            all == mappings_view(alignment.mappings@),
            plan_of(*script, all, gap_ns, title_duration_ns, include_titles).cursor <= u64::MAX,
            ({
                let plan = plan_upto(
                    *script,
                    all,
                    gap_ns,
                    title_duration_ns,
                    include_titles,
                    n as nat,
                );
                &&& planned_view(video@) == plan.video
                &&& planned_view(titles@) == plan.titles
                &&& cursor == plan.cursor
            }),
        decreases script.scenes.len() - n,
    {
        let scene: &Scene = &script.scenes[n];
        let chosen = select(&alignment.mappings, &scene.id);
        let found = sort_best_first(&chosen);
        let ghost fv = mappings_view(found@);
        let ghost p = plan_upto(*script, all, gap_ns, title_duration_ns, include_titles, n as nat);
        let ghost q = plan_upto(*script, all, gap_ns, title_duration_ns, include_titles, n as nat + 1);
        proof {
            lemma_plan_grows(
                *script,
                all,
                gap_ns,
                title_duration_ns,
                include_titles,
                n as nat + 1,
                script.scenes@.len(),
            );
            assert(fv == best_first(of_scene(all, scene.id@)));
            assert(q == with_scene(
                p,
                all,
                scene.id@,
                scene.heading@,
                gap_ns,
                title_duration_ns,
                include_titles,
            ));
            assert(fv.len() == found@.len());
        }
        if found.len() > 0 {
            let ghost titled = if include_titles {
                PlanView {
                    titles: p.titles.push(
                        title_card(scene.id@, scene.heading@, title_duration_ns, p.cursor),
                    ),
                    cursor: p.cursor + title_duration_ns + gap_ns,
                    ..p
                }
            } else {
                p
            };
            proof {
                lemma_parts_grow(titled, by_source_in(fv), scene.id@, gap_ns, 0);
                assert(by_source_in(fv).subrange(0, 0) =~= Seq::empty());
                assert(titled.cursor <= q.cursor);
            }
            if include_titles {
                let card = PlannedClip {
                    source_path: String::new(),
                    source_in: 0,
                    source_out: title_duration_ns,
                    timeline_start: cursor,
                    scene_id: Some(scene.id.clone()),
                    scene_heading: Some(scene.heading.clone()),
                    confidence: None,
                    kind: ClipKind::Title,
                    alternate_takes: Vec::new(),
                };
                proof {
                    assert(card@ =~= title_card(
                        scene.id@,
                        scene.heading@,
                        title_duration_ns,
                        p.cursor,
                    ));
                }
                push_planned(&mut titles, card);
                cursor = cursor + title_duration_ns + gap_ns;
            }
            if from_one_source(&found) {
                let ordered = sort_by_source_in(&found);
                let ghost ov = mappings_view(ordered@);
                let mut k: usize = 0;
                proof {
                    assert(ov.subrange(0, 0) =~= Seq::empty());
                }
                while k < ordered.len()
                    invariant
                        k <= ordered@.len(),
                        ov == mappings_view(ordered@),
                        q == with_parts(titled, ov, scene.id@, gap_ns),
                        q.cursor <= u64::MAX,
                        planned_view(titles@) == titled.titles,
                        ({
                            let w = with_parts(
                                titled,
                                ov.subrange(0, k as int),
                                scene.id@,
                                gap_ns,
                            );
                            &&& planned_view(video@) == w.video
                            &&& planned_view(titles@) == w.titles
                            &&& cursor == w.cursor
                        }),
                    decreases ordered.len() - k,
                {
                    let m: &SceneMapping = &ordered[k];
                    let duration: u64 = m.source_out_ns.saturating_sub(m.source_in_ns);
                    proof {
                        let next = ov.subrange(0, k + 1);
                        assert(next.drop_last() =~= ov.subrange(0, k as int));
                        assert(next.last() == m@);
                        lemma_parts_grow(titled, ov, scene.id@, gap_ns, k + 1);
                    }
                    if duration != 0 {
                        let c = PlannedClip {
                            source_path: m.clip_source_path.clone(),
                            source_in: m.source_in_ns,
                            source_out: m.source_out_ns,
                            timeline_start: cursor,
                            scene_id: Some(scene.id.clone()),
                            scene_heading: None,
                            confidence: Some(m.confidence),
                            kind: ClipKind::Video,
                            alternate_takes: Vec::new(),
                        };
                        proof {
                            assert(c@ =~= video_clip(m@, scene.id@, cursor as int));
                        }
                        push_planned(&mut video, c);
                        cursor = cursor + duration + gap_ns;
                    }
                    k = k + 1;
                }
                proof {
                    assert(ov.subrange(0, k as int) =~= ov);
                }
            } else {
                let best: &SceneMapping = &found[0];
                let duration: u64 = best.source_out_ns.saturating_sub(best.source_in_ns);
                proof {
                    assert(fv[0] == best@);
                }
                if duration != 0 {
                    let takes = takes_from_others(&found, &best.clip_source_path);
                    let c = PlannedClip {
                        source_path: best.clip_source_path.clone(),
                        source_in: best.source_in_ns,
                        source_out: best.source_out_ns,
                        timeline_start: cursor,
                        scene_id: Some(scene.id.clone()),
                        scene_heading: None,
                        confidence: Some(best.confidence),
                        kind: ClipKind::Audition,
                        alternate_takes: takes,
                    };
                    proof {
                        assert(c@.alternate_takes =~= other_takes(fv, fv[0].clip_source_path));
                        assert(c@ =~= PlannedView {
                            kind: ClipKind::Audition,
                            alternate_takes: other_takes(fv, fv[0].clip_source_path),
                            ..video_clip(fv[0], scene.id@, titled.cursor)
                        });
                    }
                    push_planned(&mut video, c);
                    cursor = cursor + duration + gap_ns;
                }
            }
        }
        n = n + 1;
    }
    proof {
        lemma_clips_are_of_script(
            *script,
            alignment.mappings@,
            gap_ns,
            title_duration_ns,
            include_titles,
            video@,
            titles@,
        );
    }
    AssemblyPlan {
        video_clips: video,
        title_clips: titles,
        unmatched_paths: clone_all(&alignment.unmatched_clips),
        script_path: script.path.clone(),
    }
}

/// Whether a card is that of a scene of the script and shows its heading.
pub open spec fn is_scene_card(c: PlannedClip, script: Script) -> bool {
    exists|s: int|
        0 <= s < script.scenes@.len() && option_view(c.scene_id) == Some(
            (#[trigger] script.scenes@[s]).id@,
        ) && option_view(c.scene_heading) == Some(script.scenes@[s].heading@)
}

/// Whether a clip is the part of a file that was mapped to its scene.
pub open spec fn is_mapped_clip(c: PlannedClip, mappings: Seq<SceneMapping>) -> bool {
    exists|k: int|
        0 <= k < mappings.len() && c.source_path@ == (#[trigger] mappings[k]).clip_source_path@
            && c.source_in == mappings[k].source_in_ns && c.source_out == mappings[k].source_out_ns
            && option_view(c.scene_id) == Some(mappings[k].scene_id@) && c.confidence == Some(
            mappings[k].confidence,
        )
}

proof fn lemma_clips_are_of_script(
    script: Script,
    mappings: Seq<SceneMapping>,
    gap_ns: u64,
    title_ns: u64,
    include_titles: bool,
    video: Seq<PlannedClip>,
    titles: Seq<PlannedClip>,
)
    requires
        ({
            let plan = plan_of(script, mappings_view(mappings), gap_ns, title_ns, include_titles);
            planned_view(video) == plan.video && planned_view(titles) == plan.titles
        }),
    ensures
        forall|i: int|
            0 <= i < titles.len() ==> is_scene_card(#[trigger] titles[i], script),
        forall|i: int|
            0 <= i < video.len() ==> is_mapped_clip(#[trigger] video[i], mappings),
{
    let mv = mappings_view(mappings);
    let plan = plan_of(script, mv, gap_ns, title_ns, include_titles);
    assert forall|i: int| 0 <= i < titles.len() implies is_scene_card(
        #[trigger] titles[i],
        script,
    ) by {
        assert(planned_view(titles)[i] == titles[i]@);
        crate::assembly_sources::lemma_cards_show_headings(
            script,
            mv,
            gap_ns,
            title_ns,
            include_titles,
            i,
        );
        let s = choose|s: int|
            0 <= s < script.scenes@.len() && plan.titles[i].scene_id == Some(
                (#[trigger] script.scenes@[s]).id@,
            ) && plan.titles[i].scene_heading == Some(script.scenes@[s].heading@);
        assert(option_view(titles[i].scene_id) == Some(script.scenes@[s].id@));
    }
    crate::assembly_sources::lemma_clips_show_mappings(
        script,
        mv,
        gap_ns,
        title_ns,
        include_titles,
    );
    let n = script.scenes@.len() as int;
    let at = choose|at: Seq<int>| #[trigger]
        crate::assembly_sources::is_cast(plan.video, script, mv, at, n);
    assert forall|i: int| 0 <= i < video.len() implies is_mapped_clip(
        #[trigger] video[i],
        mappings,
    ) by {
        assert(planned_view(video)[i] == video[i]@);
        assert(0 <= at[i] < n);
        let m = choose|m: MappingView| #[trigger]
            mv.contains(m) && crate::assembly_sources::shows(plan.video[i], m);
        let k = choose|k: int| 0 <= k < mv.len() && mv[k] == m;
        assert(mv[k] == mappings[k]@);
    }
}

// --------------------------------------------------------------------- order
/// What the clips of a plan are: each begins after the one before it has ended, with the gap
/// between them, all end before the next one goes; one with other takes is an audition and only
/// such a one is, and its other takes come from other files and are no better.
pub open spec fn is_orderly(p: PlanView, gap_ns: u64) -> bool {
    &&& 0 <= p.cursor
    &&& forall|i: int|
        0 <= i < p.video.len() ==> (#[trigger] p.video[i]).source_in < p.video[i].source_out
            && p.video[i].timeline_start + span_of(p.video[i]) + gap_ns <= p.cursor && is_fair(
            p.video[i],
        )
    &&& forall|i: int, j: int|
        0 <= i < j < p.video.len() ==> (#[trigger] p.video[i]).timeline_start + span_of(p.video[i])
            + gap_ns <= (#[trigger] p.video[j]).timeline_start
}

/// The length of a planned clip.
pub open spec fn span_of(c: PlannedView) -> int {
    c.source_out - c.source_in
}

/// A clip is an audition where it has other takes, and then they come from other files and none is
/// better than the clip.
pub open spec fn is_fair(c: PlannedView) -> bool {
    &&& c.kind == ClipKind::Audition || c.kind == ClipKind::Video
    &&& c.kind == ClipKind::Audition <==> c.alternate_takes.len() > 0
    &&& forall|k: int|
        0 <= k < c.alternate_takes.len() ==> {
            &&& (#[trigger] c.alternate_takes[k]).source_path != c.source_path
            &&& c.confidence matches Some(best) && descending(best) <= descending(
                c.alternate_takes[k].confidence,
            )
        }
}

proof fn lemma_add_clip(p: PlanView, c: PlannedView, gap_ns: u64)
    requires
        is_orderly(p, gap_ns),
        p.cursor <= u64::MAX,
        c.timeline_start == p.cursor,
        c.source_in < c.source_out,
        is_fair(c),
    ensures
        is_orderly(
            PlanView { video: p.video.push(c), cursor: p.cursor + span_of(c) + gap_ns, ..p },
            gap_ns,
        ),
{
    let q = PlanView { video: p.video.push(c), cursor: p.cursor + span_of(c) + gap_ns, ..p };
    assert forall|i: int, j: int| 0 <= i < j < q.video.len() implies (#[trigger] q.video[i]).timeline_start
        + span_of(q.video[i]) + gap_ns <= (#[trigger] q.video[j]).timeline_start by {
        assert(q.video[i] == p.video[i]);
        if j < p.video.len() {
            assert(q.video[j] == p.video[j]);
        }
    }
    assert forall|i: int| 0 <= i < q.video.len() implies (#[trigger] q.video[i]).source_in
        < q.video[i].source_out && q.video[i].timeline_start + span_of(q.video[i]) + gap_ns
        <= q.cursor && is_fair(q.video[i]) by {
        if i < p.video.len() {
            assert(q.video[i] == p.video[i]);
        }
    }
}

proof fn lemma_parts_orderly(p: PlanView, m: Seq<MappingView>, scene: Seq<char>, gap_ns: u64)
    requires
        is_orderly(p, gap_ns),
        with_parts(p, m, scene, gap_ns).cursor <= u64::MAX,
    ensures
        is_orderly(with_parts(p, m, scene, gap_ns), gap_ns),
    decreases m.len(),
{
    if m.len() > 0 {
        let front = with_parts(p, m.drop_last(), scene, gap_ns);
        lemma_parts_orderly(p, m.drop_last(), scene, gap_ns);
        if length(m.last()) > 0 {
            lemma_add_clip(front, video_clip(m.last(), scene, front.cursor), gap_ns);
        }
    }
}

proof fn lemma_other_takes(m: Seq<MappingView>, path: Seq<char>, k: int)
    requires
        0 <= k < other_takes(m, path).len(),
    ensures
        other_takes(m, path)[k].source_path != path,
        exists|i: int|
            0 <= i < m.len() && other_takes(m, path)[k].confidence == (#[trigger] m[i]).confidence,
    decreases m.len(),
{
    let front = other_takes(m.drop_last(), path);
    if k < front.len() {
        lemma_other_takes(m.drop_last(), path, k);
        let i = choose|i: int|
            0 <= i < m.drop_last().len() && front[k].confidence == (
            #[trigger] m.drop_last()[i]).confidence;
        assert(m[i] == m.drop_last()[i]);
    } else {
        assert(m[m.len() - 1] == m.last());
    }
}

proof fn lemma_some_other_take(m: Seq<MappingView>, path: Seq<char>, i: int)
    requires
        0 <= i < m.len(),
        m[i].clip_source_path != path,
    ensures
        other_takes(m, path).len() > 0,
    decreases m.len(),
{
    if i < m.len() - 1 {
        assert(m.drop_last()[i] == m[i]);
        lemma_some_other_take(m.drop_last(), path, i);
    }
}

proof fn lemma_best_is_first(m: Seq<MappingView>, i: int)
    requires
        0 <= i < best_first(m).len(),
    ensures
        descending(best_first(m)[0].confidence) <= descending(best_first(m)[i].confidence),
{
    let keys = m.map_values(|x: MappingView| descending(x.confidence));
    crate::order::lemma_order_by(keys);
    let o = order_by(keys);
    assert(best_first(m)[0] == m[o[0]]);
    assert(best_first(m)[i] == m[o[i]]);
    assert(keys[o[0]] == descending(m[o[0]].confidence));
    assert(keys[o[i]] == descending(m[o[i]].confidence));
    if i > 0 {
        assert(keys[o[0]] <= keys[o[i]]);
    }
}

proof fn lemma_scene_orderly(
    p: PlanView,
    mappings: Seq<MappingView>,
    scene: Seq<char>,
    heading: Seq<char>,
    gap_ns: u64,
    title_ns: u64,
    include_titles: bool,
)
    requires
        is_orderly(p, gap_ns),
        with_scene(p, mappings, scene, heading, gap_ns, title_ns, include_titles).cursor
            <= u64::MAX,
    ensures
        is_orderly(
            with_scene(p, mappings, scene, heading, gap_ns, title_ns, include_titles),
            gap_ns,
        ),
{
    let found = best_first(of_scene(mappings, scene));
    if found.len() > 0 {
        let titled = if include_titles {
            PlanView {
                titles: p.titles.push(title_card(scene, heading, title_ns, p.cursor)),
                cursor: p.cursor + title_ns + gap_ns,
                ..p
            }
        } else {
            p
        };
        assert(is_orderly(titled, gap_ns)) by {
            assert forall|i: int| 0 <= i < titled.video.len() implies (
            #[trigger] titled.video[i]).source_in < titled.video[i].source_out
                && titled.video[i].timeline_start + span_of(titled.video[i]) + gap_ns
                <= titled.cursor && is_fair(titled.video[i]) by {
                assert(titled.video[i] == p.video[i]);
            }
            assert forall|i: int, j: int| 0 <= i < j < titled.video.len() implies (
            #[trigger] titled.video[i]).timeline_start + span_of(titled.video[i]) + gap_ns <= (
            #[trigger] titled.video[j]).timeline_start by {
                assert(titled.video[i] == p.video[i] && titled.video[j] == p.video[j]);
            }
        }
        if one_source(found) {
            let m = by_source_in(found);
            lemma_parts_grow(titled, m, scene, gap_ns, 0);
            assert(m.subrange(0, 0) =~= Seq::empty());
            lemma_parts_orderly(titled, m, scene, gap_ns);
        } else if length(found[0]) > 0 {
            let takes = other_takes(found, found[0].clip_source_path);
            let c = PlannedView {
                kind: ClipKind::Audition,
                alternate_takes: takes,
                ..video_clip(found[0], scene, titled.cursor)
            };
            let i = choose|i: int|
                0 <= i < found.len() && (#[trigger] found[i]).clip_source_path
                    != found[0].clip_source_path;
            lemma_some_other_take(found, found[0].clip_source_path, i);
            assert forall|k: int| 0 <= k < takes.len() implies {
                &&& (#[trigger] takes[k]).source_path != c.source_path
                &&& descending(found[0].confidence) <= descending(takes[k].confidence)
            } by {
                lemma_other_takes(found, found[0].clip_source_path, k);
                let i = choose|i: int|
                    0 <= i < found.len() && takes[k].confidence == (#[trigger] found[i]).confidence;
                lemma_best_is_first(of_scene(mappings, scene), i);
            }
            lemma_add_clip(titled, c, gap_ns);
        }
    }
}

/// The clips of a plan follow one another on the timeline without overlapping, with the gap
/// between them; a scene that several files match is one audition, of which the best is active.
pub proof fn lemma_plan_is_orderly(
    script: Script,
    mappings: Seq<MappingView>,
    gap_ns: u64,
    title_ns: u64,
    include_titles: bool,
    n: nat,
)
    requires
        n <= script.scenes@.len(),
        plan_upto(script, mappings, gap_ns, title_ns, include_titles, n).cursor <= u64::MAX,
    ensures
        is_orderly(plan_upto(script, mappings, gap_ns, title_ns, include_titles, n), gap_ns),
    decreases n,
{
    if n > 0 {
        let front = plan_upto(script, mappings, gap_ns, title_ns, include_titles, (n - 1) as nat);
        let s = script.scenes@[n - 1];
        lemma_plan_grows(
            script,
            mappings,
            gap_ns,
            title_ns,
            include_titles,
            (n - 1) as nat,
            n,
        );
        lemma_plan_is_orderly(
            script,
            mappings,
            gap_ns,
            title_ns,
            include_titles,
            (n - 1) as nat,
        );
        lemma_scene_orderly(
            front,
            mappings,
            s.id@,
            s.heading@,
            gap_ns,
            title_ns,
            include_titles,
        );
    }
}

/// Whether a clip ends before another begins, with the gap between them.
pub open spec fn is_before(a: PlannedView, b: PlannedView, gap_ns: u64) -> bool {
    a.timeline_start + span_of(a) + gap_ns <= b.timeline_start
}

/// Whether the title card at `i` is the last that stands before a clip.
pub open spec fn is_card_of(titles: Seq<PlannedView>, i: int, c: PlannedView) -> bool {
    &&& titles[i].timeline_start <= c.timeline_start
    &&& i + 1 < titles.len() ==> c.timeline_start < titles[i + 1].timeline_start
}

/// Where the title cards of a plan stand: they follow one another, none overlaps a clip, and each
/// clip belongs to the scene of the last card before it.
pub open spec fn is_carded(p: PlanView, gap_ns: u64) -> bool {
    &&& forall|i: int|
        0 <= i < p.titles.len() ==> (#[trigger] p.titles[i]).kind == ClipKind::Title
            && p.titles[i].source_in == 0 && p.titles[i].timeline_start + span_of(p.titles[i])
            + gap_ns <= p.cursor
    &&& forall|i: int, j: int|
        0 <= i < j < p.titles.len() ==> is_before(
            #[trigger] p.titles[i],
            #[trigger] p.titles[j],
            gap_ns,
        )
    &&& forall|i: int, k: int|
        0 <= i < p.titles.len() && 0 <= k < p.video.len() ==> is_before(
            #[trigger] p.titles[i],
            #[trigger] p.video[k],
            gap_ns,
        ) || is_before(p.video[k], p.titles[i], gap_ns)
    &&& forall|i: int, k: int|
        0 <= i < p.titles.len() && 0 <= k < p.video.len() && #[trigger] is_card_of(
            p.titles,
            i,
            p.video[k],
        ) ==> p.titles[i].scene_id == p.video[k].scene_id
}

/// Whether every clip of a plan has a title card before it.
pub open spec fn has_cards(p: PlanView) -> bool {
    forall|k: int|
        0 <= k < p.video.len() ==> p.titles.len() > 0 && p.titles[0].timeline_start <= (
        #[trigger] p.video[k]).timeline_start
}

proof fn lemma_card_added(p: PlanView, card: PlannedView, gap_ns: u64)
    requires
        is_orderly(p, gap_ns),
        is_carded(p, gap_ns),
        p.cursor <= u64::MAX,
        card.kind == ClipKind::Title,
        card.source_in == 0,
        card.timeline_start == p.cursor,
    ensures
        is_carded(
            PlanView { titles: p.titles.push(card), cursor: p.cursor + span_of(card) + gap_ns, ..p },
            gap_ns,
        ),
        has_cards(p) ==> has_cards(
            PlanView { titles: p.titles.push(card), cursor: p.cursor + span_of(card) + gap_ns, ..p },
        ),
{
    let q = PlanView {
        titles: p.titles.push(card),
        cursor: p.cursor + span_of(card) + gap_ns,
        ..p
    };
    let n = p.titles.len() as int;
    assert forall|i: int| 0 <= i < q.titles.len() implies (#[trigger] q.titles[i]).kind
        == ClipKind::Title && q.titles[i].source_in == 0 && q.titles[i].timeline_start + span_of(
        q.titles[i],
    ) + gap_ns <= q.cursor by {
        if i < n {
            assert(q.titles[i] == p.titles[i]);
        }
    }
    assert forall|i: int, j: int| 0 <= i < j < q.titles.len() implies is_before(
        #[trigger] q.titles[i],
        #[trigger] q.titles[j],
        gap_ns,
    ) by {
        assert(q.titles[i] == p.titles[i]);
        if j < n {
            assert(q.titles[j] == p.titles[j]);
        }
    }
    assert forall|i: int, k: int| 0 <= i < q.titles.len() && 0 <= k < q.video.len() implies is_before(
        #[trigger] q.titles[i],
        #[trigger] q.video[k],
        gap_ns,
    ) || is_before(q.video[k], q.titles[i], gap_ns) by {
        assert(q.video[k] == p.video[k]);
        if i < n {
            assert(q.titles[i] == p.titles[i]);
        }
    }
    assert forall|i: int, k: int|
        0 <= i < q.titles.len() && 0 <= k < q.video.len() && #[trigger] is_card_of(
            q.titles,
            i,
            q.video[k],
        ) implies q.titles[i].scene_id == q.video[k].scene_id by {
        assert(q.video[k] == p.video[k]);
        assert(p.video[k].source_in < p.video[k].source_out);
        assert(i < n);
        assert(q.titles[i] == p.titles[i]);
        if i + 1 < n {
            assert(q.titles[i + 1] == p.titles[i + 1]);
        }
        assert(is_card_of(p.titles, i, p.video[k]));
    }
    if has_cards(p) {
        assert forall|k: int| 0 <= k < q.video.len() implies q.titles.len() > 0
            && q.titles[0].timeline_start <= (#[trigger] q.video[k]).timeline_start by {
            assert(q.video[k] == p.video[k]);
            assert(q.titles[0] == p.titles[0]);
        }
    }
}

proof fn lemma_clip_under_card(p: PlanView, c: PlannedView, gap_ns: u64)
    requires
        is_orderly(p, gap_ns),
        is_carded(p, gap_ns),
        p.cursor <= u64::MAX,
        c.timeline_start == p.cursor,
        c.source_in < c.source_out,
        p.titles.len() > 0 ==> p.titles.last().scene_id == c.scene_id,
    ensures
        is_carded(
            PlanView { video: p.video.push(c), cursor: p.cursor + span_of(c) + gap_ns, ..p },
            gap_ns,
        ),
        has_cards(p) && p.titles.len() > 0 ==> has_cards(
            PlanView { video: p.video.push(c), cursor: p.cursor + span_of(c) + gap_ns, ..p },
        ),
{
    let q = PlanView { video: p.video.push(c), cursor: p.cursor + span_of(c) + gap_ns, ..p };
    let n = p.video.len() as int;
    assert forall|i: int, k: int| 0 <= i < q.titles.len() && 0 <= k < q.video.len() implies is_before(
        #[trigger] q.titles[i],
        #[trigger] q.video[k],
        gap_ns,
    ) || is_before(q.video[k], q.titles[i], gap_ns) by {
        assert(q.titles[i] == p.titles[i]);
        if k < n {
            assert(q.video[k] == p.video[k]);
        }
    }
    assert forall|i: int, k: int|
        0 <= i < q.titles.len() && 0 <= k < q.video.len() && #[trigger] is_card_of(
            q.titles,
            i,
            q.video[k],
        ) implies q.titles[i].scene_id == q.video[k].scene_id by {
        if k < n {
            assert(q.video[k] == p.video[k]);
            assert(is_card_of(p.titles, i, p.video[k]));
        } else if i + 1 < p.titles.len() {
            assert(p.titles[i + 1].timeline_start <= p.cursor);
        }
    }
    if has_cards(p) && p.titles.len() > 0 {
        assert forall|k: int| 0 <= k < q.video.len() implies q.titles.len() > 0
            && q.titles[0].timeline_start <= (#[trigger] q.video[k]).timeline_start by {
            if k < n {
                assert(q.video[k] == p.video[k]);
            } else {
                assert(p.titles[0].timeline_start <= p.cursor);
            }
        }
    }
}

proof fn lemma_parts_carded(p: PlanView, m: Seq<MappingView>, scene: Seq<char>, gap_ns: u64)
    requires
        is_orderly(p, gap_ns),
        is_carded(p, gap_ns),
        p.titles.len() > 0 ==> p.titles.last().scene_id == Some(scene),
        with_parts(p, m, scene, gap_ns).cursor <= u64::MAX,
    ensures
        is_carded(with_parts(p, m, scene, gap_ns), gap_ns),
        with_parts(p, m, scene, gap_ns).titles == p.titles,
        has_cards(p) && p.titles.len() > 0 ==> has_cards(with_parts(p, m, scene, gap_ns)),
    decreases m.len(),
{
    if m.len() > 0 {
        let front = with_parts(p, m.drop_last(), scene, gap_ns);
        lemma_parts_carded(p, m.drop_last(), scene, gap_ns);
        lemma_parts_orderly(p, m.drop_last(), scene, gap_ns);
        if length(m.last()) > 0 {
            lemma_clip_under_card(front, video_clip(m.last(), scene, front.cursor), gap_ns);
        }
    }
}

proof fn lemma_scene_carded(
    p: PlanView,
    mappings: Seq<MappingView>,
    scene: Seq<char>,
    heading: Seq<char>,
    gap_ns: u64,
    title_ns: u64,
    include_titles: bool,
)
    requires
        is_orderly(p, gap_ns),
        is_carded(p, gap_ns),
        include_titles ==> has_cards(p),
        !include_titles ==> p.titles.len() == 0,
        with_scene(p, mappings, scene, heading, gap_ns, title_ns, include_titles).cursor
            <= u64::MAX,
    ensures
        ({
            let q = with_scene(p, mappings, scene, heading, gap_ns, title_ns, include_titles);
            &&& is_carded(q, gap_ns)
            &&& include_titles ==> has_cards(q)
            &&& !include_titles ==> q.titles.len() == 0
        }),
{
    let found = best_first(of_scene(mappings, scene));
    if found.len() > 0 {
        let card = title_card(scene, heading, title_ns, p.cursor);
        let titled = if include_titles {
            PlanView {
                titles: p.titles.push(card),
                cursor: p.cursor + title_ns + gap_ns,
                ..p
            }
        } else {
            p
        };
        let m = by_source_in(found);
        lemma_parts_grow(titled, m, scene, gap_ns, 0);
        assert(m.subrange(0, 0) =~= Seq::empty());
        if include_titles {
            lemma_card_added(p, card, gap_ns);
            assert(is_orderly(titled, gap_ns)) by {
                assert forall|i: int| 0 <= i < titled.video.len() implies (
                #[trigger] titled.video[i]).source_in < titled.video[i].source_out
                    && titled.video[i].timeline_start + span_of(titled.video[i]) + gap_ns
                    <= titled.cursor && is_fair(titled.video[i]) by {
                    assert(titled.video[i] == p.video[i]);
                }
            }
        }
        if one_source(found) {
            lemma_parts_carded(titled, m, scene, gap_ns);
        } else if length(found[0]) > 0 {
            let c = PlannedView {
                kind: ClipKind::Audition,
                alternate_takes: other_takes(found, found[0].clip_source_path),
                ..video_clip(found[0], scene, titled.cursor)
            };
            lemma_clip_under_card(titled, c, gap_ns);
        }
    }
}

/// The title cards of a plan follow one another on the timeline without overlapping each other or a
/// clip, with the gap between them, and stand before the clips of their scenes: each clip belongs to
/// the scene of the last card before it. Where cards are wanted, no clip is without one.
pub proof fn lemma_cards_stand_before_scenes(
    script: Script,
    mappings: Seq<MappingView>,
    gap_ns: u64,
    title_ns: u64,
    include_titles: bool,
    n: nat,
)
    requires
        n <= script.scenes@.len(),
        plan_upto(script, mappings, gap_ns, title_ns, include_titles, n).cursor <= u64::MAX,
    ensures
        is_carded(plan_upto(script, mappings, gap_ns, title_ns, include_titles, n), gap_ns),
        include_titles ==> has_cards(
            plan_upto(script, mappings, gap_ns, title_ns, include_titles, n),
        ),
        !include_titles ==> plan_upto(
            script,
            mappings,
            gap_ns,
            title_ns,
            include_titles,
            n,
        ).titles.len() == 0,
    decreases n,
{
    if n > 0 {
        let m = (n - 1) as nat;
        let front = plan_upto(script, mappings, gap_ns, title_ns, include_titles, m);
        let s = script.scenes@[n - 1];
        lemma_plan_grows(script, mappings, gap_ns, title_ns, include_titles, m, n);
        lemma_plan_is_orderly(script, mappings, gap_ns, title_ns, include_titles, m);
        lemma_cards_stand_before_scenes(script, mappings, gap_ns, title_ns, include_titles, m);
        lemma_scene_carded(
            front,
            mappings,
            s.id@,
            s.heading@,
            gap_ns,
            title_ns,
            include_titles,
        );
    }
}

// ------------------------------------------------------------------ applying
/// The place of the first track with identifier `id`, or the number of tracks where there is
/// none.
pub open spec fn track_place(tracks: Seq<Track>, id: Seq<char>) -> int
    decreases tracks.len(),
{
    if tracks.len() == 0 {
        0
    } else if tracks[0].id@ == id {
        0
    } else {
        1 + track_place(tracks.drop_first(), id)
    }
}

/// The place of the first video track, or the number of tracks where there is none.
pub open spec fn video_place(tracks: Seq<Track>) -> int
    decreases tracks.len(),
{
    if tracks.len() == 0 {
        0
    } else if tracks[0].kind == TrackKind::Video {
        0
    } else {
        1 + video_place(tracks.drop_first())
    }
}

/// The label of the take at `number`, counted from 1: the file name without its extension.
pub open spec fn take_label(path: Seq<char>, number: nat) -> Seq<char> {
    match stem_of(path) {
        Some(s) => s,
        None => "Take "@ + decimal(number),
    }
}

/// Whether `t` is the take of a source range.
pub open spec fn is_take(
    t: AuditionTake,
    path: Seq<char>,
    source_in: u64,
    source_out: u64,
    number: nat,
) -> bool {
    &&& is_uuid(t.id@)
    &&& t.label@ == take_label(path, number)
    &&& t.source_path@ == path
    &&& t.source_in == source_in
    &&& t.source_out == source_out
    &&& t.source_timecode_base_ns is None
    &&& t.media_duration_ns is None
}

/// Whether `c` is the clip that `p` plans. A clip with alternate takes becomes an audition whose
/// first take is active.
pub open spec fn is_planned_clip(p: PlannedClip, c: Clip) -> bool {
    &&& c.is_unedited()
    &&& is_uuid(c.id@)
    &&& c.source_path@ == p.source_path@
    &&& c.source_in == p.source_in
    &&& c.source_out == p.source_out
    &&& c.timeline_start == p.timeline_start
    &&& option_view(c.scene_id) == option_view(p.scene_id)
    &&& c.script_confidence == p.confidence
    &&& c.title_text@.len() == 0
    &&& c.title_font@ == "Sans Bold 36"@
    &&& c.audition_active_take_index == 0
    &&& if p.alternate_takes@.len() == 0 {
        c.kind == p.kind && c.audition_takes is None
    } else {
        &&& c.kind == ClipKind::Audition
        &&& c.audition_takes is Some
        &&& ({
            let t = c.audition_takes->Some_0@;
            &&& t.len() == p.alternate_takes@.len() + 1
            &&& is_take(t[0], p.source_path@, p.source_in, p.source_out, 1)
            &&& forall|i: int|
                0 <= i < p.alternate_takes@.len() ==> is_take(
                    #[trigger] t[i + 1],
                    p.alternate_takes@[i].source_path@,
                    p.alternate_takes@[i].source_in,
                    p.alternate_takes@[i].source_out,
                    (i + 2) as nat,
                )
        })
    }
}

/// Whether `c` is the title card that `p` plans.
pub open spec fn is_planned_title(p: PlannedClip, c: Clip) -> bool {
    &&& c.is_unedited()
    &&& is_uuid(c.id@)
    &&& c.source_path@.len() == 0
    &&& c.source_in == 0
    &&& c.source_out == p.source_out
    &&& c.timeline_start == p.timeline_start
    &&& c.kind == ClipKind::Title
    &&& option_view(c.scene_id) == option_view(p.scene_id)
    &&& c.script_confidence is None
    &&& match p.scene_heading {
        Some(h) => c.title_text@ == h@,
        None => c.title_text@.len() == 0,
    }
    &&& c.title_font@ == "Sans Bold 48"@
    &&& c.audition_takes is None
    &&& c.audition_active_take_index == 0
}

/// Whether the clips are those that `plan` plans, in order.
pub open spec fn are_planned_clips(plan: Seq<PlannedClip>, clips: Seq<Clip>) -> bool {
    plan.len() == clips.len() && forall|i: int|
        0 <= i < plan.len() ==> is_planned_clip(#[trigger] plan[i], clips[i])
}

/// Whether the clips are the title cards that `plan` plans, in order.
pub open spec fn are_planned_titles(plan: Seq<PlannedClip>, clips: Seq<Clip>) -> bool {
    plan.len() == clips.len() && forall|i: int|
        0 <= i < plan.len() ==> is_planned_title(#[trigger] plan[i], clips[i])
}

/// Whether a track is a copy of another with `more` after its clips.
pub open spec fn extends_track(a: Track, b: Track, more: Seq<Clip>) -> bool {
    a.id == b.id && a.kind == b.kind && a.label == b.label && b.clips@ == a.clips@ + more
}

/// Whether `t` is an empty new video track.
pub open spec fn is_new_track(t: Track, label: Seq<char>) -> bool {
    is_uuid(t.id@) && t.kind == TrackKind::Video && t.label@ == label && t.clips@.len() == 0
}

/// Whether `bare` is `tracks` with the tracks that a plan needs: a video track at the end where
/// there was none, and a track for titles in front where titles are planned.
pub open spec fn has_tracks(tracks: Seq<Track>, bare: Seq<Track>, plan: AssemblyPlan) -> bool {
    let new_video = video_place(tracks) == tracks.len();
    let titles: int = if plan.title_clips@.len() > 0 {
        1
    } else {
        0
    };
    &&& bare.len() == titles + tracks.len() + (if new_video {
        1int
    } else {
        0
    })
    &&& titles == 1 ==> is_new_track(bare[0], "Scene Titles"@)
    &&& forall|i: int| 0 <= i < tracks.len() ==> bare[i + titles] == #[trigger] tracks[i]
    &&& new_video ==> is_new_track(bare[titles + tracks.len()], "Video 1"@)
}

/// Whether `after` is `before` with `more` behind the clips of the first track called `id`, if
/// there is one.
pub open spec fn adds_clips(
    before: Seq<Track>,
    after: Seq<Track>,
    id: Seq<char>,
    more: Seq<Clip>,
) -> bool {
    let p = track_place(before, id);
    &&& after.len() == before.len()
    &&& forall|i: int|
        0 <= i < before.len() ==> if i == p {
            extends_track(before[i], #[trigger] after[i], more)
        } else {
            after[i] == before[i]
        }
}

/// The place of the first item with this path, or the number of items where there is none.
pub open spec fn item_place(items: Seq<MediaItem>, path: Seq<char>) -> int
    decreases items.len(),
{
    if items.len() == 0 {
        0
    } else if items[0].source_path@ == path {
        0
    } else {
        1 + item_place(items.drop_first(), path)
    }
}

/// Whether `after` is `before` with the first item of each of the paths moved to `bin`.
pub open spec fn moves_items(
    before: Seq<MediaItem>,
    after: Seq<MediaItem>,
    paths: Seq<Seq<char>>,
    bin: Seq<char>,
) -> bool {
    &&& after.len() == before.len()
    &&& forall|i: int|
        0 <= i < before.len() ==> ({
            let moved = exists|k: int| 0 <= k < paths.len() && item_place(before, #[trigger] paths[k]) == i;
            &&& (#[trigger] after[i]) == (MediaItem { bin_id: after[i].bin_id, ..before[i] })
            &&& moved ==> option_view(after[i].bin_id) == Some(bin)
            &&& !moved ==> after[i].bin_id == before[i].bin_id
        })
}

proof fn lemma_track_place(tracks: Seq<Track>, id: Seq<char>, i: int)
    requires
        0 <= i <= tracks.len(),
        i < tracks.len() ==> tracks[i].id@ == id,
        forall|k: int| 0 <= k < i ==> (#[trigger] tracks[k]).id@ != id,
    ensures
        track_place(tracks, id) == i,
    decreases tracks.len(),
{
    if tracks.len() > 0 && tracks[0].id@ != id {
        assert(i > 0);
        let rest = tracks.drop_first();
        assert forall|k: int| 0 <= k < i - 1 implies (#[trigger] rest[k]).id@ != id by {
            assert(rest[k] == tracks[k + 1]);
        }
        lemma_track_place(rest, id, i - 1);
    } else if tracks.len() > 0 {
        if i > 0 {
            assert(tracks[0].id@ != id);
        }
    }
}

proof fn lemma_video_place(tracks: Seq<Track>, i: int)
    requires
        0 <= i <= tracks.len(),
        i < tracks.len() ==> tracks[i].kind == TrackKind::Video,
        forall|k: int| 0 <= k < i ==> (#[trigger] tracks[k]).kind != TrackKind::Video,
    ensures
        video_place(tracks) == i,
    decreases tracks.len(),
{
    if tracks.len() > 0 && tracks[0].kind != TrackKind::Video {
        assert(i > 0);
        let rest = tracks.drop_first();
        assert forall|k: int| 0 <= k < i - 1 implies (#[trigger] rest[k]).kind != TrackKind::Video by {
            assert(rest[k] == tracks[k + 1]);
        }
        lemma_video_place(rest, i - 1);
    } else if tracks.len() > 0 {
        if i > 0 {
            assert(tracks[0].kind != TrackKind::Video);
        }
    }
}

proof fn lemma_item_place(items: Seq<MediaItem>, path: Seq<char>, i: int)
    requires
        0 <= i <= items.len(),
        i < items.len() ==> items[i].source_path@ == path,
        forall|k: int| 0 <= k < i ==> (#[trigger] items[k]).source_path@ != path,
    ensures
        item_place(items, path) == i,
    decreases items.len(),
{
    if items.len() > 0 && items[0].source_path@ != path {
        assert(i > 0);
        let rest = items.drop_first();
        assert forall|k: int| 0 <= k < i - 1 implies (#[trigger] rest[k]).source_path@ != path by {
            assert(rest[k] == items[k + 1]);
        }
        lemma_item_place(rest, path, i - 1);
    } else if items.len() > 0 {
        if i > 0 {
            assert(items[0].source_path@ != path);
        }
    }
}

fn label_of(path: &str, number: u128) -> (r: String)
    ensures
        r@ == take_label(path@, number as nat),
{
    match file_stem(path) {
        Some(s) => s,
        None => {
            let mut s = owned("Take ");
            push_wide(&mut s, number);
            s
        },
    }
}

fn make_take(path: &str, source_in: u64, source_out: u64, number: u128) -> (r: AuditionTake)
    ensures
        is_take(r, path@, source_in, source_out, number as nat),
{
    AuditionTake {
        id: fresh_id(),
        label: label_of(path, number),
        source_path: owned(path),
        source_in,
        source_out,
        source_timecode_base_ns: None,
        media_duration_ns: None,
    }
}

fn make_clip(p: &PlannedClip) -> (r: Clip)
    ensures
        is_planned_clip(*p, r),
{
    let mut c = if p.alternate_takes.len() == 0 {
        Clip::new(&p.source_path, p.source_out, p.timeline_start, p.kind)
    } else {
        let mut takes: Vec<AuditionTake> = Vec::new();
        takes.push(make_take(&p.source_path, p.source_in, p.source_out, 1));
        let mut i: usize = 0;
        while i < p.alternate_takes.len()
            invariant
                i <= p.alternate_takes@.len(),
                takes@.len() == i + 1,
                is_take(takes@[0], p.source_path@, p.source_in, p.source_out, 1),
                forall|k: int|
                    0 <= k < i ==> is_take(
                        #[trigger] takes@[k + 1],
                        p.alternate_takes@[k].source_path@,
                        p.alternate_takes@[k].source_in,
                        p.alternate_takes@[k].source_out,
                        (k + 2) as nat,
                    ),
            decreases p.alternate_takes.len() - i,
        {
            let alt: &PlannedTake = &p.alternate_takes[i];
            takes.push(make_take(&alt.source_path, alt.source_in, alt.source_out, i as u128 + 2));
            i = i + 1;
        }
        Clip::new_audition(p.timeline_start, takes, 0)
    };
    c.source_in = p.source_in;
    c.scene_id = clone_option(&p.scene_id);
    c.script_confidence = p.confidence;
    c
}

fn make_title(p: &PlannedClip) -> (r: Clip)
    ensures
        is_planned_title(*p, r),
{
    proof {
        reveal_strlit("");
    }
    let mut c = Clip::new("", p.source_out, p.timeline_start, ClipKind::Title);
    c.scene_id = clone_option(&p.scene_id);
    if let Some(h) = &p.scene_heading {
        c.title_text = h.clone();
    }
    c.title_font = owned("Sans Bold 48");
    c
}

fn find_track(tracks: &Vec<Track>, id: &str) -> (r: usize)
    ensures
        r == track_place(tracks@, id@),
        r <= tracks@.len(),
{
    let mut i: usize = 0;
    while i < tracks.len()
        invariant
            i <= tracks@.len(),
            forall|k: int| 0 <= k < i ==> (#[trigger] tracks@[k]).id@ != id@,
        decreases tracks.len() - i,
    {
        if same(&tracks[i].id, id) {
            proof {
                lemma_track_place(tracks@, id@, i as int);
            }
            return i;
        }
        i = i + 1;
    }
    proof {
        lemma_track_place(tracks@, id@, i as int);
    }
    i
}

fn add_clips(tracks: &mut Vec<Track>, id: &str, clips: Vec<Clip>)
    ensures
        adds_clips(old(tracks)@, final(tracks)@, id@, clips@),
{
    let p: usize = find_track(tracks, id);
    if p < tracks.len() {
        let mut more = clips;
        let ghost before = tracks@;
        tracks[p].clips.append(&mut more);
        proof {
            assert(extends_track(before[p as int], tracks@[p as int], clips@));
        }
    }
}

fn move_item(items: &mut Vec<MediaItem>, path: &str, bin: &str)
    ensures
        final(items)@.len() == old(items)@.len(),
        forall|i: int|
            0 <= i < old(items)@.len() ==> if i == item_place(old(items)@, path@) {
                &&& #[trigger] final(items)@[i] == (MediaItem {
                    bin_id: final(items)@[i].bin_id,
                    ..old(items)@[i]
                })
                &&& option_view(final(items)@[i].bin_id) == Some(bin@)
            } else {
                final(items)@[i] == old(items)@[i]
            },
{
    let mut i: usize = 0;
    while i < items.len()
        invariant
            i <= items@.len(),
            *items == *old(items),
            forall|k: int| 0 <= k < i ==> (#[trigger] items@[k]).source_path@ != path@,
        decreases items.len() - i,
    {
        if same(&items[i].source_path, path) {
            proof {
                lemma_item_place(items@, path@, i as int);
            }
            items[i].bin_id = Some(owned(bin));
            return;
        }
        i = i + 1;
    }
    proof {
        lemma_item_place(items@, path@, i as int);
    }
}

proof fn lemma_same_item_places(a: Seq<MediaItem>, b: Seq<MediaItem>, path: Seq<char>)
    requires
        a.len() == b.len(),
        forall|i: int| 0 <= i < a.len() ==> (#[trigger] a[i]).source_path == b[i].source_path,
    ensures
        item_place(a, path) == item_place(b, path),
    decreases a.len(),
{
    if a.len() > 0 {
        let x = a.drop_first();
        let y = b.drop_first();
        assert forall|i: int| 0 <= i < x.len() implies (#[trigger] x[i]).source_path
            == y[i].source_path by {
            assert(x[i] == a[i + 1] && y[i] == b[i + 1]);
        }
        assert(a[0].source_path == b[0].source_path);
        lemma_same_item_places(x, y, path);
    }
}

/// Moves the first item of each of the paths to a bin.
fn move_items(items: &mut Vec<MediaItem>, paths: &Vec<String>, bin: &str)
    ensures
        moves_items(old(items)@, final(items)@, views(paths@), bin@),
{
    let ghost before = items@;
    let ghost all = views(paths@);
    let mut k: usize = 0;
    while k < paths.len()
        invariant
            k <= paths@.len(),
            all == views(paths@),
            before == old(items)@,
            moves_items(before, items@, all.subrange(0, k as int), bin@),
        decreases paths.len() - k,
    {
        let ghost mid = items@;
        move_item(items, &paths[k], bin);
        proof {
            let front = all.subrange(0, k as int);
            let next = all.subrange(0, k + 1);
            let path = paths@[k as int]@;
            assert(next[k as int] == path);
            assert forall|i: int| 0 <= i < before.len() implies (#[trigger] mid[i]).source_path
                == before[i].source_path by {
                assert(mid[i] == (MediaItem { bin_id: mid[i].bin_id, ..before[i] }));
            }
            lemma_same_item_places(mid, before, path);
            assert forall|i: int| 0 <= i < before.len() implies ({
                let moved = exists|x: int|
                    0 <= x < next.len() && item_place(before, #[trigger] next[x]) == i;
                &&& (#[trigger] items@[i]) == (MediaItem { bin_id: items@[i].bin_id, ..before[i] })
                &&& moved ==> option_view(items@[i].bin_id) == Some(bin@)
                &&& !moved ==> items@[i].bin_id == before[i].bin_id
            }) by {
                assert(mid[i] == (MediaItem { bin_id: mid[i].bin_id, ..before[i] }));
                let was = exists|x: int|
                    0 <= x < front.len() && item_place(before, #[trigger] front[x]) == i;
                let now = exists|x: int|
                    0 <= x < next.len() && item_place(before, #[trigger] next[x]) == i;
                if was {
                    let x = choose|x: int|
                        0 <= x < front.len() && item_place(before, #[trigger] front[x]) == i;
                    assert(next[x] == front[x]);
                    assert(now);
                }
                if i == item_place(before, path) {
                    assert(item_place(before, next[k as int]) == i);
                    assert(now);
                } else if now {
                    let x = choose|x: int|
                        0 <= x < next.len() && item_place(before, #[trigger] next[x]) == i;
                    assert(x != k);
                    assert(front[x] == next[x]);
                    assert(was);
                }
            }
        }
        k = k + 1;
    }
    proof {
        assert(all.subrange(0, k as int) =~= all);
    }
}

/// Whether `after` is `before` with the tracks and clips that `plan` plans: the video clips go to
/// the first video track, or to a new one behind the others, and the title cards to a new track
/// in front.
pub open spec fn is_assembled(before: Seq<Track>, after: Seq<Track>, plan: AssemblyPlan) -> bool {
    exists|bare: Seq<Track>, mid: Seq<Track>, video: Seq<Clip>, titles: Seq<Clip>|
        {
            &&& has_tracks(before, bare, plan)
            &&& are_planned_clips(plan.video_clips@, video)
            &&& are_planned_titles(plan.title_clips@, titles)
            &&& #[trigger] is_filled(before, bare, mid, after, video, titles)
        }
}

/// Whether `mid` is `bare` with the video clips, and `after` is `mid` with the title cards.
pub open spec fn is_filled(
    before: Seq<Track>,
    bare: Seq<Track>,
    mid: Seq<Track>,
    after: Seq<Track>,
    video: Seq<Clip>,
    titles: Seq<Clip>,
) -> bool {
    let front: int = if titles.len() > 0 {
        1
    } else {
        0
    };
    &&& adds_clips(bare, mid, bare[front + video_place(before)].id@, video)
    &&& if titles.len() > 0 {
        adds_clips(mid, after, bare[0].id@, titles)
    } else {
        after == mid
    }
}

/// Applies an assembly plan to a project, creating tracks and clips. Clips that match no scene
/// are collected in a library bin.
///
/// Returns the tracks as they were, for undo.
pub fn apply_assembly_plan(
    project: &mut Project,
    library: &mut MediaLibrary,
    plan: &AssemblyPlan,
) -> (r: Vec<Track>)
    ensures
        same_tracks(old(project).tracks@, r@),
        is_assembled(old(project).tracks@, final(project).tracks@, *plan),
        final(project).title == old(project).title,
        final(project).dirty,
        plan.unmatched_paths@.len() == 0 ==> *final(library) == *old(library),
        plan.unmatched_paths@.len() > 0 ==> ({
            let bins = final(library).bins@;
            let bin = bins.last();
            &&& bins.len() == old(library).bins@.len() + 1
            &&& bins.drop_last() == old(library).bins@
            &&& is_uuid(bin.id@)
            &&& bin.name@ == "Unassigned"@
            &&& bin.parent_id is None
            &&& moves_items(
                old(library).items@,
                final(library).items@,
                views(plan.unmatched_paths@),
                bin.id@,
            )
        }),
{
    let previous = copy_tracks(&project.tracks);
    let ghost before = project.tracks@;
    let mut v: usize = 0;
    while v < project.tracks.len() && project.tracks[v].kind != TrackKind::Video
        invariant
            v <= project.tracks@.len(),
            *project == *old(project),
            *library == *old(library),
            before == project.tracks@,
            forall|k: int| 0 <= k < v ==> (#[trigger] before[k]).kind != TrackKind::Video,
        decreases project.tracks.len() - v,
    {
        v = v + 1;
    }
    proof {
        lemma_video_place(before, v as int);
    }
    if v == project.tracks.len() {
        project.tracks.push(Track::new_video("Video 1"));
    }
    let video_id = project.tracks[v].id.clone();
    let mut title_id: Option<String> = None;
    if plan.title_clips.len() > 0 {
        let t = Track::new_video("Scene Titles");
        title_id = Some(t.id.clone());
        project.tracks.insert(0, t);
    }
    let ghost bare = project.tracks@;
    let ghost front: int = if plan.title_clips@.len() > 0 {
        1
    } else {
        0
    };
    proof {
        assert forall|i: int| 0 <= i < before.len() implies #[trigger] bare[i + front] == before[i] by {}
        assert(has_tracks(before, bare, *plan));
        assert(bare[front + v].id@ == video_id@);
    }
    let mut clips: Vec<Clip> = Vec::new();
    let mut i: usize = 0;
    while i < plan.video_clips.len()
        invariant
            i <= plan.video_clips@.len(),
            clips@.len() == i,
            forall|k: int| 0 <= k < i ==> is_planned_clip(#[trigger] plan.video_clips@[k], clips@[k]),
        decreases plan.video_clips.len() - i,
    {
        clips.push(make_clip(&plan.video_clips[i]));
        i = i + 1;
    }
    let ghost video = clips@;
    add_clips(&mut project.tracks, &video_id, clips);
    let ghost mid = project.tracks@;
    let mut cards: Vec<Clip> = Vec::new();
    let mut j: usize = 0;
    while j < plan.title_clips.len()
        invariant
            j <= plan.title_clips@.len(),
            cards@.len() == j,
            forall|k: int| 0 <= k < j ==> is_planned_title(#[trigger] plan.title_clips@[k], cards@[k]),
        decreases plan.title_clips.len() - j,
    {
        cards.push(make_title(&plan.title_clips[j]));
        j = j + 1;
    }
    let ghost titles = cards@;
    if let Some(id) = &title_id {
        add_clips(&mut project.tracks, id, cards);
    }
    proof {
        assert(are_planned_clips(plan.video_clips@, video));
        assert(are_planned_titles(plan.title_clips@, titles));
        assert(is_filled(before, bare, mid, project.tracks@, video, titles));
        assert(is_assembled(before, project.tracks@, *plan));
    }
    if plan.unmatched_paths.len() > 0 {
        let bin = MediaBin { id: fresh_id(), name: owned("Unassigned"), parent_id: None };
        let bin_id = bin.id.clone();
        library.bins.push(bin);
        move_items(&mut library.items, &plan.unmatched_paths, &bin_id);
        proof {
            assert(library.bins@.drop_last() =~= old(library).bins@);
        }
    }
    project.dirty = true;
    previous
}

} // verus!
