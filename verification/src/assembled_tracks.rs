//! What applying an assembly plan does to the tracks and the library of a project.

use crate::model::{Clip, ClipKind, MediaItem, Track, TrackKind};
use crate::script_assembly::{
    are_planned_clips, are_planned_titles, extends_track, has_tracks, is_assembled,
    is_filled, is_planned_clip, is_planned_title, item_place, moves_items, take_label, track_place,
    video_place, AssemblyPlan, PlannedClip,
};
use crate::paths::stem_of;
use crate::text::option_view;
use vstd::prelude::*;

verus! {

// -------------------------------------------------------------------- places
/// The place of a track is the first that has the identifier.
pub proof fn lemma_track_place(tracks: Seq<Track>, id: Seq<char>, k: int)
    requires
        0 <= k < tracks.len(),
        tracks[k].id@ == id,
        forall|j: int| 0 <= j < k ==> (#[trigger] tracks[j]).id@ != id,
    ensures
        track_place(tracks, id) == k,
    decreases tracks.len(),
{
    if k > 0 {
        let rest = tracks.drop_first();
        assert(tracks[0].id@ != id);
        assert(rest[k - 1] == tracks[k]);
        assert forall|j: int| 0 <= j < k - 1 implies (#[trigger] rest[j]).id@ != id by {
            assert(rest[j] == tracks[j + 1]);
        }
        lemma_track_place(rest, id, k - 1);
    }
}

/// The place for clips is the first track for video; behind the last track where there is none.
pub proof fn lemma_video_place(tracks: Seq<Track>)
    ensures
        ({
            let v = video_place(tracks);
            &&& 0 <= v <= tracks.len()
            &&& v < tracks.len() ==> tracks[v].kind == TrackKind::Video
            &&& forall|j: int| 0 <= j < v ==> (#[trigger] tracks[j]).kind != TrackKind::Video
        }),
    decreases tracks.len(),
{
    if tracks.len() > 0 && tracks[0].kind != TrackKind::Video {
        let rest = tracks.drop_first();
        lemma_video_place(rest);
        let v = video_place(tracks);
        if v < tracks.len() {
            assert(rest[v - 1] == tracks[v]);
        }
        assert forall|j: int| 0 <= j < v implies (#[trigger] tracks[j]).kind != TrackKind::Video by {
            if j > 0 {
                assert(rest[j - 1] == tracks[j]);
            }
        }
    }
}

/// The place of an item is the first that has the source.
pub proof fn lemma_item_place(items: Seq<MediaItem>, path: Seq<char>, k: int)
    requires
        0 <= k < items.len(),
    ensures
        item_place(items, path) == k <==> items[k].source_path@ == path && forall|j: int|
            0 <= j < k ==> (#[trigger] items[j]).source_path@ != path,
    decreases items.len(),
{
    let rest = items.drop_first();
    if items[0].source_path@ == path {
    } else if k > 0 {
        lemma_item_place(rest, path, k - 1);
        assert(rest[k - 1] == items[k]);
        if forall|j: int| 0 <= j < k ==> (#[trigger] items[j]).source_path@ != path {
            assert forall|j: int| 0 <= j < k - 1 implies (#[trigger] rest[j]).source_path@
                != path by {
                assert(rest[j] == items[j + 1]);
            }
        }
        if forall|j: int| 0 <= j < k - 1 ==> (#[trigger] rest[j]).source_path@ != path {
            assert forall|j: int| 0 <= j < k implies (#[trigger] items[j]).source_path@ != path by {
                if j > 0 {
                    assert(rest[j - 1] == items[j]);
                }
            }
        }
    } else {
        lemma_item_place_bound(rest, path);
    }
}

proof fn lemma_item_place_bound(items: Seq<MediaItem>, path: Seq<char>)
    ensures
        0 <= item_place(items, path) <= items.len(),
    decreases items.len(),
{
    if items.len() > 0 {
        lemma_item_place_bound(items.drop_first(), path);
    }
}

// --------------------------------------------------------------------- clips
/// Whether a clip is what was planned: the same part of the same source at the same place, for the
/// same scene, with the takes that were planned.
pub open spec fn stands_for(p: PlannedClip, c: Clip) -> bool {
    &&& c.source_path@ == p.source_path@
    &&& c.source_in == p.source_in
    &&& c.source_out == p.source_out
    &&& c.timeline_start == p.timeline_start
    &&& option_view(c.scene_id) == option_view(p.scene_id)
    &&& c.script_confidence == p.confidence
    &&& p.alternate_takes@.len() == 0 ==> c.kind == p.kind && c.audition_takes is None
    &&& p.alternate_takes@.len() > 0 ==> c.kind == ClipKind::Audition
        && c.audition_active_take_index == 0 && c.audition_takes is Some
        && c.audition_takes->Some_0@.len() == p.alternate_takes@.len() + 1
        && c.audition_takes->Some_0@[0].source_path@ == p.source_path@
        && c.audition_takes->Some_0@[0].source_in == p.source_in
        && c.audition_takes->Some_0@[0].source_out == p.source_out
        && c.audition_takes->Some_0@[0].label@ == take_label(p.source_path@, 1) && forall|k: int|
        0 <= k < p.alternate_takes@.len() ==> (#[trigger] c.audition_takes->Some_0@[k
            + 1]).source_path@ == p.alternate_takes@[k].source_path@ && c.audition_takes->Some_0@[k
            + 1].label@ == take_label(p.alternate_takes@[k].source_path@, (k + 2) as nat) && c.audition_takes->Some_0@[k
            + 1].source_in == p.alternate_takes@[k].source_in && c.audition_takes->Some_0@[k
            + 1].source_out == p.alternate_takes@[k].source_out
}

/// Whether a clip is the card that was planned: it shows the heading where and as long as planned.
pub open spec fn shows_card(p: PlannedClip, c: Clip) -> bool {
    &&& c.kind == ClipKind::Title
    &&& c.timeline_start == p.timeline_start
    &&& c.source_in == 0
    &&& c.source_out == p.source_out
    &&& option_view(c.scene_id) == option_view(p.scene_id)
    &&& p.scene_heading matches Some(h) ==> c.title_text@ == h@
    &&& p.scene_heading is None ==> c.title_text@.len() == 0
    &&& c.title_font@ == "Sans Bold 48"@
    &&& c.audition_takes is None
}

proof fn lemma_stands_for(p: PlannedClip, c: Clip)
    requires
        is_planned_clip(p, c),
    ensures
        stands_for(p, c),
{
}

proof fn lemma_shows_card(p: PlannedClip, c: Clip)
    requires
        is_planned_title(p, c),
    ensures
        shows_card(p, c),
{
}

/// A take is called by the file that it comes from, or by its number where that has no name.
pub proof fn lemma_take_label(path: Seq<char>, number: nat)
    ensures
        stem_of(path) matches Some(s) ==> take_label(path, number) == s,
        stem_of(path) is None ==> take_label(path, number) == "Take "@ + crate::text::decimal(
            number,
        ),
{
}

/// Whether no two tracks have the same identifier.
pub open spec fn are_told_apart(tracks: Seq<Track>) -> bool {
    forall|i: int, j: int|
        0 <= i < j < tracks.len() ==> (#[trigger] tracks[i]).id@ != (#[trigger] tracks[j]).id@
}

/// What applying a plan does to tracks that are told apart: the planned clips stand behind those of
/// the first track for video, which is made where there is none, and the cards on a track of their
/// own in front; every other track stays as it was.
pub open spec fn holds_plan(before: Seq<Track>, after: Seq<Track>, plan: AssemblyPlan) -> bool {
    let front: int = if plan.title_clips@.len() > 0 {
        1
    } else {
        0
    };
    let v = video_place(before);
    let own: int = if v < before.len() {
        before[v].clips@.len() as int
    } else {
        0
    };
    &&& after.len() == front + before.len() + if v == before.len() {
        1int
    } else {
        0
    }
    &&& forall|i: int| 0 <= i < before.len() && i != v ==> #[trigger] after[front + i] == before[i]
    &&& after[front + v].kind == TrackKind::Video
    &&& after[front + v].clips@.len() == own + plan.video_clips@.len()
    &&& forall|k: int|
        0 <= k < own ==> #[trigger] after[front + v].clips@[k] == before[v].clips@[k]
    &&& forall|k: int|
        0 <= k < plan.video_clips@.len() ==> stands_for(
            #[trigger] plan.video_clips@[k],
            after[front + v].clips@[own + k],
        )
    &&& front == 1 ==> after[0].label@ == "Scene Titles"@ && after[0].kind == TrackKind::Video
        && after[0].clips@.len() == plan.title_clips@.len()
    &&& front == 1 ==> forall|k: int|
        0 <= k < plan.title_clips@.len() ==> shows_card(
            #[trigger] plan.title_clips@[k],
            after[0].clips@[k],
        )
}

/// The tracks that there were stand behind the track for cards, where there is one.
proof fn lemma_kept_tracks(before: Seq<Track>, bare: Seq<Track>, plan: AssemblyPlan)
    requires
        has_tracks(before, bare, plan),
    ensures
        plan.title_clips@.len() > 0 ==> forall|i: int|
            0 <= i < before.len() ==> #[trigger] before[i] == bare[1 + i],
        plan.title_clips@.len() == 0 ==> forall|i: int|
            0 <= i < before.len() ==> #[trigger] before[i] == bare[i],
{
    let titles: int = if plan.title_clips@.len() > 0 {
        1
    } else {
        0
    };
    assert forall|i: int| 0 <= i < before.len() implies #[trigger] before[i] == bare[i + titles] by {
        assert(before[i] == bare[i + titles]);
    }
}

proof fn lemma_filled(
    before: Seq<Track>,
    bare: Seq<Track>,
    mid: Seq<Track>,
    after: Seq<Track>,
    video: Seq<Clip>,
    titles: Seq<Clip>,
    plan: AssemblyPlan,
)
    requires
        has_tracks(before, bare, plan),
        are_planned_clips(plan.video_clips@, video),
        are_planned_titles(plan.title_clips@, titles),
        is_filled(before, bare, mid, after, video, titles),
        are_told_apart(after),
    ensures
        holds_plan(before, after, plan),
{
    let front: int = if titles.len() > 0 {
        1
    } else {
        0
    };
    let v = video_place(before);
    lemma_video_place(before);
    lemma_kept_tracks(before, bare, plan);
    let at = front + v;
    let id = bare[at].id@;
    assert(0 <= at < bare.len());
    assert(mid.len() == bare.len() && after.len() == mid.len());
    assert forall|i: int| 0 <= i < bare.len() implies (#[trigger] mid[i]).id == bare[i].id by {
        if i == track_place(bare, id) {
            assert(extends_track(bare[i], mid[i], video));
        }
    }
    assert forall|i: int| 0 <= i < bare.len() implies (#[trigger] after[i]).id == mid[i].id by {
        if titles.len() > 0 && i == track_place(mid, bare[0].id@) {
            assert(extends_track(mid[i], after[i], titles));
        }
    }
    assert forall|j: int| 0 <= j < at implies (#[trigger] bare[j]).id@ != id by {
        assert(after[j].id == mid[j].id && after[at].id == mid[at].id);
        assert(mid[j].id == bare[j].id && mid[at].id == bare[at].id);
        assert(after[j].id@ != after[at].id@);
    }
    lemma_track_place(bare, id, at);
    assert(extends_track(bare[at], mid[at], video));
    if titles.len() > 0 {
        assert(mid[0].id == bare[0].id);
        lemma_track_place(mid, bare[0].id@, 0);
        assert(extends_track(mid[0], after[0], titles));
        assert(mid[0] == bare[0]);
        assert(after[at] == mid[at]);
        assert(after[0].clips@ =~= titles);
        assert forall|k: int| 0 <= k < plan.title_clips@.len() implies shows_card(
            #[trigger] plan.title_clips@[k],
            after[0].clips@[k],
        ) by {
            lemma_shows_card(plan.title_clips@[k], titles[k]);
        }
    }
    assert forall|i: int| 0 <= i < before.len() && i != v implies #[trigger] after[front + i]
        == before[i] by {
        assert(before[i] == bare[front + i]);
        assert(mid[front + i] == bare[front + i]);
        assert(after[front + i] == mid[front + i]);
    }
    let own: int = if v < before.len() {
        before[v].clips@.len() as int
    } else {
        0
    };
    if v < before.len() {
        assert(before[v] == bare[front + v]);
    }
    assert(bare[at].clips@.len() == own);
    assert(after[at].clips@ == bare[at].clips@ + video);
    assert forall|k: int| 0 <= k < plan.video_clips@.len() implies stands_for(
        #[trigger] plan.video_clips@[k],
        after[at].clips@[own + k],
    ) by {
        lemma_stands_for(plan.video_clips@[k], video[k]);
        assert(after[at].clips@[own + k] == video[k]);
    }
}

/// Applying a plan puts its clips and cards where they belong and leaves every other track alone.
pub proof fn lemma_plan_is_applied(before: Seq<Track>, after: Seq<Track>, plan: AssemblyPlan)
    requires
        is_assembled(before, after, plan),
        are_told_apart(after),
    ensures
        holds_plan(before, after, plan),
{
    let (bare, mid, video, titles) = choose|
        bare: Seq<Track>,
        mid: Seq<Track>,
        video: Seq<Clip>,
        titles: Seq<Clip>,
    |
        {
            &&& has_tracks(before, bare, plan)
            &&& are_planned_clips(plan.video_clips@, video)
            &&& are_planned_titles(plan.title_clips@, titles)
            &&& #[trigger] is_filled(before, bare, mid, after, video, titles)
        };
    lemma_filled(before, bare, mid, after, video, titles, plan);
}

/// An item whose source was not matched goes to the new bin, the first with that source; every other
/// item stays in its bin, and nothing else of any item changes.
pub proof fn lemma_unmatched_items_move(
    before: Seq<MediaItem>,
    after: Seq<MediaItem>,
    paths: Seq<Seq<char>>,
    bin: Seq<char>,
    i: int,
)
    requires
        moves_items(before, after, paths, bin),
        0 <= i < before.len(),
        forall|j: int| 0 <= j < i ==> (#[trigger] before[j]).source_path@ != before[i].source_path@,
    ensures
        after.len() == before.len(),
        after[i].source_path == before[i].source_path,
        after[i].duration_ns == before[i].duration_ns,
        paths.contains(before[i].source_path@) ==> option_view(after[i].bin_id) == Some(bin),
        !paths.contains(before[i].source_path@) ==> after[i].bin_id == before[i].bin_id,
{
    let path = before[i].source_path@;
    assert(after[i] == (MediaItem { bin_id: after[i].bin_id, ..before[i] }));
    lemma_item_place(before, path, i);
    if paths.contains(path) {
        let k = choose|k: int| 0 <= k < paths.len() && paths[k] == path;
        assert(item_place(before, paths[k]) == i);
    } else {
        assert forall|k: int| 0 <= k < paths.len() implies item_place(before, #[trigger] paths[k])
            != i by {
            lemma_item_place(before, paths[k], i);
            assert(paths.contains(paths[k]));
        }
    }
}

} // verus!
