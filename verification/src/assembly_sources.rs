//! Where the clips and cards of an assembly plan come from, and what of an alignment a plan holds.

use crate::order::{lemma_order_by, order_by};
use crate::script::Script;
use crate::script_align::{descending, picked, MappingView};
use crate::script_assembly::{
    best_first, by_source_in, of_scene, one_source, other_takes, plan_of, plan_upto, title_card,
    video_clip, with_parts, with_scene, PlanView, PlannedView, TakeView,
};
use crate::model::ClipKind;
use vstd::prelude::*;

verus! {

// ------------------------------------------------------------------ mappings
/// The mappings of a scene are those that name it.
pub proof fn lemma_of_scene(mappings: Seq<MappingView>, id: Seq<char>, m: MappingView)
    ensures
        of_scene(mappings, id).contains(m) <==> mappings.contains(m) && m.scene_id == id,
    decreases mappings.len(),
{
    if mappings.len() > 0 {
        let front = mappings.drop_last();
        let r = of_scene(mappings, id);
        let f = of_scene(front, id);
        lemma_of_scene(front, id, m);
        assert(mappings =~= front.push(mappings.last()));
        if mappings.contains(m) {
            let k = choose|k: int| 0 <= k < mappings.len() && mappings[k] == m;
            if k < front.len() {
                assert(front[k] == m);
            }
        }
        if front.contains(m) {
            let k = choose|k: int| 0 <= k < front.len() && front[k] == m;
            assert(mappings[k] == m);
        }
        if mappings.last().scene_id == id {
            assert(r == f.push(mappings.last()));
            if f.contains(m) {
                let k = choose|k: int| 0 <= k < f.len() && f[k] == m;
                assert(r[k] == m);
            }
            if mappings.last() == m {
                assert(r.last() == m);
                assert(mappings[mappings.len() - 1] == m);
            }
            if r.contains(m) {
                let k = choose|k: int| 0 <= k < r.len() && r[k] == m;
                if k < f.len() {
                    assert(f[k] == m);
                } else {
                    assert(mappings[mappings.len() - 1] == m);
                }
            }
        }
    }
}

proof fn lemma_picked(s: Seq<MappingView>, keys: Seq<int>, m: MappingView)
    requires
        keys.len() == s.len(),
    ensures
        picked(s, order_by(keys)).len() == s.len(),
        picked(s, order_by(keys)).contains(m) <==> s.contains(m),
{
    lemma_order_by(keys);
    let order = order_by(keys);
    let r = picked(s, order);
    if r.contains(m) {
        let k = choose|k: int| 0 <= k < r.len() && r[k] == m;
        assert(s[order[k]] == m);
    }
    if s.contains(m) {
        let k = choose|k: int| 0 <= k < s.len() && s[k] == m;
        assert(order.contains(k));
        let a = choose|a: int| 0 <= a < order.len() && order[a] == k;
        assert(r[a] == m);
    }
}

/// Sorting mappings loses none and adds none. The most confident come first, or those that begin
/// first in their source.
pub proof fn lemma_sorted_mappings(s: Seq<MappingView>, m: MappingView)
    ensures
        best_first(s).len() == s.len(),
        by_source_in(s).len() == s.len(),
        best_first(s).contains(m) <==> s.contains(m),
        by_source_in(s).contains(m) <==> s.contains(m),
        forall|i: int, j: int|
            0 <= i < j < s.len() ==> descending((#[trigger] best_first(s)[i]).confidence)
                <= descending((#[trigger] best_first(s)[j]).confidence),
        forall|i: int, j: int|
            0 <= i < j < s.len() ==> (#[trigger] by_source_in(s)[i]).source_in_ns <= (
            #[trigger] by_source_in(s)[j]).source_in_ns,
{
    let a = s.map_values(|x: MappingView| descending(x.confidence));
    let b = s.map_values(|x: MappingView| x.source_in_ns as int);
    lemma_picked(s, a, m);
    lemma_picked(s, b, m);
    lemma_order_by(a);
    lemma_order_by(b);
    assert forall|i: int, j: int| 0 <= i < j < s.len() implies descending(
        (#[trigger] best_first(s)[i]).confidence,
    ) <= descending((#[trigger] best_first(s)[j]).confidence) by {
        assert(best_first(s)[i] == s[order_by(a)[i]]);
        assert(best_first(s)[j] == s[order_by(a)[j]]);
    }
    assert forall|i: int, j: int| 0 <= i < j < s.len() implies (
    #[trigger] by_source_in(s)[i]).source_in_ns <= (
    #[trigger] by_source_in(s)[j]).source_in_ns by {
        assert(by_source_in(s)[i] == s[order_by(b)[i]]);
        assert(by_source_in(s)[j] == s[order_by(b)[j]]);
    }
}

// ------------------------------------------------------------- clips and cards
/// Whether a clip shows what a mapping found: the same part of the same file, for the same scene,
/// with the same confidence.
pub open spec fn shows(c: PlannedView, m: MappingView) -> bool {
    &&& c.source_path == m.clip_source_path
    &&& c.source_in == m.source_in_ns
    &&& c.source_out == m.source_out_ns
    &&& c.confidence == Some(m.confidence)
    &&& c.scene_id == Some(m.scene_id)
    &&& c.scene_heading is None
}

/// Whether a take is the part of a file that a mapping found.
pub open spec fn takes_up(t: TakeView, m: MappingView) -> bool {
    &&& t.source_path == m.clip_source_path
    &&& t.source_in == m.source_in_ns
    &&& t.source_out == m.source_out_ns
    &&& t.confidence == m.confidence
}

/// Whether a clip and its takes are what mappings found for one scene.
pub open spec fn is_found(c: PlannedView, mappings: Seq<MappingView>, id: Seq<char>) -> bool {
    &&& c.scene_id == Some(id)
    &&& exists|m: MappingView| #[trigger] mappings.contains(m) && shows(c, m)
    &&& forall|k: int|
        0 <= k < c.alternate_takes.len() ==> is_found_take(
            #[trigger] c.alternate_takes[k],
            mappings,
            id,
        )
}

/// Whether a take is what a mapping found for a scene.
pub open spec fn is_found_take(t: TakeView, mappings: Seq<MappingView>, id: Seq<char>) -> bool {
    exists|m: MappingView| #[trigger] mappings.contains(m) && m.scene_id == id && takes_up(t, m)
}

/// Whether what a mapping found is one of the takes.
pub open spec fn has_take(takes: Seq<TakeView>, m: MappingView) -> bool {
    exists|k: int| 0 <= k < takes.len() && takes_up(#[trigger] takes[k], m)
}

/// Whether a card is the title of a scene: it has no source, shows the heading of the scene and
/// lasts as long as cards do.
pub open spec fn is_title_of(
    c: PlannedView,
    id: Seq<char>,
    heading: Seq<char>,
    title_ns: u64,
) -> bool {
    &&& c.scene_id == Some(id)
    &&& c.scene_heading == Some(heading)
    &&& c.source_path.len() == 0
    &&& c.source_in == 0
    &&& c.source_out == title_ns
    &&& c.confidence is None
    &&& c.kind == ClipKind::Title
    &&& c.alternate_takes.len() == 0
}

/// Whether what a mapping found is in a plan: as a clip, as a take of one, or because a better part
/// of the same file stands for it.
pub open spec fn is_held(video: Seq<PlannedView>, m: MappingView) -> bool {
    exists|i: int|
        0 <= i < video.len() && (#[trigger] video[i]).scene_id == Some(m.scene_id) && (shows(
            video[i],
            m,
        ) || (video[i].kind == ClipKind::Audition && (video[i].source_path == m.clip_source_path
            || has_take(video[i].alternate_takes, m))))
}

proof fn lemma_other_takes(m: Seq<MappingView>, path: Seq<char>, id: Seq<char>)
    requires
        forall|k: int| 0 <= k < m.len() ==> (#[trigger] m[k]).scene_id == id,
    ensures
        forall|k: int|
            0 <= k < other_takes(m, path).len() ==> is_found_take(
                #[trigger] other_takes(m, path)[k],
                m,
                id,
            ),
        forall|x: MappingView| #[trigger]
            m.contains(x) && x.clip_source_path != path ==> has_take(other_takes(m, path), x),
    decreases m.len(),
{
    if m.len() > 0 {
        let front = m.drop_last();
        let f = other_takes(front, path);
        let r = other_takes(m, path);
        assert forall|k: int| 0 <= k < front.len() implies (#[trigger] front[k]).scene_id == id by {
            assert(front[k] == m[k]);
        }
        lemma_other_takes(front, path, id);
        assert(m[m.len() - 1].scene_id == id);
        assert forall|k: int| 0 <= k < r.len() implies is_found_take(#[trigger] r[k], m, id) by {
            if k < f.len() {
                assert(r[k] == f[k]);
                let x = choose|x: MappingView| #[trigger]
                    front.contains(x) && x.scene_id == id && takes_up(f[k], x);
                let a = choose|a: int| 0 <= a < front.len() && front[a] == x;
                assert(m[a] == x);
                assert(m.contains(x));
            } else {
                assert(m[m.len() - 1] == m.last());
                assert(m.contains(m.last()));
                assert(takes_up(r[k], m.last()));
            }
        }
        assert forall|x: MappingView| #[trigger]
            m.contains(x) && x.clip_source_path != path implies has_take(r, x) by {
            let a = choose|a: int| 0 <= a < m.len() && m[a] == x;
            if a < front.len() {
                assert(front[a] == x);
                assert(front.contains(x));
                let k = choose|k: int| 0 <= k < f.len() && takes_up(#[trigger] f[k], x);
                assert(r[k] == f[k]);
            } else {
                assert(takes_up(r[r.len() - 1], x));
            }
        }
    }
}

proof fn lemma_parts(p: PlanView, m: Seq<MappingView>, id: Seq<char>, gap_ns: u64)
    ensures
        ({
            let q = with_parts(p, m, id, gap_ns);
            &&& q.titles == p.titles
            &&& p.video.len() <= q.video.len()
            &&& q.video.subrange(0, p.video.len() as int) == p.video
        }),
    decreases m.len(),
{
    let q = with_parts(p, m, id, gap_ns);
    if m.len() == 0 {
        assert(q.video.subrange(0, p.video.len() as int) =~= p.video);
    } else {
        let f = with_parts(p, m.drop_last(), id, gap_ns);
        lemma_parts(p, m.drop_last(), id, gap_ns);
        assert(q.video.subrange(0, p.video.len() as int) =~= f.video.subrange(
            0,
            p.video.len() as int,
        ));
    }
}

/// A clip that was added shows one of the parts.
proof fn lemma_part_shown(
    p: PlanView,
    m: Seq<MappingView>,
    id: Seq<char>,
    gap_ns: u64,
    i: int,
) -> (k: int)
    requires
        forall|k: int| 0 <= k < m.len() ==> (#[trigger] m[k]).scene_id == id,
        p.video.len() <= i < with_parts(p, m, id, gap_ns).video.len(),
    ensures
        0 <= k < m.len(),
        shows(with_parts(p, m, id, gap_ns).video[i], m[k]),
        with_parts(p, m, id, gap_ns).video[i].kind == ClipKind::Video,
        with_parts(p, m, id, gap_ns).video[i].alternate_takes.len() == 0,
    decreases m.len(),
{
    let front = m.drop_last();
    let f = with_parts(p, front, id, gap_ns);
    assert(m[m.len() - 1].scene_id == id);
    if i < f.video.len() {
        assert forall|k: int| 0 <= k < front.len() implies (#[trigger] front[k]).scene_id == id by {
            assert(front[k] == m[k]);
        }
        lemma_part_shown(p, front, id, gap_ns, i)
    } else {
        m.len() - 1
    }
}

/// A part that has a length is shown by a clip that was added.
proof fn lemma_part_held(
    p: PlanView,
    m: Seq<MappingView>,
    id: Seq<char>,
    gap_ns: u64,
    k: int,
) -> (i: int)
    requires
        0 <= k < m.len(),
        m[k].scene_id == id,
        m[k].source_in_ns < m[k].source_out_ns,
    ensures
        p.video.len() <= i < with_parts(p, m, id, gap_ns).video.len(),
        shows(with_parts(p, m, id, gap_ns).video[i], m[k]),
    decreases m.len(),
{
    let front = m.drop_last();
    lemma_parts(p, front, id, gap_ns);
    if k < front.len() {
        lemma_part_held(p, front, id, gap_ns, k)
    } else {
        with_parts(p, m, id, gap_ns).video.len() - 1
    }
}

/// The mappings of a scene, the best first.
spec fn is_list_of(found: Seq<MappingView>, mappings: Seq<MappingView>, id: Seq<char>) -> bool {
    forall|m: MappingView|
        #![trigger found.contains(m)]
        #![trigger mappings.contains(m)]
        found.contains(m) <==> mappings.contains(m) && m.scene_id == id
}

proof fn lemma_list(mappings: Seq<MappingView>, id: Seq<char>)
    ensures
        is_list_of(best_first(of_scene(mappings, id)), mappings, id),
        is_list_of(by_source_in(best_first(of_scene(mappings, id))), mappings, id),
{
    let own = of_scene(mappings, id);
    let found = best_first(own);
    let parts = by_source_in(found);
    assert forall|m: MappingView| #![trigger found.contains(m)] #![trigger mappings.contains(m)]
        found.contains(m) <==> mappings.contains(m) && m.scene_id == id by {
        lemma_of_scene(mappings, id, m);
        lemma_sorted_mappings(own, m);
    }
    assert forall|m: MappingView| #![trigger parts.contains(m)] #![trigger mappings.contains(m)]
        parts.contains(m) <==> mappings.contains(m) && m.scene_id == id by {
        lemma_of_scene(mappings, id, m);
        lemma_sorted_mappings(own, m);
        lemma_sorted_mappings(found, m);
    }
}

proof fn lemma_list_members(found: Seq<MappingView>, mappings: Seq<MappingView>, id: Seq<char>)
    requires
        is_list_of(found, mappings, id),
    ensures
        forall|k: int|
            0 <= k < found.len() ==> (#[trigger] found[k]).scene_id == id && mappings.contains(
                found[k],
            ),
{
    assert forall|k: int| 0 <= k < found.len() implies (#[trigger] found[k]).scene_id == id
        && mappings.contains(found[k]) by {
        assert(found.contains(found[k]));
    }
}

/// Whether every mapping of a scene has a length.
pub open spec fn all_last(mappings: Seq<MappingView>, id: Seq<char>) -> bool {
    forall|m: MappingView| #[trigger]
        mappings.contains(m) && m.scene_id == id ==> m.source_in_ns < m.source_out_ns
}

/// Whether a scene has a mapping.
pub open spec fn is_matched(mappings: Seq<MappingView>, id: Seq<char>) -> bool {
    exists|m: MappingView| #[trigger] mappings.contains(m) && m.scene_id == id
}

/// What the clips behind the first `n` are: what was found for a scene, and all of it.
spec fn adds_scene(
    before: Seq<PlannedView>,
    after: Seq<PlannedView>,
    mappings: Seq<MappingView>,
    id: Seq<char>,
) -> bool {
    &&& before.len() <= after.len()
    &&& after.subrange(0, before.len() as int) == before
    &&& forall|i: int|
        before.len() <= i < after.len() ==> is_found(#[trigger] after[i], mappings, id)
    &&& all_last(mappings, id) ==> forall|m: MappingView| #[trigger]
        mappings.contains(m) && m.scene_id == id ==> is_held(
            after.subrange(before.len() as int, after.len() as int),
            m,
        )
    &&& forall|i: int, j: int|
        before.len() <= i < j < after.len() ==> (#[trigger] after[i]).source_in <= (
        #[trigger] after[j]).source_in
}

proof fn lemma_parts_in_order(p: PlanView, m: Seq<MappingView>, id: Seq<char>, gap_ns: u64)
    requires
        forall|i: int, j: int|
            0 <= i < j < m.len() ==> (#[trigger] m[i]).source_in_ns <= (
            #[trigger] m[j]).source_in_ns,
    ensures
        ({
            let v = with_parts(p, m, id, gap_ns).video;
            &&& forall|i: int, j: int|
                p.video.len() <= i < j < v.len() ==> (#[trigger] v[i]).source_in <= (
                #[trigger] v[j]).source_in
            &&& m.len() > 0 ==> forall|i: int|
                p.video.len() <= i < v.len() ==> (#[trigger] v[i]).source_in
                    <= m.last().source_in_ns
            &&& m.len() == 0 ==> v == p.video
        }),
    decreases m.len(),
{
    if m.len() > 0 {
        let front = m.drop_last();
        let f = with_parts(p, front, id, gap_ns).video;
        let v = with_parts(p, m, id, gap_ns).video;
        assert forall|i: int, j: int| 0 <= i < j < front.len() implies (
        #[trigger] front[i]).source_in_ns <= (#[trigger] front[j]).source_in_ns by {
            assert(front[i] == m[i] && front[j] == m[j]);
        }
        lemma_parts_in_order(p, front, id, gap_ns);
        assert forall|i: int| p.video.len() <= i < f.len() implies (#[trigger] f[i]).source_in
            <= m.last().source_in_ns by {
            assert(front.last() == m[m.len() - 2]);
            assert(m[m.len() - 2].source_in_ns <= m[m.len() - 1].source_in_ns);
        }
        assert forall|i: int| p.video.len() <= i < v.len() implies (#[trigger] v[i]).source_in
            <= m.last().source_in_ns by {
            if i < f.len() {
                assert(v[i] == f[i]);
            }
        }
        assert forall|i: int, j: int| p.video.len() <= i < j < v.len() implies (
        #[trigger] v[i]).source_in <= (#[trigger] v[j]).source_in by {
            assert(v[i] == f[i]);
            if j < f.len() {
                assert(v[j] == f[j]);
            }
        }
    }
}

proof fn lemma_parts_add_scene(
    p: PlanView,
    parts: Seq<MappingView>,
    mappings: Seq<MappingView>,
    id: Seq<char>,
    gap_ns: u64,
)
    requires
        is_list_of(parts, mappings, id),
        forall|i: int, j: int|
            0 <= i < j < parts.len() ==> (#[trigger] parts[i]).source_in_ns <= (
            #[trigger] parts[j]).source_in_ns,
    ensures
        adds_scene(p.video, with_parts(p, parts, id, gap_ns).video, mappings, id),
        with_parts(p, parts, id, gap_ns).titles == p.titles,
{
    let q = with_parts(p, parts, id, gap_ns);
    let new = q.video.subrange(p.video.len() as int, q.video.len() as int);
    lemma_list_members(parts, mappings, id);
    lemma_parts(p, parts, id, gap_ns);
    lemma_parts_in_order(p, parts, id, gap_ns);
    assert forall|i: int| p.video.len() <= i < q.video.len() implies is_found(
        #[trigger] q.video[i],
        mappings,
        id,
    ) by {
        let k = lemma_part_shown(p, parts, id, gap_ns, i);
        assert(mappings.contains(parts[k]));
    }
    if all_last(mappings, id) {
        assert forall|m: MappingView| #[trigger]
            mappings.contains(m) && m.scene_id == id implies is_held(new, m) by {
            assert(parts.contains(m));
            let k = choose|k: int| 0 <= k < parts.len() && parts[k] == m;
            let i = lemma_part_held(p, parts, id, gap_ns, k);
            assert(new[i - p.video.len()] == q.video[i]);
        }
    }
}

proof fn lemma_audition_adds_scene(
    before: Seq<PlannedView>,
    c: PlannedView,
    found: Seq<MappingView>,
    mappings: Seq<MappingView>,
    id: Seq<char>,
)
    requires
        found.len() > 0,
        is_list_of(found, mappings, id),
        c.kind == ClipKind::Audition,
        shows(c, found[0]),
        c.alternate_takes == other_takes(found, found[0].clip_source_path),
    ensures
        adds_scene(before, before.push(c), mappings, id),
{
    let after = before.push(c);
    let new = after.subrange(before.len() as int, after.len() as int);
    let path = found[0].clip_source_path;
    let takes = other_takes(found, path);
    lemma_list_members(found, mappings, id);
    lemma_other_takes(found, path, id);
    assert(after.subrange(0, before.len() as int) =~= before);
    assert(found[0].scene_id == id && mappings.contains(found[0]));
    assert(is_found(c, mappings, id)) by {
        assert forall|k: int| 0 <= k < takes.len() implies is_found_take(
            #[trigger] takes[k],
            mappings,
            id,
        ) by {
            assert(is_found_take(takes[k], found, id));
            let x = choose|x: MappingView| #[trigger]
                found.contains(x) && x.scene_id == id && takes_up(takes[k], x);
            assert(mappings.contains(x));
        }
    }
    assert(new[0] == c);
    assert forall|m: MappingView| #[trigger]
        mappings.contains(m) && m.scene_id == id implies is_held(new, m) by {
        assert(found.contains(m));
        assert(new[0].scene_id == Some(m.scene_id));
    }
}

proof fn lemma_scene(
    p: PlanView,
    mappings: Seq<MappingView>,
    id: Seq<char>,
    heading: Seq<char>,
    gap_ns: u64,
    title_ns: u64,
    include_titles: bool,
)
    ensures
        ({
            let q = with_scene(p, mappings, id, heading, gap_ns, title_ns, include_titles);
            let wanted = include_titles && is_matched(mappings, id);
            &&& adds_scene(p.video, q.video, mappings, id)
            &&& q.titles.len() == p.titles.len() + if wanted {
                1int
            } else {
                0
            }
            &&& q.titles.subrange(0, p.titles.len() as int) == p.titles
            &&& wanted ==> is_title_of(q.titles.last(), id, heading, title_ns)
        }),
{
    let q = with_scene(p, mappings, id, heading, gap_ns, title_ns, include_titles);
    let found = best_first(of_scene(mappings, id));
    lemma_list(mappings, id);
    lemma_list_members(found, mappings, id);
    if found.len() == 0 {
        assert forall|m: MappingView| #[trigger] mappings.contains(m) implies m.scene_id != id by {
            assert(!found.contains(m));
        }
        assert(q.video.subrange(0, p.video.len() as int) =~= p.video);
        assert(q.titles.subrange(0, p.titles.len() as int) =~= p.titles);
    } else {
        assert(mappings.contains(found[0]) && found[0].scene_id == id);
        let titled = if include_titles {
            PlanView {
                titles: p.titles.push(title_card(id, heading, title_ns, p.cursor)),
                cursor: p.cursor + title_ns + gap_ns,
                ..p
            }
        } else {
            p
        };
        assert(titled.titles.subrange(0, p.titles.len() as int) =~= p.titles);
        if one_source(found) {
            lemma_sorted_mappings(found, found[0]);
            lemma_parts_add_scene(titled, by_source_in(found), mappings, id, gap_ns);
        } else if found[0].source_in_ns < found[0].source_out_ns {
            let c = q.video.last();
            assert(q.video == p.video.push(c));
            lemma_audition_adds_scene(p.video, c, found, mappings, id);
        } else {
            assert(q.video.subrange(0, p.video.len() as int) =~= p.video);
            assert(!all_last(mappings, id));
        }
    }
}

/// Whether a card of a plan is the title of one of the first `n` scenes.
pub open spec fn is_titled(c: PlannedView, script: Script, n: int, title_ns: u64) -> bool {
    exists|s: int|
        0 <= s < n && is_title_of(
            c,
            (#[trigger] script.scenes@[s]).id@,
            script.scenes@[s].heading@,
            title_ns,
        )
}

/// Which scenes the clips of a plan belong to: `at` names one for each, in the order of the script;
/// clips of one scene are in the order of their source.
pub open spec fn is_cast(
    video: Seq<PlannedView>,
    script: Script,
    mappings: Seq<MappingView>,
    at: Seq<int>,
    n: int,
) -> bool {
    &&& at.len() == video.len()
    &&& forall|i: int|
        0 <= i < at.len() ==> 0 <= #[trigger] at[i] < n && is_found(
            video[i],
            mappings,
            script.scenes@[at[i]].id@,
        )
    &&& forall|i: int, j: int| 0 <= i < j < at.len() ==> #[trigger] at[i] <= #[trigger] at[j]
    &&& forall|i: int, j: int|
        0 <= i < j < at.len() && #[trigger] at[i] == #[trigger] at[j] ==> video[i].source_in
            <= video[j].source_in
}

proof fn lemma_cast(
    script: Script,
    mappings: Seq<MappingView>,
    gap_ns: u64,
    title_ns: u64,
    include_titles: bool,
    n: nat,
) -> (at: Seq<int>)
    requires
        n <= script.scenes@.len(),
    ensures
        ({
            let p = plan_upto(script, mappings, gap_ns, title_ns, include_titles, n);
            &&& is_cast(p.video, script, mappings, at, n as int)
            &&& !include_titles ==> p.titles.len() == 0
            &&& forall|i: int|
                0 <= i < p.titles.len() ==> is_titled(
                    #[trigger] p.titles[i],
                    script,
                    n as int,
                    title_ns,
                )
        }),
    decreases n,
{
    if n == 0 {
        Seq::empty()
    } else {
        let before = plan_upto(script, mappings, gap_ns, title_ns, include_titles, (n - 1) as nat);
        let after = plan_upto(script, mappings, gap_ns, title_ns, include_titles, n);
        let s = script.scenes@[n - 1];
        let front = lemma_cast(
            script,
            mappings,
            gap_ns,
            title_ns,
            include_titles,
            (n - 1) as nat,
        );
        lemma_scene(before, mappings, s.id@, s.heading@, gap_ns, title_ns, include_titles);
        let at = Seq::new(
            after.video.len(),
            |i: int|
                if i < front.len() {
                    front[i]
                } else {
                    n - 1
                },
        );
        assert forall|i: int| 0 <= i < at.len() implies 0 <= #[trigger] at[i] < n && is_found(
            after.video[i],
            mappings,
            script.scenes@[at[i]].id@,
        ) by {
            if i < front.len() {
                assert(at[i] == front[i]);
                assert(after.video[i] == after.video.subrange(0, before.video.len() as int)[i]);
            } else {
                assert(is_found(after.video[i], mappings, s.id@));
            }
        }
        assert forall|i: int, j: int| 0 <= i < j < at.len() implies #[trigger] at[i]
            <= #[trigger] at[j] by {
            if j < front.len() {
                assert(front[i] <= front[j]);
            } else if i < front.len() {
                assert(at[i] == front[i]);
            }
        }
        assert forall|i: int, j: int|
            0 <= i < j < at.len() && #[trigger] at[i] == #[trigger] at[j] implies after.video[i].source_in
            <= after.video[j].source_in by {
            if j < front.len() {
                assert(front[i] == front[j]);
                assert(after.video[i] == after.video.subrange(0, before.video.len() as int)[i]);
                assert(after.video[j] == after.video.subrange(0, before.video.len() as int)[j]);
            } else if i < front.len() {
                assert(front[i] < n - 1);
            }
        }
        assert forall|i: int| 0 <= i < after.titles.len() implies is_titled(
            #[trigger] after.titles[i],
            script,
            n as int,
            title_ns,
        ) by {
            if i < before.titles.len() {
                assert(after.titles[i] == after.titles.subrange(0, before.titles.len() as int)[i]);
                assert(is_titled(before.titles[i], script, n - 1, title_ns));
            } else {
                assert(is_title_of(after.titles[i], s.id@, s.heading@, title_ns));
                assert(script.scenes@[n - 1] == s);
            }
        }
        at
    }
}

/// Every title card of a plan is the card of a scene of the script and shows its heading. Without
/// cards there are none.
pub proof fn lemma_cards_show_headings(
    script: Script,
    mappings: Seq<MappingView>,
    gap_ns: u64,
    title_ns: u64,
    include_titles: bool,
    i: int,
)
    requires
        0 <= i < plan_of(script, mappings, gap_ns, title_ns, include_titles).titles.len(),
    ensures
        include_titles,
        ({
            let t = plan_of(script, mappings, gap_ns, title_ns, include_titles).titles[i];
            exists|s: int|
                0 <= s < script.scenes@.len() && t.scene_id == Some(
                    (#[trigger] script.scenes@[s]).id@,
                ) && t.scene_heading == Some(script.scenes@[s].heading@) && t.source_in == 0
                    && t.source_out == title_ns && t.kind == ClipKind::Title && t.source_path.len()
                    == 0 && t.confidence is None
        }),
{
    let at = lemma_cast(
        script,
        mappings,
        gap_ns,
        title_ns,
        include_titles,
        script.scenes@.len(),
    );
    let t = plan_of(script, mappings, gap_ns, title_ns, include_titles).titles[i];
    assert(is_titled(t, script, script.scenes@.len() as int, title_ns));
}

/// Every clip of a plan shows what a mapping found for a scene of the script, and so do its takes.
/// The clips come in the order of the scenes, and those of one scene in the order in which they stand
/// in their source.
pub proof fn lemma_clips_show_mappings(
    script: Script,
    mappings: Seq<MappingView>,
    gap_ns: u64,
    title_ns: u64,
    include_titles: bool,
)
    ensures
        exists|at: Seq<int>| #[trigger]
            is_cast(
                plan_of(script, mappings, gap_ns, title_ns, include_titles).video,
                script,
                mappings,
                at,
                script.scenes@.len() as int,
            ),
{
    let at = lemma_cast(
        script,
        mappings,
        gap_ns,
        title_ns,
        include_titles,
        script.scenes@.len(),
    );
    assert(is_cast(
        plan_of(script, mappings, gap_ns, title_ns, include_titles).video,
        script,
        mappings,
        at,
        script.scenes@.len() as int,
    ));
}

proof fn lemma_held_within(a: Seq<PlannedView>, b: Seq<PlannedView>, from: int, m: MappingView)
    requires
        0 <= from,
        from + a.len() <= b.len(),
        forall|i: int| 0 <= i < a.len() ==> #[trigger] a[i] == b[from + i],
        is_held(a, m),
    ensures
        is_held(b, m),
{
    let i = choose|i: int|
        0 <= i < a.len() && (#[trigger] a[i]).scene_id == Some(m.scene_id) && (shows(a[i], m) || (
        a[i].kind == ClipKind::Audition && (a[i].source_path == m.clip_source_path || has_take(
            a[i].alternate_takes,
            m,
        ))));
    assert(b[from + i] == a[i]);
}

/// Nothing that was found is lost: a plan holds each mapping of each scene, as a clip or as a take
/// of one, or has a better part of the same file for it. A scene with a mapping has a card where
/// cards are wanted.
pub proof fn lemma_plan_holds_mappings(
    script: Script,
    mappings: Seq<MappingView>,
    gap_ns: u64,
    title_ns: u64,
    include_titles: bool,
    n: nat,
    s: int,
    m: MappingView,
)
    requires
        0 <= s < n <= script.scenes@.len(),
        mappings.contains(m),
        m.scene_id == script.scenes@[s].id@,
        forall|x: MappingView| #[trigger]
            mappings.contains(x) ==> x.source_in_ns < x.source_out_ns,
    ensures
        ({
            let p = plan_upto(script, mappings, gap_ns, title_ns, include_titles, n);
            &&& is_held(p.video, m)
            &&& include_titles ==> exists|i: int|
                0 <= i < p.titles.len() && is_title_of(
                    #[trigger] p.titles[i],
                    m.scene_id,
                    script.scenes@[s].heading@,
                    title_ns,
                )
        }),
    decreases n,
{
    let before = plan_upto(script, mappings, gap_ns, title_ns, include_titles, (n - 1) as nat);
    let p = plan_upto(script, mappings, gap_ns, title_ns, include_titles, n);
    let last = script.scenes@[n - 1];
    lemma_scene(before, mappings, last.id@, last.heading@, gap_ns, title_ns, include_titles);
    if s < n - 1 {
        lemma_plan_holds_mappings(
            script,
            mappings,
            gap_ns,
            title_ns,
            include_titles,
            (n - 1) as nat,
            s,
            m,
        );
        assert forall|i: int| 0 <= i < before.video.len() implies #[trigger] before.video[i]
            == p.video[0 + i] by {
            assert(p.video[i] == p.video.subrange(0, before.video.len() as int)[i]);
        }
        lemma_held_within(before.video, p.video, 0, m);
        if include_titles {
            let i = choose|i: int|
                0 <= i < before.titles.len() && is_title_of(
                    #[trigger] before.titles[i],
                    m.scene_id,
                    script.scenes@[s].heading@,
                    title_ns,
                );
            assert(p.titles[i] == p.titles.subrange(0, before.titles.len() as int)[i]);
        }
    } else {
        let new = p.video.subrange(before.video.len() as int, p.video.len() as int);
        assert(is_held(new, m));
        lemma_held_within(new, p.video, before.video.len() as int, m);
        if include_titles {
            assert(is_title_of(
                p.titles[p.titles.len() - 1],
                m.scene_id,
                script.scenes@[s].heading@,
                title_ns,
            ));
        }
    }
}

// -------------------------------------------------------------------- packing
/// Whether something begins at the start of the timeline, or where a clip or card ends, with the
/// gap between them.
pub open spec fn follows_on(p: PlanView, start: int, gap_ns: u64) -> bool {
    ||| start == 0
    ||| exists|i: int|
        0 <= i < p.video.len() && start == (#[trigger] p.video[i]).timeline_start
            + p.video[i].source_out - p.video[i].source_in + gap_ns
    ||| exists|i: int|
        0 <= i < p.titles.len() && start == (#[trigger] p.titles[i]).timeline_start
            + p.titles[i].source_out - p.titles[i].source_in + gap_ns
}

/// Whether a plan leaves no room but the gaps.
pub open spec fn is_packed(p: PlanView, gap_ns: u64) -> bool {
    &&& follows_on(p, p.cursor, gap_ns)
    &&& forall|i: int|
        0 <= i < p.video.len() ==> follows_on(
            p,
            (#[trigger] p.video[i]).timeline_start as int,
            gap_ns,
        )
    &&& forall|i: int|
        0 <= i < p.titles.len() ==> follows_on(
            p,
            (#[trigger] p.titles[i]).timeline_start as int,
            gap_ns,
        )
}

proof fn lemma_follows_on(p: PlanView, q: PlanView, start: int, gap_ns: u64)
    requires
        follows_on(p, start, gap_ns),
        p.video.len() <= q.video.len(),
        p.titles.len() <= q.titles.len(),
        forall|i: int| 0 <= i < p.video.len() ==> #[trigger] p.video[i] == q.video[i],
        forall|i: int| 0 <= i < p.titles.len() ==> #[trigger] p.titles[i] == q.titles[i],
    ensures
        follows_on(q, start, gap_ns),
{
    if start != 0 {
        if exists|i: int|
            0 <= i < p.video.len() && start == (#[trigger] p.video[i]).timeline_start
                + p.video[i].source_out - p.video[i].source_in + gap_ns {
            let i = choose|i: int|
                0 <= i < p.video.len() && start == (#[trigger] p.video[i]).timeline_start
                    + p.video[i].source_out - p.video[i].source_in + gap_ns;
            assert(q.video[i] == p.video[i]);
        } else {
            let i = choose|i: int|
                0 <= i < p.titles.len() && start == (#[trigger] p.titles[i]).timeline_start
                    + p.titles[i].source_out - p.titles[i].source_in + gap_ns;
            assert(q.titles[i] == p.titles[i]);
        }
    }
}

/// Adds a clip or a card where the plan ends.
proof fn lemma_packed_more(p: PlanView, q: PlanView, c: PlannedView, is_card: bool, gap_ns: u64)
    requires
        is_packed(p, gap_ns),
        0 <= p.cursor <= u64::MAX,
        c.timeline_start == p.cursor,
        q.cursor == p.cursor + c.source_out - c.source_in + gap_ns,
        is_card ==> q.titles == p.titles.push(c) && q.video == p.video,
        !is_card ==> q.video == p.video.push(c) && q.titles == p.titles,
    ensures
        is_packed(q, gap_ns),
{
    lemma_follows_on(p, q, p.cursor, gap_ns);
    assert forall|i: int| 0 <= i < q.video.len() implies follows_on(
        q,
        (#[trigger] q.video[i]).timeline_start as int,
        gap_ns,
    ) by {
        if i < p.video.len() {
            assert(q.video[i] == p.video[i]);
            lemma_follows_on(p, q, p.video[i].timeline_start as int, gap_ns);
        }
    }
    assert forall|i: int| 0 <= i < q.titles.len() implies follows_on(
        q,
        (#[trigger] q.titles[i]).timeline_start as int,
        gap_ns,
    ) by {
        if i < p.titles.len() {
            assert(q.titles[i] == p.titles[i]);
            lemma_follows_on(p, q, p.titles[i].timeline_start as int, gap_ns);
        }
    }
    if is_card {
        assert(q.titles[p.titles.len() as int] == c);
    } else {
        assert(q.video[p.video.len() as int] == c);
    }
}

proof fn lemma_parts_packed(p: PlanView, m: Seq<MappingView>, id: Seq<char>, gap_ns: u64)
    requires
        is_packed(p, gap_ns),
        0 <= p.cursor,
        with_parts(p, m, id, gap_ns).cursor <= u64::MAX,
    ensures
        is_packed(with_parts(p, m, id, gap_ns), gap_ns),
        p.cursor <= with_parts(p, m, id, gap_ns).cursor,
    decreases m.len(),
{
    if m.len() > 0 {
        let f = with_parts(p, m.drop_last(), id, gap_ns);
        let q = with_parts(p, m, id, gap_ns);
        lemma_parts_packed(p, m.drop_last(), id, gap_ns);
        if m.last().source_in_ns < m.last().source_out_ns {
            lemma_packed_more(f, q, video_clip(m.last(), id, f.cursor), false, gap_ns);
        }
    }
}

/// A plan has no room in it but the gaps: whatever it holds begins at the start of the timeline or
/// as soon as something else has ended and the gap is over.
pub proof fn lemma_plan_is_packed(
    script: Script,
    mappings: Seq<MappingView>,
    gap_ns: u64,
    title_ns: u64,
    include_titles: bool,
    n: nat,
)
    requires
        n <= script.scenes@.len(),
        plan_upto(script, mappings, gap_ns, title_ns, include_titles, n).cursor <= u64::MAX,
    ensures
        is_packed(plan_upto(script, mappings, gap_ns, title_ns, include_titles, n), gap_ns),
        0 <= plan_upto(script, mappings, gap_ns, title_ns, include_titles, n).cursor,
    decreases n,
{
    if n > 0 {
        let before = plan_upto(script, mappings, gap_ns, title_ns, include_titles, (n - 1) as nat);
        let q = plan_upto(script, mappings, gap_ns, title_ns, include_titles, n);
        let s = script.scenes@[n - 1];
        let found = best_first(of_scene(mappings, s.id@));
        lemma_scene_adds_time(
            before,
            mappings,
            s.id@,
            s.heading@,
            gap_ns,
            title_ns,
            include_titles,
        );
        lemma_plan_is_packed(
            script,
            mappings,
            gap_ns,
            title_ns,
            include_titles,
            (n - 1) as nat,
        );
        if found.len() > 0 {
            let card = title_card(s.id@, s.heading@, title_ns, before.cursor);
            let titled = if include_titles {
                PlanView {
                    titles: before.titles.push(card),
                    cursor: before.cursor + title_ns + gap_ns,
                    ..before
                }
            } else {
                before
            };
            if include_titles {
                lemma_packed_more(before, titled, card, true, gap_ns);
            }
            if one_source(found) {
                lemma_parts_packed(titled, by_source_in(found), s.id@, gap_ns);
            } else if found[0].source_in_ns < found[0].source_out_ns {
                lemma_packed_more(titled, q, q.video.last(), false, gap_ns);
            }
        }
    }
}

proof fn lemma_parts_add_time(p: PlanView, m: Seq<MappingView>, id: Seq<char>, gap_ns: u64)
    ensures
        p.cursor <= with_parts(p, m, id, gap_ns).cursor,
    decreases m.len(),
{
    if m.len() > 0 {
        lemma_parts_add_time(p, m.drop_last(), id, gap_ns);
    }
}

proof fn lemma_scene_adds_time(
    p: PlanView,
    mappings: Seq<MappingView>,
    id: Seq<char>,
    heading: Seq<char>,
    gap_ns: u64,
    title_ns: u64,
    include_titles: bool,
)
    ensures
        p.cursor <= with_scene(
            p,
            mappings,
            id,
            heading,
            gap_ns,
            title_ns,
            include_titles,
        ).cursor,
{
    let found = best_first(of_scene(mappings, id));
    let titled = if include_titles {
        PlanView {
            titles: p.titles.push(title_card(id, heading, title_ns, p.cursor)),
            cursor: p.cursor + title_ns + gap_ns,
            ..p
        }
    } else {
        p
    };
    lemma_parts_add_time(titled, by_source_in(found), id, gap_ns);
}

} // verus!
