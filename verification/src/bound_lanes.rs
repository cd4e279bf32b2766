//! What bindings refer to, when they set keyframes, and which lanes they drive.

use crate::model::{Clip, ClipMask, MaskShape, MotionTracker, NumericKeyframe, Track, TrackingBinding,
    TrackingSample};
use crate::numbers::Real;
use crate::tracking_bindings::{
    ascending, bound_to, capped, clip_plan, key_times, lane_after, lanes_plan, last_clip,
    last_clip_on, last_tracker, lemma_with_time, linear, mask_plan, own_times, target_times,
    with_samples, with_time, LanesView,
};
use vstd::prelude::*;

verus! {

// ------------------------------------------------------------ what is referred to
/// Whether a clip has an identifier and trackers.
pub open spec fn is_source(c: Clip, id: Seq<char>) -> bool {
    c.id@ == id && c.motion_trackers@.len() > 0
}

/// The clip that an identifier refers to is the last one on a track that has it and has trackers;
/// there is none only where no clip is so.
pub proof fn lemma_last_clip(clips: Seq<Clip>, id: Seq<char>)
    ensures
        match last_clip(clips, id) {
            Some(c) => exists|k: int|
                0 <= k < clips.len() && #[trigger] clips[k] == c && is_source(c, id) && forall|
                    j: int,
                |
                    k < j < clips.len() ==> !is_source(#[trigger] clips[j], id),
            None => forall|k: int| 0 <= k < clips.len() ==> !is_source(#[trigger] clips[k], id),
        },
    decreases clips.len(),
{
    if clips.len() > 0 {
        let front = clips.drop_last();
        if is_source(clips.last(), id) {
            assert(clips[clips.len() - 1] == clips.last());
        } else {
            lemma_last_clip(front, id);
            match last_clip(front, id) {
                Some(c) => {
                    let k = choose|k: int|
                        0 <= k < front.len() && #[trigger] front[k] == c && is_source(c, id)
                            && forall|j: int|
                            k < j < front.len() ==> !is_source(#[trigger] front[j], id);
                    assert(clips[k] == c);
                    assert forall|j: int| k < j < clips.len() implies !is_source(
                        #[trigger] clips[j],
                        id,
                    ) by {
                        if j < front.len() {
                            assert(front[j] == clips[j]);
                        }
                    }
                },
                None => {
                    assert forall|k: int| 0 <= k < clips.len() implies !is_source(
                        #[trigger] clips[k],
                        id,
                    ) by {
                        if k < front.len() {
                            assert(front[k] == clips[k]);
                        }
                    }
                },
            }
        }
    }
}

/// The clip that an identifier refers to stands on one of the tracks; there is none only where no
/// clip on any track has the identifier and trackers. Later tracks come first.
pub proof fn lemma_last_clip_on(tracks: Seq<Track>, id: Seq<char>)
    ensures
        match last_clip_on(tracks, id) {
            Some(c) => exists|t: int|
                0 <= t < tracks.len() && last_clip((#[trigger] tracks[t]).clips@, id) == Some(c)
                    && forall|u: int|
                    t < u < tracks.len() ==> last_clip((#[trigger] tracks[u]).clips@, id) is None,
            None => forall|t: int|
                0 <= t < tracks.len() ==> last_clip((#[trigger] tracks[t]).clips@, id) is None,
        },
    decreases tracks.len(),
{
    if tracks.len() > 0 {
        let front = tracks.drop_last();
        lemma_last_clip_on(front, id);
        assert(tracks[tracks.len() - 1] == tracks.last());
        if last_clip(tracks.last().clips@, id) is None {
            match last_clip_on(front, id) {
                Some(c) => {
                    let t = choose|t: int|
                        0 <= t < front.len() && last_clip((#[trigger] front[t]).clips@, id) == Some(
                            c,
                        ) && forall|u: int|
                            t < u < front.len() ==> last_clip(
                                (#[trigger] front[u]).clips@,
                                id,
                            ) is None;
                    assert(tracks[t] == front[t]);
                    assert forall|u: int| t < u < tracks.len() implies last_clip(
                        (#[trigger] tracks[u]).clips@,
                        id,
                    ) is None by {
                        if u < front.len() {
                            assert(front[u] == tracks[u]);
                        }
                    }
                },
                None => {
                    assert forall|t: int| 0 <= t < tracks.len() implies last_clip(
                        (#[trigger] tracks[t]).clips@,
                        id,
                    ) is None by {
                        if t < front.len() {
                            assert(front[t] == tracks[t]);
                        }
                    }
                },
            }
        }
    }
}

/// The tracker that an identifier refers to is the last that has it.
pub proof fn lemma_last_tracker(trackers: Seq<MotionTracker>, id: Seq<char>)
    ensures
        match last_tracker(trackers, id) {
            Some(t) => t.id@ == id && exists|k: int|
                0 <= k < trackers.len() && #[trigger] trackers[k] == t && forall|j: int|
                    k < j < trackers.len() ==> (#[trigger] trackers[j]).id@ != id,
            None => forall|k: int| 0 <= k < trackers.len() ==> (#[trigger] trackers[k]).id@ != id,
        },
    decreases trackers.len(),
{
    if trackers.len() > 0 {
        let front = trackers.drop_last();
        if trackers.last().id@ == id {
            assert(trackers[trackers.len() - 1] == trackers.last());
        } else {
            lemma_last_tracker(front, id);
            match last_tracker(front, id) {
                Some(t) => {
                    let k = choose|k: int|
                        0 <= k < front.len() && #[trigger] front[k] == t && forall|j: int|
                            k < j < front.len() ==> (#[trigger] front[j]).id@ != id;
                    assert(trackers[k] == t);
                    assert forall|j: int| k < j < trackers.len() implies (
                    #[trigger] trackers[j]).id@ != id by {
                        if j < front.len() {
                            assert(front[j] == trackers[j]);
                        }
                    }
                },
                None => {
                    assert forall|k: int| 0 <= k < trackers.len() implies (
                    #[trigger] trackers[k]).id@ != id by {
                        if k < front.len() {
                            assert(front[k] == trackers[k]);
                        }
                    }
                },
            }
        }
    }
}

/// A binding refers to an enabled tracker that it names, on a clip that it names, and to where that
/// clip begins.
pub proof fn lemma_bound_to(tracks: Seq<Track>, b: TrackingBinding)
    ensures
        bound_to(tracks, b) matches Some((start, tracker)) ==> tracker.enabled && tracker.id@
            == b.tracker_id@ && exists|t: int, k: int|
            #![trigger tracks[t].clips@[k]]
            0 <= t < tracks.len() && 0 <= k < tracks[t].clips@.len() && tracks[t].clips@[k].id@
                == b.source_clip_id@ && tracks[t].clips@[k].timeline_start == start
                && tracks[t].clips@[k].motion_trackers@.contains(tracker),
{
    if let Some((start, tracker)) = bound_to(tracks, b) {
        let id = b.source_clip_id@;
        lemma_last_clip_on(tracks, id);
        let c = last_clip_on(tracks, id)->Some_0;
        let t = choose|t: int|
            0 <= t < tracks.len() && last_clip((#[trigger] tracks[t]).clips@, id) == Some(c)
                && forall|u: int|
                t < u < tracks.len() ==> last_clip((#[trigger] tracks[u]).clips@, id) is None;
        let clips = tracks[t].clips@;
        lemma_last_clip(clips, id);
        let k = choose|k: int|
            0 <= k < clips.len() && #[trigger] clips[k] == c && is_source(c, id) && forall|j: int|
                k < j < clips.len() ==> !is_source(#[trigger] clips[j], id);
        lemma_last_tracker(c.motion_trackers@, b.tracker_id@);
        assert(tracks[t].clips@[k] == c);
        let x = choose|x: int|
            0 <= x < c.motion_trackers@.len() && #[trigger] c.motion_trackers@[x] == tracker
                && forall|j: int|
                x < j < c.motion_trackers@.len() ==> (#[trigger] c.motion_trackers@[j]).id@
                    != b.tracker_id@;
        assert(c.motion_trackers@[x] == tracker);
        assert(c.motion_trackers@.contains(tracker));
    }
}

// --------------------------------------------------------------------- times
/// Whether a time is that of a keyframe, brought within a target.
pub open spec fn is_kept_time(duration: u64, existing: Seq<u64>, n: int, t: u64) -> bool {
    exists|k: int|
        0 <= k < n && t == (if (#[trigger] existing[k]) < duration {
            existing[k]
        } else {
            duration
        })
}

/// Whether a time in a target is that of a sample, counted from where the source begins.
pub open spec fn is_sample_time(
    start: u64,
    duration: u64,
    source_start: u64,
    samples: Seq<TrackingSample>,
    n: int,
    t: u64,
) -> bool {
    exists|k: int|
        0 <= k < n && 0 < source_start + (#[trigger] samples[k]).time_ns - start < duration && t
            == source_start + samples[k].time_ns - start
}

proof fn lemma_own_times(duration: u64, existing: Seq<u64>, n: nat, t: u64)
    requires
        n <= existing.len(),
    ensures
        ascending(own_times(duration, existing, n)),
        own_times(duration, existing, n).contains(t) <==> t == 0 || t == duration || is_kept_time(
            duration,
            existing,
            n as int,
            t,
        ),
    decreases n,
{
    if n == 0 {
        lemma_with_time(Seq::empty(), 0);
        lemma_with_time(with_time(Seq::empty(), 0), duration);
    } else {
        let m = (n - 1) as nat;
        let e = existing[n - 1];
        let x = if e < duration {
            e
        } else {
            duration
        };
        lemma_own_times(duration, existing, m, t);
        lemma_with_time(own_times(duration, existing, m), x);
        if is_kept_time(duration, existing, m as int, t) {
            let k = choose|k: int|
                0 <= k < m && t == (if (#[trigger] existing[k]) < duration {
                    existing[k]
                } else {
                    duration
                });
            assert(existing[k] == existing[k]);
            assert(is_kept_time(duration, existing, n as int, t));
        }
        if t == x {
            assert(existing[n - 1] == e);
            assert(is_kept_time(duration, existing, n as int, t));
        }
        if is_kept_time(duration, existing, n as int, t) && t != x {
            let k = choose|k: int|
                0 <= k < n && t == (if (#[trigger] existing[k]) < duration {
                    existing[k]
                } else {
                    duration
                });
            assert(k < m);
            assert(is_kept_time(duration, existing, m as int, t));
        }
    }
}

proof fn lemma_with_samples(
    times: Seq<u64>,
    start: u64,
    duration: u64,
    source_start: u64,
    samples: Seq<TrackingSample>,
    n: nat,
    t: u64,
)
    requires
        n <= samples.len(),
        ascending(times),
        start + duration <= u64::MAX,
        forall|k: int|
            0 <= k < samples.len() ==> source_start + (#[trigger] samples[k]).time_ns <= u64::MAX,
    ensures
        ({
            let r = with_samples(times, start, (start + duration) as u64, source_start, samples, n);
            &&& ascending(r)
            &&& r.contains(t) <==> times.contains(t) || is_sample_time(
                start,
                duration,
                source_start,
                samples,
                n as int,
                t,
            )
        }),
    decreases n,
{
    if n > 0 {
        let m = (n - 1) as nat;
        let end = (start + duration) as u64;
        let front = with_samples(times, start, end, source_start, samples, m);
        lemma_with_samples(times, start, duration, source_start, samples, m, t);
        let s = samples[n - 1];
        assert(source_start + s.time_ns <= u64::MAX);
        let at = capped(source_start, s.time_ns);
        assert(at == source_start + s.time_ns);
        let own = 0 < source_start + s.time_ns - start < duration;
        if own {
            lemma_with_time(front, (at - start) as u64);
        }
        if is_sample_time(start, duration, source_start, samples, m as int, t) {
            let k = choose|k: int|
                0 <= k < m && 0 < source_start + (#[trigger] samples[k]).time_ns - start < duration
                    && t == source_start + samples[k].time_ns - start;
            assert(samples[k] == samples[k]);
            assert(is_sample_time(start, duration, source_start, samples, n as int, t));
        }
        if own && t == at - start {
            assert(samples[n - 1] == s);
            assert(is_sample_time(start, duration, source_start, samples, n as int, t));
        }
        if is_sample_time(start, duration, source_start, samples, n as int, t) && !(own && t == at
            - start) {
            let k = choose|k: int|
                0 <= k < n && 0 < source_start + (#[trigger] samples[k]).time_ns - start < duration
                    && t == source_start + samples[k].time_ns - start;
            assert(k < m);
            assert(is_sample_time(start, duration, source_start, samples, m as int, t));
        }
    }
}

/// The keyframes of a target are set at its ends, at the times of its keyframes, and at each sample
/// that falls within it, counted from where the source begins on the timeline; at no other time, and
/// once each.
pub proof fn lemma_times_of_target(
    start: u64,
    duration: u64,
    source_start: u64,
    samples: Seq<TrackingSample>,
    existing: Seq<u64>,
    t: u64,
)
    requires
        start + duration <= u64::MAX,
        forall|k: int|
            0 <= k < samples.len() ==> source_start + (#[trigger] samples[k]).time_ns <= u64::MAX,
    ensures
        ascending(target_times(start, duration, source_start, samples, existing)),
        target_times(start, duration, source_start, samples, existing).contains(t) <==> t == 0 || t
            == duration || is_kept_time(duration, existing, existing.len() as int, t)
            || is_sample_time(start, duration, source_start, samples, samples.len() as int, t),
{
    lemma_own_times(duration, existing, existing.len(), t);
    lemma_with_samples(
        own_times(duration, existing, existing.len()),
        start,
        duration,
        source_start,
        samples,
        samples.len(),
        t,
    );
}

// --------------------------------------------------------------------- lanes
/// A binding whose tracker has samples drives the lanes that it applies to, and no others: each at
/// the times of the samples and of that lane's own keyframes.
pub proof fn lemma_lanes_that_are_driven(
    tracks: Seq<Track>,
    b: TrackingBinding,
    start: u64,
    duration: u64,
    l: LanesView,
)
    requires
        bound_to(tracks, b) is Some,
        bound_to(tracks, b)->Some_0.1.samples@.len() > 0,
    ensures
        ({
            let (source_start, t) = bound_to(tracks, b)->Some_0;
            let p = lanes_plan(tracks, b, start, duration, l);
            &&& p.translation is Some <==> b.apply_translation
            &&& p.scale is Some <==> b.apply_scale
            &&& p.second_scale is Some <==> b.apply_scale && l.second_scale is Some
            &&& p.rotation is Some <==> b.apply_rotation
            &&& p.translation matches Some(x) ==> x == target_times(
                start,
                duration,
                source_start,
                t.samples@,
                key_times(l.x) + key_times(l.y),
            )
            &&& p.scale matches Some(x) ==> x == target_times(
                start,
                duration,
                source_start,
                t.samples@,
                key_times(l.scale),
            )
            &&& p.rotation matches Some(x) ==> x == target_times(
                start,
                duration,
                source_start,
                t.samples@,
                key_times(l.rotation),
            )
        }),
{
}

/// A binding that refers to nothing, or a target without a binding, leaves the lanes alone; so does
/// the binding of a mask that is drawn as a path.
pub proof fn lemma_lanes_left_alone(tracks: Seq<Track>, c: Clip, m: ClipMask, duration: u64)
    ensures
        c.tracking_binding is None || bound_to(tracks, c.tracking_binding->Some_0) is None ==> ({
            let p = clip_plan(tracks, c);
            p.translation is None && p.scale is None && p.second_scale is None && p.rotation is None
        }),
        m.tracking_binding is None || bound_to(tracks, m.tracking_binding->Some_0) is None
            || m.shape == MaskShape::Path ==> ({
            let p = mask_plan(tracks, c.timeline_start, duration, m);
            p.translation is None && p.scale is None && p.second_scale is None && p.rotation is None
        }),
{
}

/// A lane that is driven has a keyframe for each time, with the value for that time; one that is not
/// stays as it was.
pub proof fn lemma_lane_after(
    before: Seq<NumericKeyframe>,
    times: Seq<u64>,
    values: Seq<Real>,
    i: int,
)
    requires
        0 <= i < times.len(),
        values.len() == times.len(),
    ensures
        lane_after(before, Some(times), values).len() == times.len(),
        lane_after(before, Some(times), values)[i].time_ns == times[i],
        lane_after(before, Some(times), values)[i].value == values[i],
        lane_after(before, None, values) == before,
        key_times(lane_after(before, Some(times), values)) == times,
{
    assert(key_times(linear(times, values)) =~= times);
}

/// A binding to a tracker without samples drives a lane only where it applies to it and would change
/// it: where it has an offset, another scale or a turn.
pub proof fn lemma_lanes_without_samples(
    tracks: Seq<Track>,
    b: TrackingBinding,
    start: u64,
    duration: u64,
    l: LanesView,
)
    requires
        bound_to(tracks, b) is Some,
        bound_to(tracks, b)->Some_0.1.samples@.len() == 0,
    ensures
        ({
            let p = lanes_plan(tracks, b, start, duration, l);
            &&& p.translation is Some <==> b.apply_translation && !(b.offset_x.is_negligible()
                && b.offset_y.is_negligible())
            &&& p.scale is Some <==> b.apply_scale && !b.scale_multiplier.is_unit()
            &&& p.rotation is Some <==> b.apply_rotation && !b.rotation_offset_deg.is_negligible()
        }),
{
}

/// A mask is driven in its own lanes: its centre by the two of position, its width and height by the
/// two of scale; a clip has one of scale.
pub proof fn lemma_lanes_of_targets(tracks: Seq<Track>, c: Clip, m: ClipMask, b: TrackingBinding)
    requires
        bound_to(tracks, b) is Some,
        bound_to(tracks, b)->Some_0.1.samples@.len() > 0,
        m.shape != MaskShape::Path,
        m.tracking_binding == Some(b),
        c.tracking_binding == Some(b),
    ensures
        ({
            let (source_start, t) = bound_to(tracks, b)->Some_0;
            let p = mask_plan(tracks, c.timeline_start, c.duration_spec(), m);
            let q = clip_plan(tracks, c);
            let at = |k: Seq<NumericKeyframe>|
                target_times(
                    c.timeline_start,
                    c.duration_spec(),
                    source_start,
                    t.samples@,
                    key_times(k),
                );
            &&& b.apply_scale ==> p.scale == Some(at(m.width_keyframes@)) && p.second_scale
                == Some(at(m.height_keyframes@)) && q.scale == Some(at(c.scale_keyframes@))
                && q.second_scale is None
            &&& b.apply_rotation ==> p.rotation == Some(at(m.rotation_keyframes@)) && q.rotation
                == Some(at(c.rotate_keyframes@))
            &&& b.apply_translation ==> p.translation == Some(
                target_times(
                    c.timeline_start,
                    c.duration_spec(),
                    source_start,
                    t.samples@,
                    key_times(m.center_x_keyframes@) + key_times(m.center_y_keyframes@),
                ),
            )
        }),
{
}

} // verus!
