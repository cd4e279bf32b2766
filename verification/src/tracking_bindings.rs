//! Motion tracking applied to clips and masks.
//!
//! A binding ties a clip or a mask to a tracker of another clip. Here it is found out which lanes
//! a binding drives and at which times it sets keyframes; the values at those times are computed
//! by the caller and put in.

use crate::model::{
    Clip, ClipMask, KeyframeInterpolation, MaskShape, MotionTracker, NumericKeyframe, Track,
    TrackingBinding, TrackingSample,
};
use crate::numbers::Real;
use crate::text::same;
use vstd::prelude::*;

verus! {

/// What the player holds of a clip that a binding can drive.
#[derive(Debug)]
pub struct ProgramClip {
    pub timeline_start_ns: u64,
    pub source_duration_ns: u64,
    pub position_x_keyframes: Vec<NumericKeyframe>,
    pub position_y_keyframes: Vec<NumericKeyframe>,
    pub scale_keyframes: Vec<NumericKeyframe>,
    pub rotate_keyframes: Vec<NumericKeyframe>,
    pub tracking_binding: Option<TrackingBinding>,
    pub masks: Vec<ClipMask>,
}

// ------------------------------------------------------------------- sources
/// The last of the clips that has an id and trackers.
pub open spec fn last_clip(clips: Seq<Clip>, id: Seq<char>) -> Option<Clip>
    decreases clips.len(),
{
    if clips.len() == 0 {
        None
    } else if clips.last().id@ == id && clips.last().motion_trackers@.len() > 0 {
        Some(clips.last())
    } else {
        last_clip(clips.drop_last(), id)
    }
}

/// The last clip on the tracks that has an id and trackers.
pub open spec fn last_clip_on(tracks: Seq<Track>, id: Seq<char>) -> Option<Clip>
    decreases tracks.len(),
{
    if tracks.len() == 0 {
        None
    } else {
        match last_clip(tracks.last().clips@, id) {
            Some(c) => Some(c),
            None => last_clip_on(tracks.drop_last(), id),
        }
    }
}

/// The last of the trackers that has an id.
pub open spec fn last_tracker(trackers: Seq<MotionTracker>, id: Seq<char>) -> Option<MotionTracker>
    decreases trackers.len(),
{
    if trackers.len() == 0 {
        None
    } else if trackers.last().id@ == id {
        Some(trackers.last())
    } else {
        last_tracker(trackers.drop_last(), id)
    }
}

/// What a binding refers to: where the source clip starts, and its tracker, where that is enabled.
pub open spec fn bound_to(tracks: Seq<Track>, b: TrackingBinding) -> Option<(u64, MotionTracker)> {
    match last_clip_on(tracks, b.source_clip_id@) {
        Some(c) => match last_tracker(c.motion_trackers@, b.tracker_id@) {
            Some(t) => if t.enabled {
                Some((c.timeline_start, t))
            } else {
                None
            },
            None => None,
        },
        None => None,
    }
}

fn find_clip<'a>(clips: &'a Vec<Clip>, id: &str) -> (r: Option<&'a Clip>)
    ensures
        match r {
            Some(c) => last_clip(clips@, id@) == Some(*c),
            None => last_clip(clips@, id@) is None,
        },
{
    let mut n: usize = clips.len();
    proof {
        assert(clips@.subrange(0, n as int) =~= clips@);
    }
    while n > 0
        invariant
            n <= clips@.len(),
            last_clip(clips@, id@) == last_clip(clips@.subrange(0, n as int), id@),
        decreases n,
    {
        proof {
            assert(clips@.subrange(0, n as int).drop_last() =~= clips@.subrange(0, n - 1));
            assert(clips@.subrange(0, n as int).last() == clips@[n - 1]);
        }
        if same(&clips[n - 1].id, id) && clips[n - 1].motion_trackers.len() > 0 {
            return Some(&clips[n - 1]);
        }
        n = n - 1;
    }
    None
}

fn find_clip_on<'a>(tracks: &'a Vec<Track>, id: &str) -> (r: Option<&'a Clip>)
    ensures
        match r {
            Some(c) => last_clip_on(tracks@, id@) == Some(*c),
            None => last_clip_on(tracks@, id@) is None,
        },
{
    let mut n: usize = tracks.len();
    proof {
        assert(tracks@.subrange(0, n as int) =~= tracks@);
    }
    while n > 0
        invariant
            n <= tracks@.len(),
            last_clip_on(tracks@, id@) == last_clip_on(tracks@.subrange(0, n as int), id@),
        decreases n,
    {
        proof {
            assert(tracks@.subrange(0, n as int).drop_last() =~= tracks@.subrange(0, n - 1));
            assert(tracks@.subrange(0, n as int).last() == tracks@[n - 1]);
        }
        if let Some(c) = find_clip(&tracks[n - 1].clips, id) {
            return Some(c);
        }
        n = n - 1;
    }
    None
}

fn find_tracker<'a>(trackers: &'a Vec<MotionTracker>, id: &str) -> (r: Option<&'a MotionTracker>)
    ensures
        match r {
            Some(t) => last_tracker(trackers@, id@) == Some(*t),
            None => last_tracker(trackers@, id@) is None,
        },
{
    let mut n: usize = trackers.len();
    proof {
        assert(trackers@.subrange(0, n as int) =~= trackers@);
    }
    while n > 0
        invariant
            n <= trackers@.len(),
            last_tracker(trackers@, id@) == last_tracker(trackers@.subrange(0, n as int), id@),
        decreases n,
    {
        proof {
            assert(trackers@.subrange(0, n as int).drop_last() =~= trackers@.subrange(0, n - 1));
            assert(trackers@.subrange(0, n as int).last() == trackers@[n - 1]);
        }
        if same(&trackers[n - 1].id, id) {
            return Some(&trackers[n - 1]);
        }
        n = n - 1;
    }
    None
}

/// What a binding refers to.
pub fn binding_source<'a>(binding: &TrackingBinding, tracks: &'a Vec<Track>) -> (r: Option<
    (u64, &'a MotionTracker),
>)
    ensures
        match r {
            Some(s) => bound_to(tracks@, *binding) == Some((s.0, *s.1)),
            None => bound_to(tracks@, *binding) is None,
        },
{
    match find_clip_on(tracks, &binding.source_clip_id) {
        Some(c) => match find_tracker(&c.motion_trackers, &binding.tracker_id) {
            Some(t) => if t.enabled {
                Some((c.timeline_start, t))
            } else {
                None
            },
            None => None,
        },
        None => None,
    }
}

// --------------------------------------------------------------------- times
/// Ascending times with one more among them.
pub open spec fn with_time(times: Seq<u64>, t: u64) -> Seq<u64>
    decreases times.len(),
{
    if times.len() == 0 {
        seq![t]
    } else if times.last() == t {
        times
    } else if times.last() < t {
        times.push(t)
    } else {
        with_time(times.drop_last(), t).push(times.last())
    }
}

/// Adds a time to ascending times.
fn add_time(times: &mut Vec<u64>, t: u64)
    ensures
        final(times)@ == with_time(old(times)@, t),
{
    let ghost s = times@;
    let mut n: usize = times.len();
    proof {
        assert(s.subrange(0, n as int) =~= s);
        assert(with_time(s, t) =~= with_time(s.subrange(0, n as int), t) + s.subrange(
            n as int,
            s.len() as int,
        ));
    }
    while n > 0 && times[n - 1] > t
        invariant
            times@ == s,
            n <= s.len(),
            with_time(s, t) == with_time(s.subrange(0, n as int), t) + s.subrange(
                n as int,
                s.len() as int,
            ),
        decreases n,
    {
        proof {
            let head = s.subrange(0, n as int);
            assert(head.drop_last() =~= s.subrange(0, n - 1));
            assert(with_time(head.drop_last(), t).push(head.last()) + s.subrange(
                n as int,
                s.len() as int,
            ) =~= with_time(s.subrange(0, n - 1), t) + s.subrange(n - 1, s.len() as int));
        }
        n = n - 1;
    }
    let ghost head = s.subrange(0, n as int);
    if n > 0 && times[n - 1] == t {
        proof {
            assert(head.last() == t);
            assert(head + s.subrange(n as int, s.len() as int) =~= s);
        }
        return;
    }
    times.insert(n, t);
    proof {
        if n > 0 {
            assert(head.last() < t);
            assert(head.push(t) + s.subrange(n as int, s.len() as int) =~= s.insert(n as int, t));
        } else {
            assert(head =~= Seq::empty());
            assert(seq![t] + s.subrange(0, s.len() as int) =~= s.insert(0, t));
        }
    }
}

/// Times strictly ascending.
pub open spec fn ascending(times: Seq<u64>) -> bool {
    forall|i: int, j: int| 0 <= i < j < times.len() ==> times[i] < times[j]
}

/// Adding a time keeps times ascending and adds nothing else.
pub proof fn lemma_with_time(times: Seq<u64>, t: u64)
    requires
        ascending(times),
    ensures
        ascending(with_time(times, t)),
        forall|x: u64| #[trigger]
            with_time(times, t).contains(x) <==> times.contains(x) || x == t,
    decreases times.len(),
{
    let r = with_time(times, t);
    if times.len() == 0 {
        assert(r[0] == t);
    } else if times.last() == t {
        assert(times[times.len() - 1] == t);
    } else if times.last() < t {
        assert(r[times.len() as int] == t);
        assert forall|x: u64| #[trigger] r.contains(x) <==> times.contains(x) || x == t by {
            if times.contains(x) {
                let k = choose|k: int| 0 <= k < times.len() && times[k] == x;
                assert(r[k] == x);
            }
            if r.contains(x) && x != t {
                let k = choose|k: int| 0 <= k < r.len() && r[k] == x;
                assert(times[k] == x);
            }
        }
    } else {
        let front = times.drop_last();
        let inner = with_time(front, t);
        lemma_with_time(front, t);
        assert(r == inner.push(times.last()));
        assert forall|x: u64| #[trigger] r.contains(x) <==> times.contains(x) || x == t by {
            assert(inner.contains(x) <==> front.contains(x) || x == t);
            if front.contains(x) {
                let k = choose|k: int| 0 <= k < front.len() && front[k] == x;
                assert(times[k] == x);
            }
            if times.contains(x) {
                let k = choose|k: int| 0 <= k < times.len() && times[k] == x;
                if k < front.len() {
                    assert(front[k] == x);
                } else {
                    assert(r[inner.len() as int] == x);
                }
            }
            if inner.contains(x) {
                let k = choose|k: int| 0 <= k < inner.len() && inner[k] == x;
                assert(r[k] == x);
            }
            if r.contains(x) {
                let k = choose|k: int| 0 <= k < r.len() && r[k] == x;
                if k < inner.len() {
                    assert(inner[k] == x);
                } else {
                    assert(times[times.len() - 1] == x);
                }
            }
        }
        assert forall|i: int, j: int| 0 <= i < j < r.len() implies r[i] < r[j] by {
            if j == inner.len() {
                assert(inner.contains(inner[i]));
                if front.contains(inner[i]) {
                    let k = choose|k: int| 0 <= k < front.len() && front[k] == inner[i];
                    assert(times[k] < times[times.len() - 1]);
                }
            }
        }
    }
}

/// `a` and `b` together, capped at the largest number.
pub open spec fn capped(a: u64, b: u64) -> u64 {
    if a + b > u64::MAX {
        u64::MAX
    } else {
        (a + b) as u64
    }
}

/// `a` less `b`, at least zero.
pub open spec fn less(a: u64, b: u64) -> u64 {
    if a < b {
        0
    } else {
        (a - b) as u64
    }
}

/// The ends of a clip and the times of the first `n` keyframes, brought within the clip.
pub open spec fn own_times(duration: u64, existing: Seq<u64>, n: nat) -> Seq<u64>
    decreases n,
{
    if n == 0 {
        with_time(with_time(Seq::empty(), 0), duration)
    } else {
        let t = existing[n - 1];
        with_time(
            own_times(duration, existing, (n - 1) as nat),
            if t < duration {
                t
            } else {
                duration
            },
        )
    }
}

/// `times` with the first `n` samples that fall strictly within the target, in its time.
pub open spec fn with_samples(
    times: Seq<u64>,
    start: u64,
    end: u64,
    source_start: u64,
    samples: Seq<TrackingSample>,
    n: nat,
) -> Seq<u64>
    decreases n,
{
    if n == 0 {
        times
    } else {
        let front = with_samples(times, start, end, source_start, samples, (n - 1) as nat);
        let at = capped(source_start, samples[n - 1].time_ns);
        if at <= start || at >= end {
            front
        } else {
            with_time(front, less(at, start))
        }
    }
}

/// The times in a target at which its keyframes are set: its ends, those of its keyframes, and
/// those of the samples that fall within it.
pub open spec fn target_times(
    start: u64,
    duration: u64,
    source_start: u64,
    samples: Seq<TrackingSample>,
    existing: Seq<u64>,
) -> Seq<u64> {
    with_samples(
        own_times(duration, existing, existing.len()),
        start,
        capped(start, duration),
        source_start,
        samples,
        samples.len(),
    )
}

/// The times in a target at which its keyframes are set.
pub fn collect_target_local_times(
    target_timeline_start_ns: u64,
    target_duration_ns: u64,
    source_start_ns: u64,
    samples: &Vec<TrackingSample>,
    existing_times: &Vec<u64>,
) -> (r: Vec<u64>)
    ensures
        r@ == target_times(
            target_timeline_start_ns,
            target_duration_ns,
            source_start_ns,
            samples@,
            existing_times@,
        ),
{
    let end: u64 = if target_duration_ns > u64::MAX - target_timeline_start_ns {
        u64::MAX
    } else {
        target_timeline_start_ns + target_duration_ns
    };
    let mut times: Vec<u64> = Vec::new();
    proof {
        assert(times@ =~= Seq::empty());
    }
    add_time(&mut times, 0);
    add_time(&mut times, target_duration_ns);
    let mut i: usize = 0;
    while i < existing_times.len()
        invariant
            i <= existing_times@.len(),
            times@ == own_times(target_duration_ns, existing_times@, i as nat),
        decreases existing_times.len() - i,
    {
        let t: u64 = existing_times[i];
        add_time(
            &mut times,
            if t < target_duration_ns {
                t
            } else {
                target_duration_ns
            },
        );
        i = i + 1;
    }
    let ghost first = times@;
    let mut k: usize = 0;
    while k < samples.len()
        invariant
            k <= samples@.len(),
            end == capped(target_timeline_start_ns, target_duration_ns),
            times@ == with_samples(
                first,
                target_timeline_start_ns,
                end,
                source_start_ns,
                samples@,
                k as nat,
            ),
        decreases samples.len() - k,
    {
        let at: u64 = if samples[k].time_ns > u64::MAX - source_start_ns {
            u64::MAX
        } else {
            source_start_ns + samples[k].time_ns
        };
        if !(at <= target_timeline_start_ns || at >= end) {
            add_time(&mut times, at - target_timeline_start_ns);
        }
        k = k + 1;
    }
    times
}

proof fn lemma_own_times(duration: u64, existing: Seq<u64>, n: nat)
    requires
        n <= existing.len(),
    ensures
        ascending(own_times(duration, existing, n)),
        own_times(duration, existing, n).contains(0),
        own_times(duration, existing, n).contains(duration),
        forall|i: int|
            0 <= i < own_times(duration, existing, n).len() ==> #[trigger] own_times(
                duration,
                existing,
                n,
            )[i] <= duration,
    decreases n,
{
    let r = own_times(duration, existing, n);
    if n == 0 {
        lemma_with_time(Seq::empty(), 0);
        lemma_with_time(with_time(Seq::empty(), 0), duration);
        assert forall|i: int| 0 <= i < r.len() implies #[trigger] r[i] <= duration by {
            assert(r.contains(r[i]));
            if with_time(Seq::empty(), 0).contains(r[i]) {
                assert(Seq::<u64>::empty().contains(r[i]) || r[i] == 0);
            }
        }
    } else {
        let front = own_times(duration, existing, (n - 1) as nat);
        let t = if existing[n - 1] < duration {
            existing[n - 1]
        } else {
            duration
        };
        lemma_own_times(duration, existing, (n - 1) as nat);
        lemma_with_time(front, t);
        assert forall|i: int| 0 <= i < r.len() implies #[trigger] r[i] <= duration by {
            assert(r.contains(r[i]));
            if front.contains(r[i]) {
                let k = choose|k: int| 0 <= k < front.len() && front[k] == r[i];
            }
        }
    }
}

proof fn lemma_with_samples(
    times: Seq<u64>,
    start: u64,
    duration: u64,
    source_start: u64,
    samples: Seq<TrackingSample>,
    n: nat,
)
    requires
        ascending(times),
        times.contains(0),
        times.contains(duration),
        forall|i: int| 0 <= i < times.len() ==> #[trigger] times[i] <= duration,
        n <= samples.len(),
    ensures
        ({
            let r = with_samples(times, start, capped(start, duration), source_start, samples, n);
            &&& ascending(r)
            &&& r.contains(0)
            &&& r.contains(duration)
            &&& forall|i: int| 0 <= i < r.len() ==> #[trigger] r[i] <= duration
        }),
    decreases n,
{
    if n > 0 {
        let end = capped(start, duration);
        let front = with_samples(times, start, end, source_start, samples, (n - 1) as nat);
        let r = with_samples(times, start, end, source_start, samples, n);
        let at = capped(source_start, samples[n - 1].time_ns);
        lemma_with_samples(times, start, duration, source_start, samples, (n - 1) as nat);
        lemma_with_time(front, less(at, start));
        assert forall|i: int| 0 <= i < r.len() implies #[trigger] r[i] <= duration by {
            assert(r.contains(r[i]));
            if front.contains(r[i]) {
                let k = choose|k: int| 0 <= k < front.len() && front[k] == r[i];
            }
        }
    }
}

/// The keyframes of a target have ascending times within it, with one at each end.
pub proof fn lemma_target_times(
    start: u64,
    duration: u64,
    source_start: u64,
    samples: Seq<TrackingSample>,
    existing: Seq<u64>,
)
    ensures
        ({
            let r = target_times(start, duration, source_start, samples, existing);
            &&& ascending(r)
            &&& r.contains(0)
            &&& r.contains(duration)
            &&& forall|i: int| 0 <= i < r.len() ==> #[trigger] r[i] <= duration
        }),
{
    lemma_own_times(duration, existing, existing.len());
    lemma_with_samples(
        own_times(duration, existing, existing.len()),
        start,
        duration,
        source_start,
        samples,
        samples.len(),
    );
}

// --------------------------------------------------------------------- plans
/// The times of keyframes.
pub open spec fn key_times(k: Seq<NumericKeyframe>) -> Seq<u64> {
    k.map_values(|x: NumericKeyframe| x.time_ns)
}

fn push_key_times(times: &mut Vec<u64>, k: &Vec<NumericKeyframe>)
    ensures
        final(times)@ == old(times)@ + key_times(k@),
{
    let ghost before = times@;
    let mut i: usize = 0;
    proof {
        assert(before + key_times(k@.subrange(0, 0)) =~= before);
    }
    while i < k.len()
        invariant
            i <= k@.len(),
            times@ == before + key_times(k@.subrange(0, i as int)),
        decreases k.len() - i,
    {
        times.push(k[i].time_ns);
        proof {
            assert(times@ =~= before + key_times(k@.subrange(0, i + 1)));
        }
        i = i + 1;
    }
    proof {
        assert(k@.subrange(0, i as int) =~= k@);
    }
}

/// Whether a binding moves its target.
pub open spec fn moves(b: TrackingBinding, t: MotionTracker) -> bool {
    b.apply_translation && !(t.samples@.len() == 0 && b.offset_x.is_negligible()
        && b.offset_y.is_negligible())
}

/// Whether a binding scales its target.
pub open spec fn scales(b: TrackingBinding, t: MotionTracker) -> bool {
    b.apply_scale && !(t.samples@.len() == 0 && b.scale_multiplier.is_unit())
}

/// Whether a binding turns its target.
pub open spec fn turns(b: TrackingBinding, t: MotionTracker) -> bool {
    b.apply_rotation && !(t.samples@.len() == 0 && b.rotation_offset_deg.is_negligible())
}

/// The times at which a binding sets keyframes in the lanes of its target, for each lane that it
/// drives. Masks have two extents, clips one scale.
#[derive(Debug)]
pub struct LanePlan {
    pub translation: Option<Vec<u64>>,
    pub scale: Option<Vec<u64>>,
    pub second_scale: Option<Vec<u64>>,
    pub rotation: Option<Vec<u64>>,
}

/// The times of a plan.
pub struct LanePlanView {
    pub translation: Option<Seq<u64>>,
    pub scale: Option<Seq<u64>>,
    pub second_scale: Option<Seq<u64>>,
    pub rotation: Option<Seq<u64>>,
}

/// The times in an optional list.
pub open spec fn times_in(t: Option<Vec<u64>>) -> Option<Seq<u64>> {
    match t {
        Some(v) => Some(v@),
        None => None,
    }
}

impl LanePlan {
    pub open spec fn view(&self) -> LanePlanView {
        LanePlanView {
            translation: times_in(self.translation),
            scale: times_in(self.scale),
            second_scale: times_in(self.second_scale),
            rotation: times_in(self.rotation),
        }
    }

    fn none() -> (r: LanePlan)
        ensures
            r@ == no_plan(),
    {
        LanePlan { translation: None, scale: None, second_scale: None, rotation: None }
    }
}

/// A plan that sets nothing.
pub open spec fn no_plan() -> LanePlanView {
    LanePlanView { translation: None, scale: None, second_scale: None, rotation: None }
}

/// What the lanes of a target hold: two of position, one or two of scale, one of rotation.
pub struct LanesView {
    pub x: Seq<NumericKeyframe>,
    pub y: Seq<NumericKeyframe>,
    pub scale: Seq<NumericKeyframe>,
    pub second_scale: Option<Seq<NumericKeyframe>>,
    pub rotation: Seq<NumericKeyframe>,
}

/// The plan of a binding for a target with these lanes.
pub open spec fn lanes_plan(
    tracks: Seq<Track>,
    b: TrackingBinding,
    start: u64,
    duration: u64,
    l: LanesView,
) -> LanePlanView {
    match bound_to(tracks, b) {
        Some(s) => LanePlanView {
            translation: if moves(b, s.1) {
                Some(
                    target_times(start, duration, s.0, s.1.samples@, key_times(l.x) + key_times(l.y)),
                )
            } else {
                None
            },
            scale: if scales(b, s.1) {
                Some(target_times(start, duration, s.0, s.1.samples@, key_times(l.scale)))
            } else {
                None
            },
            second_scale: match l.second_scale {
                Some(h) => if scales(b, s.1) {
                    Some(target_times(start, duration, s.0, s.1.samples@, key_times(h)))
                } else {
                    None
                },
                None => None,
            },
            rotation: if turns(b, s.1) {
                Some(target_times(start, duration, s.0, s.1.samples@, key_times(l.rotation)))
            } else {
                None
            },
        },
        None => no_plan(),
    }
}

fn lane_times(
    start: u64,
    duration: u64,
    source_start: u64,
    tracker: &MotionTracker,
    a: &Vec<NumericKeyframe>,
) -> (r: Vec<u64>)
    ensures
        r@ == target_times(start, duration, source_start, tracker.samples@, key_times(a@)),
{
    let mut existing: Vec<u64> = Vec::new();
    push_key_times(&mut existing, a);
    proof {
        assert(existing@ =~= key_times(a@));
    }
    collect_target_local_times(start, duration, source_start, &tracker.samples, &existing)
}

fn plan_lanes(
    tracks: &Vec<Track>,
    b: &TrackingBinding,
    start: u64,
    duration: u64,
    x: &Vec<NumericKeyframe>,
    y: &Vec<NumericKeyframe>,
    scale: &Vec<NumericKeyframe>,
    second_scale: Option<&Vec<NumericKeyframe>>,
    rotation: &Vec<NumericKeyframe>,
) -> (r: LanePlan)
    ensures
        r@ == lanes_plan(
            tracks@,
            *b,
            start,
            duration,
            (LanesView {
                x: x@,
                y: y@,
                scale: scale@,
                second_scale: match second_scale {
                    Some(h) => Some(h@),
                    None => None,
                },
                rotation: rotation@,
            }),
        ),
{
    match binding_source(b, tracks) {
        None => LanePlan::none(),
        Some(s) => {
            let bare: bool = s.1.samples.len() == 0;
            let moving: bool = b.apply_translation && !(bare && b.offset_x.negligible()
                && b.offset_y.negligible());
            let scaling: bool = b.apply_scale && !(bare && b.scale_multiplier.unit());
            let turning: bool = b.apply_rotation && !(bare && b.rotation_offset_deg.negligible());
            let mut existing: Vec<u64> = Vec::new();
            push_key_times(&mut existing, x);
            push_key_times(&mut existing, y);
            proof {
                assert(existing@ =~= key_times(x@) + key_times(y@));
            }
            LanePlan {
                translation: if moving {
                    Some(
                        collect_target_local_times(start, duration, s.0, &s.1.samples, &existing),
                    )
                } else {
                    None
                },
                scale: if scaling {
                    Some(lane_times(start, duration, s.0, s.1, scale))
                } else {
                    None
                },
                second_scale: match second_scale {
                    Some(h) => if scaling {
                        Some(lane_times(start, duration, s.0, s.1, h))
                    } else {
                        None
                    },
                    None => None,
                },
                rotation: if turning {
                    Some(lane_times(start, duration, s.0, s.1, rotation))
                } else {
                    None
                },
            }
        },
    }
}

/// The plan for a mask of a clip. Masks drawn as paths are not driven.
pub open spec fn mask_plan(tracks: Seq<Track>, start: u64, duration: u64, m: ClipMask) -> LanePlanView {
    match m.tracking_binding {
        Some(b) => if m.shape == MaskShape::Path {
            no_plan()
        } else {
            lanes_plan(
                tracks,
                b,
                start,
                duration,
                LanesView {
                    x: m.center_x_keyframes@,
                    y: m.center_y_keyframes@,
                    scale: m.width_keyframes@,
                    second_scale: Some(m.height_keyframes@),
                    rotation: m.rotation_keyframes@,
                },
            )
        },
        None => no_plan(),
    }
}

/// The plan for the first of the masks.
pub open spec fn first_mask_plan(
    tracks: Seq<Track>,
    start: u64,
    duration: u64,
    masks: Seq<ClipMask>,
) -> LanePlanView {
    if masks.len() > 0 {
        mask_plan(tracks, start, duration, masks[0])
    } else {
        no_plan()
    }
}

fn plan_first_mask(tracks: &Vec<Track>, start: u64, duration: u64, masks: &Vec<ClipMask>) -> (r:
    LanePlan)
    ensures
        r@ == first_mask_plan(tracks@, start, duration, masks@),
{
    if masks.len() == 0 {
        return LanePlan::none();
    }
    let m: &ClipMask = &masks[0];
    match &m.tracking_binding {
        Some(b) => {
            if m.shape == MaskShape::Path {
                return LanePlan::none();
            }
            plan_lanes(
                tracks,
                b,
                start,
                duration,
                &m.center_x_keyframes,
                &m.center_y_keyframes,
                &m.width_keyframes,
                Some(&m.height_keyframes),
                &m.rotation_keyframes,
            )
        },
        None => LanePlan::none(),
    }
}

/// The plan for a clip itself.
pub open spec fn clip_plan(tracks: Seq<Track>, c: Clip) -> LanePlanView {
    match c.tracking_binding {
        Some(b) => lanes_plan(
            tracks,
            b,
            c.timeline_start,
            c.duration_spec(),
            LanesView {
                x: c.position_x_keyframes@,
                y: c.position_y_keyframes@,
                scale: c.scale_keyframes@,
                second_scale: None,
                rotation: c.rotate_keyframes@,
            },
        ),
        None => no_plan(),
    }
}

/// The plans for a clip and its first mask.
#[derive(Debug)]
pub struct ClipPlan {
    pub own: LanePlan,
    pub mask: LanePlan,
}

/// The plans for a clip and its first mask.
pub fn plan_clip(tracks: &Vec<Track>, clip: &Clip) -> (r: ClipPlan)
    ensures
        r.own@ == clip_plan(tracks@, *clip),
        r.mask@ == first_mask_plan(
            tracks@,
            clip.timeline_start,
            clip.duration_spec(),
            clip.masks@,
        ),
{
    let duration: u64 = clip.duration();
    let own: LanePlan = match &clip.tracking_binding {
        Some(b) => plan_lanes(
            tracks,
            b,
            clip.timeline_start,
            duration,
            &clip.position_x_keyframes,
            &clip.position_y_keyframes,
            &clip.scale_keyframes,
            None,
            &clip.rotate_keyframes,
        ),
        None => LanePlan::none(),
    };
    let mask: LanePlan = plan_first_mask(tracks, clip.timeline_start, duration, &clip.masks);
    ClipPlan { own, mask }
}

/// The plan for a clip of the player itself.
pub open spec fn program_clip_plan(tracks: Seq<Track>, c: ProgramClip) -> LanePlanView {
    match c.tracking_binding {
        Some(b) => lanes_plan(
            tracks,
            b,
            c.timeline_start_ns,
            c.source_duration_ns,
            LanesView {
                x: c.position_x_keyframes@,
                y: c.position_y_keyframes@,
                scale: c.scale_keyframes@,
                second_scale: None,
                rotation: c.rotate_keyframes@,
            },
        ),
        None => no_plan(),
    }
}

/// The plans for a clip of the player and its first mask.
pub fn plan_program_clip(tracks: &Vec<Track>, clip: &ProgramClip) -> (r: ClipPlan)
    ensures
        r.own@ == program_clip_plan(tracks@, *clip),
        r.mask@ == first_mask_plan(
            tracks@,
            clip.timeline_start_ns,
            clip.source_duration_ns,
            clip.masks@,
        ),
{
    let own: LanePlan = match &clip.tracking_binding {
        Some(b) => plan_lanes(
            tracks,
            b,
            clip.timeline_start_ns,
            clip.source_duration_ns,
            &clip.position_x_keyframes,
            &clip.position_y_keyframes,
            &clip.scale_keyframes,
            None,
            &clip.rotate_keyframes,
        ),
        None => LanePlan::none(),
    };
    let mask: LanePlan = plan_first_mask(
        tracks,
        clip.timeline_start_ns,
        clip.source_duration_ns,
        &clip.masks,
    );
    ClipPlan { own, mask }
}

// -------------------------------------------------------------------- values
/// The values of keyframes, lane by lane, one for each time of a plan.
#[derive(Debug)]
pub struct LaneValues {
    pub x: Vec<Real>,
    pub y: Vec<Real>,
    pub scale: Vec<Real>,
    pub second_scale: Vec<Real>,
    pub rotation: Vec<Real>,
}

/// The values for a clip and its first mask.
#[derive(Debug)]
pub struct ClipValues {
    pub own: LaneValues,
    pub mask: LaneValues,
}

/// Whether there is a value for each time.
pub open spec fn lane_fits(times: Option<Seq<u64>>, values: Seq<Real>) -> bool {
    times matches Some(t) ==> values.len() == t.len()
}

/// Whether there is a value for each time of a plan.
pub open spec fn values_fit(p: LanePlanView, v: LaneValues) -> bool {
    &&& lane_fits(p.translation, v.x@)
    &&& lane_fits(p.translation, v.y@)
    &&& lane_fits(p.scale, v.scale@)
    &&& lane_fits(p.second_scale, v.second_scale@)
    &&& lane_fits(p.rotation, v.rotation@)
}

/// Keyframes at the times, with the values, straight lines between them.
pub open spec fn linear(times: Seq<u64>, values: Seq<Real>) -> Seq<NumericKeyframe> {
    Seq::new(
        times.len(),
        |i: int|
            NumericKeyframe {
                time_ns: times[i],
                value: values[i],
                interpolation: KeyframeInterpolation::Linear,
                bezier_controls: None,
            },
    )
}

/// Keyframes at the times, with the values, straight lines between them.
pub fn make_linear_keyframes(times: &Vec<u64>, values: &Vec<Real>) -> (r: Vec<NumericKeyframe>)
    requires
        times@.len() == values@.len(),
    ensures
        r@ == linear(times@, values@),
{
    let mut r: Vec<NumericKeyframe> = Vec::new();
    let mut i: usize = 0;
    while i < times.len()
        invariant
            i <= times@.len() == values@.len(),
            r@.len() == i,
            forall|k: int| 0 <= k < i ==> #[trigger] r@[k] == linear(times@, values@)[k],
        decreases times.len() - i,
    {
        r.push(
            NumericKeyframe {
                time_ns: times[i],
                value: values[i],
                interpolation: KeyframeInterpolation::Linear,
                bezier_controls: None,
            },
        );
        i = i + 1;
    }
    proof {
        assert(r@ =~= linear(times@, values@));
    }
    r
}

/// What a lane holds after a plan was carried out.
pub open spec fn lane_after(
    before: Seq<NumericKeyframe>,
    times: Option<Seq<u64>>,
    values: Seq<Real>,
) -> Seq<NumericKeyframe> {
    match times {
        Some(t) => linear(t, values),
        None => before,
    }
}

fn set_lane(lane: &mut Vec<NumericKeyframe>, times: &Option<Vec<u64>>, values: &Vec<Real>)
    requires
        lane_fits(times_in(*times), values@),
    ensures
        final(lane)@ == lane_after(old(lane)@, times_in(*times), values@),
        *times is None ==> *final(lane) == *old(lane),
{
    if let Some(t) = times {
        *lane = make_linear_keyframes(t, values);
    }
}

/// Whether a clip is another with the lanes of its position, scale and rotation set.
pub open spec fn clip_driven(before: Clip, after: Clip, p: LanePlanView, v: LaneValues) -> bool {
    &&& after.position_x_keyframes@ == lane_after(before.position_x_keyframes@, p.translation, v.x@)
    &&& after.position_y_keyframes@ == lane_after(before.position_y_keyframes@, p.translation, v.y@)
    &&& after.scale_keyframes@ == lane_after(before.scale_keyframes@, p.scale, v.scale@)
    &&& after.rotate_keyframes@ == lane_after(before.rotate_keyframes@, p.rotation, v.rotation@)
}

/// Whether a mask is another with its lanes set.
pub open spec fn mask_driven(before: ClipMask, after: ClipMask, p: LanePlanView, v: LaneValues) -> bool {
    &&& after.center_x_keyframes@ == lane_after(before.center_x_keyframes@, p.translation, v.x@)
    &&& after.center_y_keyframes@ == lane_after(before.center_y_keyframes@, p.translation, v.y@)
    &&& after.width_keyframes@ == lane_after(before.width_keyframes@, p.scale, v.scale@)
    &&& after.height_keyframes@ == lane_after(
        before.height_keyframes@,
        p.second_scale,
        v.second_scale@,
    )
    &&& after.rotation_keyframes@ == lane_after(before.rotation_keyframes@, p.rotation, v.rotation@)
    &&& after == (ClipMask {
        center_x_keyframes: after.center_x_keyframes,
        center_y_keyframes: after.center_y_keyframes,
        width_keyframes: after.width_keyframes,
        height_keyframes: after.height_keyframes,
        rotation_keyframes: after.rotation_keyframes,
        ..before
    })
}

/// Whether masks are others with the lanes of the first set.
pub open spec fn masks_driven(
    before: Seq<ClipMask>,
    after: Seq<ClipMask>,
    p: LanePlanView,
    v: LaneValues,
) -> bool {
    &&& after.len() == before.len()
    &&& before.len() > 0 ==> mask_driven(before[0], after[0], p, v)
    &&& forall|i: int| 1 <= i < before.len() ==> #[trigger] after[i] == before[i]
}

fn drive_first_mask(masks: &mut Vec<ClipMask>, plan: &LanePlan, values: &LaneValues)
    requires
        values_fit(plan@, *values),
    ensures
        masks_driven(old(masks)@, final(masks)@, plan@, *values),
{
    if masks.len() > 0 {
        let ghost before = masks@;
        set_lane(&mut masks[0].center_x_keyframes, &plan.translation, &values.x);
        set_lane(&mut masks[0].center_y_keyframes, &plan.translation, &values.y);
        set_lane(&mut masks[0].width_keyframes, &plan.scale, &values.scale);
        set_lane(&mut masks[0].height_keyframes, &plan.second_scale, &values.second_scale);
        set_lane(&mut masks[0].rotation_keyframes, &plan.rotation, &values.rotation);
        proof {
            assert(mask_driven(before[0], masks@[0], plan@, *values));
        }
    }
}

/// Whether a clip is another that its bindings were applied to.
pub open spec fn is_tracked(before: Clip, after: Clip, own: LanePlanView, mask: LanePlanView, v: ClipValues) -> bool {
    &&& clip_driven(before, after, own, v.own)
    &&& masks_driven(before.masks@, after.masks@, mask, v.mask)
    &&& after == (Clip {
        position_x_keyframes: after.position_x_keyframes,
        position_y_keyframes: after.position_y_keyframes,
        scale_keyframes: after.scale_keyframes,
        rotate_keyframes: after.rotate_keyframes,
        masks: after.masks,
        ..before
    })
}

fn drive_clip(clip: &mut Clip, plan: &ClipPlan, values: &ClipValues)
    requires
        values_fit(plan.own@, values.own),
        values_fit(plan.mask@, values.mask),
    ensures
        is_tracked(*old(clip), *final(clip), plan.own@, plan.mask@, *values),
{
    set_lane(&mut clip.position_x_keyframes, &plan.own.translation, &values.own.x);
    set_lane(&mut clip.position_y_keyframes, &plan.own.translation, &values.own.y);
    set_lane(&mut clip.scale_keyframes, &plan.own.scale, &values.own.scale);
    set_lane(&mut clip.rotate_keyframes, &plan.own.rotation, &values.own.rotation);
    drive_first_mask(&mut clip.masks, &plan.mask, &values.mask);
}

/// Whether a clip of the player is another that its bindings were applied to.
pub open spec fn is_program_tracked(
    before: ProgramClip,
    after: ProgramClip,
    own: LanePlanView,
    mask: LanePlanView,
    v: ClipValues,
) -> bool {
    &&& after.position_x_keyframes@ == lane_after(
        before.position_x_keyframes@,
        own.translation,
        v.own.x@,
    )
    &&& after.position_y_keyframes@ == lane_after(
        before.position_y_keyframes@,
        own.translation,
        v.own.y@,
    )
    &&& after.scale_keyframes@ == lane_after(before.scale_keyframes@, own.scale, v.own.scale@)
    &&& after.rotate_keyframes@ == lane_after(
        before.rotate_keyframes@,
        own.rotation,
        v.own.rotation@,
    )
    &&& masks_driven(before.masks@, after.masks@, mask, v.mask)
    &&& after.timeline_start_ns == before.timeline_start_ns
    &&& after.source_duration_ns == before.source_duration_ns
    &&& after.tracking_binding == before.tracking_binding
}

fn drive_program_clip(clip: &mut ProgramClip, plan: &ClipPlan, values: &ClipValues)
    requires
        values_fit(plan.own@, values.own),
        values_fit(plan.mask@, values.mask),
    ensures
        is_program_tracked(*old(clip), *final(clip), plan.own@, plan.mask@, *values),
{
    set_lane(&mut clip.position_x_keyframes, &plan.own.translation, &values.own.x);
    set_lane(&mut clip.position_y_keyframes, &plan.own.translation, &values.own.y);
    set_lane(&mut clip.scale_keyframes, &plan.own.scale, &values.own.scale);
    set_lane(&mut clip.rotate_keyframes, &plan.own.rotation, &values.own.rotation);
    drive_first_mask(&mut clip.masks, &plan.mask, &values.mask);
}

/// Whether there are values for each time of the plans of a clip.
pub open spec fn clip_values_fit(tracks: Seq<Track>, c: Clip, v: ClipValues) -> bool {
    &&& values_fit(clip_plan(tracks, c), v.own)
    &&& values_fit(
        first_mask_plan(tracks, c.timeline_start, c.duration_spec(), c.masks@),
        v.mask,
    )
}

/// Whether a clip is another that its bindings to trackers on the tracks were applied to.
pub open spec fn is_tracked_on(tracks: Seq<Track>, before: Clip, after: Clip, v: ClipValues) -> bool {
    is_tracked(
        before,
        after,
        clip_plan(tracks, before),
        first_mask_plan(tracks, before.timeline_start, before.duration_spec(), before.masks@),
        v,
    )
}

fn plan_clips(tracks: &Vec<Track>, clips: &Vec<Clip>) -> (r: Vec<ClipPlan>)
    ensures
        r@.len() == clips@.len(),
        forall|i: int|
            0 <= i < clips@.len() ==> (#[trigger] r@[i]).own@ == clip_plan(tracks@, clips@[i])
                && r@[i].mask@ == first_mask_plan(
                tracks@,
                clips@[i].timeline_start,
                clips@[i].duration_spec(),
                clips@[i].masks@,
            ),
{
    let mut r: Vec<ClipPlan> = Vec::new();
    let mut i: usize = 0;
    while i < clips.len()
        invariant
            i <= clips@.len(),
            r@.len() == i,
            forall|k: int|
                0 <= k < i ==> (#[trigger] r@[k]).own@ == clip_plan(tracks@, clips@[k])
                    && r@[k].mask@ == first_mask_plan(
                    tracks@,
                    clips@[k].timeline_start,
                    clips@[k].duration_spec(),
                    clips@[k].masks@,
                ),
        decreases clips.len() - i,
    {
        r.push(plan_clip(tracks, &clips[i]));
        i = i + 1;
    }
    r
}

/// The plans for all clips, track by track.
pub open spec fn are_plans(tracks: Seq<Track>, on: Seq<Track>, plans: Seq<Vec<ClipPlan>>) -> bool {
    &&& plans.len() == on.len()
    &&& forall|t: int, i: int|
        #![trigger plans[t]@[i]]
        0 <= t < on.len() && 0 <= i < on[t].clips@.len() ==> {
            let c = on[t].clips@[i];
            &&& plans[t]@[i].own@ == clip_plan(tracks, c)
            &&& plans[t]@[i].mask@ == first_mask_plan(
                tracks,
                c.timeline_start,
                c.duration_spec(),
                c.masks@,
            )
        }
    &&& forall|t: int| 0 <= t < on.len() ==> (#[trigger] plans[t])@.len() == on[t].clips@.len()
}

/// The plans for all clips, track by track.
pub fn plan_tracking_bindings(tracks: &Vec<Track>) -> (r: Vec<Vec<ClipPlan>>)
    ensures
        are_plans(tracks@, tracks@, r@),
{
    let mut r: Vec<Vec<ClipPlan>> = Vec::new();
    let mut t: usize = 0;
    while t < tracks.len()
        invariant
            t <= tracks@.len(),
            are_plans(tracks@, tracks@.subrange(0, t as int), r@),
        decreases tracks.len() - t,
    {
        let ghost before = r@;
        let plans = plan_clips(tracks, &tracks[t].clips);
        r.push(plans);
        proof {
            let on = tracks@.subrange(0, t + 1);
            assert forall|k: int, i: int|
                #![trigger r@[k]@[i]]
                0 <= k < on.len() && 0 <= i < on[k].clips@.len() implies {
                let c = on[k].clips@[i];
                &&& r@[k]@[i].own@ == clip_plan(tracks@, c)
                &&& r@[k]@[i].mask@ == first_mask_plan(
                    tracks@,
                    c.timeline_start,
                    c.duration_spec(),
                    c.masks@,
                )
            } by {
                if k < t {
                    assert(on[k] == tracks@.subrange(0, t as int)[k]);
                    assert(r@[k] == before[k]);
                    let x = before[k]@[i];
                } else {
                    let x = plans@[i];
                }
            }
            assert forall|k: int| 0 <= k < on.len() implies (#[trigger] r@[k])@.len()
                == on[k].clips@.len() by {
                if k < t {
                    assert(on[k] == tracks@.subrange(0, t as int)[k]);
                    assert(r@[k] == before[k]);
                }
            }
        }
        t = t + 1;
    }
    proof {
        assert(tracks@.subrange(0, t as int) =~= tracks@);
    }
    r
}

fn drive_clips(clips: &mut Vec<Clip>, plans: &Vec<ClipPlan>, values: &Vec<ClipValues>)
    requires
        plans@.len() == old(clips)@.len(),
        values@.len() == old(clips)@.len(),
        forall|i: int|
            0 <= i < plans@.len() ==> values_fit((#[trigger] plans@[i]).own@, values@[i].own)
                && values_fit(plans@[i].mask@, values@[i].mask),
    ensures
        final(clips)@.len() == old(clips)@.len(),
        forall|i: int|
            0 <= i < old(clips)@.len() ==> is_tracked(
                old(clips)@[i],
                #[trigger] final(clips)@[i],
                plans@[i].own@,
                plans@[i].mask@,
                values@[i],
            ),
{
    let ghost before = clips@;
    let mut i: usize = 0;
    while i < clips.len()
        invariant
            i <= clips@.len() == before.len(),
            plans@.len() == before.len(),
            values@.len() == before.len(),
            forall|k: int|
                0 <= k < plans@.len() ==> values_fit((#[trigger] plans@[k]).own@, values@[k].own)
                    && values_fit(plans@[k].mask@, values@[k].mask),
            forall|k: int| i <= k < before.len() ==> #[trigger] clips@[k] == before[k],
            forall|k: int|
                0 <= k < i ==> is_tracked(
                    before[k],
                    #[trigger] clips@[k],
                    plans@[k].own@,
                    plans@[k].mask@,
                    values@[k],
                ),
        decreases clips.len() - i,
    {
        proof {
            let x = plans@[i as int];
            assert(values_fit(plans@[i as int].own@, values@[i as int].own));
        }
        drive_clip(&mut clips[i], &plans[i], &values[i]);
        i = i + 1;
    }
}

/// Applies the bindings of all clips on the tracks and of their first masks. `values` holds a
/// value for each time of the plans.
pub fn apply_tracking_bindings_to_tracks(tracks: &mut Vec<Track>, values: &Vec<Vec<ClipValues>>)
    requires
        values@.len() == old(tracks)@.len(),
        forall|t: int|
            0 <= t < values@.len() ==> (#[trigger] values@[t])@.len() == old(
                tracks,
            )@[t].clips@.len(),
        forall|t: int, i: int|
            #![trigger values@[t]@[i]]
            0 <= t < values@.len() && 0 <= i < values@[t]@.len() ==> clip_values_fit(
                old(tracks)@,
                old(tracks)@[t].clips@[i],
                values@[t]@[i],
            ),
    ensures
        final(tracks)@.len() == old(tracks)@.len(),
        forall|t: int|
            0 <= t < old(tracks)@.len() ==> {
                &&& (#[trigger] final(tracks)@[t]).id == old(tracks)@[t].id
                &&& final(tracks)@[t].kind == old(tracks)@[t].kind
                &&& final(tracks)@[t].label == old(tracks)@[t].label
                &&& final(tracks)@[t].clips@.len() == old(tracks)@[t].clips@.len()
            },
        forall|t: int, i: int|
            #![trigger final(tracks)@[t].clips@[i]]
            0 <= t < old(tracks)@.len() && 0 <= i < old(tracks)@[t].clips@.len() ==> is_tracked_on(
                old(tracks)@,
                old(tracks)@[t].clips@[i],
                final(tracks)@[t].clips@[i],
                values@[t]@[i],
            ),
{
    let ghost before = tracks@;
    let plans: Vec<Vec<ClipPlan>> = plan_tracking_bindings(tracks);
    let mut t: usize = 0;
    while t < tracks.len()
        invariant
            t <= tracks@.len() == before.len(),
            values@.len() == before.len(),
            are_plans(before, before, plans@),
            forall|k: int|
                0 <= k < values@.len() ==> (#[trigger] values@[k])@.len() == before[k].clips@.len(),
            forall|k: int, i: int|
                #![trigger values@[k]@[i]]
                0 <= k < values@.len() && 0 <= i < values@[k]@.len() ==> clip_values_fit(
                    before,
                    before[k].clips@[i],
                    values@[k]@[i],
                ),
            forall|k: int| t <= k < before.len() ==> #[trigger] tracks@[k] == before[k],
            forall|k: int|
                0 <= k < t ==> {
                    &&& (#[trigger] tracks@[k]).id == before[k].id
                    &&& tracks@[k].kind == before[k].kind
                    &&& tracks@[k].label == before[k].label
                    &&& tracks@[k].clips@.len() == before[k].clips@.len()
                },
            forall|k: int, i: int|
                #![trigger tracks@[k].clips@[i]]
                0 <= k < t && 0 <= i < before[k].clips@.len() ==> is_tracked_on(
                    before,
                    before[k].clips@[i],
                    tracks@[k].clips@[i],
                    values@[k]@[i],
                ),
        decreases tracks.len() - t,
    {
        let ghost mid = tracks@;
        proof {
            let p = plans@[t as int];
            let v = values@[t as int];
            assert(p@.len() == before[t as int].clips@.len());
            assert forall|i: int| 0 <= i < p@.len() implies values_fit(
                (#[trigger] p@[i]).own@,
                v@[i].own,
            ) && values_fit(p@[i].mask@, v@[i].mask) by {
                assert(plans@[t as int]@[i] == p@[i]);
                assert(values@[t as int]@[i] == v@[i]);
            }
        }
        drive_clips(&mut tracks[t].clips, &plans[t], &values[t]);
        proof {
            assert forall|k: int, i: int|
                #![trigger tracks@[k].clips@[i]]
                0 <= k < t + 1 && 0 <= i < before[k].clips@.len() implies is_tracked_on(
                before,
                before[k].clips@[i],
                tracks@[k].clips@[i],
                values@[k]@[i],
            ) by {
                if k < t {
                    assert(tracks@[k] == mid[k]);
                    let x = mid[k].clips@[i];
                } else {
                    assert(mid[k] == before[k]);
                    let x = plans@[k]@[i];
                }
            }
        }
        t = t + 1;
    }
}

/// Whether there are values for each time of the plans of a clip of the player.
pub open spec fn program_values_fit(tracks: Seq<Track>, c: ProgramClip, v: ClipValues) -> bool {
    &&& values_fit(program_clip_plan(tracks, c), v.own)
    &&& values_fit(
        first_mask_plan(tracks, c.timeline_start_ns, c.source_duration_ns, c.masks@),
        v.mask,
    )
}

/// Applies the bindings of the player's clips and of their first masks to trackers on the tracks,
/// which hold no compound clips any more.
pub fn apply_tracking_bindings_to_program_clips(
    clips: &mut Vec<ProgramClip>,
    flattened_tracks: &Vec<Track>,
    values: &Vec<ClipValues>,
)
    requires
        values@.len() == old(clips)@.len(),
        forall|i: int|
            0 <= i < values@.len() ==> program_values_fit(
                flattened_tracks@,
                old(clips)@[i],
                #[trigger] values@[i],
            ),
    ensures
        final(clips)@.len() == old(clips)@.len(),
        forall|i: int|
            0 <= i < old(clips)@.len() ==> is_program_tracked(
                old(clips)@[i],
                #[trigger] final(clips)@[i],
                program_clip_plan(flattened_tracks@, old(clips)@[i]),
                first_mask_plan(
                    flattened_tracks@,
                    old(clips)@[i].timeline_start_ns,
                    old(clips)@[i].source_duration_ns,
                    old(clips)@[i].masks@,
                ),
                values@[i],
            ),
{
    let ghost before = clips@;
    let mut i: usize = 0;
    while i < clips.len()
        invariant
            i <= clips@.len() == before.len(),
            values@.len() == before.len(),
            forall|k: int|
                0 <= k < values@.len() ==> program_values_fit(
                    flattened_tracks@,
                    before[k],
                    #[trigger] values@[k],
                ),
            forall|k: int| i <= k < before.len() ==> #[trigger] clips@[k] == before[k],
            forall|k: int|
                0 <= k < i ==> is_program_tracked(
                    before[k],
                    #[trigger] clips@[k],
                    program_clip_plan(flattened_tracks@, before[k]),
                    first_mask_plan(
                        flattened_tracks@,
                        before[k].timeline_start_ns,
                        before[k].source_duration_ns,
                        before[k].masks@,
                    ),
                    values@[k],
                ),
        decreases clips.len() - i,
    {
        let plan = plan_program_clip(flattened_tracks, &clips[i]);
        proof {
            let x = values@[i as int];
            assert(program_values_fit(flattened_tracks@, before[i as int], values@[i as int]));
        }
        drive_program_clip(&mut clips[i], &plan, &values[i]);
        i = i + 1;
    }
}

} // verus!
