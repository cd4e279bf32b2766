//! Where the samples, rectangles and pixels of a search lie, and what tells searches apart.

use crate::digest::{
    lemma_number_told, lemma_short_number_told, lemma_text_told, low_bytes,     };
use crate::tracking::{
    all_reported, analysed, frame_step, patch_of, rect_of, reported, sample_count, sample_step,
    sample_time, samples_of, search_radius, settled, side_of, side_start, standing, job_material,
    PixelRect, PixelRegion, TrackingJob, TrackingJobProgress, TrackingView, WorkerResult,
    WorkerUpdate, FALLBACK_FRAME_STEP_NS, MAX_TRACKING_FRAMES,
};
use vstd::prelude::*;
use vstd::utf8::*;

verus! {

// ------------------------------------------------------------------- samples
/// A second has as many steps as the rate says: `n` steps of frames at `n / d` per second fill `d`
/// seconds, but for less than `n` nanoseconds.
pub proof fn lemma_frame_step(n: u32, d: u32)
    requires
        n > 0,
        d > 0,
    ensures
        n * frame_step(Some(n), Some(d)) <= d * 1_000_000_000 < n * (frame_step(Some(n), Some(d))
            + 1),
{
    let whole = d * 1_000_000_000;
    let step = frame_step(Some(n), Some(d));
    vstd::arithmetic::div_mod::lemma_fundamental_div_mod(whole, n as int);
    assert(step == whole / (n as int));
    assert(n * (step + 1) == n * step + n) by (nonlinear_arith);
}

/// A rate that is not known counts as 24 frames per second.
pub proof fn lemma_unknown_frame_step(num: Option<u32>, den: Option<u32>)
    requires
        num is None || den is None || num == Some(0u32) || den == Some(0u32),
    ensures
        24 * frame_step(num, den) <= 1_000_000_000 < 24 * (frame_step(num, den) + 1),
{
}

/// The samples cover what is analysed and lie within it: the last begins before its end, and one
/// more would not. They are as close as wanted, or as close as the number of frames that may be
/// analysed allows.
pub proof fn lemma_samples_cover(j: TrackingJob)
    requires
        j.analysis_start_ns < j.analysis_end_ns,
    ensures
        ({
            let length = j.analysis_end_ns - j.analysis_start_ns;
            let count = sample_count(j);
            let step = sample_step(j);
            let wanted = if j.frame_step_ns == 0 {
                FALLBACK_FRAME_STEP_NS as int
            } else {
                j.frame_step_ns as int
            };
            &&& 0 < step && wanted <= step
            &&& 1 <= count <= MAX_TRACKING_FRAMES
            &&& (count - 1) * step < length <= count * step
            &&& wanted * MAX_TRACKING_FRAMES >= length ==> step == wanted
            &&& step > wanted ==> (step - 1) * MAX_TRACKING_FRAMES < length
        }),
{
    let length = j.analysis_end_ns - j.analysis_start_ns;
    let step = sample_step(j);
    let count = sample_count(j);
    let least = (length + MAX_TRACKING_FRAMES - 1) / (MAX_TRACKING_FRAMES as int);
    assert(analysed(j) == length);
    assert(step >= least);
    vstd::arithmetic::div_mod::lemma_fundamental_div_mod(length - 1, step);
    vstd::arithmetic::div_mod::lemma_mod_bound(length - 1, step);
    let q = (length - 1) / step;
    assert(length - 1 == step * q + (length - 1) % step);
    assert((count - 1) * step == step * q) by (nonlinear_arith)
        requires
            count == q + 1,
    ;
    assert(count * step == step * q + step) by (nonlinear_arith)
        requires
            count == q + 1,
    ;
    assert(q >= 0) by (nonlinear_arith)
        requires
            length - 1 >= 0,
            step > 0,
            length - 1 == step * q + (length - 1) % step,
            (length - 1) % step < step,
    ;
    assert(q < 1200) by (nonlinear_arith)
        requires
            step * 1200 >= length,
            step > 0,
            step * q <= length - 1,
    ;
}

/// Nothing is sampled where the part that is analysed is empty.
pub proof fn lemma_no_samples(j: TrackingJob)
    requires
        j.analysis_end_ns <= j.analysis_start_ns,
    ensures
        sample_count(j) == 0,
        analysed(j) == 0,
{
}

/// Samples follow one another by the step, from the start to the end.
pub proof fn lemma_sample_times(start: u64, end: u64, step: u64, i: int)
    requires
        0 <= i,
        start <= end,
        i * step <= u64::MAX,
    ensures
        start + i * step <= end ==> sample_time(start, end, step, i) == start + i * step,
        start + i * step > end ==> sample_time(start, end, step, i) == end,
        start <= sample_time(start, end, step, i) <= end,
{
    assert(i * step >= 0) by (nonlinear_arith)
        requires
            i >= 0,
    ;
}

// ---------------------------------------------------------------- rectangles
/// A side is as long as wanted, but at least the smallest template and at most the frame.
pub proof fn lemma_side(wanted: int, frame: int)
    requires
        8 <= frame,
    ensures
        8 <= side_of(wanted, frame) <= frame,
        8 <= wanted <= frame ==> side_of(wanted, frame) == wanted,
        wanted < 8 ==> side_of(wanted, frame) == 8,
        wanted > frame ==> side_of(wanted, frame) == frame,
{
}

/// A side is centred where it fits: its middle is off by less than a pixel. Else it touches the
/// border that it would cross.
pub proof fn lemma_side_is_centred(center: int, side: int, frame: int)
    requires
        0 <= side <= frame,
    ensures
        ({
            let start = side_start(center, side, frame);
            &&& 0 <= start && start + side <= frame
            &&& 0 < start && start + side < frame ==> 0 <= 2 * start + side - 2 * center <= 1
            &&& start == 0 ==> 2 * center <= side + 1 || side == frame
            &&& start + side == frame && start > 0 ==> 2 * center >= 2 * start + side - 1
        }),
{
}

/// The rectangle of a region has the width, height and centre of the region, each kept within the
/// frame along its own side.
pub proof fn lemma_rect_of(r: PixelRegion, width: int, height: int)
    requires
        8 <= width <= i32::MAX,
        8 <= height <= i32::MAX,
    ensures
        ({
            let c = rect_of(r, width, height);
            &&& 8 <= r.width <= width ==> c.width == r.width
            &&& 8 <= r.height <= height ==> c.height == r.height
            &&& 8 <= c.width <= width && 8 <= c.height <= height
            &&& 0 < c.x && c.x + c.width < width ==> 0 <= 2 * c.x + c.width - 2 * r.center_x <= 1
            &&& 0 < c.y && c.y + c.height < height ==> 0 <= 2 * c.y + c.height - 2 * r.center_y <= 1
            &&& 0 <= c.x && c.x + c.width <= width
            &&& 0 <= c.y && c.y + c.height <= height
        }),
{
    let w = side_of(r.width as int, width);
    let h = side_of(r.height as int, height);
    lemma_side_is_centred(r.center_x as int, w, width);
    lemma_side_is_centred(r.center_y as int, h, height);
}

/// A patch holds the pixels of the rectangle: the one at a column and row of the patch is the one
/// that far right of and below the corner of the rectangle.
pub proof fn lemma_patch(plane: Seq<u8>, width: int, r: PixelRect, column: int, row: int)
    requires
        0 <= column < r.width,
        0 <= row < r.height,
    ensures
        0 <= row * r.width + column < patch_of(plane, width, r).len(),
        patch_of(plane, width, r)[row * r.width + column] == plane[(r.y + row) * width + (r.x
            + column)],
        patch_of(plane, width, r).len() == r.width * r.height,
{
    let w = r.width as int;
    let k = row * w + column;
    vstd::arithmetic::div_mod::lemma_fundamental_div_mod_converse(k, w, row, column);
    assert(0 <= row * w + column < w * r.height) by (nonlinear_arith)
        requires
            0 <= column < w,
            0 <= row < r.height,
    ;
    assert(k / w == row && k % w == column);
}

/// Of candidates with the same lowest score, the first is picked.
pub proof fn lemma_first_of_best(scores: Seq<u64>, n: nat, i: int)
    requires
        n <= scores.len(),
        0 <= i < standing(scores, n).at,
    ensures
        scores[i] > standing(scores, n).best,
        standing(scores, n).at < n,
    decreases n,
{
    if n > 0 {
        let s = standing(scores, (n - 1) as nat);
        lemma_standing_bound(scores, (n - 1) as nat);
        if scores[n - 1] < s.best {
            assert(scores[i] >= s.best);
        } else {
            lemma_first_of_best(scores, (n - 1) as nat, i);
        }
    }
}

proof fn lemma_standing_bound(scores: Seq<u64>, n: nat)
    requires
        n <= scores.len(),
    ensures
        forall|i: int| 0 <= i < n ==> #[trigger] scores[i] >= standing(scores, n).best,
        -1 <= standing(scores, n).at < n,
    decreases n,
{
    if n > 0 {
        lemma_standing_bound(scores, (n - 1) as nat);
    }
}

/// The second best score is one of the scores, or there was no other below the largest number.
pub proof fn lemma_second_best_is_there(scores: Seq<u64>, n: nat)
    requires
        n <= scores.len(),
    ensures
        standing(scores, n).second < u64::MAX ==> exists|i: int|
            0 <= i < n && i != standing(scores, n).at && #[trigger] scores[i] == standing(
                scores,
                n,
            ).second,
        standing(scores, n).best < u64::MAX ==> 0 <= standing(scores, n).at < n
            && scores[standing(scores, n).at] == standing(scores, n).best,
    decreases n,
{
    if n > 0 {
        let m = (n - 1) as nat;
        let s = standing(scores, m);
        lemma_standing_bound(scores, m);
        lemma_second_best_is_there(scores, m);
        if scores[n - 1] < s.best {
            if s.best < u64::MAX {
                assert(scores[s.at] == s.best);
            }
        } else if scores[n - 1] < s.second {
            assert(scores[n - 1] == standing(scores, n).second);
        }
    }
}

// ---------------------------------------------------------------------- keys
/// Whether two searches are for the same thing in the same place of the same source.
pub open spec fn is_same_search(a: TrackingJob, b: TrackingJob) -> bool {
    &&& a.source_path@ == b.source_path@
    &&& a.clip_source_in_ns == b.clip_source_in_ns
    &&& a.analysis_start_ns == b.analysis_start_ns
    &&& a.analysis_end_ns == b.analysis_end_ns
    &&& sample_step(a) == sample_step(b)
    &&& search_radius(a) == search_radius(b)
    &&& a.region_key == b.region_key
}

proof fn lemma_job_material(j: TrackingJob)
    ensures
        ({
            let m = job_material(j);
            &&& m.len() == 13
            &&& m[1] == encode_utf8(j.source_path@)
            &&& m[3] == low_bytes(j.clip_source_in_ns as nat, 8)
            &&& m[4] == low_bytes(j.analysis_start_ns as nat, 8)
            &&& m[5] == low_bytes(j.analysis_end_ns as nat, 8)
            &&& m[6] == low_bytes(sample_step(j) as nat, 8)
            &&& m[7] == low_bytes(search_radius(j) as nat, 4)
            &&& m[8] == low_bytes((j.region_key.center_x as u64) as nat, 8)
            &&& m[9] == low_bytes((j.region_key.center_y as u64) as nat, 8)
            &&& m[10] == low_bytes((j.region_key.width as u64) as nat, 8)
            &&& m[11] == low_bytes((j.region_key.height as u64) as nat, 8)
            &&& m[12] == low_bytes((j.region_key.rotation_deg as u64) as nat, 8)
        }),
{
}

proof fn lemma_signed_told(a: i64, b: i64)
    ensures
        low_bytes((a as u64) as nat, 8) == low_bytes((b as u64) as nat, 8) ==> a == b,
{
    lemma_number_told(a as u64, b as u64);
    assert((a as u64) == (b as u64) ==> a == b) by (bit_vector);
}

/// What goes into the key of a search tells it apart from every other: the same goes in only where
/// source, times, step, radius and region are the same.
pub proof fn lemma_searches_told_apart(a: TrackingJob, b: TrackingJob)
    requires
        job_material(a) == job_material(b),
        sample_step(a) <= u64::MAX,
        sample_step(b) <= u64::MAX,
        sample_step(a) >= 0,
        sample_step(b) >= 0,
    ensures
        is_same_search(a, b),
{
    lemma_job_material(a);
    lemma_job_material(b);
    lemma_text_told(a.source_path@, b.source_path@);
    lemma_number_told(a.clip_source_in_ns, b.clip_source_in_ns);
    lemma_number_told(a.analysis_start_ns, b.analysis_start_ns);
    lemma_number_told(a.analysis_end_ns, b.analysis_end_ns);
    lemma_number_told(sample_step(a) as u64, sample_step(b) as u64);
    lemma_short_number_told(search_radius(a), search_radius(b));
    lemma_signed_told(a.region_key.center_x, b.region_key.center_x);
    lemma_signed_told(a.region_key.center_y, b.region_key.center_y);
    lemma_signed_told(a.region_key.width, b.region_key.width);
    lemma_signed_told(a.region_key.height, b.region_key.height);
    lemma_signed_told(a.region_key.rotation_deg, b.region_key.rotation_deg);
}

// ------------------------------------------------------------------- reports
/// Reports that come in two batches are taken in as those of one.
pub proof fn lemma_reports_add_up(s: TrackingView, a: Seq<WorkerUpdate>, b: Seq<WorkerUpdate>)
    ensures
        all_reported(s, a + b) == all_reported(all_reported(s, a), b),
        settled(a + b) == settled(a) + settled(b),
    decreases b.len(),
{
    if b.len() == 0 {
        assert(a + b =~= a);
        assert(settled(a) + settled(b) =~= settled(a));
    } else {
        lemma_reports_add_up(s, a, b.drop_last());
        assert((a + b).drop_last() =~= a + b.drop_last());
        assert(settled(a + b) =~= settled(a) + settled(b));
    }
}

/// One report that a job is done settles that job; one of its progress settles none and is kept as
/// its progress.
pub proof fn lemma_one_report(s: TrackingView, u: WorkerUpdate)
    ensures
        all_reported(s, seq![u]) == reported(s, u),
        match u {
            WorkerUpdate::Done(r) => settled(seq![u]) == seq![r],
            WorkerUpdate::Progress { cache_key, processed_samples, total_samples } => {
                let t = reported(s, u);
                &&& settled(seq![u]).len() == 0
                &&& t.progress.dom().contains(cache_key@)
                &&& t.progress[cache_key@].processed_samples == processed_samples
                &&& t.progress[cache_key@].total_samples == total_samples
                &&& t.results == s.results && t.pending == s.pending && t.failed == s.failed
                &&& forall|k: Seq<char>|
                    k != cache_key@ && #[trigger] s.progress.dom().contains(k) ==> t.progress[k]
                        == s.progress[k]
            },
        },
{
    let one = seq![u];
    assert(one.drop_last() =~= Seq::empty());
    assert(one.last() == u);
    assert(all_reported(s, one.drop_last()) == s);
    assert(settled(one.drop_last()) =~= Seq::<WorkerResult>::empty());
    match u {
        WorkerUpdate::Done(r) => {
            assert(settled(one) =~= seq![r]);
        },
        _ => {},
    }
}

/// A report that a job is done concerns that job only: what is known of others stays.
pub proof fn lemma_done_concerns_one_job(s: TrackingView, r: WorkerResult, k: Seq<char>)
    requires
        k != r.cache_key@,
    ensures
        ({
            let t = reported(s, WorkerUpdate::Done(r));
            &&& t.results.dom().contains(k) == s.results.dom().contains(k)
            &&& s.results.dom().contains(k) ==> t.results[k] == s.results[k]
            &&& t.pending.contains(k) == s.pending.contains(k)
            &&& t.failed.contains(k) == s.failed.contains(k)
            &&& t.progress.dom().contains(k) == s.progress.dom().contains(k)
            &&& t.flags.dom().contains(k) == s.flags.dom().contains(k)
            &&& t.total == s.total
        }),
{
}

/// The samples of all jobs are those of each added up.
pub proof fn lemma_samples_add_up(p: Seq<TrackingJobProgress>, x: TrackingJobProgress)
    ensures
        samples_of(p.push(x), p.len() + 1).0 == samples_of(p, p.len()).0 + x.processed_samples,
        samples_of(p.push(x), p.len() + 1).1 == samples_of(p, p.len()).1 + x.total_samples,
        samples_of(p, 0) == (0nat, 0nat),
{
    lemma_samples_of_front(p, p.push(x), p.len());
}

proof fn lemma_samples_of_front(a: Seq<TrackingJobProgress>, b: Seq<TrackingJobProgress>, n: nat)
    requires
        n <= a.len(),
        n <= b.len(),
        forall|k: int| 0 <= k < n ==> a[k] == b[k],
    ensures
        samples_of(a, n) == samples_of(b, n),
    decreases n,
{
    if n > 0 {
        lemma_samples_of_front(a, b, (n - 1) as nat);
    }
}

} // verus!
