//! Motion tracking: jobs, the search for the best match in each frame, and the cache of analyses.
//!
//! A job is asked for, runs elsewhere and is handed back with the analysis, which becomes a
//! tracker for a clip or a mask. Sums of differences between pixels are scored by the caller.

use crate::args::{arg, arg2};
use crate::digest::{digest_of, hex16, number_material, push_hex16, text_material, Digest};
use crate::keyed::{StringMap, StringSet};
use crate::model::{
    copy_plain, MotionTracker, TrackingBinding, TrackingRegion, TrackingSample,
};
use crate::numbers::Real;
use crate::cache_support::{cache_root, cache_root_dir};
use crate::paths::{join, join_path};
use crate::text::{
    blank, clone_option, decimal, decimal_text, option_view, owned, push_decimal, trim, views,
};
use vstd::prelude::*;
use vstd::string::*;

verus! {

/// Version of the analyses in the cache.
pub const CACHE_VERSION: u32 = 2;

/// Width of the frames that are analysed.
pub const ANALYSIS_WIDTH: usize = 320;

/// Height of the frames that are analysed.
pub const ANALYSIS_HEIGHT: usize = 180;

/// Distance of frames at 24 frames per second, for sources of unknown rate.
pub const FALLBACK_FRAME_STEP_NS: u64 = 41_666_666;

/// How far a match is searched around the last one.
pub const DEFAULT_SEARCH_RADIUS_PX: u32 = 16;

/// Half of the smallest width and height of a template.
pub const MIN_TEMPLATE_HALF_SIZE_PX: i32 = 4;

/// The most frames that are analysed.
pub const MAX_TRACKING_FRAMES: u64 = 1200;

/// The distance of frames of a source whose rate is known, and else that of the fallback rate.
pub open spec fn frame_step(num: Option<u32>, den: Option<u32>) -> int {
    match (num, den) {
        (Some(n), Some(d)) => if n > 0 && d > 0 {
            (d * 1_000_000_000) / (n as int)
        } else {
            FALLBACK_FRAME_STEP_NS as int
        },
        _ => FALLBACK_FRAME_STEP_NS as int,
    }
}

/// The distance of frames of a source, from its probed frame rate.
pub fn source_frame_step_ns(frame_rate_num: Option<u32>, frame_rate_den: Option<u32>) -> (r: u64)
    ensures
        r == frame_step(frame_rate_num, frame_rate_den),
{
    if let (Some(num), Some(den)) = (frame_rate_num, frame_rate_den) {
        if num > 0 && den > 0 {
            return (den as u64 * 1_000_000_000) / num as u64;
        }
    }
    FALLBACK_FRAME_STEP_NS
}

/// A region in ten-thousandths, as it takes part in cache keys.
#[derive(Debug, Clone, Copy, PartialEq, Eq, Structural)]
pub struct RegionKey {
    pub center_x: i64,
    pub center_y: i64,
    pub width: i64,
    pub height: i64,
    pub rotation_deg: i64,
}

/// A part of a clip in which a region is to be tracked.
#[derive(Debug)]
pub struct TrackingJob {
    pub tracker_id: String,
    pub tracker_label: String,
    pub source_path: String,
    /// Time in the source at which the clip begins.
    pub clip_source_in_ns: u64,
    pub analysis_start_ns: u64,
    pub analysis_end_ns: u64,
    pub analysis_region: TrackingRegion,
    /// The region in ten-thousandths.
    pub region_key: RegionKey,
    /// Wanted distance of samples; zero where it is not known.
    pub frame_step_ns: u64,
    /// How far a match is searched; zero for the default.
    pub search_radius_px: u32,
}

/// The length of the part that is analysed.
pub open spec fn analysed(j: TrackingJob) -> int {
    if j.analysis_end_ns > j.analysis_start_ns {
        j.analysis_end_ns - j.analysis_start_ns
    } else {
        0
    }
}

/// The distance of samples: the one wanted, or wider where there would be too many.
pub open spec fn sample_step(j: TrackingJob) -> int {
    let wanted = if j.frame_step_ns == 0 {
        FALLBACK_FRAME_STEP_NS as int
    } else {
        j.frame_step_ns as int
    };
    let least = (analysed(j) + MAX_TRACKING_FRAMES - 1) / (MAX_TRACKING_FRAMES as int);
    if least > wanted {
        least
    } else {
        wanted
    }
}

/// The number of samples.
pub open spec fn sample_count(j: TrackingJob) -> int {
    if analysed(j) == 0 {
        0
    } else {
        (analysed(j) - 1) / sample_step(j) + 1
    }
}

/// How far a match is searched.
pub open spec fn search_radius(j: TrackingJob) -> u32 {
    if j.search_radius_px == 0 {
        DEFAULT_SEARCH_RADIUS_PX
    } else {
        j.search_radius_px
    }
}

/// What goes into the key of a job. Neither the tracker nor its label do.
pub open spec fn job_material(j: TrackingJob) -> Seq<Seq<u8>> {
    number_material(CACHE_VERSION as nat, 4) + text_material(j.source_path@) + number_material(
        j.clip_source_in_ns as nat,
        8,
    ) + number_material(j.analysis_start_ns as nat, 8) + number_material(
        j.analysis_end_ns as nat,
        8,
    ) + number_material(sample_step(j) as nat, 8) + number_material(search_radius(j) as nat, 4)
        + number_material((j.region_key.center_x as u64) as nat, 8) + number_material(
        (j.region_key.center_y as u64) as nat,
        8,
    ) + number_material((j.region_key.width as u64) as nat, 8) + number_material(
        (j.region_key.height as u64) as nat,
        8,
    ) + number_material((j.region_key.rotation_deg as u64) as nat, 8)
}

/// The key of a job.
pub open spec fn job_key(j: TrackingJob) -> Seq<char> {
    "tracking_"@ + hex16(digest_of(job_material(j)))
}

impl TrackingJob {
    /// A job with the default distance of samples and radius of search.
    pub fn new(
        tracker_id: &str,
        tracker_label: &str,
        source_path: &str,
        clip_source_in_ns: u64,
        analysis_start_ns: u64,
        analysis_end_ns: u64,
        analysis_region: TrackingRegion,
        region_key: RegionKey,
    ) -> (r: TrackingJob)
        ensures
            r.tracker_id@ == tracker_id@,
            r.tracker_label@ == tracker_label@,
            r.source_path@ == source_path@,
            r.clip_source_in_ns == clip_source_in_ns,
            r.analysis_start_ns == analysis_start_ns,
            r.analysis_end_ns == analysis_end_ns,
            r.analysis_region == analysis_region,
            r.region_key == region_key,
            r.frame_step_ns == 0,
            r.search_radius_px == DEFAULT_SEARCH_RADIUS_PX,
    {
        TrackingJob {
            tracker_id: owned(tracker_id),
            tracker_label: owned(tracker_label),
            source_path: owned(source_path),
            clip_source_in_ns,
            analysis_start_ns,
            analysis_end_ns,
            analysis_region,
            region_key,
            frame_step_ns: 0,
            search_radius_px: DEFAULT_SEARCH_RADIUS_PX,
        }
    }

    /// The length of the part that is analysed.
    pub fn analysis_duration_ns(&self) -> (r: u64)
        ensures
            r == analysed(*self),
    {
        if self.analysis_end_ns > self.analysis_start_ns {
            self.analysis_end_ns - self.analysis_start_ns
        } else {
            0
        }
    }

    /// The distance of samples.
    pub fn effective_frame_step_ns(&self) -> (r: u64)
        ensures
            r == sample_step(*self),
            r > 0,
    {
        let wanted: u64 = if self.frame_step_ns == 0 {
            FALLBACK_FRAME_STEP_NS
        } else {
            self.frame_step_ns
        };
        let duration: u64 = self.analysis_duration_ns();
        let least: u64 = duration / MAX_TRACKING_FRAMES + (if duration % MAX_TRACKING_FRAMES == 0 {
            0
        } else {
            1
        });
        proof {
            assert(least == (duration + MAX_TRACKING_FRAMES - 1) / (MAX_TRACKING_FRAMES as int));
        }
        if least > wanted {
            least
        } else {
            wanted
        }
    }

    /// How far a match is searched.
    pub fn effective_search_radius_px(&self) -> (r: u32)
        ensures
            r == search_radius(*self),
    {
        if self.search_radius_px == 0 {
            DEFAULT_SEARCH_RADIUS_PX
        } else {
            self.search_radius_px
        }
    }

    /// The number of samples.
    pub fn estimated_sample_count(&self) -> (r: usize)
        ensures
            r == sample_count(*self),
            r <= MAX_TRACKING_FRAMES,
    {
        proof {
            lemma_sample_count(*self);
        }
        let duration: u64 = self.analysis_duration_ns();
        if duration == 0 {
            0
        } else {
            let step: u64 = self.effective_frame_step_ns();
            ((duration - 1) / step + 1) as usize
        }
    }

    /// The key of the job.
    pub fn cache_key(&self) -> (r: String)
        ensures
            r@ == job_key(*self),
    {
        let mut d = Digest::new();
        d.add_low_bytes(CACHE_VERSION as u64, 4);
        d.add_text(&self.source_path);
        d.add_number(self.clip_source_in_ns);
        d.add_number(self.analysis_start_ns);
        d.add_number(self.analysis_end_ns);
        d.add_number(self.effective_frame_step_ns());
        d.add_low_bytes(self.effective_search_radius_px() as u64, 4);
        d.add_number(self.region_key.center_x as u64);
        d.add_number(self.region_key.center_y as u64);
        d.add_number(self.region_key.width as u64);
        d.add_number(self.region_key.height as u64);
        d.add_number(self.region_key.rotation_deg as u64);
        proof {
            assert(d@ =~= job_material(*self));
        }
        let mut r = owned("tracking_");
        push_hex16(&mut r, d.finish());
        r
    }

    /// The same job once more.
    pub fn copied(&self) -> (r: TrackingJob)
        ensures
            same_job(r, *self),
    {
        TrackingJob {
            tracker_id: self.tracker_id.clone(),
            tracker_label: self.tracker_label.clone(),
            source_path: self.source_path.clone(),
            clip_source_in_ns: self.clip_source_in_ns,
            analysis_start_ns: self.analysis_start_ns,
            analysis_end_ns: self.analysis_end_ns,
            analysis_region: self.analysis_region,
            region_key: self.region_key,
            frame_step_ns: self.frame_step_ns,
            search_radius_px: self.search_radius_px,
        }
    }
}

/// Whether two jobs are the same.
pub open spec fn same_job(a: TrackingJob, b: TrackingJob) -> bool {
    &&& a.tracker_id@ == b.tracker_id@
    &&& a.tracker_label@ == b.tracker_label@
    &&& a.source_path@ == b.source_path@
    &&& a.clip_source_in_ns == b.clip_source_in_ns
    &&& a.analysis_start_ns == b.analysis_start_ns
    &&& a.analysis_end_ns == b.analysis_end_ns
    &&& a.analysis_region == b.analysis_region
    &&& a.region_key == b.region_key
    &&& a.frame_step_ns == b.frame_step_ns
    &&& a.search_radius_px == b.search_radius_px
}

/// There are never more samples than frames that may be analysed.
pub proof fn lemma_sample_count(j: TrackingJob)
    ensures
        0 <= sample_count(j) <= MAX_TRACKING_FRAMES,
{
    let d = analysed(j);
    let s = sample_step(j);
    if d > 0 {
        let least = (d + 1199) / 1200;
        assert(s >= least);
        assert(least * 1200 >= d);
        assert((d - 1) / s <= 1199) by {
            assert(d - 1 < 1200 * s);
            vstd::arithmetic::div_mod::lemma_div_by_multiple_is_strongly_ordered(
                d - 1,
                1200 * s,
                1200,
                s,
            );
            vstd::arithmetic::div_mod::lemma_div_multiples_vanish(1200, s);
        }
        vstd::arithmetic::div_mod::lemma_div_pos_is_pos(d - 1, s);
    }
}

/// Jobs that differ only in their tracker have the same key.
pub proof fn lemma_key_ignores_tracker(a: TrackingJob, b: TrackingJob)
    requires
        same_job(TrackingJob { tracker_id: b.tracker_id, tracker_label: b.tracker_label, ..a }, b),
    ensures
        job_key(a) == job_key(b),
{
}

// -------------------------------------------------------------------- search
/// A rectangle of pixels.
#[derive(Debug, Clone, Copy, PartialEq, Eq, Structural)]
pub struct PixelRect {
    pub x: i32,
    pub y: i32,
    pub width: i32,
    pub height: i32,
}

/// A region in pixels of the frame, rounded: its extents and its centre.
#[derive(Debug, Clone, Copy, PartialEq, Eq, Structural)]
pub struct PixelRegion {
    pub width: i32,
    pub height: i32,
    pub center_x: i32,
    pub center_y: i32,
}

/// One side of a rectangle: at least the smallest template, at most the frame.
pub open spec fn side_of(wanted: int, frame: int) -> int {
    let grown = if wanted < 8 {
        8
    } else {
        wanted
    };
    if grown > frame {
        frame
    } else {
        grown
    }
}

/// Where a side begins that is centred and kept within the frame.
pub open spec fn side_start(center: int, side: int, frame: int) -> int {
    let wanted = center - side / 2;
    if wanted < 0 {
        0
    } else if wanted > frame - side {
        frame - side
    } else {
        wanted
    }
}

/// The rectangle of a region within a frame.
pub open spec fn rect_of(r: PixelRegion, width: int, height: int) -> PixelRect {
    let w = side_of(r.width as int, width);
    let h = side_of(r.height as int, height);
    PixelRect {
        x: side_start(r.center_x as int, w, width) as i32,
        y: side_start(r.center_y as int, h, height) as i32,
        width: w as i32,
        height: h as i32,
    }
}

/// Whether a rectangle lies within a frame.
pub open spec fn inside(r: PixelRect, width: int, height: int) -> bool {
    0 <= r.x && 0 <= r.y && r.x + r.width <= width && r.y + r.height <= height
}

fn fit_side(wanted: i32, frame: i32) -> (r: i32)
    ensures
        r == side_of(wanted as int, frame as int),
{
    let grown: i32 = if wanted < MIN_TEMPLATE_HALF_SIZE_PX * 2 {
        MIN_TEMPLATE_HALF_SIZE_PX * 2
    } else {
        wanted
    };
    if grown > frame {
        frame
    } else {
        grown
    }
}

fn fit_start(center: i32, side: i32, frame: i32) -> (r: i32)
    requires
        0 <= side <= frame,
    ensures
        r == side_start(center as int, side as int, frame as int),
{
    let wanted: i64 = center as i64 - (side / 2) as i64;
    if wanted < 0 {
        0
    } else if wanted > (frame - side) as i64 {
        frame - side
    } else {
        wanted as i32
    }
}

/// The rectangle of a region within a frame.
pub fn region_to_rect(region: PixelRegion, image_width: usize, image_height: usize) -> (r: PixelRect)
    requires
        image_width <= i32::MAX,
        image_height <= i32::MAX,
    ensures
        r == rect_of(region, image_width as int, image_height as int),
        inside(r, image_width as int, image_height as int),
        r.width >= 0,
        r.height >= 0,
{
    let width: i32 = fit_side(region.width, image_width as i32);
    let height: i32 = fit_side(region.height, image_height as i32);
    PixelRect {
        x: fit_start(region.center_x, width, image_width as i32),
        y: fit_start(region.center_y, height, image_height as i32),
        width,
        height,
    }
}

/// The pixels of a plane in a rectangle, row by row.
pub open spec fn patch_of(plane: Seq<u8>, width: int, r: PixelRect) -> Seq<u8> {
    Seq::new(
        (r.width * r.height) as nat,
        |i: int| plane[(r.y + i / (r.width as int)) * width + r.x + i % (r.width as int)],
    )
}

/// The pixels of a plane in a rectangle, row by row.
pub fn extract_plane_patch(plane: &Vec<u8>, image_width: usize, image_height: usize, rect: PixelRect) -> (r:
    Vec<u8>)
    requires
        inside(rect, image_width as int, image_height as int),
        rect.width > 0,
        rect.height >= 0,
        image_width <= i32::MAX,
        plane@.len() == image_width * image_height,
    ensures
        r@ == patch_of(plane@, image_width as int, rect),
{
    let mut r: Vec<u8> = Vec::new();
    let ghost all = patch_of(plane@, image_width as int, rect);
    let ghost len = plane.len();
    let w: usize = rect.width as usize;
    let h: usize = rect.height as usize;
    let x0: usize = rect.x as usize;
    let y0: usize = rect.y as usize;
    let mut y: usize = 0;
    proof {
        assert(0 * (w as int) == 0);
    }
    while y < h
        invariant
            y <= h,
            w > 0,
            x0 + w <= image_width,
            y0 + h <= image_height,
            w == rect.width && h == rect.height && x0 == rect.x && y0 == rect.y,
            plane@.len() == image_width * image_height,
            all == patch_of(plane@, image_width as int, rect),
            r@.len() == y * w,
            y * w <= w * h,
            forall|k: int| 0 <= k < r@.len() ==> #[trigger] r@[k] == all[k],
        decreases h - y,
    {
        proof {
            assert((y + 1) * w == y * w + w) by (nonlinear_arith);
            assert((y + 1) * w <= w * h) by (nonlinear_arith)
                requires
                    y + 1 <= h,
                    w >= 0,
            ;
        }
        let mut x: usize = 0;
        while x < w
            invariant
                y < h,
                x <= w,
                w > 0,
                x0 + w <= image_width,
                y0 + h <= image_height,
                w == rect.width && h == rect.height && x0 == rect.x && y0 == rect.y,
                plane@.len() == image_width * image_height,
                all == patch_of(plane@, image_width as int, rect),
                r@.len() == y * w + x,
                y * w + w <= w * h,
                forall|k: int| 0 <= k < r@.len() ==> #[trigger] r@[k] == all[k],
            decreases w - x,
        {
            proof {
                let row = y0 + y;
                assert(row * image_width + image_width <= image_width * image_height) by (
                    nonlinear_arith)
                    requires
                        row + 1 <= image_height,
                        image_width >= 0,
                ;
                assert(row * image_width >= 0) by (nonlinear_arith)
                    requires
                        row >= 0,
                        image_width >= 0,
                ;
                assert(plane.len() == plane@.len());
                let k = y * w + x;
                vstd::arithmetic::div_mod::lemma_fundamental_div_mod_converse(
                    k,
                    w as int,
                    y as int,
                    x as int,
                );
                assert(rect.width * rect.height == w * h);
            }
            r.push(plane[(y0 + y) * image_width + (x0 + x)]);
            x = x + 1;
        }
        y = y + 1;
    }
    proof {
        assert(h * w == w * h) by (nonlinear_arith);
        assert(r@ =~= all);
    }
    r
}

/// Why tracking came to nothing.
#[derive(Debug, Clone, Copy, PartialEq, Eq, Structural)]
pub enum TrackingFailure {
    Cancelled,
    Failed,
}

/// The rectangle moved by some pixels.
pub open spec fn moved(r: PixelRect, dx: int, dy: int) -> PixelRect {
    PixelRect { x: (r.x + dx) as i32, y: (r.y + dy) as i32, width: r.width, height: r.height }
}

/// Whether a moved rectangle lies within a frame.
pub open spec fn fits(r: PixelRect, dx: int, dy: int, width: int, height: int) -> bool {
    0 <= r.x + dx && 0 <= r.y + dy && r.x + dx + r.width <= width && r.y + dy + r.height <= height
}

/// The rectangles of one row of the search, moved right by `-radius` up to `-radius + n - 1`.
pub open spec fn row_candidates(
    r: PixelRect,
    width: int,
    height: int,
    radius: int,
    dy: int,
    n: nat,
) -> Seq<PixelRect>
    decreases n,
{
    if n == 0 {
        Seq::empty()
    } else {
        let front = row_candidates(r, width, height, radius, dy, (n - 1) as nat);
        let dx = n - 1 - radius;
        if fits(r, dx, dy, width, height) {
            front.push(moved(r, dx, dy))
        } else {
            front
        }
    }
}

/// The rectangles of the first `n` rows of the search.
pub open spec fn candidates(r: PixelRect, width: int, height: int, radius: int, n: nat) -> Seq<
    PixelRect,
>
    decreases n,
{
    if n == 0 {
        Seq::empty()
    } else {
        candidates(r, width, height, radius, (n - 1) as nat) + row_candidates(
            r,
            width,
            height,
            radius,
            n - 1 - radius,
            (2 * radius + 1) as nat,
        )
    }
}

/// The rectangles around the last match that are scored, row by row.
pub fn candidate_rects(rect: PixelRect, image_width: usize, image_height: usize, radius: u32) -> (r: Vec<
    PixelRect,
>)
    requires
        image_width <= i32::MAX,
        image_height <= i32::MAX,
        rect.width >= 0,
        rect.height >= 0,
    ensures
        r@ == candidates(
            rect,
            image_width as int,
            image_height as int,
            radius as int,
            (2 * radius + 1) as nat,
        ),
        forall|c: PixelRect|
            #![trigger r@.contains(c)]
            r@.contains(c) <==> is_within_reach(
                rect,
                c,
                image_width as int,
                image_height as int,
                radius as int,
            ),
        forall|i: int, j: int|
            0 <= i < j < r@.len() ==> is_scanned_before(#[trigger] r@[i], #[trigger] r@[j]),
{
    proof {
        lemma_candidates_are_what_is_in_reach(
            rect,
            image_width as int,
            image_height as int,
            radius as int,
        );
    }
    let mut r: Vec<PixelRect> = Vec::new();
    let w: i64 = image_width as i64;
    let h: i64 = image_height as i64;
    let reach: i64 = radius as i64;
    let side: i64 = 2 * reach + 1;
    let mut row: i64 = 0;
    proof {
        assert(r@ =~= Seq::empty());
    }
    while row < side
        invariant
            0 <= row <= side,
            side == 2 * reach + 1,
            0 <= reach <= u32::MAX,
            w == image_width && h == image_height,
            0 <= w <= i32::MAX,
            0 <= h <= i32::MAX,
            rect.width >= 0,
            rect.height >= 0,
            r@ == candidates(rect, w as int, h as int, reach as int, row as nat),
        decreases side - row,
    {
        let ghost before = r@;
        let dy: i64 = row - reach;
        let mut col: i64 = 0;
        proof {
            assert(before + row_candidates(
                rect,
                w as int,
                h as int,
                reach as int,
                dy as int,
                0,
            ) =~= before);
        }
        while col < side
            invariant
                0 <= row < side,
                0 <= col <= side,
                side == 2 * reach + 1,
                0 <= reach <= u32::MAX,
                dy == row - reach,
                0 <= w <= i32::MAX,
                0 <= h <= i32::MAX,
                rect.width >= 0,
                rect.height >= 0,
                r@ == before + row_candidates(
                    rect,
                    w as int,
                    h as int,
                    reach as int,
                    dy as int,
                    col as nat,
                ),
            decreases side - col,
        {
            let ghost r0 = r@;
            let dx: i64 = col - reach;
            let x: i64 = rect.x as i64 + dx;
            let y: i64 = rect.y as i64 + dy;
            if x >= 0 && y >= 0 && x + rect.width as i64 <= w && y + rect.height as i64 <= h {
                r.push(
                    PixelRect { x: x as i32, y: y as i32, width: rect.width, height: rect.height },
                );
            }
            proof {
                assert(r@ =~= before + row_candidates(
                    rect,
                    w as int,
                    h as int,
                    reach as int,
                    dy as int,
                    (col + 1) as nat,
                ));
            }
            col = col + 1;
        }
        row = row + 1;
    }
    r
}

/// The best and the second best score so far, and which candidate is best.
pub struct Standing {
    pub best: u64,
    pub second: u64,
    pub at: int,
}

/// The standing after the first `n` scores. Lower is better; the first of equals is best.
pub open spec fn standing(scores: Seq<u64>, n: nat) -> Standing
    decreases n,
{
    if n == 0 {
        Standing { best: u64::MAX, second: u64::MAX, at: -1 }
    } else {
        let s = standing(scores, (n - 1) as nat);
        let score = scores[n - 1];
        if score < s.best {
            Standing { best: score, second: s.best, at: n - 1 }
        } else if score < s.second {
            Standing { second: score, ..s }
        } else {
            s
        }
    }
}

/// A match: where, and how good it and the next best are.
#[derive(Debug, Clone, Copy, PartialEq, Eq, Structural)]
pub struct Match {
    pub rect: PixelRect,
    pub best: u64,
    pub second: u64,
}

/// Picks the best of the candidates by their scores.
pub fn find_best_match(rects: &Vec<PixelRect>, scores: &Vec<u64>) -> (r: Result<
    Match,
    (TrackingFailure, String),
>)
    requires
        rects@.len() == scores@.len(),
    ensures
        ({
            let s = standing(scores@, scores@.len());
            match r {
                Ok(m) => s.best < u64::MAX && 0 <= s.at < rects@.len() && m.rect == rects@[s.at]
                    && m.best == s.best && m.second == s.second,
                Err(e) => s.best == u64::MAX && e.0 == TrackingFailure::Failed && e.1@
                    == "Tracking search failed to find a valid candidate window"@,
            }
        }),
{
    let mut best: u64 = u64::MAX;
    let mut second: u64 = u64::MAX;
    let mut at: Option<usize> = None;
    let mut i: usize = 0;
    while i < scores.len()
        invariant
            i <= scores@.len(),
            standing(scores@, i as nat) == (Standing {
                best,
                second,
                at: match at {
                    Some(k) => k as int,
                    None => -1,
                },
            }),
            at matches Some(k) ==> k < i,
            at is None ==> best == u64::MAX,
        decreases scores.len() - i,
    {
        let score: u64 = scores[i];
        if score < best {
            second = best;
            best = score;
            at = Some(i);
        } else if score < second {
            second = score;
        }
        i = i + 1;
    }
    if let Some(k) = at {
        if best != u64::MAX {
            return Ok(Match { rect: rects[k], best, second });
        }
    }
    Err(
        (TrackingFailure::Failed, owned("Tracking search failed to find a valid candidate window")),
    )
}

proof fn lemma_standing(scores: Seq<u64>, n: nat)
    requires
        n <= scores.len(),
    ensures
        ({
            let s = standing(scores, n);
            &&& s.best <= s.second
            &&& forall|i: int| 0 <= i < n ==> s.best <= #[trigger] scores[i]
            &&& s.at >= 0 ==> s.at < n && scores[s.at] == s.best
            &&& forall|i: int| 0 <= i < n && i != s.at ==> s.second <= #[trigger] scores[i]
        }),
    decreases n,
{
    if n > 0 {
        lemma_standing(scores, (n - 1) as nat);
    }
}

/// The match that is picked has the lowest score, and the second score is the lowest of the rest.
pub proof fn lemma_best_match(scores: Seq<u64>)
    requires
        standing(scores, scores.len()).at >= 0,
    ensures
        ({
            let s = standing(scores, scores.len());
            &&& 0 <= s.at < scores.len()
            &&& s.best == scores[s.at]
            &&& forall|i: int| 0 <= i < scores.len() ==> s.best <= #[trigger] scores[i]
            &&& forall|i: int| 0 <= i < scores.len() && i != s.at ==> s.second <= #[trigger] scores[i]
        }),
{
    lemma_standing(scores, scores.len());
}

/// Where the subject was found in a frame: the time of the sample, how far it is from where it was
/// in the first frame, in pixels, and how good the match is.
#[derive(Debug, Clone, Copy, PartialEq, Eq, Structural)]
pub struct TrackedPosition {
    pub time_ns: u64,
    pub dx: i32,
    pub dy: i32,
    pub best: u64,
    pub second: u64,
}

/// A search through the frames under way.
#[derive(Debug)]
pub struct MotionSearch {
    pub start_ns: u64,
    pub end_ns: u64,
    pub step_ns: u64,
    pub radius: u32,
    pub width: usize,
    pub height: usize,
    pub frames: usize,
    pub initial: PixelRect,
    pub current: PixelRect,
    pub positions: Vec<TrackedPosition>,
}

/// The time of the sample of a frame, within the part that is analysed.
pub open spec fn sample_time(start: u64, end: u64, step: u64, index: int) -> int {
    let offset = if index * step > u64::MAX {
        u64::MAX as int
    } else {
        index * step
    };
    let t = if start + offset > u64::MAX {
        u64::MAX as int
    } else {
        start + offset
    };
    if t < end {
        t
    } else {
        end as int
    }
}

fn time_of_sample(start: u64, end: u64, step: u64, index: usize) -> (r: u64)
    ensures
        r == sample_time(start, end, step, index as int),
{
    proof {
        assert(index * step <= 0xffff_ffff_ffff_ffff * 0xffff_ffff_ffff_ffff) by (nonlinear_arith)
            requires
                0 <= index <= 0xffff_ffff_ffff_ffff,
                0 <= step <= 0xffff_ffff_ffff_ffff,
        ;
        assert(index * step >= 0) by (nonlinear_arith)
            requires
                0 <= index,
                0 <= step,
        ;
    }
    let product: u128 = index as u128 * step as u128;
    let offset: u64 = if product > u64::MAX as u128 {
        u64::MAX
    } else {
        product as u64
    };
    let t: u64 = if offset > u64::MAX - start {
        u64::MAX
    } else {
        start + offset
    };
    if t < end {
        t
    } else {
        end
    }
}

fn cancelled_error() -> (r: (TrackingFailure, String))
    ensures
        r.0 == TrackingFailure::Cancelled,
        r.1@ == "Tracking canceled"@,
{
    (TrackingFailure::Cancelled, owned("Tracking canceled"))
}

impl MotionSearch {
    pub open spec fn wf(&self) -> bool {
        &&& self.width <= i32::MAX
        &&& self.height <= i32::MAX
        &&& inside(self.initial, self.width as int, self.height as int)
        &&& inside(self.current, self.width as int, self.height as int)
        &&& self.initial.width > 0
        &&& self.initial.height > 0
        &&& self.current.width == self.initial.width
        &&& self.current.height == self.initial.height
        &&& 1 <= self.positions@.len() <= self.frames
    }

    /// Begins a search in frames of a size. The first frame shows the subject where the region is.
    pub fn begin(
        job: &TrackingJob,
        region: PixelRegion,
        width: usize,
        height: usize,
        frames: usize,
        cancelled: bool,
    ) -> (r: Result<MotionSearch, (TrackingFailure, String)>)
        requires
            width <= i32::MAX,
            height <= i32::MAX,
        ensures
            ({
                let rect = rect_of(region, width as int, height as int);
                match r {
                    Ok(s) => {
                        &&& !cancelled && frames > 0 && rect.width > 0 && rect.height > 0
                        &&& s.wf()
                        &&& s.start_ns == job.analysis_start_ns
                        &&& s.end_ns == job.analysis_end_ns
                        &&& s.step_ns == sample_step(*job)
                        &&& s.radius == search_radius(*job)
                        &&& s.width == width && s.height == height && s.frames == frames
                        &&& s.initial == rect && s.current == rect
                        &&& s.positions@ == seq![
                            TrackedPosition {
                                time_ns: job.analysis_start_ns,
                                dx: 0,
                                dy: 0,
                                best: 0,
                                second: u64::MAX,
                            },
                        ]
                    },
                    Err(e) => if cancelled {
                        e.0 == TrackingFailure::Cancelled && e.1@ == "Tracking canceled"@
                    } else if frames == 0 {
                        e.0 == TrackingFailure::Failed && e.1@
                            == "No video frames extracted for tracking"@
                    } else {
                        (rect.width <= 0 || rect.height <= 0) && e.0 == TrackingFailure::Failed
                            && e.1@ == "Tracking template rect is empty"@
                    },
                }
            }),
    {
        if cancelled {
            return Err(cancelled_error());
        }
        if frames == 0 {
            return Err((TrackingFailure::Failed, owned("No video frames extracted for tracking")));
        }
        let rect: PixelRect = region_to_rect(region, width, height);
        if rect.width <= 0 || rect.height <= 0 {
            return Err((TrackingFailure::Failed, owned("Tracking template rect is empty")));
        }
        let mut positions: Vec<TrackedPosition> = Vec::new();
        positions.push(
            TrackedPosition {
                time_ns: job.analysis_start_ns,
                dx: 0,
                dy: 0,
                best: 0,
                second: u64::MAX,
            },
        );
        Ok(
            MotionSearch {
                start_ns: job.analysis_start_ns,
                end_ns: job.analysis_end_ns,
                step_ns: job.effective_frame_step_ns(),
                radius: job.effective_search_radius_px(),
                width,
                height,
                frames,
                initial: rect,
                current: rect,
                positions,
            },
        )
    }

    /// Whether every frame has been searched.
    pub fn is_done(&self) -> (r: bool)
        ensures
            r == (self.positions@.len() >= self.frames),
    {
        self.positions.len() >= self.frames
    }

    /// How many frames have been searched, and how many there are.
    pub fn progress(&self) -> (r: (usize, usize))
        ensures
            r.0 == self.positions@.len(),
            r.1 == self.frames,
    {
        (self.positions.len(), self.frames)
    }

    /// The rectangles to score in the next frame.
    pub fn next_candidates(&self) -> (r: Vec<PixelRect>)
        requires
            self.wf(),
        ensures
            r@ == candidates(
                self.current,
                self.width as int,
                self.height as int,
                self.radius as int,
                (2 * self.radius + 1) as nat,
            ),
    {
        candidate_rects(self.current, self.width, self.height, self.radius)
    }

    /// Takes the scores of the rectangles in the next frame, and moves to the best. The search of
    /// the frame after that is around it; what is searched for stays as in the first frame.
    pub fn take_scores(&mut self, rects: &Vec<PixelRect>, scores: &Vec<u64>, cancelled: bool) -> (r:
        Result<(), (TrackingFailure, String)>)
        requires
            old(self).wf(),
            old(self).positions@.len() < old(self).frames,
            rects@ == candidates(
                old(self).current,
                old(self).width as int,
                old(self).height as int,
                old(self).radius as int,
                (2 * old(self).radius + 1) as nat,
            ),
            scores@.len() == rects@.len(),
        ensures
            final(self).wf(),
            r is Ok ==> final(self).initial == old(self).initial
                && final(self).positions@.last().dx == final(self).current.x - final(self).initial.x
                && final(self).positions@.last().dy == final(self).current.y
                - final(self).initial.y,
            r is Ok ==> is_within_reach(
                old(self).current,
                final(self).current,
                old(self).width as int,
                old(self).height as int,
                old(self).radius as int,
            ),
            ({
                let s = standing(scores@, scores@.len());
                match r {
                    Ok(_) => {
                        let m = rects@[s.at];
                        &&& !cancelled && s.best < u64::MAX
                        &&& *final(self) == (MotionSearch {
                            current: m,
                            positions: final(self).positions,
                            ..*old(self)
                        })
                        &&& final(self).positions@ == old(self).positions@.push(
                            TrackedPosition {
                                time_ns: sample_time(
                                    old(self).start_ns,
                                    old(self).end_ns,
                                    old(self).step_ns,
                                    old(self).positions@.len() as int,
                                ) as u64,
                                dx: (m.x - old(self).initial.x) as i32,
                                dy: (m.y - old(self).initial.y) as i32,
                                best: s.best,
                                second: s.second,
                            },
                        )
                    },
                    Err(e) => {
                        &&& *final(self) == *old(self)
                        &&& if cancelled {
                            e.0 == TrackingFailure::Cancelled && e.1@ == "Tracking canceled"@
                        } else {
                            s.best == u64::MAX && e.0 == TrackingFailure::Failed && e.1@
                                == "Tracking search failed to find a valid candidate window"@
                        }
                    },
                }
            }),
    {
        if cancelled {
            return Err(cancelled_error());
        }
        match find_best_match(rects, scores) {
            Err(e) => Err(e),
            Ok(m) => {
                proof {
                    lemma_candidates_inside(
                        self.current,
                        self.width as int,
                        self.height as int,
                        self.radius as int,
                        (2 * self.radius + 1) as nat,
                        standing(scores@, scores@.len()).at,
                    );
                    lemma_candidates_are_what_is_in_reach(
                        self.current,
                        self.width as int,
                        self.height as int,
                        self.radius as int,
                    );
                    assert(rects@[standing(scores@, scores@.len()).at] == m.rect);
                    assert(rects@.contains(m.rect));
                }
                let index: usize = self.positions.len();
                let time_ns: u64 = time_of_sample(self.start_ns, self.end_ns, self.step_ns, index);
                self.positions.push(
                    TrackedPosition {
                        time_ns,
                        dx: m.rect.x - self.initial.x,
                        dy: m.rect.y - self.initial.y,
                        best: m.best,
                        second: m.second,
                    },
                );
                self.current = m.rect;
                Ok(())
            },
        }
    }
}

proof fn lemma_row_inside(
    r: PixelRect,
    width: int,
    height: int,
    radius: int,
    dy: int,
    n: nat,
    i: int,
)
    requires
        0 <= i < row_candidates(r, width, height, radius, dy, n).len(),
        0 <= width <= i32::MAX,
        0 <= height <= i32::MAX,
        r.width >= 0,
        r.height >= 0,
    ensures
        ({
            let c = row_candidates(r, width, height, radius, dy, n)[i];
            inside(c, width, height) && c.width == r.width && c.height == r.height
        }),
    decreases n,
{
    let front = row_candidates(r, width, height, radius, dy, (n - 1) as nat);
    if i < front.len() {
        lemma_row_inside(r, width, height, radius, dy, (n - 1) as nat, i);
    }
}

/// The candidates of a search lie within the frame and have the size of what is searched for.
pub proof fn lemma_candidates_inside(
    r: PixelRect,
    width: int,
    height: int,
    radius: int,
    n: nat,
    i: int,
)
    requires
        0 <= i < candidates(r, width, height, radius, n).len(),
        0 <= width <= i32::MAX,
        0 <= height <= i32::MAX,
        r.width >= 0,
        r.height >= 0,
    ensures
        ({
            let c = candidates(r, width, height, radius, n)[i];
            inside(c, width, height) && c.width == r.width && c.height == r.height
        }),
    decreases n,
{
    let front = candidates(r, width, height, radius, (n - 1) as nat);
    if i < front.len() {
        lemma_candidates_inside(r, width, height, radius, (n - 1) as nat, i);
    } else {
        lemma_row_inside(
            r,
            width,
            height,
            radius,
            n - 1 - radius,
            (2 * radius + 1) as nat,
            i - front.len(),
        );
    }
}

/// Whether `c` is `r` at a place within the frame that is at most `radius` pixels away, along each
/// side.
pub open spec fn is_within_reach(
    r: PixelRect,
    c: PixelRect,
    width: int,
    height: int,
    radius: int,
) -> bool {
    &&& c.width == r.width && c.height == r.height
    &&& 0 <= c.x && c.x + c.width <= width
    &&& 0 <= c.y && c.y + c.height <= height
    &&& -radius <= c.x - r.x <= radius
    &&& -radius <= c.y - r.y <= radius
}

/// Whether a place comes before another when a frame is read row by row.
pub open spec fn is_scanned_before(a: PixelRect, b: PixelRect) -> bool {
    a.y < b.y || (a.y == b.y && a.x < b.x)
}

proof fn lemma_row_is_what_is_in_reach(
    r: PixelRect,
    width: int,
    height: int,
    radius: int,
    dy: int,
    n: nat,
)
    requires
        0 <= width <= i32::MAX,
        0 <= height <= i32::MAX,
        r.width >= 0,
        r.height >= 0,
    ensures
        ({
            let row = row_candidates(r, width, height, radius, dy, n);
            &&& forall|i: int| #![trigger row[i]]
                0 <= i < row.len() ==> {
                    let c = row[i];
                    &&& c.width == r.width && c.height == r.height
                    &&& 0 <= c.x && c.x + c.width <= width
                    &&& 0 <= c.y && c.y + c.height <= height
                    &&& -radius <= c.x - r.x < n - radius
                    &&& c.y - r.y == dy
                }
            &&& forall|c: PixelRect| #![trigger row.contains(c)]
                {
                    &&& c.width == r.width && c.height == r.height
                    &&& 0 <= c.x && c.x + c.width <= width
                    &&& 0 <= c.y && c.y + c.height <= height
                    &&& -radius <= c.x - r.x < n - radius
                    &&& c.y - r.y == dy
                } ==> row.contains(c)
            &&& forall|i: int, j: int|
                0 <= i < j < row.len() ==> (#[trigger] row[i]).x < (#[trigger] row[j]).x
        }),
    decreases n,
{
    if n > 0 {
        let front = row_candidates(r, width, height, radius, dy, (n - 1) as nat);
        let row = row_candidates(r, width, height, radius, dy, n);
        let dx = n - 1 - radius;
        lemma_row_is_what_is_in_reach(r, width, height, radius, dy, (n - 1) as nat);
        assert forall|c: PixelRect| #![trigger row.contains(c)]
            {
                &&& c.width == r.width && c.height == r.height
                &&& 0 <= c.x && c.x + c.width <= width
                &&& 0 <= c.y && c.y + c.height <= height
                &&& -radius <= c.x - r.x < n - radius
                &&& c.y - r.y == dy
            } implies row.contains(c) by {
            if c.x - r.x == dx {
                assert(fits(r, dx, dy, width, height));
                assert(row.last() == c);
            } else {
                assert(front.contains(c));
                let k = choose|k: int| 0 <= k < front.len() && front[k] == c;
                assert(row[k] == c);
            }
        }
    }
}

proof fn lemma_rows_are_what_is_in_reach(
    r: PixelRect,
    width: int,
    height: int,
    radius: int,
    n: nat,
)
    requires
        0 <= radius,
        0 <= width <= i32::MAX,
        0 <= height <= i32::MAX,
        r.width >= 0,
        r.height >= 0,
    ensures
        ({
            let all = candidates(r, width, height, radius, n);
            &&& forall|i: int| #![trigger all[i]]
                0 <= i < all.len() ==> is_within_reach(r, all[i], width, height, radius + n)
                    && -radius <= all[i].x - r.x <= radius && -radius <= all[i].y - r.y < n
                    - radius
            &&& forall|c: PixelRect| #![trigger all.contains(c)]
                is_within_reach(r, c, width, height, radius) && c.y - r.y < n - radius
                    ==> all.contains(c)
            &&& forall|i: int, j: int|
                0 <= i < j < all.len() ==> is_scanned_before(#[trigger] all[i], #[trigger] all[j])
        }),
    decreases n,
{
    if n > 0 {
        let front = candidates(r, width, height, radius, (n - 1) as nat);
        let dy = n - 1 - radius;
        let row = row_candidates(r, width, height, radius, dy, (2 * radius + 1) as nat);
        let all = candidates(r, width, height, radius, n);
        lemma_rows_are_what_is_in_reach(r, width, height, radius, (n - 1) as nat);
        lemma_row_is_what_is_in_reach(r, width, height, radius, dy, (2 * radius + 1) as nat);
        assert forall|c: PixelRect| #![trigger all.contains(c)]
            is_within_reach(r, c, width, height, radius) && c.y - r.y < n - radius implies all.contains(
            c,
        ) by {
            if c.y - r.y == dy {
                assert(row.contains(c));
                let k = choose|k: int| 0 <= k < row.len() && row[k] == c;
                assert(all[front.len() + k] == c);
            } else {
                assert(front.contains(c));
                let k = choose|k: int| 0 <= k < front.len() && front[k] == c;
                assert(all[k] == c);
            }
        }
        assert forall|i: int, j: int| 0 <= i < j < all.len() implies is_scanned_before(
            #[trigger] all[i],
            #[trigger] all[j],
        ) by {
            if i >= front.len() {
                assert(all[i] == row[i - front.len()] && all[j] == row[j - front.len()]);
            } else if j >= front.len() {
                assert(all[i] == front[i] && all[j] == row[j - front.len()]);
            } else {
                assert(all[i] == front[i] && all[j] == front[j]);
            }
        }
        assert forall|i: int| #![trigger all[i]] 0 <= i < all.len() implies is_within_reach(
            r,
            all[i],
            width,
            height,
            radius + n,
        ) && -radius <= all[i].x - r.x <= radius && -radius <= all[i].y - r.y < n - radius by {
            if i < front.len() {
                assert(all[i] == front[i]);
            } else {
                assert(all[i] == row[i - front.len()]);
            }
        }
    }
}

/// A search looks everywhere in its reach: what is scored is every place within the frame that is
/// at most `radius` pixels to the left or right and at most `radius` pixels up or down, each once,
/// row by row, and nothing else.
pub proof fn lemma_candidates_are_what_is_in_reach(
    r: PixelRect,
    width: int,
    height: int,
    radius: int,
)
    requires
        0 <= radius,
        0 <= width <= i32::MAX,
        0 <= height <= i32::MAX,
        r.width >= 0,
        r.height >= 0,
    ensures
        ({
            let all = candidates(r, width, height, radius, (2 * radius + 1) as nat);
            &&& forall|c: PixelRect| #![trigger all.contains(c)]
                all.contains(c) <==> is_within_reach(r, c, width, height, radius)
            &&& forall|i: int, j: int|
                0 <= i < j < all.len() ==> is_scanned_before(#[trigger] all[i], #[trigger] all[j])
        }),
{
    let all = candidates(r, width, height, radius, (2 * radius + 1) as nat);
    lemma_rows_are_what_is_in_reach(r, width, height, radius, (2 * radius + 1) as nat);
    assert forall|c: PixelRect| #![trigger all.contains(c)] all.contains(c) implies is_within_reach(
        r,
        c,
        width,
        height,
        radius,
    ) by {
        let k = choose|k: int| 0 <= k < all.len() && all[k] == c;
        assert(all[k] == c);
    }
}

// -------------------------------------------------------------------- frames
/// A frame with a plane of brightness and two of colour, all of the same size.
#[derive(Debug)]
pub struct YuvFrame {
    pub y: Vec<u8>,
    pub u: Vec<u8>,
    pub v: Vec<u8>,
}

/// Whether a frame is the one at place `i` in the bytes.
pub open spec fn is_frame(f: YuvFrame, bytes: Seq<u8>, plane: int, i: int) -> bool {
    &&& f.y@ == bytes.subrange(3 * plane * i, 3 * plane * i + plane)
    &&& f.u@ == bytes.subrange(3 * plane * i + plane, 3 * plane * i + 2 * plane)
    &&& f.v@ == bytes.subrange(3 * plane * i + 2 * plane, 3 * plane * i + 3 * plane)
}

fn bytes_between(bytes: &Vec<u8>, from: usize, to: usize) -> (r: Vec<u8>)
    requires
        from <= to <= bytes@.len(),
    ensures
        r@ == bytes@.subrange(from as int, to as int),
{
    let mut r: Vec<u8> = Vec::new();
    let mut i: usize = from;
    while i < to
        invariant
            from <= i <= to <= bytes@.len(),
            r@ == bytes@.subrange(from as int, i as int),
        decreases to - i,
    {
        r.push(bytes[i]);
        proof {
            assert(r@ =~= bytes@.subrange(from as int, i + 1));
        }
        i = i + 1;
    }
    r
}

/// Cuts decoded bytes into frames. What is left at the end of no whole frame is dropped.
pub fn split_frames(bytes: &Vec<u8>, plane_size: usize) -> (r: Result<
    Vec<YuvFrame>,
    (TrackingFailure, String),
>)
    requires
        0 < plane_size <= 0x1000_0000,
    ensures
        match r {
            Ok(f) => {
                &&& bytes@.len() >= 3 * plane_size
                &&& f@.len() == bytes@.len() as int / (3 * plane_size)
                &&& forall|i: int|
                    0 <= i < f@.len() ==> is_frame(
                        #[trigger] f@[i],
                        bytes@,
                        plane_size as int,
                        i,
                    )
            },
            Err(e) => bytes@.len() < 3 * plane_size && e.0 == TrackingFailure::Failed && e.1@
                == "Tracking decode produced no frames"@,
        },
{
    let frame_size: usize = plane_size * 3;
    if bytes.len() < frame_size {
        return Err((TrackingFailure::Failed, owned("Tracking decode produced no frames")));
    }
    let count: usize = bytes.len() / frame_size;
    let mut r: Vec<YuvFrame> = Vec::new();
    let mut i: usize = 0;
    let mut at: usize = 0;
    let ghost total = bytes.len();
    proof {
        assert(frame_size * count <= total) by (nonlinear_arith)
            requires
                count == total / frame_size,
                frame_size > 0,
        ;
    }
    while i < count
        invariant
            i <= count,
            r@.len() == i,
            0 < plane_size <= 0x1000_0000,
            frame_size == 3 * plane_size,
            at == frame_size * i,
            frame_size * count <= total,
            total == bytes.len(),
            forall|k: int|
                0 <= k < i ==> is_frame(#[trigger] r@[k], bytes@, plane_size as int, k),
        decreases count - i,
    {
        proof {
            assert(frame_size * i + frame_size <= frame_size * count) by (nonlinear_arith)
                requires
                    i + 1 <= count,
                    frame_size > 0,
            ;
            assert(frame_size * (i + 1) == frame_size * i + frame_size) by (nonlinear_arith);
            assert(3 * plane_size * i == frame_size * i);
        }
        r.push(
            YuvFrame {
                y: bytes_between(bytes, at, at + plane_size),
                u: bytes_between(bytes, at + plane_size, at + 2 * plane_size),
                v: bytes_between(bytes, at + 2 * plane_size, at + 3 * plane_size),
            },
        );
        at = at + frame_size;
        i = i + 1;
    }
    Ok(r)
}

/// The command line that decodes the frames of a job to a file. The times are in seconds and the
/// rate is in frames per second.
pub fn tracking_decode_args(
    job: &TrackingJob,
    start: &str,
    duration: &str,
    rate: &str,
    raw_path: &str,
) -> (r: Vec<String>)
    ensures
        views(r@) == seq![
            "-hide_banner"@,
            "-loglevel"@,
            "error"@,
            "-nostdin"@,
            "-y"@,
            "-ss"@,
            start@,
            "-t"@,
            duration@,
            "-i"@,
            job.source_path@,
            "-an"@,
            "-sn"@,
            "-dn"@,
            "-vf"@,
            decode_filter(rate@),
            "-frames:v"@,
            decimal(expected_frames(*job)),
            "-pix_fmt"@,
            "yuv444p"@,
            "-f"@,
            "rawvideo"@,
            raw_path@,
        ],
{
    let mut filter = owned("fps=");
    filter.append(rate);
    filter.append(",scale=");
    push_decimal(&mut filter, ANALYSIS_WIDTH as u64);
    filter.append(":");
    push_decimal(&mut filter, ANALYSIS_HEIGHT as u64);
    filter.append(":flags=bicubic+full_chroma_int,format=yuv444p");
    let count: usize = job.estimated_sample_count();
    let frames: u64 = if count == 0 {
        1
    } else {
        count as u64
    };
    let mut r: Vec<String> = Vec::new();
    arg(&mut r, "-hide_banner");
    arg2(&mut r, "-loglevel", "error");
    arg2(&mut r, "-nostdin", "-y");
    arg2(&mut r, "-ss", start);
    arg2(&mut r, "-t", duration);
    arg2(&mut r, "-i", &job.source_path);
    arg2(&mut r, "-an", "-sn");
    arg(&mut r, "-dn");
    arg2(&mut r, "-vf", &filter);
    arg2(&mut r, "-frames:v", &decimal_text(frames));
    arg2(&mut r, "-pix_fmt", "yuv444p");
    arg2(&mut r, "-f", "rawvideo");
    arg(&mut r, raw_path);
    proof {
        assert(views(r@) =~= seq![
            "-hide_banner"@,
            "-loglevel"@,
            "error"@,
            "-nostdin"@,
            "-y"@,
            "-ss"@,
            start@,
            "-t"@,
            duration@,
            "-i"@,
            job.source_path@,
            "-an"@,
            "-sn"@,
            "-dn"@,
            "-vf"@,
            decode_filter(rate@),
            "-frames:v"@,
            decimal(expected_frames(*job)),
            "-pix_fmt"@,
            "yuv444p"@,
            "-f"@,
            "rawvideo"@,
            raw_path@,
        ]);
    }
    r
}

/// The number of frames that are decoded.
pub open spec fn expected_frames(j: TrackingJob) -> nat {
    if sample_count(j) < 1 {
        1
    } else {
        sample_count(j) as nat
    }
}

/// The filter that brings frames to the rate and size of the analysis.
pub open spec fn decode_filter(rate: Seq<char>) -> Seq<char> {
    "fps="@ + rate + ",scale="@ + decimal(ANALYSIS_WIDTH as nat) + ":"@ + decimal(
        ANALYSIS_HEIGHT as nat,
    ) + ":flags=bicubic+full_chroma_int,format=yuv444p"@
}

/// Time in the source at which the analysis begins.
pub fn decode_start_ns(job: &TrackingJob) -> (r: u64)
    ensures
        r == (if job.clip_source_in_ns + job.analysis_start_ns > u64::MAX {
            u64::MAX as int
        } else {
            job.clip_source_in_ns + job.analysis_start_ns
        }),
{
    if job.analysis_start_ns > u64::MAX - job.clip_source_in_ns {
        u64::MAX
    } else {
        job.clip_source_in_ns + job.analysis_start_ns
    }
}

// ------------------------------------------------------------------ analyses
/// Why a job cannot be run.
pub open spec fn job_error(j: TrackingJob, is_image: bool, is_audio_only: bool) -> Option<Seq<char>> {
    if trim(j.source_path@).len() == 0 {
        Some("Tracking source_path is empty"@)
    } else if j.analysis_end_ns <= j.analysis_start_ns {
        Some("Tracking analysis_end_ns must be greater than analysis_start_ns"@)
    } else if is_image || is_audio_only {
        Some("Motion tracking currently requires a video clip with decodable frames"@)
    } else {
        None
    }
}

/// Checks whether a job can be run, by what was probed of its source.
pub fn check_tracking_job(job: &TrackingJob, is_image: bool, is_audio_only: bool) -> (r: Result<
    (),
    (TrackingFailure, String),
>)
    ensures
        match r {
            Ok(_) => job_error(*job, is_image, is_audio_only) is None,
            Err(e) => e.0 == TrackingFailure::Failed && job_error(*job, is_image, is_audio_only)
                == Some(e.1@),
        },
{
    if blank(&job.source_path) {
        return Err((TrackingFailure::Failed, owned("Tracking source_path is empty")));
    }
    if job.analysis_end_ns <= job.analysis_start_ns {
        return Err(
            (
                TrackingFailure::Failed,
                owned("Tracking analysis_end_ns must be greater than analysis_start_ns"),
            ),
        );
    }
    if is_image || is_audio_only {
        return Err(
            (
                TrackingFailure::Failed,
                owned("Motion tracking currently requires a video clip with decodable frames"),
            ),
        );
    }
    Ok(())
}

/// An analysis as it is kept in the cache.
#[derive(Debug)]
pub struct CachedTrackingAnalysis {
    pub analysis_region: TrackingRegion,
    pub analysis_start_ns: u64,
    pub analysis_end_ns: Option<u64>,
    pub samples: Vec<TrackingSample>,
}

/// Whether a tracker is made of an analysis.
pub open spec fn is_tracker_of(
    t: MotionTracker,
    a: CachedTrackingAnalysis,
    id: Seq<char>,
    label: Seq<char>,
) -> bool {
    &&& t.id@ == id
    &&& t.label@ == label
    &&& t.enabled
    &&& t.analysis_region == a.analysis_region
    &&& t.analysis_start_ns == a.analysis_start_ns
    &&& t.analysis_end_ns == a.analysis_end_ns
    &&& t.samples@ == a.samples@
}

impl CachedTrackingAnalysis {
    /// A tracker of this analysis.
    pub fn into_motion_tracker(&self, tracker_id: &str, tracker_label: &str) -> (r: MotionTracker)
        ensures
            is_tracker_of(r, *self, tracker_id@, tracker_label@),
    {
        MotionTracker {
            id: owned(tracker_id),
            label: owned(tracker_label),
            enabled: true,
            analysis_region: self.analysis_region,
            analysis_start_ns: self.analysis_start_ns,
            analysis_end_ns: self.analysis_end_ns,
            samples: copy_plain(&self.samples),
        }
    }
}

/// What is known of the process that decodes the frames.
#[derive(Debug)]
pub enum DecoderState {
    Running,
    Ended { success: bool },
    /// It could not be asked.
    Unknown { error: String },
}

/// Whether decoding is over, from whether the job was cancelled and what is known of the process.
/// The process is stopped on an error that comes while it may be running.
pub fn decoding_is_over(cancelled: bool, state: &DecoderState) -> (r: Result<
    bool,
    (TrackingFailure, String),
>)
    ensures
        match r {
            Ok(over) => !cancelled && match *state {
                DecoderState::Running => !over,
                DecoderState::Ended { success } => success && over,
                DecoderState::Unknown { .. } => false,
            },
            Err(e) => if cancelled {
                e.0 == TrackingFailure::Cancelled && e.1@ == "Tracking canceled"@
            } else {
                e.0 == TrackingFailure::Failed && match *state {
                    DecoderState::Running => false,
                    DecoderState::Ended { success } => !success && e.1@
                        == "ffmpeg tracking decode failed"@,
                    DecoderState::Unknown { error } => e.1@
                        == "Failed waiting for ffmpeg tracking decode: "@ + error@,
                }
            },
        },
{
    if cancelled {
        return Err((TrackingFailure::Cancelled, owned("Tracking canceled")));
    }
    match state {
        DecoderState::Running => Ok(false),
        DecoderState::Ended { success } => if *success {
            Ok(true)
        } else {
            Err((TrackingFailure::Failed, owned("ffmpeg tracking decode failed")))
        },
        DecoderState::Unknown { error } => {
            let mut e = owned("Failed waiting for ffmpeg tracking decode: ");
            e.append(error);
            Err((TrackingFailure::Failed, e))
        },
    }
}

/// The analysis of a job whose frames have been searched, with the samples made of the positions.
pub fn finished_analysis(job: &TrackingJob, samples: Vec<TrackingSample>) -> (r:
    CachedTrackingAnalysis)
    ensures
        r.analysis_region == job.analysis_region,
        r.analysis_start_ns == job.analysis_start_ns,
        r.analysis_end_ns == Some(job.analysis_end_ns),
        r.samples == samples,
{
    CachedTrackingAnalysis {
        analysis_region: job.analysis_region,
        analysis_start_ns: job.analysis_start_ns,
        analysis_end_ns: Some(job.analysis_end_ns),
        samples,
    }
}

/// What came of a job.
#[derive(Debug)]
pub struct WorkerResult {
    pub cache_key: String,
    pub job: TrackingJob,
    pub analysis: Option<CachedTrackingAnalysis>,
    pub canceled: bool,
    pub error: Option<String>,
}

/// What workers report.
#[derive(Debug)]
pub enum WorkerUpdate {
    Progress { cache_key: String, processed_samples: usize, total_samples: usize },
    Done(WorkerResult),
}

/// What came of a job, from the outcome of its analysis.
pub fn run_tracking_job(
    cache_key: String,
    job: TrackingJob,
    outcome: Result<CachedTrackingAnalysis, (TrackingFailure, String)>,
) -> (r: WorkerResult)
    ensures
        r.cache_key == cache_key,
        r.job == job,
        match outcome {
            Ok(a) => r.analysis == Some(a) && !r.canceled && r.error is None,
            Err(e) => r.analysis is None && match e.0 {
                TrackingFailure::Cancelled => r.canceled && r.error is None,
                TrackingFailure::Failed => !r.canceled && r.error == Some(e.1),
            },
        },
{
    match outcome {
        Ok(a) => WorkerResult { cache_key, job, analysis: Some(a), canceled: false, error: None },
        Err(e) => match e.0 {
            TrackingFailure::Cancelled => WorkerResult {
                cache_key,
                job,
                analysis: None,
                canceled: true,
                error: None,
            },
            TrackingFailure::Failed => WorkerResult {
                cache_key,
                job,
                analysis: None,
                canceled: false,
                error: Some(e.1),
            },
        },
    }
}

// --------------------------------------------------------------------- cache
/// How far a job has come.
#[derive(Debug, Clone, Copy, PartialEq, Eq, Structural)]
pub struct TrackingJobProgress {
    pub processed_samples: usize,
    pub total_samples: usize,
}

/// How far all jobs have come; `samples` tells the samples done and those there are, if any.
#[derive(Debug, Clone, Copy, PartialEq, Eq)]
pub struct TrackingProgress {
    pub total: usize,
    pub completed: usize,
    pub in_flight: bool,
    pub samples: Option<(u128, u128)>,
}

/// What became of a job that was asked for.
#[derive(Debug)]
pub struct TrackingPollResult {
    pub cache_key: String,
    pub source_path: String,
    pub tracker: Option<MotionTracker>,
    pub canceled: bool,
    pub error: Option<String>,
}

/// The analyses of a session.
pub struct TrackingCache {
    pub results: StringMap<CachedTrackingAnalysis>,
    pub pending: StringSet,
    pub failed: StringSet,
    pub progress_by_key: StringMap<TrackingJobProgress>,
    /// The jobs that can be cancelled, and whether they have been.
    pub cancel_flags: StringMap<bool>,
    pub total_requested: usize,
    pub cache_root: String,
    pub last_error: Option<String>,
}

/// What a cache knows.
pub struct TrackingView {
    pub results: Map<Seq<char>, CachedTrackingAnalysis>,
    pub pending: Set<Seq<char>>,
    pub failed: Set<Seq<char>>,
    pub progress: Map<Seq<char>, TrackingJobProgress>,
    pub flags: Map<Seq<char>, bool>,
    pub total: nat,
    pub error: Option<Seq<char>>,
}

/// What is known after a report.
pub open spec fn reported(s: TrackingView, u: WorkerUpdate) -> TrackingView {
    match u {
        WorkerUpdate::Progress { cache_key, processed_samples, total_samples } => TrackingView {
            progress: s.progress.insert(
                cache_key@,
                TrackingJobProgress { processed_samples, total_samples },
            ),
            ..s
        },
        WorkerUpdate::Done(r) => {
            let t = TrackingView {
                pending: s.pending.remove(r.cache_key@),
                progress: s.progress.remove(r.cache_key@),
                flags: s.flags.remove(r.cache_key@),
                ..s
            };
            match r.analysis {
                Some(a) => TrackingView { results: t.results.insert(r.cache_key@, a), ..t },
                None => if r.canceled {
                    t
                } else {
                    TrackingView {
                        failed: t.failed.insert(r.cache_key@),
                        error: option_view(r.error),
                        ..t
                    }
                },
            }
        },
    }
}

/// What is known after several reports.
pub open spec fn all_reported(s: TrackingView, updates: Seq<WorkerUpdate>) -> TrackingView
    decreases updates.len(),
{
    if updates.len() == 0 {
        s
    } else {
        reported(all_reported(s, updates.drop_last()), updates.last())
    }
}

/// Whether a poll result tells what came of a job.
pub open spec fn tells(p: TrackingPollResult, r: WorkerResult) -> bool {
    &&& p.cache_key@ == r.cache_key@
    &&& p.source_path@ == r.job.source_path@
    &&& match r.analysis {
        Some(a) => p.tracker is Some && is_tracker_of(
            p.tracker->Some_0,
            a,
            r.job.tracker_id@,
            r.job.tracker_label@,
        ) && !p.canceled && p.error is None,
        None => p.tracker is None && p.canceled == r.canceled && (if r.canceled {
            p.error is None
        } else {
            option_view(p.error) == option_view(r.error)
        }),
    }
}

/// The jobs that reports settle.
pub open spec fn settled(updates: Seq<WorkerUpdate>) -> Seq<WorkerResult>
    decreases updates.len(),
{
    if updates.len() == 0 {
        Seq::empty()
    } else {
        match updates.last() {
            WorkerUpdate::Done(r) => settled(updates.drop_last()).push(r),
            _ => settled(updates.drop_last()),
        }
    }
}

/// The samples done, and those there are, of the first `n` jobs.
pub open spec fn samples_of(p: Seq<TrackingJobProgress>, n: nat) -> (nat, nat)
    decreases n,
{
    if n == 0 {
        (0, 0)
    } else {
        let s = samples_of(p, (n - 1) as nat);
        (s.0 + p[n - 1].processed_samples as nat, s.1 + p[n - 1].total_samples as nat)
    }
}

/// The directory of the cached analyses.
pub open spec fn tracking_root(cache_home: Option<Seq<char>>, home: Option<Seq<char>>) -> Seq<char> {
    cache_root("tracking"@, cache_home, home)
}

/// The directory of the cached analyses, from the environment.
pub fn tracking_cache_root(cache_home: &Option<String>, home: &Option<String>) -> (r: String)
    ensures
        r@ == tracking_root(option_view(*cache_home), option_view(*home)),
{
    cache_root_dir("tracking", cache_home, home)
}

impl TrackingCache {
    pub open spec fn view(&self) -> TrackingView {
        TrackingView {
            results: self.results@,
            pending: self.pending@,
            failed: self.failed@,
            progress: self.progress_by_key@,
            flags: self.cancel_flags@,
            total: self.total_requested as nat,
            error: option_view(self.last_error),
        }
    }

    /// No key is both pending and settled.
    pub open spec fn wf(&self) -> bool {
        &&& self.results.wf()
        &&& self.pending.wf()
        &&& self.failed.wf()
        &&& self.progress_by_key.wf()
        &&& self.cancel_flags.wf()
        &&& self.pending@.disjoint(self.results@.dom())
        &&& self.pending@.disjoint(self.failed@)
    }

    /// An empty cache over a directory.
    pub fn new(cache_root: String) -> (r: TrackingCache)
        ensures
            r.wf(),
            r.cache_root == cache_root,
            r@ == (TrackingView {
                results: Map::empty(),
                pending: Set::empty(),
                failed: Set::empty(),
                progress: Map::empty(),
                flags: Map::empty(),
                total: 0,
                error: None,
            }),
    {
        TrackingCache {
            results: StringMap::new(),
            pending: StringSet::new(),
            failed: StringSet::new(),
            progress_by_key: StringMap::new(),
            cancel_flags: StringMap::new(),
            total_requested: 0,
            cache_root,
            last_error: None,
        }
    }

    /// The file of an analysis.
    pub fn cache_path_for_key(&self, cache_key: &str) -> (r: String)
        ensures
            r@ == join_path(self.cache_root@, cache_key@ + ".json"@),
    {
        let mut name = owned(cache_key);
        name.append(".json");
        join(&self.cache_root, &name)
    }

    /// Asks for an analysis; returns its key and whether the job has to be run. Nothing happens
    /// where it is known, pending or failed. Where it was found on disk, as `cached` tells, it is
    /// known at once.
    pub fn request(&mut self, job: &TrackingJob, cached: Option<CachedTrackingAnalysis>) -> (r: (
        String,
        bool,
    ))
        requires
            old(self).wf(),
            old(self).total_requested < usize::MAX,
        ensures
            final(self).wf(),
            final(self).cache_root == old(self).cache_root,
            r.0@ == job_key(*job),
            ({
                let s = old(self)@;
                let key = job_key(*job);
                if s.results.dom().contains(key) || s.pending.contains(key) || s.failed.contains(
                    key,
                ) {
                    final(self)@ == s && !r.1
                } else {
                    match cached {
                        Some(a) => final(self)@ == (TrackingView {
                            results: s.results.insert(key, a),
                            ..s
                        }) && !r.1,
                        None => final(self)@ == (TrackingView {
                            pending: s.pending.insert(key),
                            progress: s.progress.insert(
                                key,
                                TrackingJobProgress {
                                    processed_samples: 0,
                                    total_samples: sample_count(*job) as usize,
                                },
                            ),
                            flags: s.flags.insert(key, false),
                            total: s.total + 1,
                            error: None,
                            ..s
                        }) && r.1,
                    }
                }
            }),
    {
        let key = job.cache_key();
        if self.results.contains_key(&key) || self.pending.contains(&key) || self.failed.contains(
            &key,
        ) {
            return (key, false);
        }
        if let Some(a) = cached {
            self.results.insert(key.clone(), a);
            return (key, false);
        }
        self.last_error = None;
        self.total_requested = self.total_requested + 1;
        self.pending.insert(key.clone());
        self.progress_by_key.insert(
            key.clone(),
            TrackingJobProgress {
                processed_samples: 0,
                total_samples: job.estimated_sample_count(),
            },
        );
        self.cancel_flags.insert(key.clone(), false);
        (key, true)
    }

    /// Cancels a job; says whether there was one.
    pub fn cancel(&mut self, cache_key: &str) -> (r: bool)
        requires
            old(self).wf(),
        ensures
            final(self).wf(),
            final(self).cache_root == old(self).cache_root,
            r == old(self)@.flags.dom().contains(cache_key@),
            final(self)@ == (if r {
                TrackingView { flags: old(self)@.flags.insert(cache_key@, true), ..old(self)@ }
            } else {
                old(self)@
            }),
    {
        if self.cancel_flags.contains_key(cache_key) {
            self.cancel_flags.insert(owned(cache_key), true);
            true
        } else {
            false
        }
    }

    /// Whether a job has been cancelled.
    pub fn is_canceled(&self, cache_key: &str) -> (r: bool)
        requires
            self.wf(),
        ensures
            r == (self@.flags.dom().contains(cache_key@) && self@.flags[cache_key@]),
    {
        match self.cancel_flags.get(cache_key) {
            Some(f) => *f,
            None => false,
        }
    }

    fn absorb(&mut self, u: WorkerUpdate, out: &mut Vec<TrackingPollResult>)
        requires
            old(self).wf(),
        ensures
            final(self).wf(),
            final(self).cache_root == old(self).cache_root,
            final(self)@ == reported(old(self)@, u),
            match u {
                WorkerUpdate::Done(r) => {
                    &&& final(out)@.len() == old(out)@.len() + 1
                    &&& final(out)@.subrange(0, old(out)@.len() as int) == old(out)@
                    &&& tells(final(out)@.last(), r)
                },
                _ => final(out)@ == old(out)@,
            },
    {
        let ghost before = out@;
        match u {
            WorkerUpdate::Progress { cache_key, processed_samples, total_samples } => {
                self.progress_by_key.insert(
                    cache_key,
                    TrackingJobProgress { processed_samples, total_samples },
                );
            },
            WorkerUpdate::Done(result) => {
                self.pending.remove(&result.cache_key);
                self.progress_by_key.remove(&result.cache_key);
                self.cancel_flags.remove(&result.cache_key);
                match result.analysis {
                    Some(a) => {
                        let tracker = a.into_motion_tracker(
                            &result.job.tracker_id,
                            &result.job.tracker_label,
                        );
                        self.results.insert(result.cache_key.clone(), a);
                        out.push(
                            TrackingPollResult {
                                cache_key: result.cache_key,
                                source_path: result.job.source_path,
                                tracker: Some(tracker),
                                canceled: false,
                                error: None,
                            },
                        );
                    },
                    None => {
                        if result.canceled {
                            out.push(
                                TrackingPollResult {
                                    cache_key: result.cache_key,
                                    source_path: result.job.source_path,
                                    tracker: None,
                                    canceled: true,
                                    error: None,
                                },
                            );
                        } else {
                            self.failed.insert(result.cache_key.clone());
                            self.last_error = clone_option(&result.error);
                            out.push(
                                TrackingPollResult {
                                    cache_key: result.cache_key,
                                    source_path: result.job.source_path,
                                    tracker: None,
                                    canceled: false,
                                    error: result.error,
                                },
                            );
                        }
                    },
                }
                proof {
                    assert(out@.subrange(0, before.len() as int) =~= before);
                }
            },
        }
    }

    /// Takes in what workers reported, in order, and tells what became of the jobs that are
    /// settled now.
    pub fn poll(&mut self, updates: Vec<WorkerUpdate>) -> (r: Vec<TrackingPollResult>)
        requires
            old(self).wf(),
        ensures
            final(self).wf(),
            final(self).cache_root == old(self).cache_root,
            final(self)@ == all_reported(old(self)@, updates@),
            r@.len() == settled(updates@).len(),
            forall|i: int| 0 <= i < r@.len() ==> tells(#[trigger] r@[i], settled(updates@)[i]),
    {
        let ghost all = updates@;
        let ghost start = self@;
        let ghost root = self.cache_root;
        let mut rest = updates;
        let mut out: Vec<TrackingPollResult> = Vec::new();
        let ghost mut n: int = 0;
        proof {
            assert(all.subrange(0, 0) =~= Seq::empty());
            assert(rest@ =~= all.subrange(0, all.len() as int));
        }
        while rest.len() > 0
            invariant
                self.wf(),
                self.cache_root == root,
                0 <= n <= all.len(),
                rest@ == all.subrange(n, all.len() as int),
                self@ == all_reported(start, all.subrange(0, n)),
                out@.len() == settled(all.subrange(0, n)).len(),
                forall|i: int|
                    0 <= i < out@.len() ==> tells(
                        #[trigger] out@[i],
                        settled(all.subrange(0, n))[i],
                    ),
            decreases rest.len(),
        {
            let u = rest.remove(0);
            let ghost before = out@;
            proof {
                let next = all.subrange(0, n + 1);
                assert(u == all[n]);
                assert(rest@ =~= all.subrange(n + 1, all.len() as int));
                assert(next.drop_last() =~= all.subrange(0, n));
                assert(next.last() == u);
            }
            self.absorb(u, &mut out);
            proof {
                let next = all.subrange(0, n + 1);
                assert forall|i: int| 0 <= i < out@.len() implies tells(
                    #[trigger] out@[i],
                    settled(next)[i],
                ) by {
                    if i < before.len() {
                        assert(out@[i] == out@.subrange(0, before.len() as int)[i]);
                        assert(tells(before[i], settled(all.subrange(0, n))[i]));
                    }
                }
                n = n + 1;
            }
        }
        proof {
            assert(all.subrange(0, n) =~= all);
        }
        out
    }

    /// The tracker of a job whose analysis is known.
    pub fn get_for_job(&self, job: &TrackingJob) -> (r: Option<MotionTracker>)
        requires
            self.wf(),
        ensures
            match r {
                Some(t) => self@.results.dom().contains(job_key(*job)) && is_tracker_of(
                    t,
                    self@.results[job_key(*job)],
                    job.tracker_id@,
                    job.tracker_label@,
                ),
                None => !self@.results.dom().contains(job_key(*job)),
            },
    {
        match self.results.get(&job.cache_key()) {
            Some(a) => Some(a.into_motion_tracker(&job.tracker_id, &job.tracker_label)),
            None => None,
        }
    }

    /// How far a job has come.
    pub fn job_progress(&self, cache_key: &str) -> (r: Option<TrackingJobProgress>)
        requires
            self.wf(),
        ensures
            match r {
                Some(p) => self@.progress.dom().contains(cache_key@) && p
                    == self@.progress[cache_key@],
                None => !self@.progress.dom().contains(cache_key@),
            },
    {
        match self.progress_by_key.get(cache_key) {
            Some(p) => Some(*p),
            None => None,
        }
    }

    /// How far all jobs have come.
    pub fn progress(&self) -> (r: TrackingProgress)
        requires
            self.wf(),
        ensures
            r.total == self.total_requested,
            r.completed == self.results.names().len(),
            r.in_flight == (self@.pending != Set::<Seq<char>>::empty()),
            ({
                let p = self.progress_by_key.values@;
                let s = samples_of(p, p.len());
                match r.samples {
                    Some(x) => s.1 > 0 && x.0 == s.0 && x.1 == s.1,
                    None => s.1 == 0,
                }
            }),
    {
        let mut done: u128 = 0;
        let mut total: u128 = 0;
        let mut i: usize = 0;
        let n: usize = self.progress_by_key.values.len();
        while i < n
            invariant
                i <= n == self.progress_by_key.values@.len(),
                samples_of(self.progress_by_key.values@, i as nat) == (done as nat, total as nat),
                done <= i * 0xffff_ffff_ffff_ffff,
                total <= i * 0xffff_ffff_ffff_ffff,
            decreases n - i,
        {
            let p: TrackingJobProgress = self.progress_by_key.values[i];
            done = done + p.processed_samples as u128;
            total = total + p.total_samples as u128;
            i = i + 1;
        }
        TrackingProgress {
            total: self.total_requested,
            completed: self.results.len(),
            in_flight: !self.pending.is_empty(),
            samples: if total > 0 {
                Some((done, total))
            } else {
                None
            },
        }
    }

    /// Forgets an analysis; its file, which is returned, goes too.
    pub fn invalidate(&mut self, cache_key: &str) -> (r: String)
        requires
            old(self).wf(),
        ensures
            final(self).wf(),
            final(self).cache_root == old(self).cache_root,
            r@ == join_path(old(self).cache_root@, cache_key@ + ".json"@),
            final(self)@ == (TrackingView {
                results: old(self)@.results.remove(cache_key@),
                failed: old(self)@.failed.remove(cache_key@),
                progress: old(self)@.progress.remove(cache_key@),
                ..old(self)@
            }),
    {
        self.results.remove(cache_key);
        self.failed.remove(cache_key);
        self.progress_by_key.remove(cache_key);
        self.cache_path_for_key(cache_key)
    }

    /// Forgets everything but how much was asked for.
    pub fn invalidate_all(&mut self)
        requires
            old(self).wf(),
        ensures
            final(self).wf(),
            final(self).cache_root == old(self).cache_root,
            final(self)@ == (TrackingView {
                results: Map::empty(),
                pending: Set::empty(),
                failed: Set::empty(),
                progress: Map::empty(),
                flags: Map::empty(),
                error: None,
                ..old(self)@
            }),
    {
        self.results.clear();
        self.pending.clear();
        self.failed.clear();
        self.progress_by_key.clear();
        self.cancel_flags.clear();
        self.last_error = None;
    }
}

/// When a job comes back, its key is no longer pending and its flag is gone. A finished analysis is
/// kept, a failed one is noted as failed, and a cancelled one leaves no trace, so that it may be
/// asked for again.
pub proof fn lemma_settled_key(s: TrackingView, r: WorkerResult)
    ensures
        ({
            let t = reported(s, WorkerUpdate::Done(r));
            let key = r.cache_key@;
            &&& !t.pending.contains(key)
            &&& !t.flags.dom().contains(key)
            &&& r.analysis is Some ==> t.results.dom().contains(key)
            &&& r.analysis is None && !r.canceled ==> t.failed.contains(key)
            &&& r.analysis is None && r.canceled ==> t.failed == s.failed && t.results == s.results
        }),
{
}

// ----------------------------------------------------------------- auto-crop
/// The values that crop a clip to a region.
#[derive(Debug, Clone, Copy, PartialEq, Eq, Structural)]
pub struct AutoCropBindingValues {
    pub scale_multiplier: Real,
    pub offset_x: Real,
    pub offset_y: Real,
}

/// A binding that keeps a tracked region in the middle of the picture: it moves and scales, and
/// does not turn.
pub fn compute_auto_crop_binding(
    source_clip_id: &str,
    tracker_id: &str,
    values: AutoCropBindingValues,
) -> (r: TrackingBinding)
    ensures
        r.source_clip_id@ == source_clip_id@,
        r.tracker_id@ == tracker_id@,
        r.apply_translation,
        r.apply_scale,
        !r.apply_rotation,
        r.offset_x == values.offset_x,
        r.offset_y == values.offset_y,
        r.scale_multiplier == values.scale_multiplier,
        r.rotation_offset_deg.bits == 0,
        r.strength.bits == crate::numbers::ONE_BITS,
        r.smoothing.bits == 0,
{
    TrackingBinding {
        source_clip_id: owned(source_clip_id),
        tracker_id: owned(tracker_id),
        apply_translation: true,
        apply_scale: true,
        apply_rotation: false,
        offset_x: values.offset_x,
        offset_y: values.offset_y,
        scale_multiplier: values.scale_multiplier,
        rotation_offset_deg: Real::zero(),
        strength: Real::one(),
        smoothing: Real::zero(),
    }
}

/// A frame is three planes, one behind the other, and frames stand one behind the other.
pub proof fn lemma_frame_planes(f: YuvFrame, bytes: Seq<u8>, plane: int, i: int, k: int)
    requires
        is_frame(f, bytes, plane, i),
        0 <= i,
        0 <= k < plane,
        3 * plane * (i + 1) <= bytes.len(),
    ensures
        f.y@.len() == plane,
        f.u@.len() == plane,
        f.v@.len() == plane,
        f.y@[k] == bytes[(3 * i) * plane + k],
        f.u@[k] == bytes[(3 * i + 1) * plane + k],
        f.v@[k] == bytes[(3 * i + 2) * plane + k],
{
    assert(3 * plane * i >= 0) by (nonlinear_arith)
        requires
            plane > 0,
            i >= 0,
    ;
    assert(3 * plane * (i + 1) == 3 * plane * i + 3 * plane) by (nonlinear_arith);
    assert((3 * i) * plane == 3 * plane * i) by (nonlinear_arith);
    assert((3 * i + 1) * plane == 3 * plane * i + plane) by (nonlinear_arith);
    assert((3 * i + 2) * plane == 3 * plane * i + 2 * plane) by (nonlinear_arith);
}

/// A job can be run where it names a source, has something to analyse, and the source shows moving
/// pictures.
pub proof fn lemma_job_error(j: TrackingJob, is_image: bool, is_audio_only: bool)
    ensures
        job_error(j, is_image, is_audio_only) is None <==> trim(j.source_path@).len() > 0
            && j.analysis_start_ns < j.analysis_end_ns && !is_image && !is_audio_only,
{
}

} // verus!
