//! Cache of the peaks of sound.
//!
//! Peaks are held by the bit patterns of their single-precision values. What is negative or no
//! number counts as zero; the patterns of the others are ordered as the values are.

use crate::extraction::{startable, JobQueue};
use crate::keyed::{StringMap, StringSet};
use crate::numbers::{Real, INFINITY_BITS, ONE_BITS, SIGN_BIT};
use crate::text::{owned, views};
use vstd::prelude::*;

verus! {

/// Peaks for each second of sound.
pub const PEAKS_PER_SEC: u32 = 100;

/// What a peak counts as: zero where it is negative or no number.
pub open spec fn height(bits: u32) -> u32 {
    if bits > 0x7f80_0000 {
        0
    } else {
        bits
    }
}

fn height_of(bits: u32) -> (r: u32)
    ensures
        r == height(bits),
{
    if bits > 0x7f80_0000 {
        0
    } else {
        bits
    }
}

/// The larger of two peaks.
pub open spec fn larger(a: u32, b: u32) -> u32 {
    if a < b {
        b
    } else {
        a
    }
}

/// The largest of the peaks, zero where there are none.
pub open spec fn peak_of(s: Seq<u32>) -> u32
    decreases s.len(),
{
    if s.len() == 0 {
        0
    } else {
        larger(peak_of(s.drop_last()), height(s.last()))
    }
}

/// The larger of each two neighbouring peaks; the last stays where it has no neighbour.
pub open spec fn pooled(s: Seq<u32>) -> Seq<u32> {
    Seq::new(
        (s.len() + 1) / 2,
        |i: int|
            if 2 * i + 1 < s.len() {
                larger(height(s[2 * i]), height(s[2 * i + 1]))
            } else {
                height(s[2 * i])
            },
    )
}

/// The coarser levels of peaks, each half as long as the one before, down to one peak.
pub open spec fn levels_of(s: Seq<u32>) -> Seq<Seq<u32>>
    decreases s.len(),
{
    if s.len() <= 1 {
        Seq::empty()
    } else {
        seq![pooled(s)] + levels_of(pooled(s))
    }
}

/// The levels as sequences.
pub open spec fn level_views(v: Seq<Vec<u32>>) -> Seq<Seq<u32>> {
    v.map_values(|x: Vec<u32>| x@)
}

fn pool(s: &Vec<u32>) -> (r: Vec<u32>)
    ensures
        r@ == pooled(s@),
{
    let mut r: Vec<u32> = Vec::new();
    let mut i: usize = 0;
    let n: usize = s.len();
    while i < n
        invariant
            n == s@.len(),
            i <= n,
            i % 2 == 0 || i == n,
            r@.len() == (i + 1) / 2,
            forall|k: int| 0 <= k < r@.len() ==> #[trigger] r@[k] == pooled(s@)[k],
        decreases n - i,
    {
        let a: u32 = height_of(s[i]);
        if n - i > 1 {
            let b: u32 = height_of(s[i + 1]);
            r.push(
                if a < b {
                    b
                } else {
                    a
                },
            );
            i = i + 2;
        } else {
            r.push(a);
            i = n;
        }
    }
    proof {
        assert(r@ =~= pooled(s@));
    }
    r
}

/// The coarser levels of peaks.
pub fn build_lod_levels(raw: &Vec<u32>) -> (r: Vec<Vec<u32>>)
    ensures
        level_views(r@) == levels_of(raw@),
{
    let mut levels: Vec<Vec<u32>> = Vec::new();
    if raw.len() <= 1 {
        proof {
            assert(level_views(levels@) =~= levels_of(raw@));
        }
        return levels;
    }
    let mut current: Vec<u32> = pool(raw);
    proof {
        assert(level_views(levels@) + (seq![current@] + levels_of(current@)) =~= levels_of(raw@));
    }
    while current.len() > 1
        invariant
            level_views(levels@) + (seq![current@] + levels_of(current@)) == levels_of(raw@),
        decreases current.len(),
    {
        let next: Vec<u32> = pool(&current);
        let ghost before = levels@;
        let ghost c = current@;
        levels.push(current);
        proof {
            assert(level_views(levels@) =~= level_views(before).push(c));
            assert(level_views(levels@) + (seq![next@] + levels_of(next@)) =~= level_views(before)
                + (seq![c] + levels_of(c)));
        }
        current = next;
    }
    let ghost before = levels@;
    let ghost c = current@;
    levels.push(current);
    proof {
        assert(level_views(levels@) =~= level_views(before).push(c));
        assert(levels_of(c) =~= Seq::empty());
        assert(level_views(before) + (seq![c] + levels_of(c)) =~= level_views(before).push(c));
    }
    levels
}

/// No peak is higher than the largest, and one of them is as high.
pub proof fn lemma_peak_bounds(s: Seq<u32>)
    ensures
        forall|i: int| 0 <= i < s.len() ==> height(#[trigger] s[i]) <= peak_of(s),
        s.len() > 0 ==> exists|i: int| 0 <= i < s.len() && height(#[trigger] s[i]) == peak_of(s),
        peak_of(s) <= 0x7f80_0000,
    decreases s.len(),
{
    if s.len() > 0 {
        let t = s.drop_last();
        lemma_peak_bounds(t);
        assert forall|i: int| 0 <= i < s.len() implies height(#[trigger] s[i]) <= peak_of(s) by {
            if i < s.len() - 1 {
                assert(t[i] == s[i]);
            }
        }
        assert(s[s.len() - 1] == s.last());
        if s.len() > 1 && peak_of(s) != height(s.last()) {
            let k = choose|k: int| 0 <= k < t.len() && height(#[trigger] t[k]) == peak_of(t);
            assert(s[k] == t[k]);
        } else if s.len() == 1 {
            assert(t =~= Seq::empty());
        }
    }
}

/// Pooling keeps the largest peak.
pub proof fn lemma_pooling_keeps_peak(s: Seq<u32>)
    ensures
        peak_of(pooled(s)) == peak_of(s),
{
    let p = pooled(s);
    lemma_peak_bounds(s);
    lemma_peak_bounds(p);
    if s.len() > 0 {
        assert(p.len() > 0);
        let a = choose|k: int| 0 <= k < s.len() && height(#[trigger] s[k]) == peak_of(s);
        assert(height(p[a / 2]) >= height(s[a]));
        let b = choose|k: int| 0 <= k < p.len() && height(#[trigger] p[k]) == peak_of(p);
        assert(p[b] == height(s[2 * b]) || (2 * b + 1 < s.len() && p[b] == height(s[2 * b + 1])));
    } else {
        assert(p =~= s);
    }
}

/// The coarsest level holds one peak, the largest of all.
pub proof fn lemma_coarsest_level(s: Seq<u32>)
    requires
        s.len() > 1,
    ensures
        levels_of(s).len() > 0,
        levels_of(s).last() == seq![peak_of(s)],
    decreases s.len(),
{
    let p = pooled(s);
    lemma_pooling_keeps_peak(s);
    if p.len() > 1 {
        lemma_coarsest_level(p);
        assert(levels_of(s).last() == levels_of(p).last());
    } else {
        assert(levels_of(p) =~= Seq::empty());
        assert(p.drop_last() =~= Seq::empty());
        assert(peak_of(p.drop_last()) == 0);
        assert(peak_of(p) == height(p[0]));
        assert(p =~= seq![peak_of(s)]);
        assert(levels_of(s) =~= seq![p]);
    }
}

/// How often a number of peaks for a pixel can be halved before it is below two: the exponent of
/// the number where it is at least one, and zero else.
pub open spec fn halvings(x: Real) -> nat {
    if x.bits >= SIGN_BIT || x.bits < ONE_BITS || x.bits > INFINITY_BITS {
        0
    } else {
        (x.bits / 0x10_0000_0000_0000 - 1023) as nat
    }
}

/// The level for a number of peaks for a pixel: about one peak for each pixel, among the levels
/// there are.
pub open spec fn lod_level(x: Real, extra_levels: nat) -> nat {
    if x.bits == INFINITY_BITS || halvings(x) > extra_levels {
        extra_levels
    } else {
        halvings(x)
    }
}

/// `lod_level` of a number of peaks for a pixel.
pub fn choose_lod_level(raw_peaks_per_px: Real, extra_levels: usize) -> (r: usize)
    ensures
        r == lod_level(raw_peaks_per_px, extra_levels as nat),
{
    let b: u64 = raw_peaks_per_px.bits;
    if b >= SIGN_BIT || b < ONE_BITS || b > INFINITY_BITS {
        return 0;
    }
    if b == INFINITY_BITS {
        return extra_levels;
    }
    let e: u64 = b / 0x10_0000_0000_0000 - 1023;
    if e <= extra_levels as u64 {
        e as usize
    } else {
        extra_levels
    }
}

/// A window brought within `len` peaks: at least one peak long, where there is one.
pub open spec fn window(start: usize, end: usize, len: int) -> (int, int) {
    let s = if start < len {
        start as int
    } else {
        len
    };
    let wide = if end < s + 1 {
        s + 1
    } else {
        end as int
    };
    (
        s,
        if wide < len {
            wide
        } else {
            len
        },
    )
}

/// The largest peak in a window.
pub open spec fn peak_in(s: Seq<u32>, w: (usize, usize)) -> u32 {
    let x = window(w.0, w.1, s.len() as int);
    peak_of(s.subrange(x.0, x.1))
}

/// The largest peak in each of the windows.
pub fn sample_peaks_from_level(level_data: &Vec<u32>, windows: &Vec<(usize, usize)>) -> (r: Vec<u32>)
    ensures
        r@ == windows@.map_values(|w: (usize, usize)| peak_in(level_data@, w)),
{
    let mut r: Vec<u32> = Vec::new();
    let len: usize = level_data.len();
    let mut px: usize = 0;
    while px < windows.len()
        invariant
            px <= windows@.len(),
            len == level_data@.len(),
            r@.len() == px,
            forall|k: int| 0 <= k < px ==> #[trigger] r@[k] == peak_in(level_data@, windows@[k]),
        decreases windows.len() - px,
    {
        let (a, b) = windows[px];
        let start: usize = if a < len {
            a
        } else {
            len
        };
        let end: usize = if start == len {
            len
        } else if b <= start {
            start + 1
        } else if b < len {
            b
        } else {
            len
        };
        let mut best: u32 = 0;
        let mut i: usize = start;
        proof {
            assert(level_data@.subrange(start as int, start as int) =~= Seq::empty());
        }
        while i < end
            invariant
                start <= i <= end <= len,
                len == level_data@.len(),
                best == peak_of(level_data@.subrange(start as int, i as int)),
            decreases end - i,
        {
            proof {
                let next = level_data@.subrange(start as int, i + 1);
                assert(next.drop_last() =~= level_data@.subrange(start as int, i as int));
            }
            let h: u32 = height_of(level_data[i]);
            if best < h {
                best = h;
            }
            i = i + 1;
        }
        r.push(best);
        px = px + 1;
    }
    proof {
        assert(r@ =~= windows@.map_values(|w: (usize, usize)| peak_in(level_data@, w)));
    }
    r
}

/// Samples the level that was chosen: level zero is the peaks themselves. There is nothing to
/// sample without peaks, windows or the level.
pub fn sample_cached_peaks(
    raw: &Vec<u32>,
    lod_levels: &Vec<Vec<u32>>,
    level: usize,
    windows: &Vec<(usize, usize)>,
) -> (r: Option<Vec<u32>>)
    ensures
        match r {
            Some(p) => raw@.len() > 0 && windows@.len() > 0 && level <= lod_levels@.len() && p@
                == windows@.map_values(
                |w: (usize, usize)|
                    peak_in(
                        if level == 0 {
                            raw@
                        } else {
                            lod_levels@[level - 1]@
                        },
                        w,
                    ),
            ),
            None => raw@.len() == 0 || windows@.len() == 0 || level > lod_levels@.len(),
        },
{
    if raw.len() == 0 || windows.len() == 0 {
        return None;
    }
    if level == 0 {
        let p = sample_peaks_from_level(raw, windows);
        proof {
            assert(p@ =~= windows@.map_values(
                |w: (usize, usize)|
                    peak_in(
                        if level == 0 {
                            raw@
                        } else {
                            lod_levels@[level - 1]@
                        },
                        w,
                    ),
            ));
        }
        return Some(p);
    }
    if level > lod_levels.len() {
        return None;
    }
    let p = sample_peaks_from_level(&lod_levels[level - 1], windows);
    proof {
        assert(p@ =~= windows@.map_values(
            |w: (usize, usize)|
                peak_in(
                    if level == 0 {
                        raw@
                    } else {
                        lod_levels@[level - 1]@
                    },
                    w,
                ),
        ));
    }
    Some(p)
}

/// The peaks of a source.
#[derive(Debug)]
pub struct RawPeaks {
    pub key: String,
    pub peaks: Vec<u32>,
}

/// The peaks of a session.
pub struct WaveformCache {
    pub data: StringMap<Vec<u32>>,
    pub lod_levels: StringMap<Vec<Vec<u32>>>,
    pub loading: StringSet,
    pub queue: JobQueue<String>,
}

/// The peaks under each source.
pub open spec fn peaks_map(m: Map<Seq<char>, Vec<u32>>) -> Map<Seq<char>, Seq<u32>> {
    Map::new(|k: Seq<char>| m.dom().contains(k), |k: Seq<char>| m[k]@)
}

/// What a cache knows.
pub struct WaveformView {
    pub data: Map<Seq<char>, Seq<u32>>,
    pub loading: Set<Seq<char>>,
    pub in_flight: nat,
}

/// What is known after peaks came back. Sources without peaks are not kept.
pub open spec fn received(s: WaveformView, r: RawPeaks) -> WaveformView {
    WaveformView {
        data: if r.peaks@.len() > 0 {
            s.data.insert(r.key@, r.peaks@)
        } else {
            s.data
        },
        loading: s.loading.remove(r.key@),
        in_flight: if s.in_flight > 0 {
            (s.in_flight - 1) as nat
        } else {
            0
        },
    }
}

/// What is known after the peaks of several sources came back.
pub open spec fn all_received(s: WaveformView, done: Seq<RawPeaks>) -> WaveformView
    decreases done.len(),
{
    if done.len() == 0 {
        s
    } else {
        received(all_received(s, done.drop_last()), done.last())
    }
}

/// Whether any peaks came back.
pub open spec fn any_peaks(done: Seq<RawPeaks>) -> bool
    decreases done.len(),
{
    done.len() > 0 && (any_peaks(done.drop_last()) || done.last().peaks@.len() > 0)
}

/// Peaks that came back once are there for good, whatever else comes back.
pub proof fn lemma_peaks_stay(s: WaveformView, done: Seq<RawPeaks>, i: int)
    requires
        0 <= i < done.len(),
        done[i].peaks@.len() > 0,
    ensures
        all_received(s, done).data.dom().contains(done[i].key@),
    decreases done.len(),
{
    if i < done.len() - 1 {
        lemma_peaks_stay(s, done.drop_last(), i);
        assert(done.drop_last()[i] == done[i]);
    }
}

impl WaveformCache {
    /// Every source that has peaks has its coarser levels.
    pub open spec fn wf(&self) -> bool {
        &&& self.data.wf()
        &&& self.lod_levels.wf()
        &&& self.loading.wf()
        &&& self.data@.dom() == self.lod_levels@.dom()
        &&& forall|k: Seq<char>| #[trigger]
            self.data@.dom().contains(k) ==> level_views(self.lod_levels@[k]@) == levels_of(
                self.data@[k]@,
            )
    }

    pub open spec fn view(&self) -> WaveformView {
        WaveformView {
            data: peaks_map(self.data@),
            loading: self.loading@,
            in_flight: self.queue.in_flight as nat,
        }
    }

    /// An empty cache.
    pub fn new() -> (r: WaveformCache)
        ensures
            r.wf(),
            r@ == (WaveformView { data: Map::empty(), loading: Set::empty(), in_flight: 0 }),
            r.queue.pending@.len() == 0,
            !r.queue.paused,
    {
        let r = WaveformCache {
            data: StringMap::new(),
            lod_levels: StringMap::new(),
            loading: StringSet::new(),
            queue: JobQueue::new(),
        };
        proof {
            assert(peaks_map(r.data@) =~= Map::<Seq<char>, Seq<u32>>::empty());
        }
        r
    }

    /// Pauses or resumes the reading of sources. Returns those to start with.
    pub fn set_extraction_paused(&mut self, paused: bool) -> (r: Vec<String>)
        requires
            old(self).wf(),
        ensures
            final(self).wf(),
            final(self).queue.paused == paused,
            final(self).data == old(self).data,
            final(self).lod_levels == old(self).lod_levels,
            final(self).loading == old(self).loading,
            ({
                let n = startable(
                    old(self).queue.pending@.len(),
                    old(self).queue.in_flight as nat,
                    paused,
                ) as int;
                &&& r@ == old(self).queue.pending@.subrange(0, n)
                &&& final(self).queue.pending@ == old(self).queue.pending@.subrange(
                    n,
                    old(self).queue.pending@.len() as int,
                )
                &&& final(self).queue.in_flight == old(self).queue.in_flight + n
            }),
    {
        self.queue.set_paused(paused)
    }

    /// Asks for the peaks of a source. Nothing happens where they are known or on their way.
    /// Returns the sources to start with.
    pub fn request(&mut self, source_path: &str) -> (r: Vec<String>)
        requires
            old(self).wf(),
        ensures
            final(self).wf(),
            final(self).data == old(self).data,
            final(self).lod_levels == old(self).lod_levels,
            final(self).queue.paused == old(self).queue.paused,
            ({
                let known = old(self)@.data.dom().contains(source_path@)
                    || old(self)@.loading.contains(source_path@);
                if known {
                    &&& r@.len() == 0
                    &&& final(self).loading == old(self).loading
                    &&& final(self).queue == old(self).queue
                } else {
                    let all = views(old(self).queue.pending@).push(source_path@);
                    let n = startable(
                        all.len(),
                        old(self).queue.in_flight as nat,
                        old(self).queue.paused,
                    ) as int;
                    &&& views(r@) == all.subrange(0, n)
                    &&& views(final(self).queue.pending@) == all.subrange(n, all.len() as int)
                    &&& final(self).queue.in_flight == old(self).queue.in_flight + n
                    &&& final(self)@.loading == old(self)@.loading.insert(source_path@)
                }
            }),
    {
        if self.data.contains_key(source_path) || self.loading.contains(source_path) {
            return Vec::new();
        }
        let ghost before = self.queue.pending@;
        self.loading.insert(owned(source_path));
        let item = owned(source_path);
        let ghost whole = before.push(item);
        let r = self.queue.push(item);
        proof {
            let all = views(before).push(source_path@);
            assert(views(whole) =~= all);
            let n = r@.len() as int;
            assert(views(r@) =~= all.subrange(0, n));
            assert(views(self.queue.pending@) =~= all.subrange(n, all.len() as int));
        }
        r
    }

    fn absorb(&mut self, raw: RawPeaks) -> (r: bool)
        requires
            old(self).wf(),
        ensures
            final(self).wf(),
            final(self)@ == received(old(self)@, raw),
            final(self).queue.pending == old(self).queue.pending,
            final(self).queue.paused == old(self).queue.paused,
            r == (raw.peaks@.len() > 0),
    {
        let ghost s = self@;
        let ghost before = *self;
        self.loading.remove(&raw.key);
        self.queue.finish();
        if raw.peaks.len() == 0 {
            return false;
        }
        let levels = build_lod_levels(&raw.peaks);
        let ghost key = raw.key@;
        let ghost peaks = raw.peaks;
        self.lod_levels.insert(raw.key.clone(), levels);
        self.data.insert(raw.key, raw.peaks);
        proof {
            assert(peaks_map(self.data@) =~= s.data.insert(key, peaks@));
            assert(self.data@.dom() =~= self.lod_levels@.dom());
            assert forall|k: Seq<char>| #[trigger] self.data@.dom().contains(k) implies level_views(
                self.lod_levels@[k]@,
            ) == levels_of(self.data@[k]@) by {
                if k != key {
                    assert(before.data@.dom().contains(k));
                }
            }
        }
        true
    }

    /// Takes in the peaks of sources, in the order in which they came. Returns whether there are
    /// new ones, and the sources to start with.
    pub fn poll(&mut self, done: Vec<RawPeaks>) -> (r: (bool, Vec<String>))
        requires
            old(self).wf(),
        ensures
            final(self).wf(),
            r.0 == any_peaks(done@),
            ({
                let t = all_received(old(self)@, done@);
                let n = startable(
                    old(self).queue.pending@.len(),
                    t.in_flight,
                    old(self).queue.paused,
                ) as int;
                &&& final(self)@.data == t.data
                &&& final(self)@.loading == t.loading
                &&& final(self)@.in_flight == t.in_flight + n
                &&& r.1@ == old(self).queue.pending@.subrange(0, n)
                &&& final(self).queue.pending@ == old(self).queue.pending@.subrange(
                    n,
                    old(self).queue.pending@.len() as int,
                )
                &&& final(self).queue.paused == old(self).queue.paused
            }),
    {
        let ghost all = done@;
        let ghost start = *self;
        let mut rest = done;
        let mut changed: bool = false;
        let ghost mut n: int = 0;
        proof {
            assert(all.subrange(0, 0) =~= Seq::empty());
            assert(rest@ =~= all.subrange(0, all.len() as int));
        }
        while rest.len() > 0
            invariant
                self.wf(),
                0 <= n <= all.len(),
                rest@ == all.subrange(n, all.len() as int),
                self@ == all_received(start@, all.subrange(0, n)),
                self.queue.pending == start.queue.pending,
                self.queue.paused == start.queue.paused,
                changed == any_peaks(all.subrange(0, n)),
            decreases rest.len(),
        {
            let raw = rest.remove(0);
            proof {
                let next = all.subrange(0, n + 1);
                assert(raw == all[n]);
                assert(rest@ =~= all.subrange(n + 1, all.len() as int));
                assert(next.drop_last() =~= all.subrange(0, n));
                assert(next.last() == raw);
            }
            let new_peaks: bool = self.absorb(raw);
            changed = changed || new_peaks;
            proof {
                n = n + 1;
            }
        }
        proof {
            assert(all.subrange(0, n) =~= all);
        }
        let started = self.queue.flush();
        (changed, started)
    }

    /// The level for a number of peaks for a pixel of a source, if its peaks are known.
    pub fn level_for(&self, source_path: &str, raw_peaks_per_px: Real) -> (r: Option<usize>)
        requires
            self.wf(),
        ensures
            r is Some <==> self@.data.dom().contains(source_path@),
            r matches Some(l) ==> {
                l == lod_level(raw_peaks_per_px, levels_of(self@.data[source_path@]).len())
            },
    {
        match self.lod_levels.get(source_path) {
            Some(levels) => {
                proof {
                    assert(self.data@.dom().contains(source_path@));
                    assert(level_views(levels@).len() == levels@.len());
                }
                Some(choose_lod_level(raw_peaks_per_px, levels.len()))
            },
            None => None,
        }
    }

    /// The largest peak of a source in each of the windows, at a level.
    pub fn get_peaks(&self, source_path: &str, level: usize, windows: &Vec<(usize, usize)>) -> (r: Option<
        Vec<u32>,
    >)
        requires
            self.wf(),
        ensures
            match r {
                Some(p) => {
                    let known = self@.data.dom().contains(source_path@);
                    let raw = self@.data[source_path@];
                    let levels = levels_of(raw);
                    &&& known && raw.len() > 0 && windows@.len() > 0 && level <= levels.len()
                    &&& p@ == windows@.map_values(
                        |w: (usize, usize)|
                            peak_in(
                                if level == 0 {
                                    raw
                                } else {
                                    levels[level - 1]
                                },
                                w,
                            ),
                    )
                },
                None => {
                    ||| !self@.data.dom().contains(source_path@)
                    ||| self@.data[source_path@].len() == 0
                    ||| windows@.len() == 0
                    ||| level > levels_of(self@.data[source_path@]).len()
                },
            },
    {
        let raw = match self.data.get(source_path) {
            Some(d) => d,
            None => {
                return None;
            },
        };
        match self.lod_levels.get(source_path) {
            Some(levels) => {
                proof {
                    assert(self.data@.dom().contains(source_path@));
                    assert(level_views(levels@).len() == levels@.len());
                }
                let r = sample_cached_peaks(raw, levels, level, windows);
                proof {
                    if let Some(ref p) = r {
                        if level > 0 {
                            assert(level_views(levels@)[level - 1] == levels@[level - 1]@);
                        }
                        assert(p@ =~= windows@.map_values(
                            |w: (usize, usize)|
                                peak_in(
                                    if level == 0 {
                                        raw@
                                    } else {
                                        levels_of(raw@)[level - 1]
                                    },
                                    w,
                                ),
                        ));
                    }
                }
                r
            },
            None => None,
        }
    }
}

/// Each pooled peak is the larger of its two: no lower than either, and as high as one.
pub proof fn lemma_pooled(s: Seq<u32>, i: int)
    requires
        0 <= 2 * i < s.len(),
    ensures
        pooled(s).len() == (s.len() + 1) / 2,
        pooled(s)[i] >= height(s[2 * i]),
        2 * i + 1 < s.len() ==> pooled(s)[i] >= height(s[2 * i + 1]),
        pooled(s)[i] == height(s[2 * i]) || (2 * i + 1 < s.len() && pooled(s)[i] == height(
            s[2 * i + 1],
        )),
{
}

/// A positive number counts as it is; what is negative or no number counts as zero.
pub proof fn lemma_height(bits: u32)
    ensures
        bits <= 0x7f80_0000 ==> height(bits) == bits,
        bits > 0x7f80_0000 ==> height(bits) == 0,
        height(height(bits)) == height(bits),
{
}

/// The next level is the one before, pooled; the first is the peaks, pooled.
pub proof fn lemma_level_after_level(s: Seq<u32>, k: int)
    requires
        0 <= k < levels_of(s).len(),
    ensures
        levels_of(s)[0] == pooled(s),
        k > 0 ==> levels_of(s)[k] == pooled(levels_of(s)[k - 1]),
        levels_of(s).last().len() == 1,
    decreases s.len(),
{
    let rest = levels_of(pooled(s));
    assert(levels_of(s) == seq![pooled(s)] + rest);
    if rest.len() > 0 {
        assert(levels_of(s).last() == rest.last());
        if k > 0 {
            lemma_level_after_level(pooled(s), k - 1);
            assert(levels_of(s)[k] == rest[k - 1]);
            if k > 1 {
                assert(levels_of(s)[k - 1] == rest[k - 2]);
            }
        } else {
            lemma_level_after_level(pooled(s), 0);
        }
    } else {
        assert(pooled(s).len() <= 1);
    }
}

/// A number of peaks for a pixel from `2^k` up to below `2^(k+1)` is halved `k` times: its exponent
/// is `k`.
pub proof fn lemma_halvings(k: u64, fraction: u64)
    requires
        k <= 1023,
        fraction < 0x10_0000_0000_0000,
    ensures
        halvings(Real { bits: (((1023 + k) * 0x10_0000_0000_0000) + fraction) as u64 }) == k,
{
    let bits = (1023 + k) * 0x10_0000_0000_0000 + fraction;
    assert(bits / 0x10_0000_0000_0000 == 1023 + k);
}

/// The level is never coarser than the coarsest, and more peaks for a pixel never give a finer one.
pub proof fn lemma_lod_level(x: Real, y: Real, extra: nat)
    requires
        x.bits <= y.bits <= INFINITY_BITS,
    ensures
        lod_level(x, extra) <= extra,
        lod_level(x, extra) <= lod_level(y, extra),
        x.bits < ONE_BITS ==> lod_level(x, extra) == 0,
{
    assert(x.bits / 0x10_0000_0000_0000 <= y.bits / 0x10_0000_0000_0000);
}

/// A window is kept where it is within the peaks; one that is empty gets a peak, and one that
/// reaches beyond them is cut.
pub proof fn lemma_window(start: usize, end: usize, len: int)
    requires
        0 <= len,
    ensures
        ({
            let w = window(start, end, len);
            &&& 0 <= w.0 <= w.1 <= len
            &&& start < end <= len ==> w == (start as int, end as int)
            &&& start < len ==> w.0 == start && w.0 < w.1
            &&& start < len && end <= start ==> w.1 == start + 1
            &&& start < len && end > len ==> w.1 == len
            &&& start >= len ==> w.0 == w.1
        }),
{
}

/// What came back is kept under its source, where it has peaks, and the source is no longer on its
/// way; nothing changes for others.
pub proof fn lemma_received(s: WaveformView, r: RawPeaks, other: Seq<char>)
    requires
        other != r.key@,
    ensures
        ({
            let t = received(s, r);
            &&& r.peaks@.len() > 0 ==> t.data.dom().contains(r.key@) && t.data[r.key@] == r.peaks@
            &&& r.peaks@.len() == 0 ==> t.data == s.data
            &&& !t.loading.contains(r.key@)
            &&& t.data.dom().contains(other) == s.data.dom().contains(other)
            &&& s.data.dom().contains(other) ==> t.data[other] == s.data[other]
            &&& t.loading.contains(other) == s.loading.contains(other)
            &&& s.in_flight > 0 ==> t.in_flight == s.in_flight - 1
        }),
{
}

/// There are new peaks where any source came back with some.
pub proof fn lemma_any_peaks(done: Seq<RawPeaks>)
    ensures
        any_peaks(done) <==> exists|i: int|
            0 <= i < done.len() && (#[trigger] done[i]).peaks@.len() > 0,
    decreases done.len(),
{
    if done.len() > 0 {
        let front = done.drop_last();
        lemma_any_peaks(front);
        assert(done[done.len() - 1] == done.last());
        if any_peaks(front) {
            let i = choose|i: int| 0 <= i < front.len() && (#[trigger] front[i]).peaks@.len() > 0;
            assert(done[i] == front[i]);
        }
        if exists|i: int| 0 <= i < done.len() && (#[trigger] done[i]).peaks@.len() > 0 {
            let i = choose|i: int| 0 <= i < done.len() && (#[trigger] done[i]).peaks@.len() > 0;
            if i < front.len() {
                assert(front[i] == done[i]);
            }
        }
    }
}

} // verus!
