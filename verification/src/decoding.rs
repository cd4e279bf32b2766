//! What decoded media is made into: samples of sound, peaks, and the way of each stream.
//!
//! Sound arrives as little-endian single-precision samples, which are held by their bit patterns.

use crate::text::{begins, begins_with, owned, views};
use crate::waveform_cache::{larger, lemma_peak_bounds, peak_of};
use vstd::prelude::*;

verus! {

/// Samples that make one peak of a waveform.
pub const SAMPLES_PER_PEAK: usize = 220;

/// The bit pattern of sample `k`.
pub open spec fn sample_bits(b: Seq<u8>, k: int) -> u32 {
    (b[4 * k] + 0x100 * b[4 * k + 1] + 0x1_0000 * b[4 * k + 2] + 0x100_0000 * b[4 * k + 3]) as u32
}

/// The samples in a buffer. Bytes at its end that make no whole sample are left out.
pub open spec fn samples_of(b: Seq<u8>) -> Seq<u32> {
    Seq::new((b.len() / 4) as nat, |k: int| sample_bits(b, k))
}

/// The samples in a buffer.
pub fn decode_samples(bytes: &Vec<u8>) -> (r: Vec<u32>)
    ensures
        r@ == samples_of(bytes@),
{
    let mut r: Vec<u32> = Vec::new();
    let n: usize = bytes.len() / 4;
    let mut k: usize = 0;
    while k < n
        invariant
            n == bytes@.len() / 4,
            k <= n,
            r@.len() == k,
            forall|i: int| 0 <= i < k ==> #[trigger] r@[i] == sample_bits(bytes@, i),
        decreases n - k,
    {
        proof {
            assert(4 * k + 4 <= bytes.len());
        }
        let i: usize = 4 * k;
        let s: u32 = bytes[i] as u32 + 0x100 * (bytes[i + 1] as u32) + 0x1_0000 * (bytes[i
            + 2] as u32) + 0x100_0000 * (bytes[i + 3] as u32);
        r.push(s);
        k = k + 1;
    }
    proof {
        assert(r@ =~= samples_of(bytes@));
    }
    r
}

/// The absolute value of a sample, zero where it is no number.
pub open spec fn loudness(bits: u32) -> u32 {
    let m = if bits >= 0x8000_0000 {
        (bits - 0x8000_0000) as u32
    } else {
        bits
    };
    if m > 0x7f80_0000 {
        0
    } else {
        m
    }
}

/// The absolute values of samples.
pub open spec fn loudnesses(s: Seq<u32>) -> Seq<u32> {
    s.map_values(|b: u32| loudness(b))
}

/// The peaks of a buffer, one for each run of samples; the last run may be shorter.
pub open spec fn peaks_in(s: Seq<u32>) -> Seq<u32>
    decreases s.len(),
{
    if s.len() == 0 {
        Seq::empty()
    } else if s.len() <= SAMPLES_PER_PEAK {
        seq![peak_of(loudnesses(s))]
    } else {
        seq![peak_of(loudnesses(s.take(SAMPLES_PER_PEAK as int)))] + peaks_in(
            s.skip(SAMPLES_PER_PEAK as int),
        )
    }
}

/// The peak of the samples from `from` up to `to`.
fn loudest(s: &Vec<u32>, from: usize, to: usize) -> (r: u32)
    requires
        from <= to <= s@.len(),
    ensures
        r == peak_of(loudnesses(s@.subrange(from as int, to as int))),
{
    let mut r: u32 = 0;
    let mut i: usize = from;
    while i < to
        invariant
            from <= i <= to <= s@.len(),
            r == peak_of(loudnesses(s@.subrange(from as int, i as int))),
        decreases to - i,
    {
        let bits: u32 = s[i];
        let m: u32 = if bits >= 0x8000_0000 {
            bits - 0x8000_0000
        } else {
            bits
        };
        let l: u32 = if m > 0x7f80_0000 {
            0
        } else {
            m
        };
        proof {
            let next = loudnesses(s@.subrange(from as int, i + 1));
            assert(next.drop_last() =~= loudnesses(s@.subrange(from as int, i as int)));
            assert(next.last() == l);
        }
        if r < l {
            r = l;
        }
        i = i + 1;
    }
    r
}

/// Adds the peaks of a buffer to those of a source.
pub fn append_peaks(peaks: &mut Vec<u32>, bytes: &Vec<u8>)
    ensures
        final(peaks)@ == old(peaks)@ + peaks_in(samples_of(bytes@)),
{
    let s = decode_samples(bytes);
    let mut i: usize = 0;
    let ghost all = old(peaks)@ + peaks_in(s@);
    proof {
        assert(s@.skip(0) =~= s@);
    }
    while i < s.len()
        invariant
            i <= s@.len(),
            all == peaks@ + peaks_in(s@.skip(i as int)),
        decreases s.len() - i,
    {
        let end: usize = if s.len() - i > SAMPLES_PER_PEAK {
            i + SAMPLES_PER_PEAK
        } else {
            s.len()
        };
        let ghost before = peaks@;
        let p: u32 = loudest(&s, i, end);
        peaks.push(p);
        proof {
            let rest = s@.skip(i as int);
            if rest.len() > SAMPLES_PER_PEAK {
                assert(rest.take(SAMPLES_PER_PEAK as int) =~= s@.subrange(i as int, end as int));
                assert(rest.skip(SAMPLES_PER_PEAK as int) =~= s@.skip(end as int));
            } else {
                assert(rest =~= s@.subrange(i as int, end as int));
                assert(s@.skip(end as int) =~= Seq::empty());
            }
            assert(all =~= peaks@ + peaks_in(s@.skip(end as int)));
        }
        i = end;
    }
    proof {
        assert(s@.skip(i as int) =~= Seq::empty());
        assert(all =~= peaks@);
    }
}

proof fn lemma_peak_of_both(a: Seq<u32>, b: Seq<u32>)
    ensures
        peak_of(a + b) == larger(peak_of(a), peak_of(b)),
    decreases b.len(),
{
    if b.len() == 0 {
        assert(a + b =~= a);
    } else {
        lemma_peak_of_both(a, b.drop_last());
        assert((a + b).drop_last() =~= a + b.drop_last());
    }
}

/// The largest peak of a buffer is the largest absolute value of its samples.
pub proof fn lemma_loudest_is_a_peak(s: Seq<u32>)
    ensures
        peak_of(peaks_in(s)) == peak_of(loudnesses(s)),
    decreases s.len(),
{
    let n = SAMPLES_PER_PEAK as int;
    lemma_peak_bounds(loudnesses(s));
    lemma_peak_bounds(loudnesses(s.take(n)));
    if s.len() == 0 {
        assert(loudnesses(s) =~= Seq::empty());
    } else if s.len() <= n {
        let one = seq![peak_of(loudnesses(s))];
        assert(one.drop_last() =~= Seq::empty());
        assert(peak_of(one.drop_last()) == 0);
    } else {
        let one = seq![peak_of(loudnesses(s.take(n)))];
        assert(one.drop_last() =~= Seq::empty());
        assert(peak_of(one.drop_last()) == 0);
        lemma_loudest_is_a_peak(s.skip(n));
        lemma_peak_of_both(one, peaks_in(s.skip(n)));
        lemma_peak_of_both(loudnesses(s.take(n)), loudnesses(s.skip(n)));
        assert(loudnesses(s.take(n)) + loudnesses(s.skip(n)) =~= loudnesses(s));
    }
}

// -------------------------------------------------------------------- speech
/// The samples of a stretch of sound, up to a limit.
#[derive(Debug)]
pub struct SampleGather {
    pub limit: usize,
    pub samples: Vec<u32>,
}

/// At most the first `limit` samples.
pub open spec fn limited(s: Seq<u32>, limit: nat) -> Seq<u32> {
    if s.len() > limit {
        s.take(limit as int)
    } else {
        s
    }
}

impl SampleGather {
    /// Nothing gathered yet.
    pub fn new(limit: usize) -> (r: SampleGather)
        ensures
            r.limit == limit,
            r.samples@ == Seq::<u32>::empty(),
    {
        SampleGather { limit, samples: Vec::new() }
    }

    /// Adds a buffer. Returns whether there are enough samples.
    pub fn take(&mut self, bytes: &Vec<u8>) -> (r: bool)
        ensures
            final(self).limit == old(self).limit,
            final(self).samples@ == old(self).samples@ + samples_of(bytes@),
            r == (final(self).samples@.len() >= old(self).limit),
    {
        let mut more = decode_samples(bytes);
        self.samples.append(&mut more);
        self.samples.len() >= self.limit
    }

    /// The samples up to the limit, or nothing where there are none.
    pub fn finish(self) -> (r: Option<Vec<u32>>)
        ensures
            match r {
                Some(s) => s@ == limited(self.samples@, self.limit as nat) && s@.len() > 0,
                None => limited(self.samples@, self.limit as nat).len() == 0,
            },
    {
        let limit: usize = self.limit;
        let mut samples = self.samples;
        if samples.len() > limit {
            samples.truncate(limit);
        }
        if samples.len() == 0 {
            None
        } else {
            Some(samples)
        }
    }
}

/// Once there are enough samples, those that would follow change nothing.
pub proof fn lemma_enough_is_enough(gathered: Seq<u32>, further: Seq<u32>, limit: nat)
    requires
        gathered.len() >= limit,
    ensures
        limited(gathered + further, limit) == limited(gathered, limit),
{
    assert(limited(gathered + further, limit) =~= limited(gathered, limit));
}

// ------------------------------------------------------------------- streams
/// Where a decoded stream goes.
#[derive(Debug, Clone, Copy, PartialEq, Eq, Structural)]
pub enum StreamRoute {
    /// Into the chain that makes what is wanted of it.
    Chain,
    /// Into a sink that takes everything, so that no queue before it fills up.
    Drain,
    /// Nowhere.
    Leave,
}

/// Whether one of the kinds of a stream is that of pictures.
pub open spec fn shows_pictures(kinds: Seq<Seq<char>>) -> bool {
    exists|i: int| 0 <= i < kinds.len() && begins(#[trigger] kinds[i], "video/"@)
}

/// Where a stream goes when a picture is wanted: the first with pictures makes the picture, others
/// with pictures are left, and all else is drained.
pub fn route_for_picture(kinds: &Vec<String>, chain_linked: bool) -> (r: StreamRoute)
    ensures
        r == (if !shows_pictures(views(kinds@)) {
            StreamRoute::Drain
        } else if chain_linked {
            StreamRoute::Leave
        } else {
            StreamRoute::Chain
        }),
{
    let mut i: usize = 0;
    while i < kinds.len()
        invariant
            i <= kinds@.len(),
            forall|j: int| 0 <= j < i ==> !begins(#[trigger] views(kinds@)[j], "video/"@),
        decreases kinds.len() - i,
    {
        if begins_with(&kinds[i], "video/") {
            proof {
                assert(begins(views(kinds@)[i as int], "video/"@));
            }
            return if chain_linked {
                StreamRoute::Leave
            } else {
                StreamRoute::Chain
            };
        }
        i = i + 1;
    }
    StreamRoute::Drain
}

/// Where a stream goes when sound is wanted: the first with sound makes the samples.
pub fn route_for_sound(kind: &str, chain_linked: bool) -> (r: StreamRoute)
    ensures
        r == (if begins(kind@, "audio/"@) && !chain_linked {
            StreamRoute::Chain
        } else {
            StreamRoute::Leave
        }),
{
    if begins_with(kind, "audio/") && !chain_linked {
        StreamRoute::Chain
    } else {
        StreamRoute::Leave
    }
}

/// The elements that make a small picture of a decoded stream, in order. A still image is repeated
/// first.
pub open spec fn picture_chain(is_image: bool) -> Seq<Seq<char>> {
    let chain = seq!["videoconvert"@, "videoscale"@, "capsfilter"@, "appsink"@];
    if is_image {
        seq!["imagefreeze"@] + chain
    } else {
        chain
    }
}

/// The elements that make a small picture of a decoded stream.
pub fn picture_elements(is_image: bool) -> (r: Vec<String>)
    ensures
        views(r@) == picture_chain(is_image),
{
    let mut r: Vec<String> = Vec::new();
    if is_image {
        r.push(owned("imagefreeze"));
    }
    r.push(owned("videoconvert"));
    r.push(owned("videoscale"));
    r.push(owned("capsfilter"));
    r.push(owned("appsink"));
    proof {
        assert(views(r@) =~= picture_chain(is_image));
    }
    r
}

/// A sample is four bytes, the lowest first.
pub proof fn lemma_sample_bytes(b: Seq<u8>, k: int)
    requires
        0 <= k,
        4 * k + 3 < b.len(),
    ensures
        samples_of(b).len() == b.len() / 4,
        samples_of(b)[k] % 0x100 == b[4 * k],
        samples_of(b)[k] / 0x100 % 0x100 == b[4 * k + 1],
        samples_of(b)[k] / 0x1_0000 % 0x100 == b[4 * k + 2],
        samples_of(b)[k] / 0x100_0000 == b[4 * k + 3],
{
}

/// A sample is as loud as its negative, and as its own bits where it is positive; what is no number
/// is silent.
pub proof fn lemma_loudness(bits: u32)
    ensures
        bits <= 0x7f80_0000 ==> loudness(bits) == bits && loudness((bits + 0x8000_0000) as u32)
            == bits,
        0x7f80_0000 < bits < 0x8000_0000 ==> loudness(bits) == 0 && loudness(
            (bits + 0x8000_0000) as u32,
        ) == 0,
{
}

/// Each peak is the largest of its own stretch of samples; the last stretch may be shorter.
pub proof fn lemma_peak_of_stretch(s: Seq<u32>, k: int)
    requires
        0 <= k * SAMPLES_PER_PEAK < s.len(),
    ensures
        k < peaks_in(s).len(),
        peaks_in(s).len() == (s.len() + SAMPLES_PER_PEAK - 1) / (SAMPLES_PER_PEAK as int),
        (k + 1) * SAMPLES_PER_PEAK <= s.len() ==> peaks_in(s)[k] == peak_of(
            loudnesses(s.subrange(k * SAMPLES_PER_PEAK, (k + 1) * SAMPLES_PER_PEAK)),
        ),
        (k + 1) * SAMPLES_PER_PEAK > s.len() ==> peaks_in(s)[k] == peak_of(
            loudnesses(s.subrange(k * SAMPLES_PER_PEAK, s.len() as int)),
        ),
    decreases s.len(),
{
    let n = SAMPLES_PER_PEAK as int;
    if s.len() <= n {
        assert(k == 0);
        assert(s.subrange(0, s.len() as int) =~= s);
        if s.len() == n {
            assert(s.subrange(0, n) =~= s);
        }
    } else {
        let rest = s.skip(n);
        if k == 0 {
            lemma_peak_of_stretch(rest, 0);
            assert(s.take(n) =~= s.subrange(0, n));
        } else {
            lemma_peak_of_stretch(rest, k - 1);
            assert(peaks_in(s)[k] == peaks_in(rest)[k - 1]);
            if (k + 1) * n <= s.len() {
                assert(rest.subrange((k - 1) * n, k * n) =~= s.subrange(k * n, (k + 1) * n));
            } else {
                assert(rest.subrange((k - 1) * n, rest.len() as int) =~= s.subrange(
                    k * n,
                    s.len() as int,
                ));
            }
        }
    }
}

/// What is limited is the front of what was there, as much as allowed.
pub proof fn lemma_limited(s: Seq<u32>, limit: nat, k: int)
    ensures
        limited(s, limit).len() <= limit,
        s.len() <= limit ==> limited(s, limit) == s,
        s.len() > limit ==> limited(s, limit).len() == limit,
        0 <= k < limited(s, limit).len() ==> limited(s, limit)[k] == s[k],
{
}

} // verus!
