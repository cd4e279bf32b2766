//! Cache of the small pictures of clips.

use crate::extraction::{startable, JobQueue};
use crate::keyed::{StringMap, StringSet};
use crate::text::{decimal, owned, push_decimal, views};
use vstd::prelude::*;
use vstd::string::*;

verus! {

/// The width of a picture.
pub const THUMB_W: usize = 160;

/// The height of a picture.
pub const THUMB_H: usize = 90;

/// The bytes of a picture.
pub const THUMB_BYTES: usize = 57600;

/// The key of the picture of a source at a time. Times are taken in steps of two seconds.
pub open spec fn key_of(source_path: Seq<char>, time_ns: nat) -> Seq<char> {
    source_path + "@"@ + decimal(time_ns / 2_000_000_000 * 2) + "s"@
}

/// `key_of` a source at a time.
pub fn cache_key(source_path: &str, time_ns: u64) -> (r: String)
    ensures
        r@ == key_of(source_path@, time_ns as nat),
{
    let sec: u64 = time_ns / 1_000_000_000;
    let even: u64 = (sec / 2) * 2;
    proof {
        assert(sec / 2 == time_ns / 2_000_000_000);
    }
    let mut r = owned(source_path);
    r.append("@");
    push_decimal(&mut r, even);
    r.append("s");
    r
}

/// Times within the same two seconds share a picture.
pub proof fn lemma_same_bucket(source_path: Seq<char>, a: nat, b: nat)
    requires
        a / 2_000_000_000 == b / 2_000_000_000,
    ensures
        key_of(source_path, a) == key_of(source_path, b),
{
}

/// Byte `i` of the drawable picture. The bytes of a pixel are given as red, green, blue and alpha
/// and drawn as blue, green, red and alpha; pixels that are missing stay clear.
pub open spec fn drawn_byte(rgba: Seq<u8>, i: int) -> u8 {
    let s = i - i % 4;
    if s + 3 < rgba.len() {
        if i % 4 == 0 {
            rgba[s + 2]
        } else if i % 4 == 2 {
            rgba[s]
        } else {
            rgba[i]
        }
    } else {
        0
    }
}

/// The drawable picture.
pub open spec fn drawn(rgba: Seq<u8>) -> Seq<u8> {
    Seq::new(THUMB_BYTES as nat, |i: int| drawn_byte(rgba, i))
}

/// `drawn` of the bytes of a frame.
pub fn rgba_to_surface(rgba: &Vec<u8>) -> (r: Vec<u8>)
    ensures
        r@ == drawn(rgba@),
{
    let mut out: Vec<u8> = Vec::new();
    let mut s: usize = 0;
    while s < THUMB_BYTES
        invariant
            s <= THUMB_BYTES,
            s % 4 == 0,
            out@.len() == s,
            forall|k: int| 0 <= k < s ==> #[trigger] out@[k] == drawn_byte(rgba@, k),
        decreases THUMB_BYTES - s,
    {
        if s + 3 < rgba.len() {
            out.push(rgba[s + 2]);
            out.push(rgba[s + 1]);
            out.push(rgba[s]);
            out.push(rgba[s + 3]);
        } else {
            out.push(0);
            out.push(0);
            out.push(0);
            out.push(0);
        }
        s = s + 4;
    }
    proof {
        assert(out@ =~= drawn(rgba@));
    }
    out
}

/// Drawing a picture of full size loses nothing: drawn again it is the frame.
pub proof fn lemma_drawn_twice(rgba: Seq<u8>)
    requires
        rgba.len() == THUMB_BYTES,
    ensures
        drawn(drawn(rgba)) == rgba,
{
    assert(drawn(drawn(rgba)) =~= rgba);
}

/// A frame that was read, or no bytes where it could not be.
#[derive(Debug)]
pub struct RawFrame {
    pub key: String,
    pub data: Vec<u8>,
}

/// A frame to read.
#[derive(Debug)]
pub struct FrameJob {
    pub key: String,
    pub source_path: String,
    pub time_ns: u64,
}

/// A frame to read, as text.
pub open spec fn job_view(j: FrameJob) -> (Seq<char>, Seq<char>, u64) {
    (j.key@, j.source_path@, j.time_ns)
}

/// The frames to read, as text.
pub open spec fn job_views(s: Seq<FrameJob>) -> Seq<(Seq<char>, Seq<char>, u64)> {
    s.map_values(|j: FrameJob| job_view(j))
}

/// The pictures of a session.
pub struct ThumbnailCache {
    pub surfaces: StringMap<Vec<u8>>,
    pub loading: StringSet,
    pub queue: JobQueue<FrameJob>,
}

/// The picture under each key.
pub open spec fn surface_map(m: Map<Seq<char>, Vec<u8>>) -> Map<Seq<char>, Seq<u8>> {
    Map::new(|k: Seq<char>| m.dom().contains(k), |k: Seq<char>| m[k]@)
}

/// What a cache knows, and the keys that became ready.
pub struct ThumbnailView {
    pub surfaces: Map<Seq<char>, Seq<u8>>,
    pub loading: Set<Seq<char>>,
    pub in_flight: nat,
    pub ready: Seq<Seq<char>>,
}

/// What is known after a frame came back. A frame without bytes is not kept.
pub open spec fn taken(s: ThumbnailView, f: RawFrame) -> ThumbnailView {
    let some = f.data@.len() > 0;
    ThumbnailView {
        surfaces: if some {
            s.surfaces.insert(f.key@, drawn(f.data@))
        } else {
            s.surfaces
        },
        loading: s.loading.remove(f.key@),
        in_flight: if s.in_flight > 0 {
            (s.in_flight - 1) as nat
        } else {
            0
        },
        ready: if some {
            s.ready.push(f.key@)
        } else {
            s.ready
        },
    }
}

/// What is known after several frames came back.
pub open spec fn all_taken(s: ThumbnailView, frames: Seq<RawFrame>) -> ThumbnailView
    decreases frames.len(),
{
    if frames.len() == 0 {
        s
    } else {
        taken(all_taken(s, frames.drop_last()), frames.last())
    }
}

/// A picture that came back once is there for good, whatever else comes back.
pub proof fn lemma_picture_stays(s: ThumbnailView, frames: Seq<RawFrame>, i: int)
    requires
        0 <= i < frames.len(),
        frames[i].data@.len() > 0,
    ensures
        all_taken(s, frames).surfaces.dom().contains(frames[i].key@),
    decreases frames.len(),
{
    if i < frames.len() - 1 {
        lemma_picture_stays(s, frames.drop_last(), i);
        assert(frames.drop_last()[i] == frames[i]);
    }
}

impl ThumbnailCache {
    pub open spec fn wf(&self) -> bool {
        self.surfaces.wf() && self.loading.wf()
    }

    pub open spec fn view(&self) -> ThumbnailView {
        ThumbnailView {
            surfaces: surface_map(self.surfaces@),
            loading: self.loading@,
            in_flight: self.queue.in_flight as nat,
            ready: Seq::empty(),
        }
    }

    /// An empty cache.
    pub fn new() -> (r: ThumbnailCache)
        ensures
            r.wf(),
            r@ == (ThumbnailView {
                surfaces: Map::empty(),
                loading: Set::empty(),
                in_flight: 0,
                ready: Seq::empty(),
            }),
            r.queue.pending@.len() == 0,
            !r.queue.paused,
    {
        let r = ThumbnailCache {
            surfaces: StringMap::new(),
            loading: StringSet::new(),
            queue: JobQueue::new(),
        };
        proof {
            assert(surface_map(r.surfaces@) =~= Map::<Seq<char>, Seq<u8>>::empty());
        }
        r
    }

    /// Pauses or resumes the reading of frames. Returns those to start with.
    pub fn set_extraction_paused(&mut self, paused: bool) -> (r: Vec<FrameJob>)
        requires
            old(self).wf(),
        ensures
            final(self).wf(),
            final(self).queue.paused == paused,
            final(self).surfaces == old(self).surfaces,
            final(self).loading == old(self).loading,
            ({
                let n = startable(
                    old(self).queue.pending@.len(),
                    old(self).queue.in_flight as nat,
                    paused,
                ) as int;
                &&& r@ == old(self).queue.pending@.subrange(0, n)
                &&& final(self).queue.pending@ == old(self).queue.pending@.subrange(
                    n,
                    old(self).queue.pending@.len() as int,
                )
                &&& final(self).queue.in_flight == old(self).queue.in_flight + n
            }),
    {
        self.queue.set_paused(paused)
    }

    /// Asks for the picture of a source at a time. Returns whether it is known already, and the
    /// frames to start with.
    pub fn request(&mut self, source_path: &str, time_ns: u64) -> (r: (bool, Vec<FrameJob>))
        requires
            old(self).wf(),
        ensures
            final(self).wf(),
            final(self).surfaces == old(self).surfaces,
            final(self).queue.paused == old(self).queue.paused,
            ({
                let key = key_of(source_path@, time_ns as nat);
                &&& r.0 == old(self)@.surfaces.dom().contains(key)
                &&& if r.0 || old(self)@.loading.contains(key) {
                    &&& r.1@.len() == 0
                    &&& final(self).loading == old(self).loading
                    &&& final(self).queue == old(self).queue
                } else {
                    let all = job_views(old(self).queue.pending@).push(
                        (key, source_path@, time_ns),
                    );
                    let n = startable(
                        all.len(),
                        old(self).queue.in_flight as nat,
                        old(self).queue.paused,
                    ) as int;
                    &&& job_views(r.1@) == all.subrange(0, n)
                    &&& job_views(final(self).queue.pending@) == all.subrange(n, all.len() as int)
                    &&& final(self).queue.in_flight == old(self).queue.in_flight + n
                    &&& final(self)@.loading == old(self)@.loading.insert(key)
                }
            }),
    {
        let key = cache_key(source_path, time_ns);
        if self.surfaces.contains_key(&key) {
            return (true, Vec::new());
        }
        if self.loading.contains(&key) {
            return (false, Vec::new());
        }
        let ghost before = self.queue.pending@;
        self.loading.insert(key.clone());
        let item = FrameJob { key, source_path: owned(source_path), time_ns };
        let ghost whole = before.push(item);
        let r = self.queue.push(item);
        proof {
            let all = job_views(before).push(job_view(item));
            assert(job_views(whole) =~= all);
            let n = r@.len() as int;
            assert(job_views(r@) =~= all.subrange(0, n));
            assert(job_views(self.queue.pending@) =~= all.subrange(n, all.len() as int));
        }
        (false, r)
    }

    /// Takes in frames, in the order in which they came. Returns the keys that became ready, and
    /// the frames to start with.
    pub fn poll_ready_keys(&mut self, frames: Vec<RawFrame>) -> (r: (Vec<String>, Vec<FrameJob>))
        requires
            old(self).wf(),
        ensures
            final(self).wf(),
            ({
                let t = all_taken(old(self)@, frames@);
                let n = startable(
                    old(self).queue.pending@.len(),
                    t.in_flight,
                    old(self).queue.paused,
                ) as int;
                &&& views(r.0@) == t.ready
                &&& final(self)@.surfaces == t.surfaces
                &&& final(self)@.loading == t.loading
                &&& final(self)@.in_flight == t.in_flight + n
                &&& r.1@ == old(self).queue.pending@.subrange(0, n)
                &&& final(self).queue.pending@ == old(self).queue.pending@.subrange(
                    n,
                    old(self).queue.pending@.len() as int,
                )
                &&& final(self).queue.paused == old(self).queue.paused
            }),
    {
        let ghost all = frames@;
        let ghost start = *self;
        let mut rest = frames;
        let mut ready: Vec<String> = Vec::new();
        let ghost mut n: int = 0;
        proof {
            assert(all.subrange(0, 0) =~= Seq::empty());
            assert(rest@ =~= all.subrange(0, all.len() as int));
            assert(views(ready@) =~= Seq::empty());
        }
        while rest.len() > 0
            invariant
                self.wf(),
                0 <= n <= all.len(),
                rest@ == all.subrange(n, all.len() as int),
                (ThumbnailView { ready: views(ready@), ..self@ }) == all_taken(
                    start@,
                    all.subrange(0, n),
                ),
                self.queue.pending == start.queue.pending,
                self.queue.paused == start.queue.paused,
            decreases rest.len(),
        {
            let ghost s = self@;
            let ghost before = ready@;
            let frame = rest.remove(0);
            proof {
                let next = all.subrange(0, n + 1);
                assert(frame == all[n]);
                assert(rest@ =~= all.subrange(n + 1, all.len() as int));
                assert(next.drop_last() =~= all.subrange(0, n));
                assert(next.last() == frame);
                n = n + 1;
            }
            self.loading.remove(&frame.key);
            self.queue.finish();
            if frame.data.len() > 0 {
                let picture = rgba_to_surface(&frame.data);
                let ghost key = frame.key@;
                self.surfaces.insert(frame.key.clone(), picture);
                ready.push(frame.key);
                proof {
                    assert(surface_map(self.surfaces@) =~= s.surfaces.insert(key, picture@));
                    assert(views(ready@) =~= views(before).push(key));
                }
            }
        }
        proof {
            assert(all.subrange(0, n) =~= all);
        }
        let started = self.queue.flush();
        (ready, started)
    }

    /// Takes in frames. Returns whether there is a new picture, and the frames to start with.
    pub fn poll(&mut self, frames: Vec<RawFrame>) -> (r: (bool, Vec<FrameJob>))
        requires
            old(self).wf(),
        ensures
            final(self).wf(),
            ({
                let t = all_taken(old(self)@, frames@);
                let n = startable(
                    old(self).queue.pending@.len(),
                    t.in_flight,
                    old(self).queue.paused,
                ) as int;
                &&& r.0 == (t.ready.len() > 0)
                &&& final(self)@.surfaces == t.surfaces
                &&& final(self)@.loading == t.loading
                &&& final(self)@.in_flight == t.in_flight + n
                &&& r.1@ == old(self).queue.pending@.subrange(0, n)
                &&& final(self).queue.pending@ == old(self).queue.pending@.subrange(
                    n,
                    old(self).queue.pending@.len() as int,
                )
                &&& final(self).queue.paused == old(self).queue.paused
            }),
    {
        let (ready, started) = self.poll_ready_keys(frames);
        proof {
            assert(views(ready@).len() == ready@.len());
        }
        (ready.len() > 0, started)
    }

    /// The picture of a source at a time, if it is known.
    pub fn get(&self, source_path: &str, time_ns: u64) -> (r: Option<&Vec<u8>>)
        requires
            self.wf(),
        ensures
            ({
                let key = key_of(source_path@, time_ns as nat);
                match r {
                    Some(p) => self@.surfaces.dom().contains(key) && p@ == self@.surfaces[key],
                    None => !self@.surfaces.dom().contains(key),
                }
            }),
    {
        self.surfaces.get(&cache_key(source_path, time_ns))
    }
}

/// A pixel is drawn with its red and blue exchanged and its green and alpha as they were; a pixel
/// that is missing is clear.
pub proof fn lemma_pixel(rgba: Seq<u8>, p: int)
    requires
        0 <= p,
        4 * p + 3 < THUMB_BYTES,
    ensures
        drawn(rgba).len() == THUMB_W * THUMB_H * 4,
        4 * p + 3 < rgba.len() ==> drawn(rgba)[4 * p] == rgba[4 * p + 2] && drawn(rgba)[4 * p + 1]
            == rgba[4 * p + 1] && drawn(rgba)[4 * p + 2] == rgba[4 * p] && drawn(rgba)[4 * p + 3]
            == rgba[4 * p + 3],
        4 * p + 3 >= rgba.len() ==> drawn(rgba)[4 * p] == 0 && drawn(rgba)[4 * p + 1] == 0
            && drawn(rgba)[4 * p + 2] == 0 && drawn(rgba)[4 * p + 3] == 0,
{
}

/// Times in different two seconds have different pictures.
pub proof fn lemma_other_bucket(source_path: Seq<char>, a: nat, b: nat)
    requires
        a / 2_000_000_000 != b / 2_000_000_000,
    ensures
        key_of(source_path, a) != key_of(source_path, b),
{
    if key_of(source_path, a) == key_of(source_path, b) {
        let head = source_path + "@"@;
        let x = decimal(a / 2_000_000_000 * 2);
        let y = decimal(b / 2_000_000_000 * 2);
        let s = key_of(source_path, a);
        let t = key_of(source_path, b);
        assert(x =~= s.subrange(head.len() as int, s.len() - "s"@.len()));
        assert(y =~= t.subrange(head.len() as int, t.len() - "s"@.len()));
        crate::text::lemma_decimal(a / 2_000_000_000 * 2);
        crate::text::lemma_decimal(b / 2_000_000_000 * 2);
    }
}

/// A frame that came back with bytes is kept, drawn, under its key, and its key becomes ready; one
/// without bytes is not. Either way it is no longer on its way, and nothing changes for others.
pub proof fn lemma_frame_taken(s: ThumbnailView, f: RawFrame, other: Seq<char>)
    requires
        other != f.key@,
    ensures
        ({
            let t = taken(s, f);
            &&& f.data@.len() > 0 ==> t.surfaces.dom().contains(f.key@) && t.surfaces[f.key@]
                == drawn(f.data@) && t.ready == s.ready.push(f.key@)
            &&& f.data@.len() == 0 ==> t.surfaces == s.surfaces && t.ready == s.ready
            &&& !t.loading.contains(f.key@)
            &&& t.surfaces.dom().contains(other) == s.surfaces.dom().contains(other)
            &&& s.surfaces.dom().contains(other) ==> t.surfaces[other] == s.surfaces[other]
            &&& t.loading.contains(other) == s.loading.contains(other)
            &&& s.in_flight > 0 ==> t.in_flight == s.in_flight - 1
        }),
{
}

} // verus!
