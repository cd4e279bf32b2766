//! Caches of files that are rendered in the background, one for each key.
//!
//! A file is asked for by its key. It is ready, being rendered, or has failed; or it lies on disk
//! from an earlier session; or it has to be rendered. When the cache grows beyond its cap, the
//! files that were used longest ago go first.

use crate::keyed::{text_map, without_values, StringMap, StringSet};
use crate::order::{ints, order_by, order_by_keys, positions};
use crate::paths::{join, join_path};
use crate::text::{owned, views};
use vstd::prelude::*;
use vstd::string::*;

verus! {

/// What lies on disk where a file would be written.
#[derive(Debug, Clone, Copy, PartialEq, Eq, Structural)]
pub enum OnDisk {
    Absent,
    Empty,
    Complete,
}

/// What asking for a file asks of the caller.
#[derive(Debug)]
pub enum SidecarAnswer {
    /// Nothing.
    Nothing,
    /// The file is ready: note that it was used.
    Touch { path: String },
    /// The file has to be rendered, after what lies there incomplete was removed.
    Render { remove_stale: bool },
}

/// What came of a rendering.
#[derive(Debug)]
pub struct SidecarResult {
    pub cache_key: String,
    pub output_path: String,
    /// Whether the rendering succeeded and its output exists.
    pub success: bool,
}

/// How far the renderings have come.
#[derive(Debug, Clone, Copy, PartialEq, Eq, Structural)]
pub struct SidecarProgress {
    pub total: usize,
    pub completed: usize,
    pub in_flight: bool,
}

/// How it stands with a file.
#[derive(Debug, Clone, Copy, PartialEq, Eq, Structural)]
pub enum SidecarStatus {
    Idle,
    Pending,
    Ready,
    Failed,
}

/// The files of a cache.
pub struct SidecarCache {
    pub paths: StringMap<String>,
    pub pending: StringSet,
    pub failed: StringSet,
    pub total_requested: usize,
    pub cache_root: String,
}

/// What a cache knows.
pub struct SidecarView {
    pub paths: Map<Seq<char>, Seq<char>>,
    pub pending: Set<Seq<char>>,
    pub failed: Set<Seq<char>>,
    pub total: nat,
}

/// What is known after a rendering came back.
pub open spec fn rendered(s: SidecarView, r: SidecarResult) -> SidecarView {
    if r.success {
        SidecarView {
            pending: s.pending.remove(r.cache_key@),
            paths: s.paths.insert(r.cache_key@, r.output_path@),
            ..s
        }
    } else {
        SidecarView {
            pending: s.pending.remove(r.cache_key@),
            failed: s.failed.insert(r.cache_key@),
            ..s
        }
    }
}

/// What is known after several renderings came back.
pub open spec fn all_rendered(s: SidecarView, done: Seq<SidecarResult>) -> SidecarView
    decreases done.len(),
{
    if done.len() == 0 {
        s
    } else {
        rendered(all_rendered(s, done.drop_last()), done.last())
    }
}

/// The keys of the renderings that succeeded.
pub open spec fn succeeded(done: Seq<SidecarResult>) -> Seq<Seq<char>>
    decreases done.len(),
{
    if done.len() == 0 {
        Seq::empty()
    } else if done.last().success {
        succeeded(done.drop_last()).push(done.last().cache_key@)
    } else {
        succeeded(done.drop_last())
    }
}

/// How it stands with a key.
pub open spec fn status_of(s: SidecarView, key: Seq<char>) -> SidecarStatus {
    if s.paths.dom().contains(key) {
        SidecarStatus::Ready
    } else if s.pending.contains(key) {
        SidecarStatus::Pending
    } else if s.failed.contains(key) {
        SidecarStatus::Failed
    } else {
        SidecarStatus::Idle
    }
}

impl SidecarCache {
    pub open spec fn view(&self) -> SidecarView {
        SidecarView {
            paths: text_map(self.paths@),
            pending: self.pending@,
            failed: self.failed@,
            total: self.total_requested as nat,
        }
    }

    /// No key is both pending and settled.
    pub open spec fn wf(&self) -> bool {
        &&& self.paths.wf()
        &&& self.pending.wf()
        &&& self.failed.wf()
        &&& self.pending@.disjoint(self.paths@.dom())
        &&& self.pending@.disjoint(self.failed@)
    }

    /// An empty cache over a directory.
    pub fn new(cache_root: String) -> (r: SidecarCache)
        ensures
            r.wf(),
            r.cache_root == cache_root,
            r@ == (SidecarView {
                paths: Map::empty(),
                pending: Set::empty(),
                failed: Set::empty(),
                total: 0,
            }),
    {
        let r = SidecarCache {
            paths: StringMap::new(),
            pending: StringSet::new(),
            failed: StringSet::new(),
            total_requested: 0,
            cache_root,
        };
        proof {
            assert(text_map(r.paths@) =~= Map::<Seq<char>, Seq<char>>::empty());
        }
        r
    }

    /// The file of a key.
    pub fn output_path(&self, key: &str, ending: &str) -> (r: String)
        ensures
            r@ == join_path(self.cache_root@, key@ + ending@),
    {
        let mut name = owned(key);
        name.append(ending);
        join(&self.cache_root, &name)
    }

    /// Asks for the file of a key. `disk` tells what lies at `output_path`.
    pub fn ask(&mut self, key: &str, output_path: &str, disk: OnDisk) -> (r: SidecarAnswer)
        requires
            old(self).wf(),
            old(self).total_requested < usize::MAX,
        ensures
            final(self).wf(),
            final(self).cache_root == old(self).cache_root,
            is_asked(old(self)@, final(self)@, key@, output_path@, disk, r),
    {
        let ghost before = self@;
        if let Some(p) = self.paths.get(key) {
            return SidecarAnswer::Touch { path: p.clone() };
        }
        if self.pending.contains(key) || self.failed.contains(key) {
            return SidecarAnswer::Nothing;
        }
        if disk == OnDisk::Complete {
            self.paths.insert(owned(key), owned(output_path));
            proof {
                assert(text_map(self.paths@) =~= before.paths.insert(key@, output_path@));
            }
            return SidecarAnswer::Touch { path: owned(output_path) };
        }
        self.total_requested = self.total_requested + 1;
        self.pending.insert(owned(key));
        SidecarAnswer::Render { remove_stale: disk == OnDisk::Empty }
    }

    /// Takes in renderings that came back, in order. Returns the keys that became ready.
    pub fn poll(&mut self, done: Vec<SidecarResult>) -> (r: Vec<String>)
        requires
            old(self).wf(),
        ensures
            final(self).wf(),
            final(self).cache_root == old(self).cache_root,
            final(self)@ == all_rendered(old(self)@, done@),
            views(r@) == succeeded(done@),
    {
        let ghost all = done@;
        let ghost start = *self;
        let mut rest = done;
        let mut out: Vec<String> = Vec::new();
        let ghost mut n: int = 0;
        proof {
            assert(all.subrange(0, 0) =~= Seq::empty());
            assert(views(out@) =~= Seq::empty());
            assert(rest@ =~= all.subrange(0, all.len() as int));
        }
        while rest.len() > 0
            invariant
                self.wf(),
                self.cache_root == start.cache_root,
                0 <= n <= all.len(),
                rest@ == all.subrange(n, all.len() as int),
                self@ == all_rendered(start@, all.subrange(0, n)),
                views(out@) == succeeded(all.subrange(0, n)),
            decreases rest.len(),
        {
            let result = rest.remove(0);
            let ghost before = self@;
            let ghost o = out@;
            proof {
                let next = all.subrange(0, n + 1);
                assert(result == all[n]);
                assert(rest@ =~= all.subrange(n + 1, all.len() as int));
                assert(next.drop_last() =~= all.subrange(0, n));
                assert(next.last() == result);
            }
            self.pending.remove(&result.cache_key);
            if result.success {
                self.paths.insert(result.cache_key.clone(), result.output_path);
                proof {
                    assert(text_map(self.paths@) =~= before.paths.insert(
                        result.cache_key@,
                        result.output_path@,
                    ));
                }
                out.push(result.cache_key);
                proof {
                    assert(views(out@) =~= views(o).push(result.cache_key@));
                }
            } else {
                self.failed.insert(result.cache_key);
            }
            proof {
                n = n + 1;
            }
        }
        proof {
            assert(all.subrange(0, n) =~= all);
        }
        out
    }

    /// How far the renderings have come.
    pub fn progress(&self) -> (r: SidecarProgress)
        requires
            self.wf(),
        ensures
            r.total == self.total_requested,
            r.completed == self.paths.names().len(),
            r.in_flight == (self@.pending != Set::<Seq<char>>::empty()),
    {
        SidecarProgress {
            total: self.total_requested,
            completed: self.paths.len(),
            in_flight: !self.pending.is_empty(),
        }
    }

    /// The file of a key, if it is ready.
    pub fn get(&self, key: &str) -> (r: Option<&String>)
        requires
            self.wf(),
        ensures
            match r {
                Some(p) => self@.paths.dom().contains(key@) && self@.paths[key@] == p@,
                None => !self@.paths.dom().contains(key@),
            },
    {
        self.paths.get(key)
    }

    /// How it stands with a key.
    pub fn status(&self, key: &str) -> (r: SidecarStatus)
        requires
            self.wf(),
        ensures
            r == status_of(self@, key@),
    {
        if self.paths.contains_key(key) {
            SidecarStatus::Ready
        } else if self.pending.contains(key) {
            SidecarStatus::Pending
        } else if self.failed.contains(key) {
            SidecarStatus::Failed
        } else {
            SidecarStatus::Idle
        }
    }

    /// Lets a key that failed be asked for again; says whether it had failed.
    pub fn retry(&mut self, key: &str) -> (r: bool)
        requires
            old(self).wf(),
        ensures
            final(self).wf(),
            final(self).cache_root == old(self).cache_root,
            r == old(self)@.failed.contains(key@),
            final(self)@ == (SidecarView {
                failed: old(self)@.failed.remove(key@),
                ..old(self)@
            }),
    {
        self.failed.remove(key)
    }

    /// Forgets what is ready and what failed, and how much was asked for.
    pub fn invalidate_all(&mut self)
        requires
            old(self).wf(),
        ensures
            final(self).wf(),
            final(self).cache_root == old(self).cache_root,
            final(self)@ == (SidecarView {
                paths: Map::empty(),
                failed: Set::empty(),
                total: 0,
                ..old(self)@
            }),
    {
        self.paths.clear();
        self.failed.clear();
        self.total_requested = 0;
        proof {
            assert(text_map(self.paths@) =~= Map::<Seq<char>, Seq<char>>::empty());
        }
    }

    /// Forgets a file that is evicted, so that it is rendered again when it is asked for.
    pub fn forget(&mut self, path: &str)
        requires
            old(self).wf(),
        ensures
            final(self).wf(),
            final(self).cache_root == old(self).cache_root,
            final(self)@ == (SidecarView {
                paths: without_values(old(self)@.paths, set![path@]),
                ..old(self)@
            }),
    {
        let ghost before = self@;
        let mut gone: Vec<String> = Vec::new();
        gone.push(owned(path));
        proof {
            let v = views(gone@);
            assert(v =~= seq![path@]);
            assert(v[0] == path@);
            assert(v.to_set() =~= set![path@]);
        }
        self.paths = self.paths.drop_values(&gone);
        proof {
            assert forall|k: Seq<char>| #[trigger]
                self.paths@.dom().contains(k) implies before.paths.dom().contains(k) by {
                assert(self@.paths.dom().contains(k));
            }
        }
    }
}

/// What asking for a file does to what is known, and the answer.
pub open spec fn is_asked(
    s: SidecarView,
    t: SidecarView,
    key: Seq<char>,
    path: Seq<char>,
    disk: OnDisk,
    r: SidecarAnswer,
) -> bool {
    match status_of(s, key) {
        SidecarStatus::Ready => t == s && (r matches SidecarAnswer::Touch { path: p } && p@
            == s.paths[key]),
        SidecarStatus::Pending => t == s && r is Nothing,
        SidecarStatus::Failed => t == s && r is Nothing,
        SidecarStatus::Idle => if disk == OnDisk::Complete {
            t == (SidecarView { paths: s.paths.insert(key, path), ..s }) && (
            r matches SidecarAnswer::Touch { path: p } && p@ == path)
        } else {
            t == (SidecarView { pending: s.pending.insert(key), total: s.total + 1, ..s }) && (
            r matches SidecarAnswer::Render { remove_stale } && remove_stale == (disk
                == OnDisk::Empty))
        },
    }
}

/// A rendering that came back settles its key.
pub proof fn lemma_rendered_status(s: SidecarView, r: SidecarResult)
    ensures
        status_of(rendered(s, r), r.cache_key@) == (if r.success
            || s.paths.dom().contains(r.cache_key@) {
            SidecarStatus::Ready
        } else {
            SidecarStatus::Failed
        }),
{
}

/// A key that was asked for once stays known, whatever comes back, so that nothing is rendered
/// twice.
pub proof fn lemma_no_second_rendering(s: SidecarView, done: Seq<SidecarResult>, key: Seq<char>)
    requires
        status_of(s, key) != SidecarStatus::Idle,
    ensures
        status_of(all_rendered(s, done), key) != SidecarStatus::Idle,
    decreases done.len(),
{
    if done.len() > 0 {
        lemma_no_second_rendering(s, done.drop_last(), key);
    }
}

// ------------------------------------------------------------------ eviction
/// A file in the cache directory, its size and when it was last used.
#[derive(Debug, Clone)]
pub struct CachedFile {
    pub path: String,
    pub len: u64,
    pub modified_ns: u64,
}

/// The size of the first `n` files.
pub open spec fn size_upto(files: Seq<CachedFile>, n: nat) -> nat
    decreases n,
{
    if n == 0 {
        0
    } else {
        size_upto(files, (n - 1) as nat) + files[n - 1].len as nat
    }
}

/// When the files were last used.
pub open spec fn ages(files: Seq<CachedFile>) -> Seq<int> {
    files.map_values(|f: CachedFile| f.modified_ns as int)
}

/// An eviction under way: files are removed in the order in which they were last used until the
/// cache is within its cap.
pub struct Eviction {
    pub files: Vec<CachedFile>,
    pub order: Vec<usize>,
    pub cap: u64,
    pub total: u128,
    pub freed: u128,
    pub next: usize,
}

impl Eviction {
    pub open spec fn wf(&self) -> bool {
        &&& positions(self.order@) == order_by(ages(self.files@))
        &&& self.order@.len() == self.files@.len()
        &&& forall|a: int| 0 <= a < self.order@.len() ==> #[trigger] self.order@[a] < self.files@.len()
        &&& self.total == size_upto(self.files@, self.files@.len())
        &&& self.next <= self.files@.len()
        &&& self.freed <= self.next * 0xffff_ffff_ffff_ffff
    }

    /// Whether another file has to go.
    pub open spec fn is_over(&self) -> bool {
        self.next < self.files@.len() && self.total - self.freed > self.cap
    }

    /// Begins an eviction of the files in a directory.
    pub fn begin(files: Vec<CachedFile>, cap: u64) -> (r: Eviction)
        ensures
            r.wf(),
            r.files == files,
            r.cap == cap,
            r.freed == 0,
            r.next == 0,
    {
        let mut keys: Vec<u64> = Vec::new();
        let mut total: u128 = 0;
        let mut i: usize = 0;
        while i < files.len()
            invariant
                i <= files@.len(),
                keys@.len() == i,
                forall|k: int| 0 <= k < i ==> #[trigger] keys@[k] == files@[k].modified_ns,
                total == size_upto(files@, i as nat),
                total <= i * 0xffff_ffff_ffff_ffff,
            decreases files.len() - i,
        {
            keys.push(files[i].modified_ns);
            total = total + files[i].len as u128;
            i = i + 1;
        }
        let order: Vec<usize> = order_by_keys(&keys);
        proof {
            assert(ints(keys@) =~= ages(files@));
        }
        Eviction { files, order, cap, total, freed: 0, next: 0 }
    }

    /// The file that goes next, if one has to.
    pub fn victim(&self) -> (r: Option<&CachedFile>)
        requires
            self.wf(),
        ensures
            r is Some <==> self.is_over(),
            r matches Some(f) ==> *f == self.files@[order_by(ages(self.files@))[self.next as int]],
    {
        let left: u128 = if self.total >= self.freed {
            self.total - self.freed
        } else {
            0
        };
        if self.next < self.files.len() && left > self.cap as u128 {
            proof {
                assert(positions(self.order@)[self.next as int] == self.order@[self.next as int]);
            }
            Some(&self.files[self.order[self.next]])
        } else {
            None
        }
    }

    /// Takes in whether the file that was to go could be removed.
    pub fn settle(&mut self, removed: bool)
        requires
            old(self).wf(),
            old(self).is_over(),
        ensures
            final(self).wf(),
            *final(self) == (Eviction {
                next: (old(self).next + 1) as usize,
                freed: final(self).freed,
                ..*old(self)
            }),
            final(self).freed == old(self).freed + (if removed {
                old(self).files@[order_by(ages(old(self).files@))[old(self).next as int]].len as int
            } else {
                0
            }),
    {
        proof {
            assert(positions(self.order@)[self.next as int] == self.order@[self.next as int]);
        }
        if removed {
            self.freed = self.freed + self.files[self.order[self.next]].len as u128;
        }
        proof {
            assert(self.next < self.files.len());
        }
        self.next = self.next + 1;
    }
}

/// When an eviction ends with files left over, the cache is within its cap.
pub proof fn lemma_eviction_ends_within_cap(e: Eviction)
    requires
        e.wf(),
        !e.is_over(),
        e.next < e.files@.len(),
    ensures
        e.total - e.freed <= e.cap,
{
}

/// A file goes only after every file that was last used before it.
pub proof fn lemma_oldest_goes_first(files: Seq<CachedFile>, a: int, b: int)
    requires
        0 <= a < b < files.len(),
    ensures
        files[order_by(ages(files))[a]].modified_ns <= files[order_by(ages(files))[b]].modified_ns,
{
    let keys = ages(files);
    crate::order::lemma_order_by(keys);
    let o = order_by(keys);
    assert(0 <= o[a] < files.len());
    assert(0 <= o[b] < files.len());
    assert(keys[o[a]] == files[o[a]].modified_ns);
    assert(keys[o[b]] == files[o[b]].modified_ns);
}

/// A rendering that came back concerns its own key: a good one is found at its file, a bad one is
/// noted, and nothing changes for other keys.
pub proof fn lemma_rendered(s: SidecarView, r: SidecarResult, other: Seq<char>)
    requires
        other != r.cache_key@,
    ensures
        ({
            let t = rendered(s, r);
            &&& !t.pending.contains(r.cache_key@)
            &&& r.success ==> t.paths.dom().contains(r.cache_key@) && t.paths[r.cache_key@]
                == r.output_path@ && t.failed == s.failed
            &&& !r.success ==> t.failed.contains(r.cache_key@) && t.paths == s.paths
            &&& t.total == s.total
            &&& status_of(t, other) == status_of(s, other)
            &&& s.paths.dom().contains(other) ==> t.paths[other] == s.paths[other]
        }),
{
}

/// Renderings that come back in two batches are taken in as those of one.
pub proof fn lemma_rendered_add_up(s: SidecarView, a: Seq<SidecarResult>, b: Seq<SidecarResult>)
    ensures
        all_rendered(s, a + b) == all_rendered(all_rendered(s, a), b),
        succeeded(a + b) == succeeded(a) + succeeded(b),
    decreases b.len(),
{
    if b.len() == 0 {
        assert(a + b =~= a);
        assert(succeeded(a) + succeeded(b) =~= succeeded(a));
    } else {
        lemma_rendered_add_up(s, a, b.drop_last());
        assert((a + b).drop_last() =~= a + b.drop_last());
        assert(succeeded(a + b) =~= succeeded(a) + succeeded(b));
    }
}

/// The keys that become ready are those of the good renderings.
pub proof fn lemma_succeeded(done: Seq<SidecarResult>)
    ensures
        succeeded(done) == done.filter(|r: SidecarResult| r.success).map_values(
            |r: SidecarResult| r.cache_key@,
        ),
    decreases done.len(),
{
    reveal(Seq::filter);
    if done.len() > 0 {
        lemma_succeeded(done.drop_last());
        assert(succeeded(done) =~= done.filter(|r: SidecarResult| r.success).map_values(
            |r: SidecarResult| r.cache_key@,
        ));
    } else {
        assert(succeeded(done) =~= done.filter(|r: SidecarResult| r.success).map_values(
            |r: SidecarResult| r.cache_key@,
        ));
    }
}

/// The size of files is the sum of their sizes.
pub proof fn lemma_size(files: Seq<CachedFile>, f: CachedFile)
    ensures
        size_upto(files, 0) == 0,
        size_upto(files.push(f), files.len() + 1) == size_upto(files, files.len()) + f.len,
{
    lemma_size_of_front(files, files.push(f), files.len());
}

proof fn lemma_size_of_front(a: Seq<CachedFile>, b: Seq<CachedFile>, n: nat)
    requires
        n <= a.len(),
        n <= b.len(),
        forall|k: int| 0 <= k < n ==> a[k] == b[k],
    ensures
        size_upto(a, n) == size_upto(b, n),
    decreases n,
{
    if n > 0 {
        lemma_size_of_front(a, b, (n - 1) as nat);
    }
}

/// What is asked for the first time is found on disk where it is whole there, and is rendered else;
/// what lies there empty is removed first.
pub proof fn lemma_asked_first(
    s: SidecarView,
    t: SidecarView,
    key: Seq<char>,
    path: Seq<char>,
    disk: OnDisk,
    r: SidecarAnswer,
)
    requires
        is_asked(s, t, key, path, disk, r),
        !s.paths.dom().contains(key),
        !s.pending.contains(key),
        !s.failed.contains(key),
    ensures
        disk == OnDisk::Complete ==> t.paths.dom().contains(key) && t.paths[key] == path && (
        r matches SidecarAnswer::Touch { path: p } && p@ == path) && t.pending == s.pending,
        disk != OnDisk::Complete ==> t.pending.contains(key) && t.total == s.total + 1 && t.paths
            == s.paths,
        disk == OnDisk::Empty ==> (r matches SidecarAnswer::Render { remove_stale }
            && remove_stale),
        disk != OnDisk::Empty && disk != OnDisk::Complete ==> (
        r matches SidecarAnswer::Render { remove_stale } && !remove_stale),
{
}

} // verus!
