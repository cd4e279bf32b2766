//! A queue of background work, at most four items at a time.

use vstd::prelude::*;

verus! {

/// The most items that are worked on at once.
pub const MAX_CONCURRENT: usize = 4;

/// Work that waits, and how much is under way. Nothing new is started while the queue is paused.
#[derive(Debug)]
pub struct JobQueue<T> {
    pub pending: Vec<T>,
    pub in_flight: usize,
    pub paused: bool,
}

/// How many items can be started.
pub open spec fn startable(pending: nat, in_flight: nat, paused: bool) -> nat {
    if paused || in_flight >= MAX_CONCURRENT {
        0
    } else if pending < MAX_CONCURRENT - in_flight {
        pending
    } else {
        (MAX_CONCURRENT - in_flight) as nat
    }
}

impl<T> JobQueue<T> {
    /// No work.
    pub fn new() -> (r: JobQueue<T>)
        ensures
            r.pending@.len() == 0,
            r.in_flight == 0,
            !r.paused,
    {
        JobQueue { pending: Vec::new(), in_flight: 0, paused: false }
    }

    /// Starts what can be started, the items that have waited longest first, and returns it.
    pub fn flush(&mut self) -> (r: Vec<T>)
        ensures
            ({
                let n = startable(
                    old(self).pending@.len(),
                    old(self).in_flight as nat,
                    old(self).paused,
                ) as int;
                &&& r@ == old(self).pending@.subrange(0, n)
                &&& final(self).pending@ == old(self).pending@.subrange(
                    n,
                    old(self).pending@.len() as int,
                )
                &&& final(self).in_flight == old(self).in_flight + n
                &&& final(self).paused == old(self).paused
            }),
    {
        let ghost all = self.pending@;
        let ghost n0 = self.in_flight;
        let mut r: Vec<T> = Vec::new();
        if self.paused {
            proof {
                assert(r@ =~= all.subrange(0, 0));
                assert(self.pending@ =~= all.subrange(0, all.len() as int));
            }
            return r;
        }
        proof {
            assert(r@ =~= all.subrange(0, 0));
            assert(self.pending@ =~= all.subrange(0, all.len() as int));
        }
        while self.in_flight < MAX_CONCURRENT && self.pending.len() > 0
            invariant
                !self.paused,
                self.paused == old(self).paused,
                n0 == old(self).in_flight,
                all == old(self).pending@,
                r@.len() <= all.len(),
                r@.len() > 0 ==> self.in_flight <= MAX_CONCURRENT,
                self.in_flight == n0 + r@.len(),
                r@ == all.subrange(0, r@.len() as int),
                self.pending@ == all.subrange(r@.len() as int, all.len() as int),
            decreases self.pending.len(),
        {
            let ghost k = r@.len() as int;
            let item = self.pending.remove(0);
            self.in_flight = self.in_flight + 1;
            r.push(item);
            proof {
                assert(item == all[k]);
                assert(r@ =~= all.subrange(0, k + 1));
                assert(self.pending@ =~= all.subrange(k + 1, all.len() as int));
            }
        }
        r
    }

    /// Adds an item and starts what can be started.
    pub fn push(&mut self, item: T) -> (r: Vec<T>)
        ensures
            ({
                let all = old(self).pending@.push(item);
                let n = startable(all.len(), old(self).in_flight as nat, old(self).paused) as int;
                &&& r@ == all.subrange(0, n)
                &&& final(self).pending@ == all.subrange(n, all.len() as int)
                &&& final(self).in_flight == old(self).in_flight + n
                &&& final(self).paused == old(self).paused
            }),
    {
        self.pending.push(item);
        self.flush()
    }

    /// Pauses or resumes; resuming starts what can be started.
    pub fn set_paused(&mut self, paused: bool) -> (r: Vec<T>)
        ensures
            ({
                let n = startable(old(self).pending@.len(), old(self).in_flight as nat, paused) as int;
                &&& r@ == old(self).pending@.subrange(0, n)
                &&& final(self).pending@ == old(self).pending@.subrange(
                    n,
                    old(self).pending@.len() as int,
                )
                &&& final(self).in_flight == old(self).in_flight + n
                &&& final(self).paused == paused
            }),
    {
        self.paused = paused;
        self.flush()
    }

    /// Notes that an item is done.
    pub fn finish(&mut self)
        ensures
            final(self).pending == old(self).pending,
            final(self).paused == old(self).paused,
            final(self).in_flight == (if old(self).in_flight > 0 {
                old(self).in_flight - 1
            } else {
                0
            }),
    {
        if self.in_flight > 0 {
            self.in_flight = self.in_flight - 1;
        }
    }
}

/// Starting work keeps what is under way within its bound, and starts nothing while paused.
pub proof fn lemma_bounded(pending: nat, in_flight: nat, paused: bool)
    requires
        in_flight <= MAX_CONCURRENT,
    ensures
        in_flight + startable(pending, in_flight, paused) <= MAX_CONCURRENT,
        paused ==> startable(pending, in_flight, paused) == 0,
        !paused ==> (startable(pending, in_flight, paused) == pending || in_flight + startable(
            pending,
            in_flight,
            paused,
        ) == MAX_CONCURRENT),
{
}

/// Nothing that could be started waits: where work is left over, as much is under way as can be.
pub proof fn lemma_no_idle_room(pending: nat, in_flight: nat)
    requires
        in_flight <= MAX_CONCURRENT,
    ensures
        startable(pending, in_flight, false) < pending ==> in_flight + startable(
            pending,
            in_flight,
            false,
        ) == MAX_CONCURRENT,
        startable(pending, in_flight, false) <= pending,
        startable(pending, in_flight, true) == 0,
{
}

} // verus!
