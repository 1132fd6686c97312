//! The download pool: a fixed number of permits bounds how many downloads
//! of a batch are in flight at once.

use vstd::prelude::*;

verus! {

/// Number of permits of the pool used for installing.
pub const DEFAULT_POOL_SIZE: usize = 6;

/// A pool as plain values.
pub struct DownloadPoolView {
    /// Permits: the most downloads in flight at once.
    pub capacity: nat,
    /// Items in the batch.
    pub total: nat,
    /// Items started so far; they are started in order.
    pub started: nat,
    /// Items started and not yet finished.
    pub in_flight: nat,
    /// Items finished, whatever their outcome.
    pub finished: nat,
}

/// Scheduling of one batch of downloads under a bound on concurrency.
/// Items are started in order; one finishing frees its permit whatever its
/// outcome, and no failure stops the others.
pub struct DownloadPool {
    capacity: usize,
    total: usize,
    started: usize,
    in_flight: usize,
    finished: usize,
}

impl View for DownloadPool {
    type V = DownloadPoolView;

    closed spec fn view(&self) -> DownloadPoolView {
        DownloadPoolView {
            capacity: self.capacity as nat,
            total: self.total as nat,
            started: self.started as nat,
            in_flight: self.in_flight as nat,
            finished: self.finished as nat,
        }
    }
}

/// The pool's counts agree with each other, and no more downloads are in
/// flight than there are permits.
pub open spec fn pool_wf(v: DownloadPoolView) -> bool {
    &&& v.capacity > 0
    &&& v.in_flight <= v.capacity
    &&& v.started <= v.total
    &&& v.finished + v.in_flight == v.started
}

impl DownloadPool {
    /// A pool of `capacity` permits for a batch of `total` items, none
    /// started.
    pub fn new(total: usize, capacity: usize) -> (r: Self)
        requires
            capacity > 0,
        ensures
            pool_wf(r@),
            r@ == (DownloadPoolView { capacity: capacity as nat, total: total as nat, started: 0, in_flight: 0, finished: 0 }),
    {
        DownloadPool { capacity, total, started: 0, in_flight: 0, finished: 0 }
    }

    /// Takes a permit for the next item, if a permit is free and an item is
    /// left, and returns the item's index; otherwise returns `None` and
    /// changes nothing.
    pub fn start_next(&mut self) -> (r: Option<usize>)
        requires
            pool_wf(old(self)@),
        ensures
            pool_wf(final(self)@),
            final(self)@.in_flight <= final(self)@.capacity,
            old(self)@.in_flight < old(self)@.capacity && old(self)@.started < old(self)@.total ==> r == Some(
                old(self)@.started as usize,
            ) && final(self)@ == (DownloadPoolView {
                started: old(self)@.started + 1,
                in_flight: old(self)@.in_flight + 1,
                ..old(self)@
            }),
            !(old(self)@.in_flight < old(self)@.capacity && old(self)@.started < old(self)@.total) ==> r is None
                && final(self)@ == old(self)@,
    {
        if self.in_flight < self.capacity && self.started < self.total {
            let i = self.started;
            self.started = self.started + 1;
            self.in_flight = self.in_flight + 1;
            Some(i)
        } else {
            None
        }
    }

    /// An item in flight finished, successfully or not: its permit is free.
    pub fn finish(&mut self)
        requires
            pool_wf(old(self)@),
            old(self)@.in_flight > 0,
        ensures
            pool_wf(final(self)@),
            final(self)@.in_flight <= final(self)@.capacity,
            final(self)@ == (DownloadPoolView {
                in_flight: (old(self)@.in_flight - 1) as nat,
                finished: old(self)@.finished + 1,
                ..old(self)@
            }),
    {
        self.in_flight = self.in_flight - 1;
        self.finished = self.finished + 1;
    }

    /// Number of items in flight.
    pub fn in_flight(&self) -> (r: usize)
        ensures
            r == self@.in_flight,
    {
        self.in_flight
    }

    /// Every item of the batch has finished.
    pub fn is_done(&self) -> (r: bool)
        requires
            pool_wf(self@),
        ensures
            r == (self@.finished == self@.total),
    {
        self.finished == self.total
    }
}

} // verus!
