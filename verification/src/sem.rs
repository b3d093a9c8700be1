use vstd::prelude::*;

verus! {

/// The contract of a process-shared counting semaphore: a
/// non-negative counter where `post` increments and a wait decrements
/// a positive counter.
///
/// The ring buffer can use either wait strategy behind one contract:
/// the futex condition in [`crate::futex`] or a counting semaphore
/// implementing this trait.  A counter backed by an operating-system
/// named semaphore can implement the same trait outside the library;
/// what is proved about callers then holds of any implementation that
/// honours the contract.
pub trait SemaphoreLike {
    /// The counter's current value.
    spec fn sem_value(&self) -> nat;

    /// An observability snapshot of the counter, not for control
    /// logic.
    fn value(&self) -> (n: usize)
        ensures
            n == self.sem_value(),
    ;

    /// Increments the counter, releasing one waiter if any.
    fn post(&mut self)
        requires
            old(self).sem_value() < usize::MAX,
        ensures
            final(self).sem_value() == old(self).sem_value() + 1,
    ;

    /// Non-blocking acquire: decrements the counter if it is
    /// positive, and reports whether it did.
    fn try_wait(&mut self) -> (ok: bool)
        ensures
            ok == (old(self).sem_value() > 0),
            ok ==> final(self).sem_value() == old(self).sem_value() - 1,
            !ok ==> final(self).sem_value() == old(self).sem_value(),
    ;

    /// Acquire: blocks until the counter is positive, then decrements
    /// it.  Within a single process nothing can make the counter grow
    /// while the caller blocks, so the counter must already be
    /// positive.
    fn wait(&mut self)
        requires
            old(self).sem_value() > 0,
        ensures
            final(self).sem_value() == old(self).sem_value() - 1,
    ;
}

/// The counting state machine of a semaphore, held as a plain counter.
pub struct CountingSem {
    count: usize,
}

impl CountingSem {
    /// A counter starting at `val`.
    pub fn init(val: usize) -> (s: CountingSem)
        ensures
            s.sem_value() == val,
    {
        CountingSem { count: val }
    }
}

impl SemaphoreLike for CountingSem {
    closed spec fn sem_value(&self) -> nat {
        self.count as nat
    }

    fn value(&self) -> (n: usize) {
        self.count
    }

    fn post(&mut self) {
        self.count = self.count + 1;
    }

    fn try_wait(&mut self) -> (ok: bool) {
        if self.count > 0 {
            self.count = self.count - 1;
            true
        } else {
            false
        }
    }

    fn wait(&mut self) {
        self.count = self.count - 1;
    }
}

} // verus!
