//! The flush clock: the single producer of end-of-window markers.
//!
//! On each wake-up the clock computes the current epoch, the wall-clock
//! second divided by the flush interval, and emits it only when it is past
//! the last epoch emitted. A slow wake-up emits nothing, a backward jump of
//! the clock stays silent until the old epoch is exceeded, and a forward jump
//! skips epochs rather than catching up.
use vstd::prelude::*;
use crate::filter::{flush_epochs, lemma_flush_epochs_preserved, non_decreasing, output, FilterKind};
use crate::metric::Event;

verus! {

/// The state of the flush clock.
#[derive(Clone, Copy, Debug, PartialEq, Eq, Structural)]
pub struct FlushTimer {
    /// Seconds per window; never zero.
    pub interval: u64,
    /// The last epoch emitted, if any.
    pub last: Option<u64>,
}

/// The epoch that the wall-clock second `now` falls in.
pub open spec fn epoch_of(now: u64, interval: u64) -> u64
    recommends
        interval > 0,
{
    (now / interval) as u64
}

/// Whether epoch `e` is emitted after `last`.
pub open spec fn emits(last: Option<u64>, e: u64) -> bool {
    match last {
        None => true,
        Some(l) => e > l,
    }
}

/// The epochs that a clock in state `t` emits when woken at the seconds of
/// `nows`, in order.
pub open spec fn emitted(t: FlushTimer, nows: Seq<u64>) -> Seq<u64>
    decreases nows.len(),
{
    if nows.len() == 0 {
        Seq::empty()
    } else {
        let prev = emitted(t, nows.drop_last());
        let e = epoch_of(nows.last(), t.interval);
        if emits(last_after(t, prev), e) {
            prev.push(e)
        } else {
            prev
        }
    }
}

/// The last epoch emitted by a clock that started in state `t` and has since
/// emitted `out`.
pub open spec fn last_after(t: FlushTimer, out: Seq<u64>) -> Option<u64> {
    if out.len() == 0 {
        t.last
    } else {
        Some(out.last())
    }
}

/// Whether the numbers of `s` strictly increase.
pub open spec fn strictly_increasing(s: Seq<u64>) -> bool {
    forall|i: int, j: int| 0 <= i < j < s.len() ==> s[i] < s[j]
}

impl FlushTimer {
    pub open spec fn wf(self) -> bool {
        self.interval > 0
    }

    /// A clock with windows of `interval` seconds that has emitted nothing;
    /// `None` when the interval is zero.
    pub fn new(interval: u64) -> (r: Option<FlushTimer>)
        ensures
            interval == 0 <==> r is None,
            r matches Some(t) ==> t.wf() && t.interval == interval && t.last is None,
    {
        if interval == 0 {
            None
        } else {
            Some(FlushTimer { interval, last: None })
        }
    }

    /// The clock wakes at wall-clock second `now`: returns the epoch to emit,
    /// if any.
    pub fn tick(&mut self, now: u64) -> (r: Option<u64>)
        requires
            old(self).wf(),
        ensures
            final(self).wf(),
            final(self).interval == old(self).interval,
            emits(old(self).last, epoch_of(now, old(self).interval)) ==> (r == Some(
                epoch_of(now, old(self).interval),
            ) && final(self).last == r),
            !emits(old(self).last, epoch_of(now, old(self).interval)) ==> (r is None
                && final(self).last == old(self).last),
    {
        let e = now / self.interval;
        let fire = match self.last {
            None => true,
            Some(l) => e > l,
        };
        if fire {
            self.last = Some(e);
            Some(e)
        } else {
            None
        }
    }

    /// Wake the clock at each second of `nows` in turn; returns the epochs
    /// emitted.
    pub fn run(&mut self, nows: &Vec<u64>) -> (r: Vec<u64>)
        requires
            old(self).wf(),
        ensures
            final(self).wf(),
            final(self).interval == old(self).interval,
            r@ == emitted(*old(self), nows@),
            final(self).last == last_after(*old(self), r@),
    {
        let ghost t = *self;
        let mut out: Vec<u64> = Vec::new();
        let mut i: usize = 0;
        while i < nows.len()
            invariant
                self.wf(),
                self.interval == t.interval,
                i <= nows@.len(),
                out@ == emitted(t, nows@.take(i as int)),
                self.last == last_after(t, out@),
            decreases nows.len() - i,
        {
            proof {
                assert(nows@.take(i + 1).drop_last() =~= nows@.take(i as int));
            }
            match self.tick(nows[i]) {
                Some(e) => out.push(e),
                None => {},
            }
            i = i + 1;
        }
        assert(nows@.take(nows@.len() as int) =~= nows@);
        out
    }
}

/// Whatever the wall clock does, the epochs a clock emits strictly increase,
/// each is past the last one it had emitted before, and its state records the
/// last of them.
pub proof fn lemma_emitted_increasing(t: FlushTimer, nows: Seq<u64>)
    requires
        t.wf(),
    ensures
        strictly_increasing(emitted(t, nows)),
        t.last matches Some(l) ==> forall|i: int|
            0 <= i < emitted(t, nows).len() ==> emitted(t, nows)[i] > l,
    decreases nows.len(),
{
    if nows.len() > 0 {
        lemma_emitted_increasing(t, nows.drop_last());
    }
}

/// A consumer downstream of a filter, fed by the flush clock, observes flush
/// epochs that never go down, whatever the wall clock does.
pub proof fn lemma_consumer_flushes_monotone(k: FilterKind, t: FlushTimer, nows: Seq<u64>, trace: Seq<Event>)
    requires
        t.wf(),
        flush_epochs(trace) == emitted(t, nows),
    ensures
        non_decreasing(flush_epochs(output(k, trace))),
{
    lemma_emitted_increasing(t, nows);
    lemma_flush_epochs_preserved(k, trace);
}

} // verus!
