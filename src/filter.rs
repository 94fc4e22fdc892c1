//! The baseline filters and the runtime contract they honour.
//!
//! A filter takes one event at a time and appends what it lets through to a
//! caller-owned buffer. A flush marker is always passed on, so that the end
//! of every window reaches the consumers downstream.
use vstd::prelude::*;
use crate::metric::Event;

verus! {

/// Why a filter could not process an event.
#[derive(Clone, Copy, Debug, PartialEq, Eq, Structural)]
pub enum FilterError {
    /// The event is dropped and the filter keeps running.
    Transient,
    /// The filter cannot go on.
    Fatal,
}

/// What the deny-logs filter lets through: everything but log lines.
pub open spec fn passes_deny_logs(e: Event) -> bool {
    !(e is Log)
}

/// What the deny-telemetry filter lets through: everything but metric samples.
pub open spec fn passes_deny_telemetry(e: Event) -> bool {
    !(e is Telemetry)
}

/// Filter log lines from the incoming stream.
#[derive(Debug)]
pub struct DenyLogsFilter {}

/// Configuration for `DenyLogsFilter`.
#[derive(Clone, Debug)]
pub struct DenyLogsFilterConfig {
    /// The filter's unique name in the routing topology.
    pub config_path: Option<String>,
    /// The forwards along which the filter will emit its events.
    pub forwards: Vec<String>,
}

impl DenyLogsFilter {
    /// Create a new deny-logs filter.
    pub fn new(_config: &DenyLogsFilterConfig) -> (r: DenyLogsFilter)
        ensures
            r == (DenyLogsFilter {}),
    {
        DenyLogsFilter {}
    }

    /// Append `event` to `res` unless it is a log line.
    pub fn process(&mut self, event: Event, res: &mut Vec<Event>) -> (r: Result<(), FilterError>)
        ensures
            r is Ok,
            passes_deny_logs(event) ==> final(res)@ == old(res)@.push(event),
            !passes_deny_logs(event) ==> final(res)@ == old(res)@,
    {
        match event {
            Event::Log(_) => {},
            other => {
                res.push(other);
            },
        }
        Ok(())
    }
}

/// Filter metric samples from the incoming stream.
#[derive(Debug)]
pub struct DenyTelemetryFilter {}

/// Configuration for `DenyTelemetryFilter`.
#[derive(Clone, Debug)]
pub struct DenyTelemetryFilterConfig {
    /// The filter's unique name in the routing topology.
    pub config_path: Option<String>,
    /// The forwards along which the filter will emit its events.
    pub forwards: Vec<String>,
}

impl DenyTelemetryFilter {
    /// Create a new deny-telemetry filter.
    pub fn new(_config: &DenyTelemetryFilterConfig) -> (r: DenyTelemetryFilter)
        ensures
            r == (DenyTelemetryFilter {}),
    {
        DenyTelemetryFilter {}
    }

    /// Append `event` to `res` unless it is a metric sample.
    pub fn process(&mut self, event: Event, res: &mut Vec<Event>) -> (r: Result<(), FilterError>)
        ensures
            r is Ok,
            passes_deny_telemetry(event) ==> final(res)@ == old(res)@.push(event),
            !passes_deny_telemetry(event) ==> final(res)@ == old(res)@,
    {
        match event {
            Event::Telemetry(_) => {},
            other => {
                res.push(other);
            },
        }
        Ok(())
    }
}

/// The baseline filters, one variant per kind.
#[derive(Debug)]
pub enum FilterKind {
    DenyLogs(DenyLogsFilter),
    DenyTelemetry(DenyTelemetryFilter),
}

/// Whether a filter of kind `k` lets `e` through.
pub open spec fn passes(k: FilterKind, e: Event) -> bool {
    match k {
        FilterKind::DenyLogs(_) => passes_deny_logs(e),
        FilterKind::DenyTelemetry(_) => passes_deny_telemetry(e),
    }
}

/// What a filter of kind `k` emits, in order, when fed `trace`.
pub open spec fn output(k: FilterKind, trace: Seq<Event>) -> Seq<Event>
    decreases trace.len(),
{
    if trace.len() == 0 {
        Seq::empty()
    } else if passes(k, trace.last()) {
        output(k, trace.drop_last()).push(trace.last())
    } else {
        output(k, trace.drop_last())
    }
}

/// The epochs of the flush markers in `s`, in order.
pub open spec fn flush_epochs(s: Seq<Event>) -> Seq<u64>
    decreases s.len(),
{
    if s.len() == 0 {
        Seq::empty()
    } else {
        match s.last() {
            Event::TimerFlush(e) => flush_epochs(s.drop_last()).push(e),
            _ => flush_epochs(s.drop_last()),
        }
    }
}

/// Whether the numbers of `s` never go down.
pub open spec fn non_decreasing(s: Seq<u64>) -> bool {
    forall|i: int, j: int| 0 <= i <= j < s.len() ==> s[i] <= s[j]
}

impl FilterKind {
    /// Append to `res` what the filter emits for `event`.
    pub fn process(&mut self, event: Event, res: &mut Vec<Event>) -> (r: Result<(), FilterError>)
        ensures
            r is Ok,
            *final(self) == *old(self),
            passes(*old(self), event) ==> final(res)@ == old(res)@.push(event),
            !passes(*old(self), event) ==> final(res)@ == old(res)@,
    {
        match self {
            FilterKind::DenyLogs(f) => f.process(event, res),
            FilterKind::DenyTelemetry(f) => f.process(event, res),
        }
    }

    /// One turn of the filter runtime: clear the scratch buffer, then let the
    /// filter fill it from `event`. A transient error leaves the buffer empty,
    /// which drops the input.
    pub fn step(&mut self, event: Event, scratch: &mut Vec<Event>) -> (r: Result<(), FilterError>)
        ensures
            r is Ok,
            *final(self) == *old(self),
            final(scratch)@ == output(*old(self), seq![event]),
    {
        scratch.clear();
        let r = self.process(event, scratch);
        proof {
            let t = seq![event];
            assert(t.drop_last() =~= Seq::<Event>::empty());
            assert(t.last() == event);
            assert(output(*old(self), Seq::<Event>::empty()) == Seq::<Event>::empty());
            assert(Seq::<Event>::empty().push(event) =~= t);
        }
        r
    }

    /// Feed every event of `events` through the filter, in order, and return
    /// what it emitted.
    pub fn process_all(&mut self, events: Vec<Event>) -> (r: Vec<Event>)
        ensures
            *final(self) == *old(self),
            r@ == output(*old(self), events@),
    {
        let mut pending = events;
        let mut reversed: Vec<Event> = Vec::new();
        while pending.len() > 0
            invariant
                pending@ == events@.take(pending@.len() as int),
                pending@.len() + reversed@.len() == events@.len(),
                forall|i: int| 0 <= i < reversed@.len() ==> reversed@[i] == events@[events@.len() - 1 - i],
            decreases pending.len(),
        {
            let e = pending.pop().unwrap();
            reversed.push(e);
            assert(pending@ =~= events@.take(pending@.len() as int));
        }
        let mut out: Vec<Event> = Vec::new();
        let ghost k = *self;
        while reversed.len() > 0
            invariant
                *self == k,
                *self == *old(self),
                reversed@.len() <= events@.len(),
                forall|i: int| 0 <= i < reversed@.len() ==> reversed@[i] == events@[events@.len() - 1 - i],
                out@ == output(k, events@.take(events@.len() - reversed@.len())),
            decreases reversed.len(),
        {
            let ghost done = events@.len() - reversed@.len();
            let e = reversed.pop().unwrap();
            proof {
                let n = events@.len() - reversed@.len();
                assert(e == events@[done]);
                assert(events@.take(n).drop_last() =~= events@.take(done));
                assert(events@.take(n).last() == e);
            }
            let _ = self.process(e, &mut out);
        }
        assert(events@.take(events@.len() as int) =~= events@);
        out
    }
}

/// Running the deny-logs filter on its own output changes nothing.
pub proof fn lemma_deny_logs_idempotent(trace: Seq<Event>)
    ensures
        output(FilterKind::DenyLogs(DenyLogsFilter {}), output(FilterKind::DenyLogs(DenyLogsFilter {}), trace))
            == output(FilterKind::DenyLogs(DenyLogsFilter {}), trace),
    decreases trace.len(),
{
    let k = FilterKind::DenyLogs(DenyLogsFilter {});
    if trace.len() > 0 {
        lemma_deny_logs_idempotent(trace.drop_last());
        let once = output(k, trace.drop_last());
        if passes(k, trace.last()) {
            assert(once.push(trace.last()).drop_last() =~= once);
        }
    }
}

/// Every event that a filter emits before passing on the flush that ends a
/// trace is emitted before that flush: the flush comes out last, and what
/// precedes it is exactly the output for the window it closes.
pub proof fn lemma_window_boundary(k: FilterKind, trace: Seq<Event>, e: u64)
    requires
        trace.len() > 0,
        trace.last() == Event::TimerFlush(e),
    ensures
        output(k, trace).len() > 0,
        output(k, trace).last() == Event::TimerFlush(e),
        output(k, trace).drop_last() == output(k, trace.drop_last()),
        forall|i: int| 0 <= i < output(k, trace).len() && (#[trigger] output(k, trace)[i]).is_data()
            ==> i < output(k, trace).len() - 1,
{
    assert(output(k, trace).drop_last() =~= output(k, trace.drop_last()));
}

/// A filter passes on every flush marker it receives, in order, and adds none:
/// the epochs a consumer downstream of it observes are those fed in.
pub proof fn lemma_flush_epochs_preserved(k: FilterKind, trace: Seq<Event>)
    ensures
        flush_epochs(output(k, trace)) == flush_epochs(trace),
    decreases trace.len(),
{
    if trace.len() > 0 {
        lemma_flush_epochs_preserved(k, trace.drop_last());
        let prev = output(k, trace.drop_last());
        if passes(k, trace.last()) {
            assert(prev.push(trace.last()).drop_last() =~= prev);
        }
    }
}

/// A filter fed flushes in non-decreasing epoch order emits them in
/// non-decreasing order.
pub proof fn lemma_flush_monotone_through_filter(k: FilterKind, trace: Seq<Event>)
    requires
        non_decreasing(flush_epochs(trace)),
    ensures
        non_decreasing(flush_epochs(output(k, trace))),
{
    lemma_flush_epochs_preserved(k, trace);
}

} // verus!
