//! The event that travels along every edge of the routing graph.
use vstd::prelude::*;

verus! {

/// The kind of a metric sample.
#[derive(Clone, Copy, Debug, PartialEq, Eq, Structural)]
pub enum AggregationKind {
    GaugeSet,
    GaugeDelta,
    Counter,
    Timer,
    Histogram,
    Summary,
}

/// A metric sample. The value and the sample rate are carried as the bit
/// patterns of IEEE-754 doubles: nothing here computes with them.
#[derive(Debug, PartialEq, Eq)]
pub struct Telemetry {
    pub name: String,
    pub value_bits: u64,
    pub kind: AggregationKind,
    pub sample_rate_bits: u64,
    pub timestamp: i64,
    pub tags: crate::tags::TagMap,
}

/// A log line.
#[derive(Debug, PartialEq, Eq)]
pub struct LogLine {
    pub path: String,
    pub value: String,
    pub timestamp: i64,
    pub tags: crate::tags::TagMap,
}

/// The tagged value that flows on every queue.
#[derive(Debug, PartialEq, Eq)]
pub enum Event {
    Telemetry(Telemetry),
    Log(LogLine),
    TimerFlush(u64),
}

impl Event {
    /// Whether the event is a flush marker.
    pub open spec fn is_flush(self) -> bool {
        self is TimerFlush
    }

    /// Whether the event carries data (a metric sample or a log line).
    pub open spec fn is_data(self) -> bool {
        !(self is TimerFlush)
    }

    pub fn is_timer_flush(&self) -> (r: bool)
        ensures
            r == self.is_flush(),
    {
        match self {
            Event::TimerFlush(_) => true,
            _ => false,
        }
    }
}

} // verus!
