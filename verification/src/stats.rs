//! Operational statistics.
use vstd::prelude::*;

verus! {

/// Operational statistics for a port.
#[derive(Debug, Clone, PartialEq, Eq, Structural)]
pub struct PortStats {
    /// Messages accepted for sending; a broadcast counts once for every subscriber it reaches.
    pub sent: u64,
    /// Messages handed to a receiver. A buffered port also counts a receive that the port behind
    /// it ends without a message and without an error.
    pub received: u64,
    /// Messages given up because of overflow: by a full buffer, or by the full channel of a
    /// subscriber to a broadcast.
    pub dropped: u64,
    /// Sends that failed: the other end was gone, or a full buffer refused.
    pub errors: u64,
    /// When the port last moved a message, in milliseconds since the Unix epoch.
    pub last_activity: Option<u64>,
}

impl PortStats {
    /// The statistics of a port that has done nothing yet.
    pub open spec fn zero() -> PortStats {
        PortStats { sent: 0, received: 0, dropped: 0, errors: 0, last_activity: None }
    }

    /// Statistics of a port that has done nothing yet.
    pub fn new() -> (r: Self)
        ensures
            r == Self::zero(),
    {
        Self::default()
    }
}

impl Default for PortStats {
    fn default() -> (r: Self)
        ensures
            r == Self::zero(),
    {
        PortStats { sent: 0, received: 0, dropped: 0, errors: 0, last_activity: None }
    }
}

/// Statistics begin with nothing counted and no activity, however they are made.
pub proof fn law_statistics_begin_at_nothing(r: PortStats)
    requires
        call_ensures(PortStats::new, (), r) || call_ensures(<PortStats as Default>::default, (), r),
    ensures
        r.sent == 0,
        r.received == 0,
        r.dropped == 0,
        r.errors == 0,
        r.last_activity is None,
{
}

} // verus!
