//! What every port has in common.
use vstd::prelude::*;

verus! {

/// A message port: what it answers at once. Sending, receiving, polling and closing may have to
/// wait, so each port type offers them in steps: a step either gives the result or names what
/// has to be awaited first, and a further step takes up what came of that.
pub trait AsyncPort: Send + Sync {
    /// Whether the port is still active.
    fn is_active(&self) -> bool;

    /// Endpoint identifier (for debugging / multiplexing).
    fn endpoint(&self) -> &str;
}

/// Whether `port` may answer `active` to the question whether it is active.
pub open spec fn answers<P: AsyncPort>(port: P, active: bool) -> bool {
    call_ensures(P::is_active, (&port,), active)
}

/// Whether `port` may give `name` as its endpoint identifier.
pub open spec fn names_itself<P: AsyncPort>(port: P, name: &str) -> bool {
    call_ensures(P::endpoint, (&port,), name)
}

} // verus!
