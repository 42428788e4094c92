//! Message priorities and their order.
use std::cmp::Ordering;
use vstd::prelude::*;
use vstd::std_specs::cmp::PartialOrdSpecImpl;

verus! {

/// How urgent a message is, from the least to the most urgent.
#[derive(Debug, Clone, Copy, PartialEq, Eq, Structural, Ord, Hash)]
pub enum MessagePriority {
    Low,
    Normal,
    High,
    Critical,
}

impl MessagePriority {
    /// The place of a priority on the scale from 0, the least urgent, to 3.
    pub open spec fn level(self) -> int {
        match self {
            MessagePriority::Low => 0,
            MessagePriority::Normal => 1,
            MessagePriority::High => 2,
            MessagePriority::Critical => 3,
        }
    }

    /// The place of the priority on the urgency scale.
    pub fn rank(&self) -> (r: u8)
        ensures
            r == self.level(),
    {
        match self {
            MessagePriority::Low => 0,
            MessagePriority::Normal => 1,
            MessagePriority::High => 2,
            MessagePriority::Critical => 3,
        }
    }
}

/// Priorities compare as their levels do.
pub open spec fn priority_ordering(a: MessagePriority, b: MessagePriority) -> Ordering {
    if a.level() < b.level() {
        Ordering::Less
    } else if a.level() == b.level() {
        Ordering::Equal
    } else {
        Ordering::Greater
    }
}

impl PartialOrdSpecImpl for MessagePriority {
    open spec fn obeys_partial_cmp_spec() -> bool {
        true
    }

    open spec fn partial_cmp_spec(&self, other: &Self) -> Option<Ordering> {
        Some(priority_ordering(*self, *other))
    }
}

impl PartialOrd for MessagePriority {
    fn partial_cmp(&self, other: &Self) -> (r: Option<Ordering>) {
        let mine: u8 = self.rank();
        let theirs: u8 = other.rank();
        if mine < theirs {
            Some(Ordering::Less)
        } else if mine == theirs {
            Some(Ordering::Equal)
        } else {
            Some(Ordering::Greater)
        }
    }
}

/// The order on priorities is total: any two compare as less, equal or greater, swapping them
/// reverses the answer, equality means being the same priority, and the order is transitive.
pub proof fn law_priorities_are_totally_ordered(
    a: MessagePriority,
    b: MessagePriority,
    c: MessagePriority,
)
    ensures
        priority_ordering(a, b) == Ordering::Equal <==> a == b,
        priority_ordering(a, b) == Ordering::Less <==> priority_ordering(b, a)
            == Ordering::Greater,
        priority_ordering(a, b) == Ordering::Less && priority_ordering(b, c) == Ordering::Less
            ==> priority_ordering(a, c) == Ordering::Less,
{
}

/// The priorities from the least to the most urgent are low, normal, high and critical: each
/// compares as less than every one after it, as greater than every one before it, and as equal
/// to itself alone. The place of a priority on the scale grows in the same order, by one, from 0.
pub proof fn law_priorities_rise_from_low_to_critical(
    a: MessagePriority,
    b: MessagePriority,
    r: Option<Ordering>,
    rank: u8,
)
    requires
        call_ensures(MessagePriority::partial_cmp, (&a, &b), r),
        call_ensures(MessagePriority::rank, (&a,), rank),
    ensures
        r is Some,
        r == Some(Ordering::Less) <==> match a {
            MessagePriority::Low => !(b is Low),
            MessagePriority::Normal => b is High || b is Critical,
            MessagePriority::High => b is Critical,
            MessagePriority::Critical => false,
        },
        r == Some(Ordering::Equal) <==> a == b,
        a is Low <==> rank == 0,
        a is Normal <==> rank == 1,
        a is High <==> rank == 2,
        a is Critical <==> rank == 3,
{
}

} // verus!
