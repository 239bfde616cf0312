//! Layout request ids and their order.
use vstd::prelude::*;

use core::cmp::Ordering;
use vstd::std_specs::cmp::{PartialOrdIs, PartialOrdSpecImpl};

verus! {

/// A monotonically increasing identifier for layout requests.
#[derive(Debug, Copy, Clone, Hash, PartialEq, Eq, Structural, Ord)]
pub struct LayoutRequestId(pub u32);

impl LayoutRequestId {
    pub fn to_inner(self) -> (r: u32)
        ensures
            r == self.0,
    {
        self.0
    }
}

impl Default for LayoutRequestId {
    /// The id before any request: 0.
    fn default() -> (r: Self)
        ensures
            r.0 == 0,
    {
        LayoutRequestId(0)
    }
}

impl PartialOrd for LayoutRequestId {
    fn partial_cmp(&self, other: &Self) -> (r: Option<Ordering>) {
        if self.0 < other.0 {
            Some(Ordering::Less)
        } else if self.0 == other.0 {
            Some(Ordering::Equal)
        } else {
            Some(Ordering::Greater)
        }
    }
}

impl PartialOrdSpecImpl for LayoutRequestId {
    open spec fn obeys_partial_cmp_spec() -> bool {
        true
    }

    open spec fn partial_cmp_spec(&self, other: &Self) -> Option<Ordering> {
        if self.0 < other.0 {
            Some(Ordering::Less)
        } else if self.0 == other.0 {
            Some(Ordering::Equal)
        } else {
            Some(Ordering::Greater)
        }
    }
}

/// Request ids are ordered and compared by their numbers: a later request
/// (a larger number) compares greater.
pub proof fn law_request_ids_ordered_by_value(a: LayoutRequestId, b: LayoutRequestId)
    ensures
        a.is_lt(&b) == (a.0 < b.0),
        a.is_le(&b) == (a.0 <= b.0),
        a.is_gt(&b) == (a.0 > b.0),
        (a == b) == (a.0 == b.0),
{
}

} // verus!
