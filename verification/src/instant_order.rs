//! How instants are ordered: by their nanosecond count since the Unix epoch.

use crate::instant::UtcInstant;
use core::cmp::Ordering;
use vstd::prelude::*;
use vstd::std_specs::cmp::PartialOrdIs;
use vstd::std_specs::cmp::PartialOrdSpecImpl;

verus! {

impl PartialOrd for UtcInstant {
    fn partial_cmp(&self, other: &UtcInstant) -> (r: Option<Ordering>) {
        if self.nanos_since_unix_epoch < other.nanos_since_unix_epoch {
            Some(Ordering::Less)
        } else if self.nanos_since_unix_epoch == other.nanos_since_unix_epoch {
            Some(Ordering::Equal)
        } else {
            Some(Ordering::Greater)
        }
    }
}

impl PartialOrdSpecImpl for UtcInstant {
    open spec fn obeys_partial_cmp_spec() -> bool {
        true
    }

    open spec fn partial_cmp_spec(&self, other: &UtcInstant) -> Option<Ordering> {
        if self.nanos_since_unix_epoch < other.nanos_since_unix_epoch {
            Some(Ordering::Less)
        } else if self.nanos_since_unix_epoch == other.nanos_since_unix_epoch {
            Some(Ordering::Equal)
        } else {
            Some(Ordering::Greater)
        }
    }
}

/// Instants compare exactly as their nanosecond counts do: `<`, `<=`, `>` and `>=` on
/// two instants agree with the same comparison of their counts.
pub proof fn instants_order_by_their_nanoseconds(x: UtcInstant, y: UtcInstant)
    ensures
        x.is_lt(&y) <==> x.nanos() < y.nanos(),
        x.is_le(&y) <==> x.nanos() <= y.nanos(),
        x.is_gt(&y) <==> x.nanos() > y.nanos(),
        x.is_ge(&y) <==> x.nanos() >= y.nanos(),
{
}

} // verus!
