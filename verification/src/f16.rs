//! Low-precision fixed-point numbers encoded in 16 bits, ordered by their
//! raw encoding.  The raw value counts hundredths of a unit, so reports can
//! carry fractional quantities in better space than a wide float; turning
//! one back into a fraction is the consumer's concern.

use vstd::prelude::*;

verus! {

/// Unsigned low-precision value; the raw `u16` counts hundredths.
#[derive(Debug, PartialEq, Eq, Ord)]
pub struct F16u(pub u16);

impl PartialOrd for F16u {
    /// Two values compare exactly as their raw encodings do.
    fn partial_cmp(&self, other: &Self) -> (r: Option<core::cmp::Ordering>) {
        if self.0 < other.0 {
            Some(core::cmp::Ordering::Less)
        } else if self.0 == other.0 {
            Some(core::cmp::Ordering::Equal)
        } else {
            Some(core::cmp::Ordering::Greater)
        }
    }
}

impl vstd::std_specs::cmp::PartialOrdSpecImpl for F16u {
    open spec fn obeys_partial_cmp_spec() -> bool {
        true
    }

    open spec fn partial_cmp_spec(&self, other: &Self) -> Option<core::cmp::Ordering> {
        if self.0 < other.0 {
            Some(core::cmp::Ordering::Less)
        } else if self.0 == other.0 {
            Some(core::cmp::Ordering::Equal)
        } else {
            Some(core::cmp::Ordering::Greater)
        }
    }
}

/// Signed low-precision value; the raw `i16` counts hundredths.
#[derive(Debug, PartialEq, Eq, Ord)]
pub struct F16i(pub i16);

impl PartialOrd for F16i {
    /// Two values compare exactly as their raw encodings do.
    fn partial_cmp(&self, other: &Self) -> (r: Option<core::cmp::Ordering>) {
        if self.0 < other.0 {
            Some(core::cmp::Ordering::Less)
        } else if self.0 == other.0 {
            Some(core::cmp::Ordering::Equal)
        } else {
            Some(core::cmp::Ordering::Greater)
        }
    }
}

impl vstd::std_specs::cmp::PartialOrdSpecImpl for F16i {
    open spec fn obeys_partial_cmp_spec() -> bool {
        true
    }

    open spec fn partial_cmp_spec(&self, other: &Self) -> Option<core::cmp::Ordering> {
        if self.0 < other.0 {
            Some(core::cmp::Ordering::Less)
        } else if self.0 == other.0 {
            Some(core::cmp::Ordering::Equal)
        } else {
            Some(core::cmp::Ordering::Greater)
        }
    }
}

} // verus!
