//! Width-generic shape of an aggregate record.

use vstd::prelude::*;

verus! {

/// The five statistics of one sample sequence, generic over the scalar
/// representation.  The per-width modules hold their own concrete
/// aggregate types with verified constructors; this shape is for callers
/// that carry the five fields behind a single type parameter.
pub struct All<T> {
    pub min: T,
    pub max: T,
    pub average: T,
    pub variance: T,
    pub standard_deviation: T,
}

} // verus!
