use vstd::prelude::*;

verus! {

/// Strict betweenness test: `lower < self < upper`.
pub trait Between<T> {
    /// Returns `true` exactly when `lower < self < upper`.
    fn between(&self, lower: T, upper: T) -> (r: bool);
}

impl Between<i64> for i64 {
    fn between(&self, lower: i64, upper: i64) -> (r: bool)
        ensures
            r == (lower < *self && *self < upper),
    {
        lower < *self && *self < upper
    }
}

} // verus!
