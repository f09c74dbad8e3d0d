use vstd::prelude::*;

verus! {

/// A value anchored at a point in time, measured in integer ticks.
pub struct Keyframe<T> {
    pub timestamp: i64,
    pub value: T,
}

} // verus!
