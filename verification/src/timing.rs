//! The result of one time-sliced unit of work.

use vstd::prelude::*;

verus! {

/// What a bounded slice of computation produced: either the work goes
/// on, or it finished with a value.
#[derive(Clone, Debug)]
pub enum Increment<T> {
    InProgress,
    Finished(T),
}

} // verus!
