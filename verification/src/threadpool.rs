use vstd::prelude::*;

verus! {

/// Says that a pool of workers cannot be made: it would have no worker.
#[derive(Debug, Clone, Copy, PartialEq, Eq, Structural)]
pub struct PoolCreationError;

impl PoolCreationError {
    /// The words that say what went wrong.
    pub fn to_string(&self) -> (r: String)
        ensures
            r@ == "unable to create thread pool. Invalid size"@,
    {
        "unable to create thread pool. Invalid size".to_owned()
    }
}

/// The count of workers that a pool of the given size has: the size itself,
/// unless it is 0.
pub fn worker_count(size: usize) -> (r: Result<usize, PoolCreationError>)
    ensures
        size == 0 ==> r == Err::<usize, PoolCreationError>(PoolCreationError),
        size > 0 ==> r == Ok::<usize, PoolCreationError>(size),
{
    if size == 0 {
        Err(PoolCreationError)
    } else {
        Ok(size)
    }
}

} // verus!
