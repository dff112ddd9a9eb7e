use vstd::prelude::*;

verus! {

/// Wraps a value as a success, with `String` as the error type.
pub fn ok<T>(x: T) -> (r: Result<T, String>)
    ensures
        r == Result::<T, String>::Ok(x),
{
    Ok(x)
}

/// Wraps a value as a failure.
pub fn err<T>(x: T) -> (r: Result<(), T>)
    ensures
        r == Result::<(), T>::Err(x),
{
    Err(x)
}

} // verus!
