use vstd::prelude::*;

verus! {

/// Error for an `Option` that resolved to `None` where a value was needed.
#[derive(Clone, Copy, Debug, PartialEq, Eq, Structural)]
pub enum NoneError {
    NoneError,
}

impl NoneError {
    /// A plain description of the error.
    pub fn message(&self) -> (r: &'static str)
        ensures
            r@ == "Option resolved to none"@,
    {
        "Option resolved to none"
    }
}

/// Turns an optional value into a `Result`, reporting `NoneError` when it
/// is absent.
pub fn to_error<T>(opt: Option<T>) -> (r: Result<T, NoneError>)
    ensures
        opt matches Some(t) ==> r matches Ok(u) && u == t,
        opt is None ==> r == Result::<T, NoneError>::Err(NoneError::NoneError),
{
    match opt {
        Some(t) => Ok(t),
        None => Err(NoneError::NoneError),
    }
}

} // verus!
