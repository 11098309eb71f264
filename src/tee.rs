use vstd::prelude::*;

verus! {

/// Errors of the TEE notary bootstrap.
#[derive(Clone, Debug, PartialEq, Eq)]
pub enum Error {
    /// The TEE could not be initialised.
    InitializationError(String),
    /// An operation in the TEE failed.
    OperationError(String),
}

impl Error {
    /// The message that describes the error.
    pub fn message(&self) -> (r: String)
        ensures
            r@ == match self {
                Error::InitializationError(s) => "TEE initialization error: "@ + s@,
                Error::OperationError(s) => "TEE operation error: "@ + s@,
            },
    {
        match self {
            Error::InitializationError(s) => {
                let mut m = String::from_str("TEE initialization error: ");
                m.append(s.as_str());
                m
            },
            Error::OperationError(s) => {
                let mut m = String::from_str("TEE operation error: ");
                m.append(s.as_str());
                m
            },
        }
    }
}

/// Initialises the TEE notary; the bootstrap is a stub that always succeeds.
pub fn initiate_tee_notary() -> (r: Result<(), Error>)
    ensures
        r is Ok,
{
    Ok(())
}

} // verus!
