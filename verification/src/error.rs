//! Errors of the library.

use vstd::prelude::*;

verus! {

/// What can go wrong when a font is loaded.
#[derive(Debug)]
pub enum KuleError {
    /// A fixed message, as the font parser gives for malformed font bytes.
    Static(&'static str),
}

/// The result of an operation that can fail.
pub type KuleResult<T> = Result<T, KuleError>;

/// The result of an operation that returns nothing but can fail.
pub type CanFail = KuleResult<()>;

impl KuleError {
    /// The message of the error.
    pub fn message(&self) -> (s: String)
        ensures
            s@ == match self {
                KuleError::Static(m) => m@,
            },
    {
        match self {
            KuleError::Static(m) => String::from_str(m),
        }
    }
}

} // verus!
