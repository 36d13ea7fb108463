use vstd::prelude::*;
use vstd::string::StringExecFns;

verus! {

/// The error kinds of the library.
///
/// `DatabaseError` stands for a failure of the storage layer itself,
/// `InvalidInput` for a supplied value that violates a validation rule, and
/// `NotFound` for a referenced entry id or goal that does not exist. Each
/// variant carries a human-readable detail.
#[derive(Debug)]
pub enum BrewLogError {
    DatabaseError(String),
    InvalidInput(String),
    NotFound(String),
}

impl BrewLogError {
    /// The human-readable form of the error: a fixed kind prefix followed by
    /// the detail text.
    pub fn message(&self) -> (r: String)
        ensures
            self matches BrewLogError::DatabaseError(m) ==> r@ == "Database error: "@ + m@,
            self matches BrewLogError::InvalidInput(m) ==> r@ == "Invalid input: "@ + m@,
            self matches BrewLogError::NotFound(m) ==> r@ == "Not found: "@ + m@,
    {
        match self {
            BrewLogError::DatabaseError(m) => String::from_str("Database error: ").concat(m.as_str()),
            BrewLogError::InvalidInput(m) => String::from_str("Invalid input: ").concat(m.as_str()),
            BrewLogError::NotFound(m) => String::from_str("Not found: ").concat(m.as_str()),
        }
    }
}

} // verus!
