//! The error type that every command hands back to the frontend: a message.

use vstd::prelude::*;

verus! {

/// An error carried as the message that the frontend shows.
pub struct AppError(pub String);

pub type AppResult<T> = Result<T, AppError>;

impl AppError {
    /// The message of the error, as shown to the user.
    pub fn message(&self) -> (m: &str)
        ensures
            m@ == self.0@,
    {
        self.0.as_str()
    }
}

/// An error result with the given message.
pub fn err<T>(msg: &str) -> (r: AppResult<T>)
    ensures
        r matches Err(e) && e.0@ == msg@,
{
    Err(AppError(msg.to_owned()))
}

} // verus!
