use vstd::prelude::*;

verus! {

/// The error taxonomy of the engine.
///
/// `NotFound` and `AlreadyExists` are expected, recoverable conditions;
/// `BadRequest` is a validation failure (for example an unknown session
/// status); the auth variants report login problems.
#[derive(Debug)]
pub enum AppError {
    NotFound,
    AlreadyExists,
    Unauthorized,
    BadRequest(String),
    AuthAlreadyConfigured,
}

impl AppError {
    /// A short human-readable description, in place of `Display`.
    pub fn message(&self) -> (r: String)
        ensures
            r@.len() > 0,
    {
        let s = match self {
            AppError::NotFound => "Not found",
            AppError::AlreadyExists => "Already exists",
            AppError::Unauthorized => "Unauthorized",
            AppError::BadRequest(_) => "Bad request",
            AppError::AuthAlreadyConfigured => "Auth already configured",
        };
        proof {
            reveal_strlit("Not found");
            reveal_strlit("Already exists");
            reveal_strlit("Unauthorized");
            reveal_strlit("Bad request");
            reveal_strlit("Auth already configured");
        }
        s.to_owned()
    }
}

} // verus!
