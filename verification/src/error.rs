use vstd::prelude::*;
use crate::kube_config::ContextError;

verus! {

/// An error of the viewer, as the message shown to the user.
pub enum AppError {
    Msg(String),
}

impl AppError {
    /// The message shown to the user.
    pub fn message(&self) -> (m: String)
        ensures
            match self {
                AppError::Msg(s) => m@ == s@,
            },
    {
        match self {
            AppError::Msg(s) => s.clone(),
        }
    }

    /// The error for a context that could not be resolved, with its message.
    pub fn from_context_error(e: &ContextError) -> (r: AppError)
        ensures
            match r {
                AppError::Msg(s) => s@ == e.message_text(),
            },
    {
        AppError::Msg(e.message())
    }
}

} // verus!
