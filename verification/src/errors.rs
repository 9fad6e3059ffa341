//! The error a request handler answers with.
use vstd::prelude::*;
use crate::plugins::{CallMethod, PluginError, spec_error_text};

verus! {

/// The JSON body of an error answer.
#[derive(Debug, Clone)]
pub struct ErrorMessage {
    pub success: bool,
    pub message: String,
}

/// A failed request, by the text of its error.
#[derive(Debug, Clone)]
pub struct AppError(pub String);

impl AppError {
    /// The body of the answer: not a success, with the error's text.
    pub fn error_message(&self) -> (m: ErrorMessage)
        ensures
            !m.success,
            m.message@ == self.0@,
    {
        ErrorMessage { success: false, message: self.0.clone() }
    }

    /// The status of the answer: 500, an internal server error.
    pub fn status_code(&self) -> (code: u16)
        ensures
            code == 500,
    {
        500
    }

    /// The answer to a failed plugin call made with `method`.
    pub fn from_plugin(e: &PluginError, method: CallMethod) -> (a: AppError)
        ensures
            a.0@ == spec_error_text(*e, method),
    {
        AppError(e.message(method))
    }
}

} // verus!
