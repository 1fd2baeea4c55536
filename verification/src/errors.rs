//! Error types surfaced by the library.

use vstd::prelude::*;

verus! {

/// One problem found while parsing a quiz file, at a 1-based line number.
#[derive(Debug, Clone)]
pub struct ParseError {
    pub line: usize,
    pub message: String,
}

/// Mathematical view of a [`ParseError`]: its line number and message text.
#[verifier::ext_equal]
pub struct ParseErrorView {
    pub line: int,
    pub message: Seq<char>,
}

impl View for ParseError {
    type V = ParseErrorView;

    open spec fn view(&self) -> ParseErrorView {
        ParseErrorView { line: self.line as int, message: self.message@ }
    }
}

impl DeepView for ParseError {
    type V = ParseErrorView;

    open spec fn deep_view(&self) -> ParseErrorView {
        self.view()
    }
}

/// Failures reported to clients of the server.
#[derive(Debug)]
pub enum AppError {
    InvalidUpload(String),
    InvalidQuizFile(Vec<ParseError>),
    QuizNotFound,
    SessionNotFound,
    SessionNotJoinable,
    MaxSessionsReached,
    SessionFull,
    Internal(String),
}

impl AppError {
    /// Spec view of `error_code`.
    pub open spec fn spec_error_code(self) -> Seq<char> {
        match self {
            AppError::InvalidUpload(_) => "invalid_upload"@,
            AppError::InvalidQuizFile(_) => "invalid_quiz_file"@,
            AppError::QuizNotFound => "quiz_not_found"@,
            AppError::SessionNotFound => "session_not_found"@,
            AppError::SessionNotJoinable => "session_not_joinable"@,
            AppError::MaxSessionsReached => "max_sessions_reached"@,
            AppError::SessionFull => "session_full"@,
            AppError::Internal(_) => "internal_error"@,
        }
    }

    /// The stable machine-readable code for this error.
    pub fn error_code(&self) -> (r: &'static str)
        ensures
            r@ == self.spec_error_code(),
    {
        match self {
            AppError::InvalidUpload(_) => "invalid_upload",
            AppError::InvalidQuizFile(_) => "invalid_quiz_file",
            AppError::QuizNotFound => "quiz_not_found",
            AppError::SessionNotFound => "session_not_found",
            AppError::SessionNotJoinable => "session_not_joinable",
            AppError::MaxSessionsReached => "max_sessions_reached",
            AppError::SessionFull => "session_full",
            AppError::Internal(_) => "internal_error",
        }
    }

    /// Spec view of `http_status`.
    pub open spec fn spec_http_status(self) -> int {
        match self {
            AppError::InvalidUpload(_) => 400,
            AppError::InvalidQuizFile(_) => 400,
            AppError::QuizNotFound => 404,
            AppError::SessionNotFound => 404,
            AppError::SessionNotJoinable => 409,
            AppError::MaxSessionsReached => 409,
            AppError::SessionFull => 409,
            AppError::Internal(_) => 500,
        }
    }

    /// The HTTP status code this error is reported with.
    pub fn http_status(&self) -> (r: u16)
        ensures
            r as int == self.spec_http_status(),
    {
        match self {
            AppError::InvalidUpload(_) => 400,
            AppError::InvalidQuizFile(_) => 400,
            AppError::QuizNotFound => 404,
            AppError::SessionNotFound => 404,
            AppError::SessionNotJoinable => 409,
            AppError::MaxSessionsReached => 409,
            AppError::SessionFull => 409,
            AppError::Internal(_) => 500,
        }
    }
}

} // verus!
