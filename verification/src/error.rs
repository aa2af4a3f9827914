//! How a request can fail.

use vstd::prelude::*;

verus! {

/// Why a request was refused.
#[derive(Debug, PartialEq)]
pub enum AppError {
    BadRequest(String),
    NotFound,
    Forbidden,
    Unauthorized,
    Internal(String),
}

/// The value of an [`AppError`].
pub enum ErrorView {
    BadRequest(Seq<char>),
    NotFound,
    Forbidden,
    Unauthorized,
    Internal(Seq<char>),
}

impl View for AppError {
    type V = ErrorView;

    open spec fn view(&self) -> ErrorView {
        match self {
            AppError::BadRequest(m) => ErrorView::BadRequest(m@),
            AppError::NotFound => ErrorView::NotFound,
            AppError::Forbidden => ErrorView::Forbidden,
            AppError::Unauthorized => ErrorView::Unauthorized,
            AppError::Internal(m) => ErrorView::Internal(m@),
        }
    }
}

/// A refusal with a message.
pub fn bad_request(message: &str) -> (r: AppError)
    ensures
        r@ == ErrorView::BadRequest(message@),
{
    AppError::BadRequest(String::from_str(message))
}

} // verus!
