//! What can go wrong.

use vstd::prelude::*;

verus! {

/// An error, with the message for the user.
#[derive(Debug)]
pub enum CoreError {
    /// The request itself is not acceptable.
    InvalidInput(String),
    /// What the request names is not there.
    NotFound(String),
    /// What is kept could not be read or written.
    Storage(String),
}

pub ghost enum CoreErrorView {
    InvalidInput(Seq<char>),
    NotFound(Seq<char>),
    Storage(Seq<char>),
}

impl View for CoreError {
    type V = CoreErrorView;

    open spec fn view(&self) -> CoreErrorView {
        match self {
            CoreError::InvalidInput(message) => CoreErrorView::InvalidInput(message@),
            CoreError::NotFound(message) => CoreErrorView::NotFound(message@),
            CoreError::Storage(message) => CoreErrorView::Storage(message@),
        }
    }
}

impl CoreError {
    /// The message for the user.
    pub fn message(&self) -> (text: &str)
        ensures
            text@ == match *self {
                CoreError::InvalidInput(message) => message@,
                CoreError::NotFound(message) => message@,
                CoreError::Storage(message) => message@,
            },
            text@ == match self@ {
                CoreErrorView::InvalidInput(message) => message,
                CoreErrorView::NotFound(message) => message,
                CoreErrorView::Storage(message) => message,
            },
    {
        match self {
            CoreError::InvalidInput(message) => message.as_str(),
            CoreError::NotFound(message) => message.as_str(),
            CoreError::Storage(message) => message.as_str(),
        }
    }
}

} // verus!
