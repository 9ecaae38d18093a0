//! What can go wrong, with the text that the user is shown.

use vstd::prelude::*;

verus! {

/// A failure of the application.
#[derive(Debug)]
pub enum AppError {
    /// A configuration or a file that it rests on is unusable.
    Config(String),
    /// The caller passed something that cannot be used.
    InvalidInput(String),
    /// A message for the user.
    Message(String),
    /// The usage database refused.
    Database(String),
    /// Another writer is at work.
    Lock(String),
    /// A file could not be read or written.
    Io(String),
    /// A file does not hold the JSON that it should.
    Json(String),
}

/// What a failure says.
pub enum Fault {
    Config(Seq<char>),
    InvalidInput(Seq<char>),
    Message(Seq<char>),
    Database(Seq<char>),
    Lock(Seq<char>),
    Io(Seq<char>),
    Json(Seq<char>),
}

impl Fault {
    /// The text of the failure.
    pub open spec fn text(self) -> Seq<char> {
        match self {
            Fault::Config(text) => text,
            Fault::InvalidInput(text) => text,
            Fault::Message(text) => text,
            Fault::Database(text) => text,
            Fault::Lock(text) => text,
            Fault::Io(text) => text,
            Fault::Json(text) => text,
        }
    }
}

impl View for AppError {
    type V = Fault;

    open spec fn view(&self) -> Fault {
        match self {
            AppError::Config(text) => Fault::Config(text@),
            AppError::InvalidInput(text) => Fault::InvalidInput(text@),
            AppError::Message(text) => Fault::Message(text@),
            AppError::Database(text) => Fault::Database(text@),
            AppError::Lock(text) => Fault::Lock(text@),
            AppError::Io(text) => Fault::Io(text@),
            AppError::Json(text) => Fault::Json(text@),
        }
    }
}

impl AppError {
    /// The text of the failure.
    pub fn text(&self) -> (r: &str)
        ensures
            r@ == self@.text(),
    {
        match self {
            AppError::Config(text) => text.as_str(),
            AppError::InvalidInput(text) => text.as_str(),
            AppError::Message(text) => text.as_str(),
            AppError::Database(text) => text.as_str(),
            AppError::Lock(text) => text.as_str(),
            AppError::Io(text) => text.as_str(),
            AppError::Json(text) => text.as_str(),
        }
    }
}

} // verus!
