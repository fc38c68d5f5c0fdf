//! The error value that user-supplied operations report.

use vstd::prelude::*;

verus! {

/// A failure with its description.
#[derive(Debug)]
pub struct Error {
    pub message: String,
    /// The descriptions of what it comes from, the nearest first.
    pub causes: Vec<String>,
}

impl Error {
    /// A failure with this description that comes from nothing else.
    pub fn new(message: &str) -> (r: Self)
        ensures
            r.message@ == message@,
            r.causes@ == Seq::<String>::empty(),
    {
        Error { message: message.to_owned(), causes: Vec::new() }
    }

    /// A failure whose description ends in what it is about.
    pub fn about(description: &str, subject: &str) -> (r: Self)
        ensures
            r.message@ == description@ + subject@,
            r.causes@ == Seq::<String>::empty(),
    {
        let mut message = description.to_owned();
        message.append(subject);
        Error { message, causes: Vec::new() }
    }

    /// A failure with this description that comes from this one.
    pub fn with_context(self, message: &str) -> (r: Self)
        ensures
            is_in_context(r, self, message@),
    {
        let mut causes: Vec<String> = Vec::new();
        let Error { message: cause, causes: rest } = self;
        causes.push(cause);
        let mut rest = rest;
        causes.append(&mut rest);
        Error { message: message.to_owned(), causes }
    }
}

/// What became of reading a file.
pub enum FileText {
    /// There is no such file.
    Missing,
    /// The file is there but cannot be read.
    Unreadable,
    /// The text of the file.
    Text(String),
}

/// The failure has this description and comes from `cause`.
pub open spec fn is_in_context(error: Error, cause: Error, message: Seq<char>) -> bool {
    &&& error.message@ == message
    &&& error.causes@ == seq![cause.message] + cause.causes@
}

} // verus!
