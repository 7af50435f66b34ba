use vstd::prelude::*;

verus! {

/// What a scan error is: its message and the line and column it refers to.
pub struct ErrorView {
    pub message: Seq<char>,
    pub line: nat,
    pub column: nat,
}

/// A lexical error: a message with a (line, column) position.
#[derive(Debug)]
pub struct Error {
    message: String,
    location: (u32, u32),
}

impl View for Error {
    type V = ErrorView;

    closed spec fn view(&self) -> ErrorView {
        ErrorView {
            message: self.message@,
            line: self.location.0 as nat,
            column: self.location.1 as nat,
        }
    }
}

impl Error {
    pub fn new(message: String, location: (u32, u32)) -> (r: Error)
        ensures
            r@ == (ErrorView {
                message: message@,
                line: location.0 as nat,
                column: location.1 as nat,
            }),
    {
        Error { message, location }
    }

    pub fn get_line(&self) -> (r: u32)
        ensures
            r as nat == self@.line,
    {
        self.location.0
    }

    pub fn get_column(&self) -> (r: u32)
        ensures
            r as nat == self@.column,
    {
        self.location.1
    }

    pub fn get_location(&self) -> (r: (u32, u32))
        ensures
            r.0 as nat == self@.line,
            r.1 as nat == self@.column,
    {
        self.location
    }

    pub fn get_message(&self) -> (r: String)
        ensures
            r@ == self@.message,
    {
        self.message.clone()
    }
}

} // verus!
