//! The error type of the host-side plugin runtime.
use vstd::prelude::*;

verus! {

/// Why an operation of the plugin runtime failed.
#[derive(Debug)]
pub enum Error {
    /// The caller handed in a value that the operation cannot use.
    InvalidInput { message: String },
    /// A named thing could not be found.
    NotFound { what: String, detail: String },
    /// The operation is not available for this input or platform.
    Unsupported { message: String },
    /// An operation on the outside world failed.
    Operation { op: String, message: String },
}

impl Error {
    pub fn invalid_input(message: &str) -> (e: Error)
        ensures
            e matches Error::InvalidInput { message: m } && m@ == message@,
    {
        Error::InvalidInput { message: String::from_str(message) }
    }

    pub fn invalid_input_owned(message: String) -> (e: Error)
        ensures
            e matches Error::InvalidInput { message: m } && m@ == message@,
    {
        Error::InvalidInput { message }
    }

    pub fn not_found(what: &str, detail: String) -> (e: Error)
        ensures
            e matches Error::NotFound { what: w, detail: d } && w@ == what@ && d@ == detail@,
    {
        Error::NotFound { what: String::from_str(what), detail }
    }

    pub fn unsupported(message: &str) -> (e: Error)
        ensures
            e matches Error::Unsupported { message: m } && m@ == message@,
    {
        Error::Unsupported { message: String::from_str(message) }
    }

    pub fn operation(op: &str, message: String) -> (e: Error)
        ensures
            e matches Error::Operation { op: o, message: m } && o@ == op@ && m@ == message@,
    {
        Error::Operation { op: String::from_str(op), message }
    }

    /// The text that describes this error to a person.
    pub open spec fn text(&self) -> Seq<char> {
        match self {
            Error::InvalidInput { message } => "invalid input: "@ + message@,
            Error::NotFound { what, detail } => what@ + " not found: "@ + detail@,
            Error::Unsupported { message } => "unsupported: "@ + message@,
            Error::Operation { op, message } => op@ + " failed: "@ + message@,
        }
    }

    /// Renders this error as text.
    pub fn describe(&self) -> (s: String)
        ensures
            s@ == self.text(),
    {
        match self {
            Error::InvalidInput { message } => {
                let s = String::from_str("invalid input: ");
                s.concat(message.as_str())
            },
            Error::NotFound { what, detail } => {
                let s = what.clone();
                let s = s.concat(" not found: ");
                s.concat(detail.as_str())
            },
            Error::Unsupported { message } => {
                let s = String::from_str("unsupported: ");
                s.concat(message.as_str())
            },
            Error::Operation { op, message } => {
                let s = op.clone();
                let s = s.concat(" failed: ");
                s.concat(message.as_str())
            },
        }
    }
}

} // verus!
