//! The errors that the loader reports.

use vstd::prelude::*;

verus! {

/// `std::io::ErrorKind`, carried through the library unopened.
#[verifier::external_type_specification]
#[verifier::external_body]
pub struct ExIoErrorKind(std::io::ErrorKind);

/// What went wrong.
#[derive(Debug)]
pub enum ErrorKind {
    MmapFailed,
    IoError(std::io::ErrorKind),
    Utf8Error,
}

/// An error: its kind and a message.
#[derive(Debug)]
pub struct Error {
    kind: ErrorKind,
    message: String,
}

/// The result type of the loader.
pub type Result<T> = core::result::Result<T, Error>;

impl Error {
    /// The kind of the error.
    pub closed spec fn spec_kind(&self) -> ErrorKind {
        self.kind
    }

    /// The text of the error's message.
    pub closed spec fn spec_message(&self) -> Seq<char> {
        self.message@
    }

    /// An error of the given kind with the given message.
    pub fn new(kind: ErrorKind, message: String) -> (e: Self)
        ensures
            e.spec_kind() == kind,
            e.spec_message() == message@,
    {
        Self { kind, message }
    }

    /// The kind of the error.
    pub fn kind(&self) -> (k: &ErrorKind)
        ensures
            *k == self.spec_kind(),
    {
        &self.kind
    }

    /// The message of the error.
    pub fn message(&self) -> (m: &str)
        ensures
            m@ == self.spec_message(),
    {
        self.message.as_str()
    }
}

impl From<ErrorKind> for Error {
    /// An error of the given kind with an empty message.
    fn from(kind: ErrorKind) -> (e: Self)
        ensures
            e.spec_kind() == kind,
            e.spec_message() == Seq::<char>::empty(),
    {
        Self::new(kind, String::new())
    }
}

impl vstd::std_specs::convert::FromSpecImpl<ErrorKind> for Error {
    /// An error holds its message as a `String`, and no spec value names the
    /// `String` that `from` makes; what `from` gives (the kind, and an empty
    /// message) is stated in its own `ensures` instead.
    open spec fn obeys_from_spec() -> bool {
        false
    }

    open spec fn from_spec(v: ErrorKind) -> Self {
        arbitrary()
    }
}

} // verus!
