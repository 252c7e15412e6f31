use vstd::prelude::*;

use crate::rrest::text;

verus! {

/// The kinds of I/O errors of the standard library.
#[verifier::external_type_specification]
#[verifier::external_body]
pub struct ExStdErrorKind(std::io::ErrorKind);

/// What kind of I/O error came up.
#[derive(Clone, Copy, PartialEq, Eq, Debug)]
pub enum IoErrorKind {
    /// The operation cannot go on right now.
    WouldBlock,
    /// Nothing of a write was taken.
    WriteZero,
    /// The bytes make no sense.
    InvalidData,
    /// No kind in particular.
    Other,
    /// Any other kind of the standard library, as it is.
    Std(std::io::ErrorKind),
}

/// An I/O error.
#[derive(Debug)]
pub struct IoError {
    /// Its kind.
    pub kind: IoErrorKind,
    /// What it says.
    pub message: String,
    /// The number that the operating system gives it, if it does.
    pub code: Option<i32>,
}

/// An I/O error, for specifications.
pub struct IoErrorView {
    /// Its kind.
    pub kind: IoErrorKind,
    /// What it says.
    pub message: Seq<char>,
    /// The number that the operating system gives it, if it does.
    pub code: Option<i32>,
}

impl IoErrorView {
    /// An error that is not of the operating system.
    pub open spec fn of_kind(kind: IoErrorKind, message: Seq<char>) -> Self {
        IoErrorView { kind, message, code: None }
    }
}

impl View for IoError {
    type V = IoErrorView;

    open spec fn view(&self) -> IoErrorView {
        IoErrorView { kind: self.kind, message: self.message@, code: self.code }
    }
}

impl IoError {
    /// Whether the operation cannot go on right now.
    pub fn is_would_block(&self) -> (yes: bool)
        ensures
            yes == (self.kind is WouldBlock),
    {
        match self.kind {
            IoErrorKind::WouldBlock => true,
            _ => false,
        }
    }

    /// An error that is not of the operating system.
    pub fn of_kind(kind: IoErrorKind, message: String) -> (error: Self)
        ensures
            error@ == IoErrorView::of_kind(kind, message@),
    {
        IoError { kind, message, code: None }
    }

    /// An error of no kind in particular.
    pub fn other(message: String) -> (error: Self)
        ensures
            error@ == IoErrorView::of_kind(IoErrorKind::Other, message@),
    {
        Self::of_kind(IoErrorKind::Other, message)
    }
}

/// Why a request came to nothing.
#[derive(Debug)]
pub enum Error {
    /// The URL is malformed, has no host, or is not one of HTTP.
    InvalidUrl(String),
    /// The server answered with this status, which is no success.
    Http(u16),
    /// The answer is not HTTP.
    Protocol(String),
    /// The connection failed.
    Io(IoError),
}

/// Why a request came to nothing, for specifications.
pub enum ErrorView {
    /// The URL is malformed, has no host, or is not one of HTTP.
    InvalidUrl(Seq<char>),
    /// The server answered with this status, which is no success.
    Http(u16),
    /// The answer is not HTTP.
    Protocol(Seq<char>),
    /// The connection failed.
    Io(IoErrorView),
}

impl View for Error {
    type V = ErrorView;

    open spec fn view(&self) -> ErrorView {
        match self {
            Error::InvalidUrl(message) => ErrorView::InvalidUrl(message@),
            Error::Http(status) => ErrorView::Http(*status),
            Error::Protocol(message) => ErrorView::Protocol(message@),
            Error::Io(error) => ErrorView::Io(error@),
        }
    }
}

impl ErrorView {
    /// The error in words.
    pub open spec fn in_words(self) -> Seq<char> {
        match self {
            ErrorView::InvalidUrl(message) => "invalid URL: "@ + message,
            ErrorView::Http(status) => "HTTP status "@ + text::decimal_digits(status as nat),
            ErrorView::Protocol(message) => "protocol error: "@ + message,
            ErrorView::Io(error) => error.message,
        }
    }
}

impl Error {
    /// The error in words.
    pub fn describe(&self) -> (words: String)
        ensures
            words@ == self@.in_words(),
    {
        match self {
            Error::InvalidUrl(message) => text::joined("invalid URL: ", message.as_str()),
            Error::Http(status) => text::joined("HTTP status ", text::decimal(*status).as_str()),
            Error::Protocol(message) => text::joined("protocol error: ", message.as_str()),
            Error::Io(error) => error.message.clone(),
        }
    }
}

/// An error in words says of what kind it is and then the text or the number that it
/// holds; one of I/O says its own text and nothing else.
pub proof fn law_error_says_its_text(error: ErrorView)
    ensures
        match error {
            ErrorView::InvalidUrl(message) => error.in_words() == "invalid URL: "@
                + message,
            ErrorView::Protocol(message) => error.in_words() == "protocol error: "@ + message,
            ErrorView::Io(cause) => error.in_words() == cause.message,
            ErrorView::Http(status) => exists|digits: Seq<char>|
                {
                    &&& error.in_words() == #[trigger] ("HTTP status "@ + digits)
                    &&& text::digits_value(digits.map_values(|c: char| c as u8)) == status
                },
        },
{
    if let ErrorView::Http(status) = error {
        text::law_decimal_reads_back(status as nat);
        assert(error.in_words() == ("HTTP status "@ + text::decimal_digits(status as nat)));
    }
}

} // verus!
