//! The errors of the application, with the message each one shows.

use vstd::prelude::*;
use crate::text::push_str;

verus! {

/// An I/O error, carried opaquely.
#[verifier::external_type_specification]
#[verifier::external_body]
pub struct ExIoError(std::io::Error);

/// `<std::io::Error as Display>::to_string`: the error's text. It comes from the
/// operating system for OS errors, so nothing is claimed of it.
#[verifier::external_body]
pub(crate) fn io_error_text(e: &std::io::Error) -> String {
    e.to_string()
}

/// The errors of the application, by the part that raised them.
#[derive(Debug)]
pub enum AppError {
    Io(std::io::Error),
    Parse(String),
    Index(String),
    Search(String),
    Config(String),
    Ui(String),
    Serialization(String),
    Path(String),
    Regex(String),
    Glob(String),
}

/// Result of the application's fallible operations.
pub type Result<T> = std::result::Result<T, AppError>;

/// The text put before the message of each kind of error.
pub open spec fn error_prefix(e: AppError) -> Seq<char> {
    match e {
        AppError::Io(_) => "IO error: "@,
        AppError::Parse(_) => "Parse error: "@,
        AppError::Index(_) => "Index error: "@,
        AppError::Search(_) => "Search error: "@,
        AppError::Config(_) => "Configuration error: "@,
        AppError::Ui(_) => "UI error: "@,
        AppError::Serialization(_) => "Serialization error: "@,
        AppError::Path(_) => "Path error: "@,
        AppError::Regex(_) => "Regex error: "@,
        AppError::Glob(_) => "Glob pattern error: "@,
    }
}

/// The message carried by an error, for every kind but `Io`.
pub open spec fn error_detail(e: AppError) -> Seq<char> {
    match e {
        AppError::Io(_) => Seq::empty(),
        AppError::Parse(m) => m@,
        AppError::Index(m) => m@,
        AppError::Search(m) => m@,
        AppError::Config(m) => m@,
        AppError::Ui(m) => m@,
        AppError::Serialization(m) => m@,
        AppError::Path(m) => m@,
        AppError::Regex(m) => m@,
        AppError::Glob(m) => m@,
    }
}

impl From<std::io::Error> for AppError {
    fn from(e: std::io::Error) -> (r: AppError) {
        AppError::Io(e)
    }
}

impl vstd::std_specs::convert::FromSpecImpl<std::io::Error> for AppError {
    open spec fn obeys_from_spec() -> bool {
        true
    }

    open spec fn from_spec(e: std::io::Error) -> AppError {
        AppError::Io(e)
    }
}

impl AppError {
    /// A parse error with the given message.
    pub fn parse(msg: &str) -> (r: Self)
        ensures
            r matches AppError::Parse(m) && m@ == msg@,
    {
        AppError::Parse(msg.to_string())
    }

    /// An index error with the given message.
    pub fn index(msg: &str) -> (r: Self)
        ensures
            r matches AppError::Index(m) && m@ == msg@,
    {
        AppError::Index(msg.to_string())
    }

    /// A search error with the given message.
    pub fn search(msg: &str) -> (r: Self)
        ensures
            r matches AppError::Search(m) && m@ == msg@,
    {
        AppError::Search(msg.to_string())
    }

    /// A configuration error with the given message.
    pub fn config(msg: &str) -> (r: Self)
        ensures
            r matches AppError::Config(m) && m@ == msg@,
    {
        AppError::Config(msg.to_string())
    }

    /// A user-interface error with the given message.
    pub fn ui(msg: &str) -> (r: Self)
        ensures
            r matches AppError::Ui(m) && m@ == msg@,
    {
        AppError::Ui(msg.to_string())
    }

    /// A serialization error with the given message.
    pub fn serialization(msg: &str) -> (r: Self)
        ensures
            r matches AppError::Serialization(m) && m@ == msg@,
    {
        AppError::Serialization(msg.to_string())
    }

    /// A path error with the given message.
    pub fn path(msg: &str) -> (r: Self)
        ensures
            r matches AppError::Path(m) && m@ == msg@,
    {
        AppError::Path(msg.to_string())
    }

    /// A regex error with the given message.
    pub fn regex(msg: &str) -> (r: Self)
        ensures
            r matches AppError::Regex(m) && m@ == msg@,
    {
        AppError::Regex(msg.to_string())
    }

    /// A glob pattern error with the given message.
    pub fn glob(msg: &str) -> (r: Self)
        ensures
            r matches AppError::Glob(m) && m@ == msg@,
    {
        AppError::Glob(msg.to_string())
    }

    /// The text shown for the error: its kind's prefix, then its message (for an I/O
    /// error, the operating system's text of it).
    pub fn message(&self) -> (r: String)
        ensures
            r@.len() >= error_prefix(*self).len(),
            r@.take(error_prefix(*self).len() as int) == error_prefix(*self),
            !(self is Io) ==> r@ == error_prefix(*self) + error_detail(*self),
    {
        let (prefix, detail) = match self {
            AppError::Io(e) => ("IO error: ", io_error_text(e)),
            AppError::Parse(m) => ("Parse error: ", m.clone()),
            AppError::Index(m) => ("Index error: ", m.clone()),
            AppError::Search(m) => ("Search error: ", m.clone()),
            AppError::Config(m) => ("Configuration error: ", m.clone()),
            AppError::Ui(m) => ("UI error: ", m.clone()),
            AppError::Serialization(m) => ("Serialization error: ", m.clone()),
            AppError::Path(m) => ("Path error: ", m.clone()),
            AppError::Regex(m) => ("Regex error: ", m.clone()),
            AppError::Glob(m) => ("Glob pattern error: ", m.clone()),
        };
        let mut r = prefix.to_string();
        push_str(&mut r, detail.as_str());
        assert(r@.take(prefix@.len() as int) =~= prefix@);
        r
    }
}

} // verus!
