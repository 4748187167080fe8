//! Errors of the engine.

use crate::text::duplicate;
use vstd::prelude::*;

verus! {

/// What went wrong.
#[derive(Debug)]
pub enum SherlockErrorType {
    /// A file could not be read; holds its path.
    FileReadError(String),
    /// A file could not be written; holds its path.
    FileWriteError(String),
    /// A file could not be parsed; holds its path.
    FileParseError(String),
    /// A file does not exist; holds its path.
    FileExistError(String),
    /// A directory could not be created; holds its path.
    DirCreateError(String),
    /// A directory could not be read; holds its path.
    DirReadError(String),
    /// A value could not be serialized.
    SerializationError,
    /// A browser whose bookmarks cannot be read; holds its name.
    UnsupportedBrowser(String),
    /// The configuration is missing or wrong.
    ConfigError(Option<String>),
    /// A command could not be run; holds the command.
    CommandExecutionError(String),
    /// A database could not be opened.
    SqlConnectionError,
}

/// The mathematical value of a [`SherlockErrorType`].
pub enum ErrorKind {
    FileReadError(Seq<char>),
    FileWriteError(Seq<char>),
    FileParseError(Seq<char>),
    FileExistError(Seq<char>),
    DirCreateError(Seq<char>),
    DirReadError(Seq<char>),
    SerializationError,
    UnsupportedBrowser(Seq<char>),
    ConfigError(Option<Seq<char>>),
    CommandExecutionError(Seq<char>),
    SqlConnectionError,
}

impl View for SherlockErrorType {
    type V = ErrorKind;

    open spec fn view(&self) -> ErrorKind {
        match self {
            SherlockErrorType::FileReadError(p) => ErrorKind::FileReadError(p@),
            SherlockErrorType::FileWriteError(p) => ErrorKind::FileWriteError(p@),
            SherlockErrorType::FileParseError(p) => ErrorKind::FileParseError(p@),
            SherlockErrorType::FileExistError(p) => ErrorKind::FileExistError(p@),
            SherlockErrorType::DirCreateError(p) => ErrorKind::DirCreateError(p@),
            SherlockErrorType::DirReadError(p) => ErrorKind::DirReadError(p@),
            SherlockErrorType::SerializationError => ErrorKind::SerializationError,
            SherlockErrorType::UnsupportedBrowser(b) => ErrorKind::UnsupportedBrowser(b@),
            SherlockErrorType::ConfigError(m) => ErrorKind::ConfigError(m.deep_view()),
            SherlockErrorType::CommandExecutionError(c) => ErrorKind::CommandExecutionError(c@),
            SherlockErrorType::SqlConnectionError => ErrorKind::SqlConnectionError,
        }
    }
}

/// An error with the message of its cause.
#[derive(Debug)]
pub struct SherlockError {
    pub error: SherlockErrorType,
    pub traceback: String,
}

impl SherlockError {
    /// The error `error`, caused by what `traceback` tells.
    pub fn new(error: SherlockErrorType, traceback: &str) -> (e: Self)
        ensures
            e.error == error,
            e.traceback@ == traceback@,
    {
        SherlockError { error, traceback: duplicate(traceback) }
    }
}

} // verus!
