//! The errors of the library.

use vstd::prelude::*;

use crate::text::{cat2, cat4};

verus! {

/// What can go wrong. The errors of other programs and libraries are kept as
/// their texts.
#[derive(Debug, PartialEq, Eq)]
pub enum Error {
    /// The configuration, or data that came from a source, is not acceptable.
    Config(String),
    /// The current directory is unknown.
    CurrentDir(String),
    /// A file or directory could not be read.
    Read { path: String, source: String },
    /// A file or directory could not be written.
    Write { path: String, source: String },
    /// A request to a provider failed.
    Http(String),
    /// A text is not a URL.
    Url(String),
    /// A text is not the JSON that was expected.
    Json(String),
    /// The state database refused an operation.
    Sql(String),
    /// A Git command failed.
    Git(String),
    /// A search pattern is not acceptable.
    Search(String),
    /// Another operation is changing the workspace.
    WorkspaceLocked,
    /// A background task failed.
    Task(String),
}

/// The results of the library.
pub type Result<T> = std::result::Result<T, Error>;

/// An error with its texts as characters.
pub enum ErrorModel {
    Config(Seq<char>),
    CurrentDir(Seq<char>),
    Read { path: Seq<char>, source: Seq<char> },
    Write { path: Seq<char>, source: Seq<char> },
    Http(Seq<char>),
    Url(Seq<char>),
    Json(Seq<char>),
    Sql(Seq<char>),
    Git(Seq<char>),
    Search(Seq<char>),
    WorkspaceLocked,
    Task(Seq<char>),
}

impl View for Error {
    type V = ErrorModel;

    open spec fn view(&self) -> ErrorModel {
        match self {
            Error::Config(text) => ErrorModel::Config(text@),
            Error::CurrentDir(text) => ErrorModel::CurrentDir(text@),
            Error::Read { path, source } => ErrorModel::Read { path: path@, source: source@ },
            Error::Write { path, source } => ErrorModel::Write { path: path@, source: source@ },
            Error::Http(text) => ErrorModel::Http(text@),
            Error::Url(text) => ErrorModel::Url(text@),
            Error::Json(text) => ErrorModel::Json(text@),
            Error::Sql(text) => ErrorModel::Sql(text@),
            Error::Git(text) => ErrorModel::Git(text@),
            Error::Search(text) => ErrorModel::Search(text@),
            Error::WorkspaceLocked => ErrorModel::WorkspaceLocked,
            Error::Task(text) => ErrorModel::Task(text@),
        }
    }
}

impl ErrorModel {
    /// The message of an error.
    pub open spec fn message(self) -> Seq<char> {
        match self {
            ErrorModel::Config(text) => "configuration error: "@ + text,
            ErrorModel::CurrentDir(text) => "failed to determine the current directory: "@ + text,
            ErrorModel::Read { path, source } => "failed to read "@ + path + ": "@ + source,
            ErrorModel::Write { path, source } => "failed to write "@ + path + ": "@ + source,
            ErrorModel::Http(text) => "HTTP request failed: "@ + text,
            ErrorModel::Url(text) => "invalid URL: "@ + text,
            ErrorModel::Json(text) => "invalid JSON: "@ + text,
            ErrorModel::Sql(text) => "state database error: "@ + text,
            ErrorModel::Git(text) => "git operation failed: "@ + text,
            ErrorModel::Search(text) => "search error: "@ + text,
            ErrorModel::WorkspaceLocked => "workspace is already being modified"@,
            ErrorModel::Task(text) => "task failed: "@ + text,
        }
    }
}

impl Error {
    /// The message of an error.
    pub fn message(&self) -> (text: String)
        ensures
            text@ == self@.message(),
    {
        match self {
            Error::Config(text) => cat2("configuration error: ", text.as_str()),
            Error::CurrentDir(text) => cat2(
                "failed to determine the current directory: ",
                text.as_str(),
            ),
            Error::Read { path, source } => cat4(
                "failed to read ",
                path.as_str(),
                ": ",
                source.as_str(),
            ),
            Error::Write { path, source } => cat4(
                "failed to write ",
                path.as_str(),
                ": ",
                source.as_str(),
            ),
            Error::Http(text) => cat2("HTTP request failed: ", text.as_str()),
            Error::Url(text) => cat2("invalid URL: ", text.as_str()),
            Error::Json(text) => cat2("invalid JSON: ", text.as_str()),
            Error::Sql(text) => cat2("state database error: ", text.as_str()),
            Error::Git(text) => cat2("git operation failed: ", text.as_str()),
            Error::Search(text) => cat2("search error: ", text.as_str()),
            Error::WorkspaceLocked => "workspace is already being modified".to_owned(),
            Error::Task(text) => cat2("task failed: ", text.as_str()),
        }
    }
}

impl Clone for Error {
    fn clone(&self) -> (copy: Error)
        ensures
            copy@ == self@,
    {
        match self {
            Error::Config(text) => Error::Config(text.clone()),
            Error::CurrentDir(text) => Error::CurrentDir(text.clone()),
            Error::Read { path, source } => Error::Read {
                path: path.clone(),
                source: source.clone(),
            },
            Error::Write { path, source } => Error::Write {
                path: path.clone(),
                source: source.clone(),
            },
            Error::Http(text) => Error::Http(text.clone()),
            Error::Url(text) => Error::Url(text.clone()),
            Error::Json(text) => Error::Json(text.clone()),
            Error::Sql(text) => Error::Sql(text.clone()),
            Error::Git(text) => Error::Git(text.clone()),
            Error::Search(text) => Error::Search(text.clone()),
            Error::WorkspaceLocked => Error::WorkspaceLocked,
            Error::Task(text) => Error::Task(text.clone()),
        }
    }
}

/// What holds of a result without a value: the error it carries, if any.
pub open spec fn failure<T>(result: Result<T>) -> Option<ErrorModel> {
    match result {
        Ok(_) => None,
        Err(error) => Some(error@),
    }
}

}
