//! The errors that the library reports, each with the message shown for it.

use vstd::prelude::*;

verus! {

/// An error of the book library.  The storage errors carry the message
/// of the error that the database, the migrations, the file system or the
/// JSON reader gave.
#[derive(Debug)]
pub enum AppError {
    Db(String),
    Migrate(String),
    Io(String),
    Json(String),
    Message(String),
}

/// The message shown for an error.
pub open spec fn error_text(e: AppError) -> Seq<char> {
    match e {
        AppError::Db(m) => "Database error: "@ + m@,
        AppError::Migrate(m) => "Migration error: "@ + m@,
        AppError::Io(m) => "IO error: "@ + m@,
        AppError::Json(m) => "JSON error: "@ + m@,
        AppError::Message(m) => m@,
    }
}

/// An error whose whole message is `text`.
pub open spec fn is_message(e: AppError, text: Seq<char>) -> bool {
    e matches AppError::Message(m) && m@ == text
}

impl AppError {
    /// The message shown for this error.
    pub fn message(&self) -> (r: String)
        ensures
            r@ == error_text(*self),
    {
        match self {
            AppError::Db(m) => {
                let mut s = String::from_str("Database error: ");
                s.append(m.as_str());
                s
            },
            AppError::Migrate(m) => {
                let mut s = String::from_str("Migration error: ");
                s.append(m.as_str());
                s
            },
            AppError::Io(m) => {
                let mut s = String::from_str("IO error: ");
                s.append(m.as_str());
                s
            },
            AppError::Json(m) => {
                let mut s = String::from_str("JSON error: ");
                s.append(m.as_str());
                s
            },
            AppError::Message(m) => m.clone(),
        }
    }
}

} // verus!
