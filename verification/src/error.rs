//! The shell's error type and the text its messages quote.
use vstd::prelude::*;

verus! {

/// Errors of the plugin store, the filesystem and the self-updater.
#[derive(Debug, Clone)]
pub enum AppError {
    Plugin(String),
    Io(String),
    Update(String),
}

/// What an `AppError` carries, as mathematical text.
pub enum ErrorModel {
    Plugin(Seq<char>),
    Io(Seq<char>),
    Update(Seq<char>),
}

impl View for AppError {
    type V = ErrorModel;

    open spec fn view(&self) -> ErrorModel {
        match self {
            AppError::Plugin(m) => ErrorModel::Plugin(m@),
            AppError::Io(m) => ErrorModel::Io(m@),
            AppError::Update(m) => ErrorModel::Update(m@),
        }
    }
}

impl AppError {
    /// The text of the message the error carries.
    pub open spec fn message_text(&self) -> Seq<char> {
        match self@ {
            ErrorModel::Plugin(t) => t,
            ErrorModel::Io(t) => t,
            ErrorModel::Update(t) => t,
        }
    }

    /// The message the error carries.
    pub fn message(&self) -> (m: String)
        ensures
            m@ == self.message_text(),
    {
        match self {
            AppError::Plugin(m) => m.clone(),
            AppError::Io(m) => m.clone(),
            AppError::Update(m) => m.clone(),
        }
    }
}

/// The `Debug` rendering of a string: quoted, with escapes.
pub uninterp spec fn debug_str(s: Seq<char>) -> Seq<char>;

/// `format!("{s:?}")` on a string slice: Rust's `Debug` for `str`, which
/// wraps the text in double quotes and escapes quotes, backslashes, control
/// and non-printable characters. Only the name is stated; the escaping
/// table itself is std's.
#[verifier::external_body]
pub fn debug_quote(s: &str) -> (r: String)
    ensures
        r@ == debug_str(s@),
{
    format!("{s:?}")
}

} // verus!
