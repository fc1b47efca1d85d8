//! The errors that an operation can end in.
use vstd::prelude::*;

verus! {

/// Why an operation failed.
#[derive(Debug)]
pub enum LkpmError {
    Network(String),
    PackageNotFound(String),
    PermissionDenied,
    /// The message of a failed input or output operation.
    Io(String),
    Other(String),
}

/// An error with its texts taken as sequences of characters.
pub enum ErrorView {
    Network(Seq<char>),
    PackageNotFound(Seq<char>),
    PermissionDenied,
    Io(Seq<char>),
    Other(Seq<char>),
}

impl View for LkpmError {
    type V = ErrorView;

    open spec fn view(&self) -> ErrorView {
        match self {
            LkpmError::Network(m) => ErrorView::Network(m@),
            LkpmError::PackageNotFound(m) => ErrorView::PackageNotFound(m@),
            LkpmError::PermissionDenied => ErrorView::PermissionDenied,
            LkpmError::Io(m) => ErrorView::Io(m@),
            LkpmError::Other(m) => ErrorView::Other(m@),
        }
    }
}

/// What is shown to the user for an error.
pub open spec fn error_message(e: ErrorView) -> Seq<char> {
    match e {
        ErrorView::Network(m) => "Network error: "@ + m
            + ". Check your internet connection first with 'ping' before running lkpm!"@,
        ErrorView::PackageNotFound(m) => "Package not found: "@ + m
            + ". Try running 'lkpm -r' to update repository metadata if the package exists in any configured repository!"@,
        ErrorView::PermissionDenied => "Root permission required. Use 'sudo' for this operation!"@,
        ErrorView::Io(m) => m,
        ErrorView::Other(m) => m,
    }
}

impl LkpmError {
    /// The message that is shown to the user.
    pub fn message(&self) -> (r: String)
        ensures
            r@ == error_message(self@),
    {
        match self {
            LkpmError::Network(m) => "Network error: ".to_owned().concat(m).concat(
                ". Check your internet connection first with 'ping' before running lkpm!",
            ),
            LkpmError::PackageNotFound(m) => "Package not found: ".to_owned().concat(m).concat(
                ". Try running 'lkpm -r' to update repository metadata if the package exists in any configured repository!",
            ),
            LkpmError::PermissionDenied => "Root permission required. Use 'sudo' for this operation!".to_owned(),
            LkpmError::Io(m) => m.clone(),
            LkpmError::Other(m) => m.clone(),
        }
    }

    /// The same error once more.
    pub fn copy(&self) -> (r: LkpmError)
        ensures
            r@ == self@,
    {
        match self {
            LkpmError::Network(m) => LkpmError::Network(m.clone()),
            LkpmError::PackageNotFound(m) => LkpmError::PackageNotFound(m.clone()),
            LkpmError::PermissionDenied => LkpmError::PermissionDenied,
            LkpmError::Io(m) => LkpmError::Io(m.clone()),
            LkpmError::Other(m) => LkpmError::Other(m.clone()),
        }
    }
}

/// What came of a piece of work, with its error taken by its view.
pub open spec fn outcome_of<T>(r: Result<T, LkpmError>) -> Result<(), ErrorView> {
    match r {
        Ok(_) => Ok(()),
        Err(e) => Err(e@),
    }
}

/// What came of a piece of work, if it has been done.
pub open spec fn opt_outcome<T>(r: Option<Result<T, LkpmError>>) -> Option<Result<(), ErrorView>> {
    match r {
        Some(r) => Some(outcome_of(r)),
        None => None,
    }
}

/// An error that carries only a message.
pub fn other(message: &str) -> (r: LkpmError)
    ensures
        r@ == ErrorView::Other(message@),
{
    LkpmError::Other(message.to_owned())
}

} // verus!
