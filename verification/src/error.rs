//! The errors of the tracker.

use crate::text::joined;
use vstd::prelude::*;

verus! {

/// What can go wrong.
#[derive(Debug, Clone, PartialEq, Eq)]
pub enum BeadsError {
    /// A setting or a stored value is unusable.
    Config(String),
    /// An argument is invalid.
    Validation { field: String, reason: String },
    /// There is no issue with this ID.
    IssueNotFound { id: String },
    /// A dependency would close a cycle.
    DependencyCycle { path: String },
    /// A value that has to be unique occurs already.
    UniqueViolation { columns: String },
    /// Nothing was left to do.
    NothingToDo { reason: String },
    /// The database reported an error.
    Database(String),
}

/// The view of [`BeadsError`].
#[verifier::ext_equal]
pub enum BeadsErrorView {
    Config(Seq<char>),
    Validation { field: Seq<char>, reason: Seq<char> },
    IssueNotFound { id: Seq<char> },
    DependencyCycle { path: Seq<char> },
    UniqueViolation { columns: Seq<char> },
    NothingToDo { reason: Seq<char> },
    Database(Seq<char>),
}

impl DeepView for BeadsError {
    type V = BeadsErrorView;

    open spec fn deep_view(&self) -> BeadsErrorView {
        match self {
            BeadsError::Config(s) => BeadsErrorView::Config(s@),
            BeadsError::Validation { field, reason } => BeadsErrorView::Validation {
                field: field@,
                reason: reason@,
            },
            BeadsError::IssueNotFound { id } => BeadsErrorView::IssueNotFound { id: id@ },
            BeadsError::DependencyCycle { path } => BeadsErrorView::DependencyCycle { path: path@ },
            BeadsError::UniqueViolation { columns } => BeadsErrorView::UniqueViolation {
                columns: columns@,
            },
            BeadsError::NothingToDo { reason } => BeadsErrorView::NothingToDo { reason: reason@ },
            BeadsError::Database(s) => BeadsErrorView::Database(s@),
        }
    }
}

/// The view of a result whose error is a [`BeadsError`].
pub open spec fn outcome<T: DeepView>(r: Result<T, BeadsError>) -> Result<T::V, BeadsErrorView> {
    match r {
        Ok(v) => Ok(v.deep_view()),
        Err(e) => Err(e.deep_view()),
    }
}

impl BeadsError {
    /// An invalid argument.
    pub fn validation(field: &str, reason: &str) -> (r: Self)
        ensures
            r.deep_view() == (BeadsErrorView::Validation { field: field@, reason: reason@ }),
    {
        BeadsError::Validation { field: field.to_owned(), reason: reason.to_owned() }
    }

    /// There is no issue with this ID.
    pub fn not_found(id: &str) -> (r: Self)
        ensures
            r.deep_view() == (BeadsErrorView::IssueNotFound { id: id@ }),
    {
        BeadsError::IssueNotFound { id: id.to_owned() }
    }

    /// A setting or a stored value is unusable: `what`, then `value`.
    pub fn config(what: &str, value: &str) -> (r: Self)
        ensures
            r.deep_view() == BeadsErrorView::Config(what@ + value@),
    {
        BeadsError::Config(joined(what, value))
    }
}

} // verus!
