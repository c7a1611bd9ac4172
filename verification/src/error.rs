//! Why an operation on the registry failed.

use vstd::prelude::*;

verus! {

/// The failure reasons that a caller can be told.
#[derive(Debug, PartialEq, Eq)]
pub enum RegistryError {
    /// A record with the requested domain already exists.
    DuplicateDomain,
    /// No record has the requested id.
    NotFound,
    /// The durable store could not carry out the write; the text is the
    /// store's own reason, handed on verbatim.
    StorageError(String),
}

/// The failure reasons as plain values.
pub enum ErrorView {
    DuplicateDomain,
    NotFound,
    StorageError(Seq<char>),
}

impl View for RegistryError {
    type V = ErrorView;

    open spec fn view(&self) -> ErrorView {
        match self {
            RegistryError::DuplicateDomain => ErrorView::DuplicateDomain,
            RegistryError::NotFound => ErrorView::NotFound,
            RegistryError::StorageError(reason) => ErrorView::StorageError(reason@),
        }
    }
}

impl RegistryError {
    /// The text shown to the caller. A storage failure is given in the
    /// store's own words.
    pub fn message(&self) -> (text: String)
        ensures
            text@ == match self@ {
                ErrorView::DuplicateDomain => "Domain already exists"@,
                ErrorView::NotFound => "Proxy not found"@,
                ErrorView::StorageError(reason) => reason,
            },
    {
        match self {
            RegistryError::DuplicateDomain => "Domain already exists".to_string(),
            RegistryError::NotFound => "Proxy not found".to_string(),
            RegistryError::StorageError(reason) => reason.clone(),
        }
    }
}

} // verus!
