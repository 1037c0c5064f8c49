//! The errors a command of the app core answers with.

use vstd::prelude::*;

use crate::cart::CartError;
use crate::sync::error::SyncError;

verus! {

#[derive(Debug, Clone, PartialEq, Eq)]
pub enum AppError {
    Cart(CartError),
    /// Nothing of this kind with this id.
    NotFound { kind: &'static str, id: String },
    /// A field a person filled in does not hold what it must.
    Invalid { field: &'static str, detail: String },
    /// The platform could not do its part: no clock, no randomness.
    Platform(String),
    Sync(SyncError),
}

impl AppError {
    pub fn invalid(field: &'static str, detail: String) -> (e: AppError)
        ensures
            e == (AppError::Invalid { field, detail }),
    {
        AppError::Invalid { field, detail }
    }

    pub fn not_found(kind: &'static str, id: String) -> (e: AppError)
        ensures
            e == (AppError::NotFound { kind, id }),
    {
        AppError::NotFound { kind, id }
    }
}

} // verus!
