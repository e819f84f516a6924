use vstd::prelude::*;

verus! {

/// The service that a request is meant for.
#[derive(Debug)]
pub struct Provider {
    pub name: String,
    pub base_url: String,
}

/// The error that a request fails with.
#[derive(Debug)]
pub struct ApiError {
    pub message: String,
}

} // verus!
