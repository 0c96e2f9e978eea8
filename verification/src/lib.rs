use vstd::prelude::*;

pub mod errors;
pub mod ext;
pub mod model;
pub mod seqs;
pub mod sort;
pub mod rank;
pub mod store;
pub mod login;
pub mod text;

verus! {

/// Message body served to a client when a request fails inside the server.
pub fn internal_error() -> (r: &'static str)
    ensures
        r@ == "The server encountered an internal error."@,
{
    "The server encountered an internal error."
}

} // verus!
