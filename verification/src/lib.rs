//! Receipt issuance engine for a small point-of-sale application.
//!
//! The library gates privileged day-closure receipts behind an
//! authorization check, allocates a collision-free sequential receipt
//! number per calendar day from the names of previously written files,
//! and paginates an itemized sales listing into a fixed-page-size
//! printable document.

pub mod auth;
pub mod engine;
pub mod inventory;
pub mod layout;
pub mod sequence;
pub mod session;
pub mod text;

use vstd::prelude::*;

verus! {

/// The greeting the UI's connectivity check expects.
pub open spec fn spec_greeting(name: Seq<char>) -> Seq<char> {
    "Hello, "@ + name + "! You've been greeted from Rust!"@
}

/// Greets a caller by name.
pub fn greet(name: &str) -> (r: String)
    ensures
        r@ == spec_greeting(name@),
{
    let mut r = String::from_str("Hello, ");
    r.append(name);
    r.append("! You've been greeted from Rust!");
    r
}

} // verus!
