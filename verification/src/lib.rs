//! Language-server core for a family of smart-contract-language dialects.
//!
//! The crate covers the text-rewriting and position-translation engine that
//! runs dialect-specific preprocessing before parsing while reporting
//! diagnostics against the user's original text, the dialect-parameterized
//! compilation pipeline around an external compiler core, the error
//! translator, the file database with its atomic change batches, and the
//! decision logic of the single-threaded event loop.

pub mod addresses;
pub mod analysis;
pub mod bytes;
pub mod config;
pub mod db;
pub mod dialects;
pub mod errors;
pub mod json;
pub mod main_loop;
pub mod pipeline;
pub mod position;
pub mod rewriter;
pub mod source_map;
pub mod verify_text;

use vstd::prelude::*;

verus! {

/// Returns an owned, freely copyable handle for a file path.
pub fn leaked_fpath(path: &Vec<u8>) -> (r: Vec<u8>)
    ensures
        r@ == path@,
{
    let r = path.clone();
    proof {
        assert(r@ =~= path@);
    }
    r
}

} // verus!
