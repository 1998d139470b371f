//! Data-access boilerplate for annotated record types.
//!
//! A record type declares a storage backend, the parents it belongs to, the
//! children it has and the fields it can be looked up by. From that
//! declaration the crate derives the names of the accessor methods and writes
//! the `impl` block that holds them. What the methods of that block do is
//! also given here, as a database of in-memory tables on which they run.

pub mod cascade;
pub mod cascade_proof;
pub mod chains;
pub mod database;
pub mod emit;
pub mod laws;
pub mod metadata;
pub mod naming;
pub mod plan;
pub mod record;
pub mod resolve;
pub mod rusty_model;
pub mod search;
pub mod table;
pub mod views;

use crate::metadata::{Declaration, GenerateError};
use crate::rusty_model::{handle, handle_spec, text_result_is};
use vstd::prelude::*;

verus! {

/// The entry point of the derive: the `impl` block for a declaration.
pub fn rusty_model(decl: Declaration) -> (out: Result<String, GenerateError>)
    ensures
        text_result_is(out, handle_spec(decl@)),
{
    handle(decl)
}

} // verus!
