//! From a declaration to the text of its `impl` block.

use crate::emit::{impl_text, render};
use crate::metadata::{read, read_spec, Declaration, DeclarationView, GenerateError};
use crate::plan::{derive_plan, plan_spec};
use vstd::prelude::*;

verus! {

/// The generated text of a declaration, or the check that its configuration
/// fails.
pub open spec fn handle_spec(decl: DeclarationView) -> Result<Seq<char>, GenerateError> {
    match read_spec(decl) {
        Ok(model) => Ok(impl_text(plan_spec(model))),
        Err(error) => Err(error),
    }
}

/// Whether an executable result stands for a specified one.
pub open spec fn text_result_is(
    out: Result<String, GenerateError>,
    expected: Result<Seq<char>, GenerateError>,
) -> bool {
    match expected {
        Ok(text) => out is Ok && out->Ok_0@ == text,
        Err(error) => out is Err && out->Err_0 == error,
    }
}

/// Reads the declaration's options, derives the names and writes the `impl`
/// block. Nothing is written where the configuration fails a check.
pub fn handle(decl: Declaration) -> (out: Result<String, GenerateError>)
    ensures
        text_result_is(out, handle_spec(decl@)),
{
    match read(decl) {
        Ok(model) => {
            let plan = derive_plan(&model);
            Ok(render(&plan))
        },
        Err(error) => Err(error),
    }
}

} // verus!
