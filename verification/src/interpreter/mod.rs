use vstd::prelude::*;
use vstd::string::StrSliceExecFns;
use crate::error::{error_views, Error, ErrorView};
use grammar::diagnostics;
use scanner::scan;

pub mod token_type;
pub mod token;
pub mod grammar;
pub mod text;
pub mod scanner;
pub mod laws;

verus! {

/// The message of the one failure of [`run`].
pub open spec fn too_long_message() -> Seq<char> {
    "source text too long"@
}

/// Runs one unit of source text: scans it and reports its diagnostics to `errors`, behind
/// what it already holds. Malformed text is no failure; the only failure is a text so long
/// that its lines cannot be counted, and then `errors` is left as it was.
pub fn run(lox_src: &str, errors: &mut Vec<Error>) -> (r: Result<(), Error>)
    ensures
        r is Ok <==> lox_src@.len() < usize::MAX,
        r is Ok ==> error_views(final(errors)@) == error_views(old(errors)@) + diagnostics(
            lox_src@,
        ),
        r is Err ==> final(errors)@ == old(errors)@,
        r is Err ==> r->Err_0@ == ErrorView::CompilerError(too_long_message()),
{
    if lox_src.unicode_len() == usize::MAX {
        return Err(Error::CompilerError(String::from_str("source text too long")));
    }
    let _tokens = scan(lox_src, errors);
    Ok(())
}

} // verus!
