use vstd::prelude::*;

verus! {

/// The diagnostics of a session, in the order in which they were reported.
pub type Errors = Vec<Error>;

/// What can go wrong: a problem in the scanned text, or a problem of the tooling around it.
#[derive(Debug)]
pub enum Error {
    /// A problem in the source text. It is data: reporting one never stops a scan.
    CodeError { line: usize, location: Option<String>, message: String },
    /// A failure of the environment, such as a file that cannot be read.
    CompilerError(String),
}

/// The mathematical value of an [`Error`].
pub enum ErrorView {
    CodeError { line: nat, location: Option<Seq<char>>, message: Seq<char> },
    CompilerError(Seq<char>),
}

impl View for Error {
    type V = ErrorView;

    open spec fn view(&self) -> ErrorView {
        match self {
            Error::CodeError { line, location, message } => ErrorView::CodeError {
                line: *line as nat,
                location: match location {
                    Some(text) => Some(text@),
                    None => None,
                },
                message: message@,
            },
            Error::CompilerError(text) => ErrorView::CompilerError(text@),
        }
    }
}

/// The error type of std's I/O functions. It is carried through unread.
#[verifier::external_type_specification]
#[verifier::external_body]
pub struct ExIoError(std::io::Error);

impl From<std::io::Error> for Error {
    /// A failure of the environment becomes a tooling error that carries the message with
    /// which the failure displays itself.
    fn from(e: std::io::Error) -> (error: Self)
        ensures
            error is CompilerError,
            vstd::string::to_string_from_display_ensures::<std::io::Error>(
                &e,
                error->CompilerError_0,
            ),
    {
        Error::CompilerError(e.to_string())
    }
}

/// The message of an I/O failure depends on the platform, so the conversion has no value in
/// specifications: what is known of it is what `from` ensures.
impl vstd::std_specs::convert::FromSpecImpl<std::io::Error> for Error {
    open spec fn obeys_from_spec() -> bool {
        false
    }

    open spec fn from_spec(e: std::io::Error) -> Error {
        arbitrary()
    }
}

/// The values of a list of errors, one by one.
pub open spec fn error_views(errors: Seq<Error>) -> Seq<ErrorView> {
    Seq::new(errors.len(), |i: int| errors[i]@)
}

/// Appending one error appends its value.
pub proof fn lemma_error_views_push(errors: Seq<Error>, e: Error)
    ensures
        error_views(errors.push(e)) == error_views(errors).push(e@),
{
    assert(error_views(errors.push(e)) =~= error_views(errors).push(e@));
}

} // verus!
