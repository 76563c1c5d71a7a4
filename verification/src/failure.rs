//! The error of a command: the message that is shown for it.
use vstd::prelude::*;

verus! {

/// A command that could not be carried out, with the message shown to the user.
#[derive(Debug)]
pub struct Failure {
    pub message: String,
}

impl View for Failure {
    type V = Seq<char>;

    open spec fn view(&self) -> Seq<char> {
        self.message@
    }
}

/// The text or the error message of a result.
pub open spec fn text_result(r: Result<String, Failure>) -> Result<Seq<char>, Seq<char>> {
    match r {
        Ok(s) => Ok(s@),
        Err(e) => Err(e@),
    }
}

} // verus!
