//! Failures that are told to the user in words.
use vstd::prelude::*;

verus! {

/// A failure, with the message that is shown for it.
#[derive(Debug, Clone)]
pub struct Failure {
    pub message: String,
}

impl View for Failure {
    type V = Seq<char>;

    open spec fn view(&self) -> Seq<char> {
        self.message@
    }
}

impl Failure {
    /// The message that is shown.
    pub fn to_string(&self) -> (r: String)
        ensures
            r@ == self@,
    {
        self.message.clone()
    }
}

/// A failure with the given message.
pub fn failure(message: String) -> (r: Failure)
    ensures
        r@ == message@,
{
    Failure { message }
}

}
