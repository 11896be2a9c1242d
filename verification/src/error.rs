//! Errors as layers of messages: what was being done, then why it failed.

use crate::text::{join, joined, texts};
use vstd::prelude::*;

verus! {

/// The messages of an error, outermost first, as specifications write them.
pub type Failure = Seq<Seq<char>>;

/// An error. Its view is its messages, outermost first; there is at least one.
#[derive(Debug, PartialEq)]
pub struct Error {
    layers: Vec<String>,
}

impl View for Error {
    type V = Failure;

    closed spec fn view(&self) -> Failure {
        texts(self.layers@)
    }
}

/// An error with one message.
pub open spec fn failure(message: Seq<char>) -> Failure {
    seq![message]
}

/// The error `f` with `what` around it.
pub open spec fn within(what: Seq<char>, f: Failure) -> Failure {
    seq![what] + f
}

/// `r` is the outcome `want`: the same value, or an error with the same messages.
pub open spec fn is_outcome<T>(r: Result<T, Error>, want: Result<T, Failure>) -> bool {
    match (r, want) {
        (Ok(a), Ok(b)) => a == b,
        (Err(e), Err(f)) => e@ == f,
        _ => false,
    }
}

/// As `is_outcome`, for a value that is described by its view.
pub open spec fn is_outcome_of<T: View>(r: Result<T, Error>, want: Result<T::V, Failure>) -> bool {
    match (r, want) {
        (Ok(a), Ok(b)) => a@ == b,
        (Err(e), Err(f)) => e@ == f,
        _ => false,
    }
}

impl Error {
    #[verifier::type_invariant]
    spec fn has_a_message(self) -> bool {
        self.layers@.len() > 0
    }

    /// An error with one message.
    pub fn new(message: String) -> (e: Error)
        ensures
            e@ == failure(message@),
    {
        let mut layers: Vec<String> = Vec::new();
        layers.push(message);
        let e = Error { layers };
        assert(e@ =~= failure(message@));
        e
    }

    /// This error with `what` around it.
    pub fn context(self, what: String) -> (e: Error)
        ensures
            e@ == within(what@, self@),
    {
        let mut layers: Vec<String> = Vec::new();
        layers.push(what);
        let mut rest = self.layers;
        layers.append(&mut rest);
        let e = Error { layers };
        assert(e@ =~= within(what@, self@));
        e
    }

    /// The outermost message.
    pub fn to_string(&self) -> (r: String)
        ensures
            self@.len() > 0,
            r@ == self@[0],
    {
        proof {
            use_type_invariant(self);
        }
        self.layers[0].clone()
    }

    /// All messages, outermost first, with `: ` between them.
    pub fn message(&self) -> (r: String)
        ensures
            r@ == join(self@, ": "@),
    {
        joined(&self.layers, ": ")
    }
}

/// What is said about an error stands in front of it, with a colon between them.
pub proof fn a_context_stands_in_front(what: Seq<char>, f: Failure)
    requires
        f.len() > 0,
    ensures
        join(within(what, f), ": "@) == what + ": "@ + join(f, ": "@),
        join(failure(what), ": "@) == what,
    decreases f.len(),
{
    let w = within(what, f);
    if f.len() == 1 {
        assert(w.drop_last() =~= seq![what]);
        assert(join(w.drop_last(), ": "@) == what);
        assert(w.last() == f[0]);
    } else {
        let init = f.drop_last();
        a_context_stands_in_front(what, init);
        assert(w.drop_last() =~= within(what, init));
        assert(w.last() == f.last());
        assert(join(w, ": "@) =~= what + ": "@ + join(f, ": "@));
    }
}

} // verus!
