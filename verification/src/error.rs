//! The error type shared by all modules, and how contracts speak of refusals.

use vstd::prelude::*;

verus! {

/// Coarse classification of a failure.
#[derive(Clone, Copy, Debug, PartialEq, Eq, Structural)]
pub enum ErrorKind {
    InvalidInput,
    InvalidData,
    UnexpectedEof,
    NotFound,
    OutOfMemory,
    TimedOut,
    Unsupported,
    Other,
}

/// A failure with its classification and a human readable message.
#[derive(Clone, Debug)]
pub struct Error {
    pub kind: ErrorKind,
    pub message: String,
}

/// What a contract says of an error: its kind and its message.
pub type Refusal = (ErrorKind, Seq<char>);

impl View for Error {
    type V = Refusal;

    open spec fn view(&self) -> Refusal {
        (self.kind, self.message@)
    }
}

impl Error {
    pub fn new(kind: ErrorKind, message: String) -> (e: Error)
        ensures
            e@ == (kind, message@),
    {
        Error { kind, message }
    }

    /// The message of the error.
    pub fn to_string(&self) -> (s: String)
        ensures
            s@ == self@.1,
    {
        self.message.clone()
    }
}

/// The refusal of an ill-formed argument.
pub open spec fn invalid(message: Seq<char>) -> Refusal {
    (ErrorKind::InvalidInput, message)
}

pub fn invalid_input(message: String) -> (e: Error)
    ensures
        e@ == invalid(message@),
{
    Error::new(ErrorKind::InvalidInput, message)
}

pub fn invalid_text(message: &str) -> (e: Error)
    ensures
        e@ == invalid(message@),
{
    Error::new(ErrorKind::InvalidInput, message.to_owned())
}

/// The first refusal among `check(from)`, `check(from + 1)`, ..., `check(to - 1)`.
pub open spec fn first_refusal(
    from: int,
    to: int,
    check: spec_fn(int) -> Option<Refusal>,
) -> Option<Refusal>
    decreases to - from,
{
    if from >= to {
        None
    } else if check(from) is Some {
        check(from)
    } else {
        first_refusal(from + 1, to, check)
    }
}

/// Checks that passed up to `mid` can be skipped when looking for the first refusal.
pub proof fn lemma_first_refusal_skip(
    from: int,
    mid: int,
    to: int,
    check: spec_fn(int) -> Option<Refusal>,
)
    requires
        from <= mid <= to,
        forall|i: int| from <= i < mid ==> #[trigger] check(i) is None,
    ensures
        first_refusal(from, to, check) == first_refusal(mid, to, check),
    decreases mid - from,
{
    if from < mid {
        assert(check(from) is None);
        lemma_first_refusal_skip(from + 1, mid, to, check);
    }
}

/// There is no refusal exactly when every check passes.
pub proof fn lemma_first_refusal_none(
    from: int,
    to: int,
    check: spec_fn(int) -> Option<Refusal>,
)
    ensures
        first_refusal(from, to, check) is None <==> (forall|i: int|
            from <= i < to ==> #[trigger] check(i) is None),
    decreases to - from,
{
    if from < to {
        lemma_first_refusal_none(from + 1, to, check);
        if first_refusal(from, to, check) is None {
            assert forall|i: int| from <= i < to implies #[trigger] check(i) is None by {
                if i == from {
                }
            }
        }
    }
}

} // verus!
