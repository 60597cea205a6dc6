//! Guest-visible failures.
use vstd::prelude::*;
use crate::format::Piece;

verus! {

/// A failure: the guest exception class it maps to, and its text.
#[derive(Debug)]
pub struct Diagnostic {
    pub kind: &'static str,
    pub message: String,
    /// The whole text in pieces, where it shows a number whose text is not
    /// known here; `message` leaves such numbers out.
    pub pieces: Option<Vec<Piece>>,
}

/// What a [`Diagnostic`] says, as text.
#[verifier::ext_equal]
pub struct Fault {
    pub kind: Seq<char>,
    pub message: Seq<char>,
    pub pieces: Option<Seq<Piece>>,
}

pub type Result<T> = core::result::Result<T, Diagnostic>;

/// The fault that carries exactly these two texts.
pub open spec fn fault(kind: &str, message: &str) -> Fault {
    Fault { kind: kind@, message: message@, pieces: None }
}

/// The fault of a kind with an assembled text.
pub open spec fn fault_text(kind: &str, message: Seq<char>) -> Fault {
    Fault { kind: kind@, message, pieces: None }
}

/// A result with its diagnostic reduced to what it says.
pub open spec fn outcome<T>(result: core::result::Result<T, Diagnostic>) -> core::result::Result<
    T,
    Fault,
> {
    match result {
        Ok(value) => Ok(value),
        Err(error) => Err(error@),
    }
}

impl View for Diagnostic {
    type V = Fault;

    open spec fn view(&self) -> Fault {
        Fault {
            kind: self.kind@,
            message: self.message@,
            pieces: match self.pieces {
                Some(pieces) => Some(pieces@),
                None => None,
            },
        }
    }
}

impl Diagnostic {
    pub fn new(kind: &'static str, message: &str) -> (error: Diagnostic)
        ensures
            error@ == fault(kind, message),
    {
        Diagnostic { kind, message: message.to_owned(), pieces: None }
    }

    /// A diagnostic whose text was assembled by the caller.
    pub fn with_text(kind: &'static str, message: String) -> (error: Diagnostic)
        ensures
            error@ == fault_text(kind, message@),
    {
        Diagnostic { kind, message, pieces: None }
    }
}

} // verus!
