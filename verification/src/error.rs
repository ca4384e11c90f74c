//! The ways in which decoding or encoding can fail.

use vstd::prelude::*;

verus! {

/// Why a stream, a tree or a text was refused.
#[derive(Clone, Copy, Debug, PartialEq, Eq, Structural)]
pub enum ErrorKind {
    /// The bitstream ended inside the named field, or the field held an
    /// exp-Golomb code that no signed 32-bit value stands for.
    Unreadable,
    /// The named element was expected and the node had no child left.
    Missing,
    /// The next child has another shape than the named element.
    WrongShape,
    /// The next child has the right shape and another name than the named
    /// element; the failure carries the name that it has.
    WrongName,
    /// The value of the named field has no code in the field's encoding.
    Unwritable,
    /// The width computed for the named field is not between 0 and 64.
    BadWidth,
    /// The named field's text is not a decimal 32-bit number after `: `.
    BadNumber,
    /// The named payload's text holds a token that is not a byte in hexadecimal.
    BadHex,
    /// An element at the top level of a text is not a node.
    NotANode,
}

/// A failure: its kind, and the name of the element at which it came up.
#[derive(Debug)]
pub struct SyntaxError {
    pub kind: ErrorKind,
    pub name: String,
    /// For `WrongName`, the name that the child has; else empty.
    pub found: String,
}

/// What a [`SyntaxError`] says, with the name as a sequence of characters.
pub struct Fault {
    pub kind: ErrorKind,
    pub name: Seq<char>,
    pub found: Seq<char>,
}

impl View for SyntaxError {
    type V = Fault;

    open spec fn view(&self) -> Fault {
        Fault { kind: self.kind, name: self.name@, found: self.found@ }
    }
}

/// The view of an optional error.
pub open spec fn fault_of(e: Option<SyntaxError>) -> Option<Fault> {
    match e {
        Some(e) => Some(e@),
        None => None,
    }
}

impl SyntaxError {
    /// The failure of the given kind at the element `name`.
    pub fn new(kind: ErrorKind, name: &str) -> (e: SyntaxError)
        ensures
            e@ == (Fault { kind, name: name@, found: Seq::empty() }),
    {
        SyntaxError { kind, name: name.to_owned(), found: String::new() }
    }

    /// The failure that a child named `found` stands where the element
    /// `name` is expected.
    pub fn wrong_name(name: &str, found: &String) -> (e: SyntaxError)
        ensures
            e@ == (Fault { kind: ErrorKind::WrongName, name: name@, found: found@ }),
    {
        SyntaxError { kind: ErrorKind::WrongName, name: name.to_owned(), found: found.clone() }
    }

    /// A copy of this error.
    pub fn duplicate(&self) -> (e: SyntaxError)
        ensures
            e@ == self@,
    {
        SyntaxError {
            kind: self.kind,
            name: self.name.clone(),
            found: self.found.clone(),
        }
    }
}

} // verus!
