use crate::text::join_with;
use crate::text::joined_with;
use vstd::prelude::*;

verus! {

/// Classification of every failure the registry can report.
#[derive(Clone, Copy, Debug, PartialEq, Eq, Structural)]
pub enum ErrorKind {
    /// No stored command matches the identifier.
    NotFound,
    /// An insert under the erroring add-mode collided with an existing row.
    Conflict,
    /// A templated argument had no entry in the substitution map.
    MissingPlaceholder,
    /// A substitution produced an empty argument string.
    EmptyReplacement,
    /// The operating system could not start the requested process.
    SpawnFailed,
    /// A history row could not be written to the backing store.
    PersistenceFailed,
    /// Host, port or database path could not be understood.
    InvalidConfiguration,
    /// No usable identifier was supplied with a query.
    InvalidIdentifier,
    /// Captured standard output was requested as JSON but is not valid JSON.
    InvalidOutput,
}

/// The HTTP status that belongs to each error kind.
pub open spec fn status_of(kind: ErrorKind) -> u16 {
    match kind {
        ErrorKind::NotFound => 404u16,
        ErrorKind::Conflict => 409u16,
        ErrorKind::MissingPlaceholder => 400u16,
        ErrorKind::EmptyReplacement => 400u16,
        ErrorKind::SpawnFailed => 500u16,
        ErrorKind::PersistenceFailed => 500u16,
        ErrorKind::InvalidConfiguration => 500u16,
        ErrorKind::InvalidIdentifier => 400u16,
        ErrorKind::InvalidOutput => 500u16,
    }
}

/// An error: a kind plus the ordered chain of human-readable context lines
/// attached while the error travelled outward.
#[derive(Debug)]
pub struct Error {
    pub kind: ErrorKind,
    pub context: Vec<String>,
}

impl Error {
    /// A fresh error of the given kind with no context yet.
    pub fn new(kind: ErrorKind) -> (e: Error)
        ensures
            e.kind == kind,
            e.context.deep_view() =~= Seq::<Seq<char>>::empty(),
    {
        Error { kind, context: Vec::new() }
    }

    /// Append one context line; the kind and the earlier lines are kept.
    pub fn attach(self, message: &str) -> (e: Error)
        ensures
            e.kind == self.kind,
            e.context.deep_view() =~= self.context.deep_view().push(message@),
    {
        let mut context = self.context;
        context.push(message.to_owned());
        Error { kind: self.kind, context }
    }

    /// The HTTP status carried by this error.
    pub fn status_code(&self) -> (code: u16)
        ensures
            code == status_of(self.kind),
    {
        match self.kind {
            ErrorKind::NotFound => 404,
            ErrorKind::Conflict => 409,
            ErrorKind::MissingPlaceholder => 400,
            ErrorKind::EmptyReplacement => 400,
            ErrorKind::SpawnFailed => 500,
            ErrorKind::PersistenceFailed => 500,
            ErrorKind::InvalidConfiguration => 500,
            ErrorKind::InvalidIdentifier => 400,
            ErrorKind::InvalidOutput => 500,
        }
    }

    /// The whole context chain as one line, entries separated by `: `.
    pub fn describe(&self) -> (message: String)
        ensures
            message@ == joined_with(self.context.deep_view(), ": "@),
    {
        join_with(&self.context, ": ")
    }
}

} // verus!
