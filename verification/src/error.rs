//! The errors that this crate reports.

use vstd::prelude::*;
use vstd::std_specs::convert::FromSpecImpl;
use crate::gutenberg::ParseError;
use crate::text::{push_str, string_of};

verus! {

/// Why a citation was refused. Each fault carries the piece of text that
/// caused it.
#[derive(Debug, Clone, PartialEq, Eq)]
pub enum ReferenceFault {
    /// A clause names no known book, and no clause before it does.
    BookNameNotFound { text: String },
    /// The first number of a range is not below the second.
    InvalidRange { text: String },
    /// A range is written with more than one dash.
    TooManyDashes { text: String },
    /// A clause holds more than one colon.
    TooManyColons,
    /// A chapter or verse is not written as a number.
    InvalidNumber { text: String },
    /// The citation holds no clause at all.
    NoReferences { text: String },
}

/// A [`ReferenceFault`] as plain text.
pub enum FaultText {
    BookNameNotFound(Seq<char>),
    InvalidRange(Seq<char>),
    TooManyDashes(Seq<char>),
    TooManyColons,
    InvalidNumber(Seq<char>),
    NoReferences(Seq<char>),
}

impl View for ReferenceFault {
    type V = FaultText;

    open spec fn view(&self) -> FaultText {
        match *self {
            ReferenceFault::BookNameNotFound { text } => FaultText::BookNameNotFound(text@),
            ReferenceFault::InvalidRange { text } => FaultText::InvalidRange(text@),
            ReferenceFault::TooManyDashes { text } => FaultText::TooManyDashes(text@),
            ReferenceFault::TooManyColons => FaultText::TooManyColons,
            ReferenceFault::InvalidNumber { text } => FaultText::InvalidNumber(text@),
            ReferenceFault::NoReferences { text } => FaultText::NoReferences(text@),
        }
    }
}

/// What a fault says of itself.
pub open spec fn fault_message(fault: FaultText) -> Seq<char> {
    match fault {
        FaultText::BookNameNotFound(text) => "Book name not found as expected in "@ + text,
        FaultText::InvalidRange(text) => "Range is invalid: "@ + text,
        FaultText::TooManyDashes(text) => "Too many dashes (-) found in "@ + text,
        FaultText::TooManyColons => "More than 1 ':' in a single citation"@,
        FaultText::InvalidNumber(text) => "Unable to parse number from "@ + text,
        FaultText::NoReferences(text) => "Unable to parse any references from string: "@ + text,
    }
}

impl ReferenceFault {
    /// The fault in words; see [`fault_message`].
    pub fn message(&self) -> (r: String)
        ensures
            r@ == fault_message(self@),
    {
        let mut out: Vec<char> = Vec::new();
        match self {
            ReferenceFault::BookNameNotFound { text } => {
                push_str(&mut out, "Book name not found as expected in ");
                push_str(&mut out, text.as_str());
            },
            ReferenceFault::InvalidRange { text } => {
                push_str(&mut out, "Range is invalid: ");
                push_str(&mut out, text.as_str());
            },
            ReferenceFault::TooManyDashes { text } => {
                push_str(&mut out, "Too many dashes (-) found in ");
                push_str(&mut out, text.as_str());
            },
            ReferenceFault::TooManyColons => {
                push_str(&mut out, "More than 1 ':' in a single citation");
            },
            ReferenceFault::InvalidNumber { text } => {
                push_str(&mut out, "Unable to parse number from ");
                push_str(&mut out, text.as_str());
            },
            ReferenceFault::NoReferences { text } => {
                push_str(&mut out, "Unable to parse any references from string: ");
                push_str(&mut out, text.as_str());
            },
        }
        proof {
            assert(out@ =~= fault_message(self@));
        }
        string_of(out.as_slice())
    }
}

/// Whether the outcome `r` is the outcome `expected`, faults taken as text.
pub open spec fn agrees<T>(r: Result<T, ReferenceFault>, expected: Result<T, FaultText>) -> bool {
    match r {
        Ok(v) => expected == Ok::<T, FaultText>(v),
        Err(e) => expected == Err::<T, FaultText>(e@),
    }
}

/// All errors that this crate can return.
#[derive(Debug)]
pub enum BOMError {
    /// The text of the corpus could not be parsed.
    TextParsingError { source: ParseError },
    /// A citation could not be parsed.
    ReferenceError(ReferenceFault),
}

impl BOMError {
    /// What the error says of itself.
    pub open spec fn message_text(&self) -> Seq<char> {
        match *self {
            BOMError::TextParsingError { .. } => "BOM text parsing error"@,
            BOMError::ReferenceError(fault) => "Reference error: "@ + fault_message(fault@),
        }
    }

    /// The error in words.
    pub fn message(&self) -> (r: String)
        ensures
            r@ == self.message_text(),
    {
        let mut out: Vec<char> = Vec::new();
        match self {
            BOMError::TextParsingError { .. } => {
                push_str(&mut out, "BOM text parsing error");
            },
            BOMError::ReferenceError(fault) => {
                push_str(&mut out, "Reference error: ");
                let reason = fault.message();
                push_str(&mut out, reason.as_str());
            },
        }
        proof {
            assert(out@ =~= self.message_text());
        }
        string_of(out.as_slice())
    }
}

impl From<ParseError> for BOMError {
    fn from(source: ParseError) -> (r: BOMError) {
        BOMError::TextParsingError { source }
    }
}

impl FromSpecImpl<ParseError> for BOMError {
    open spec fn obeys_from_spec() -> bool {
        true
    }

    open spec fn from_spec(source: ParseError) -> BOMError {
        BOMError::TextParsingError { source }
    }
}

} // verus!
