//! Errors reported by the compilation pipeline.

use vstd::prelude::*;

verus! {

/// Why a compilation failed.
#[derive(Debug, Clone, Copy, PartialEq, Eq, Structural)]
pub enum Reason {
    /// A `]` appeared with no `[` still open.
    TooManyCloseBrackets,
    /// The input ended while at least one `[` was still open.
    TooFewCloseBrackets,
}

/// A place in the source text: a file name and a 1-based line number.
#[derive(Debug)]
pub struct Location {
    filename: String,
    line_no: u32,
}

/// The mathematical content of a [Location].
pub struct LocationModel {
    pub filename: Seq<char>,
    pub line_no: u32,
}

impl View for Location {
    type V = LocationModel;

    closed spec fn view(&self) -> LocationModel {
        LocationModel { filename: self.filename@, line_no: self.line_no }
    }
}

impl Location {
    pub fn new(filename: String, line_no: u32) -> (r: Self)
        ensures
            r@.filename == filename@,
            r@.line_no == line_no,
    {
        Location { filename, line_no }
    }

    /// The name of the source file this location points into.
    pub fn filename(&self) -> (r: &String)
        ensures
            r@ == self@.filename,
    {
        &self.filename
    }

    /// The 1-based line number this location points at.
    pub fn line_no(&self) -> (r: u32)
        ensures
            r == self@.line_no,
    {
        self.line_no
    }
}

/// Any error that occurs as a result of compiling the source code.
#[derive(Debug)]
pub struct CompilationError {
    reason: Reason,
    location: Option<Location>,
}

/// The mathematical content of a [CompilationError].
pub struct CompilationErrorModel {
    pub reason: Reason,
    pub location: Option<LocationModel>,
}

impl View for CompilationError {
    type V = CompilationErrorModel;

    closed spec fn view(&self) -> CompilationErrorModel {
        CompilationErrorModel {
            reason: self.reason,
            location: match self.location {
                Some(l) => Some(l@),
                None => None,
            },
        }
    }
}

/// The diagnostic text for a [Reason].
pub open spec fn spec_message(reason: Reason) -> Seq<char> {
    match reason {
        Reason::TooManyCloseBrackets => "too many ']' brackets. Check that each '[' has a matching ']'"@,
        Reason::TooFewCloseBrackets => "too many '[' brackets. Check that each '[' has a matching ']'"@,
    }
}

/// The numeric diagnostic code for a [Reason].
pub open spec fn spec_message_identifier(reason: Reason) -> u32 {
    match reason {
        Reason::TooManyCloseBrackets => 0x001,
        Reason::TooFewCloseBrackets => 0x002,
    }
}

impl Reason {
    /// A human-readable description of this failure.
    pub fn message(&self) -> (r: &'static str)
        ensures
            r@ == spec_message(*self),
    {
        match self {
            Reason::TooManyCloseBrackets => "too many ']' brackets. Check that each '[' has a matching ']'",
            Reason::TooFewCloseBrackets => "too many '[' brackets. Check that each '[' has a matching ']'",
        }
    }

    /// The numeric code used when rendering this failure.
    pub fn message_identifier(&self) -> (r: u32)
        ensures
            r == spec_message_identifier(*self),
    {
        match self {
            Reason::TooManyCloseBrackets => 0x001,
            Reason::TooFewCloseBrackets => 0x002,
        }
    }
}

impl CompilationError {
    pub fn new(reason: Reason, location: Location) -> (r: Self)
        ensures
            r@.reason == reason,
            r@.location == Some(location@),
    {
        CompilationError { reason, location: Some(location) }
    }

    pub fn without_location(reason: Reason) -> (r: Self)
        ensures
            r@.reason == reason,
            r@.location is None,
    {
        CompilationError { reason, location: None }
    }

    /// The place the error was detected, if one was recorded.
    pub fn location(&self) -> (r: Option<&Location>)
        ensures
            match r {
                Some(l) => self@.location == Some(l@),
                None => self@.location is None,
            },
    {
        match &self.location {
            Some(l) => Some(l),
            None => None,
        }
    }

    /// Why the compilation failed.
    pub fn reason(&self) -> (r: Reason)
        ensures
            r == self@.reason,
    {
        self.reason
    }

    pub fn message(&self) -> (r: &'static str)
        ensures
            r@ == spec_message(self@.reason),
    {
        self.reason.message()
    }

    pub fn message_identifier(&self) -> (r: u32)
        ensures
            r == spec_message_identifier(self@.reason),
    {
        self.reason.message_identifier()
    }
}

} // verus!
