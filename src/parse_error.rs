use vstd::prelude::*;

verus! {

/// A failed parse: the pattern that was expected and a description of what
/// was found in its place ("EOF" past the end of the input).
#[derive(Debug, PartialEq, Eq)]
pub struct ParseError {
    pub expected: String,
    pub actual: String,
}

/// The mathematical content of a [`ParseError`].
pub struct ParseErrorModel {
    pub expected: Seq<char>,
    pub actual: Seq<char>,
}

impl DeepView for ParseError {
    type V = ParseErrorModel;

    open spec fn deep_view(&self) -> ParseErrorModel {
        ParseErrorModel { expected: self.expected@, actual: self.actual@ }
    }
}

impl ParseError {
    /// Builds the error "expected `expected`, found `actual`".
    pub fn new(expected: &str, actual: String) -> (r: ParseError)
        ensures
            r.expected@ == expected@,
            r.actual@ == actual@,
    {
        ParseError { expected: String::from_str(expected), actual }
    }

    /// The message shown to a user: "Expected token: X, token found Y".
    pub fn message(&self) -> (r: String)
        ensures
            r@ == "Expected token: "@ + self.expected@ + ", token found "@ + self.actual@,
    {
        let mut r = String::from_str("Expected token: ");
        r.append(self.expected.as_str());
        r.append(", token found ");
        r.append(self.actual.as_str());
        r
    }
}

} // verus!
