use vstd::prelude::*;

use crate::combinators::Describe;

verus! {

/// A lexical unit of the slide markup.
#[derive(Debug, Clone, PartialEq, Eq)]
pub enum Token {
    /// Sentinel for text that no rule matches; nothing follows it.
    Invalid,
    /// End of a logical line.
    Linefeed,
    /// `[`, opening an image description.
    SquareBracketOpen,
    /// `]`, closing an image description.
    SquareBracketClose,
    /// A quoted path, without its quotes.
    Path(String),
    /// A run of plain text.
    Text(String),
    /// The kind label of a slide, from a `---Kind` line.
    Identifier(String),
    /// A list bullet with the count of whitespace characters before it.
    ListItemMarker(u8),
}

/// The mathematical content of a [`Token`].
pub enum Lexeme {
    Invalid,
    Linefeed,
    SquareBracketOpen,
    SquareBracketClose,
    Path(Seq<char>),
    Text(Seq<char>),
    Identifier(Seq<char>),
    ListItemMarker(u8),
}

impl DeepView for Token {
    type V = Lexeme;

    open spec fn deep_view(&self) -> Lexeme {
        match self {
            Token::Invalid => Lexeme::Invalid,
            Token::Linefeed => Lexeme::Linefeed,
            Token::SquareBracketOpen => Lexeme::SquareBracketOpen,
            Token::SquareBracketClose => Lexeme::SquareBracketClose,
            Token::Path(p) => Lexeme::Path(p@),
            Token::Text(t) => Lexeme::Text(t@),
            Token::Identifier(i) => Lexeme::Identifier(i@),
            Token::ListItemMarker(d) => Lexeme::ListItemMarker(*d),
        }
    }
}

/// `name(payload)`.
pub open spec fn labelled(name: Seq<char>, payload: Seq<char>) -> Seq<char> {
    name + "("@ + payload + ")"@
}

fn label(name: &str, payload: &String) -> (r: String)
    ensures
        r@ == labelled(name@, payload@),
{
    let mut r = String::from_str(name);
    r.append("(");
    r.append(payload.as_str());
    r.append(")");
    r
}

impl Describe for Token {
    open spec fn spec_describe(&self) -> Seq<char> {
        match self {
            Token::Invalid => "Invalid"@,
            Token::Linefeed => "Linefeed"@,
            Token::SquareBracketOpen => "["@,
            Token::SquareBracketClose => "]"@,
            Token::Path(p) => labelled("Path"@, p@),
            Token::Text(t) => labelled("Text"@, t@),
            Token::Identifier(i) => labelled("Identifier"@, i@),
            Token::ListItemMarker(_) => "ListItemMarker"@,
        }
    }

    fn describe(&self) -> (r: String) {
        match self {
            Token::Invalid => String::from_str("Invalid"),
            Token::Linefeed => String::from_str("Linefeed"),
            Token::SquareBracketOpen => String::from_str("["),
            Token::SquareBracketClose => String::from_str("]"),
            Token::Path(p) => label("Path", p),
            Token::Text(t) => label("Text", t),
            Token::Identifier(i) => label("Identifier", i),
            Token::ListItemMarker(_) => String::from_str("ListItemMarker"),
        }
    }
}

} // verus!
