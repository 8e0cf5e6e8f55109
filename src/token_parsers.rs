use vstd::prelude::*;

use crate::combinators::{found, outcome_of, p_ok, spec_found, Outcome, ParseResult, Parser};
use crate::parse_error::{ParseError, ParseErrorModel};
use crate::tokens::Token;

verus! {

/// The error of a primitive parser that expected `expected` at `offset`.
pub open spec fn mismatch(input: Seq<Token>, offset: usize, expected: Seq<char>) -> ParseErrorModel {
    ParseErrorModel { expected, actual: spec_found(input, offset) }
}

fn mismatch_error(input: &[Token], offset: usize, expected: &str) -> (r: ParseError)
    ensures
        r.deep_view() == mismatch(input@, offset, expected@),
{
    ParseError::new(expected, found(input, offset))
}

/// What [`identifier`] gives.
pub open spec fn identifier_outcome(input: Seq<Token>, offset: usize) -> Outcome<Seq<char>> {
    if offset < input.len() {
        match input[offset as int] {
            Token::Identifier(name) => Ok(((offset + 1) as usize, name@)),
            _ => Err(mismatch(input, offset, "Identifier"@)),
        }
    } else {
        Err(mismatch(input, offset, "Identifier"@))
    }
}

/// Takes one `Identifier` token.
pub fn identifier(input: &[Token], offset: usize) -> (r: ParseResult<String>)
    ensures
        outcome_of(&r) == identifier_outcome(input@, offset),
{
    if offset < input.len() {
        if let Token::Identifier(name) = &input[offset] {
            return p_ok(offset + 1, name.clone());
        }
    }
    Err(mismatch_error(input, offset, "Identifier"))
}

/// What [`text`] gives.
pub open spec fn text_outcome(input: Seq<Token>, offset: usize) -> Outcome<Seq<char>> {
    if offset < input.len() {
        match input[offset as int] {
            Token::Text(run) => Ok(((offset + 1) as usize, run@)),
            _ => Err(mismatch(input, offset, "Text"@)),
        }
    } else {
        Err(mismatch(input, offset, "Text"@))
    }
}

/// Takes one `Text` token.
pub fn text(input: &[Token], offset: usize) -> (r: ParseResult<String>)
    ensures
        outcome_of(&r) == text_outcome(input@, offset),
{
    if offset < input.len() {
        if let Token::Text(run) = &input[offset] {
            return p_ok(offset + 1, run.clone());
        }
    }
    Err(mismatch_error(input, offset, "Text"))
}

/// What [`path`] gives.
pub open spec fn path_outcome(input: Seq<Token>, offset: usize) -> Outcome<Seq<char>> {
    if offset < input.len() {
        match input[offset as int] {
            Token::Path(p) => Ok(((offset + 1) as usize, p@)),
            _ => Err(mismatch(input, offset, "Path"@)),
        }
    } else {
        Err(mismatch(input, offset, "Path"@))
    }
}

/// Takes one `Path` token.
pub fn path(input: &[Token], offset: usize) -> (r: ParseResult<String>)
    ensures
        outcome_of(&r) == path_outcome(input@, offset),
{
    if offset < input.len() {
        if let Token::Path(p) = &input[offset] {
            return p_ok(offset + 1, p.clone());
        }
    }
    Err(mismatch_error(input, offset, "Path"))
}

/// What [`list_item`] gives.
pub open spec fn list_item_outcome(input: Seq<Token>, offset: usize) -> Outcome<u8> {
    if offset < input.len() {
        match input[offset as int] {
            Token::ListItemMarker(depth) => Ok(((offset + 1) as usize, depth)),
            _ => Err(mismatch(input, offset, "ListItemMarker"@)),
        }
    } else {
        Err(mismatch(input, offset, "ListItemMarker"@))
    }
}

/// Takes one `ListItemMarker` token and gives its depth.
pub fn list_item(input: &[Token], offset: usize) -> (r: ParseResult<u8>)
    ensures
        outcome_of(&r) == list_item_outcome(input@, offset),
{
    if offset < input.len() {
        if let Token::ListItemMarker(depth) = &input[offset] {
            return p_ok(offset + 1, *depth);
        }
    }
    Err(mismatch_error(input, offset, "ListItemMarker"))
}

/// Which payload-free token a [`Punctuation`] parser expects.
#[derive(Clone, Copy, PartialEq, Eq)]
pub enum Mark {
    Open,
    Close,
    Linefeed,
}

/// Whether `t` is the token that `mark` stands for.
pub open spec fn is_mark(t: Token, mark: Mark) -> bool {
    match mark {
        Mark::Open => t is SquareBracketOpen,
        Mark::Close => t is SquareBracketClose,
        Mark::Linefeed => t is Linefeed,
    }
}

/// How a [`Mark`] is named in errors.
pub open spec fn mark_name(mark: Mark) -> Seq<char> {
    match mark {
        Mark::Open => "["@,
        Mark::Close => "]"@,
        Mark::Linefeed => "Linefeed"@,
    }
}

/// What [`mark`] gives.
pub open spec fn mark_outcome(input: Seq<Token>, offset: usize, mark: Mark) -> Outcome<()> {
    if offset < input.len() && is_mark(input[offset as int], mark) {
        Ok(((offset + 1) as usize, ()))
    } else {
        Err(mismatch(input, offset, mark_name(mark)))
    }
}

/// Takes one token without payload: a bracket or a linefeed.
pub fn mark(input: &[Token], offset: usize, which: Mark) -> (r: ParseResult<()>)
    ensures
        outcome_of(&r) == mark_outcome(input@, offset, which),
{
    if offset < input.len() {
        let hit = match (&input[offset], which) {
            (Token::SquareBracketOpen, Mark::Open) => true,
            (Token::SquareBracketClose, Mark::Close) => true,
            (Token::Linefeed, Mark::Linefeed) => true,
            _ => false,
        };
        if hit {
            return p_ok(offset + 1, ());
        }
    }
    let expected = match which {
        Mark::Open => "[",
        Mark::Close => "]",
        Mark::Linefeed => "Linefeed",
    };
    Err(mismatch_error(input, offset, expected))
}

/// [`identifier`] as a parser.
pub struct IdentifierToken;

/// [`text`] as a parser.
pub struct TextToken;

/// [`path`] as a parser.
pub struct PathToken;

/// [`list_item`] as a parser.
pub struct ListItemToken;

/// [`mark`] as a parser.
pub struct Punctuation {
    pub mark: Mark,
}

impl Parser<Token> for IdentifierToken {
    type Output = String;

    open spec fn wf(&self) -> bool {
        true
    }

    open spec fn consumes(&self) -> bool {
        true
    }

    open spec fn outcome(&self, input: Seq<Token>, offset: usize) -> Outcome<Seq<char>> {
        identifier_outcome(input, offset)
    }

    proof fn lemma_outcome_bounds(&self, input: Seq<Token>, offset: usize) {
    }

    fn parse(&self, input: &[Token], offset: usize) -> (r: ParseResult<String>) {
        identifier(input, offset)
    }
}

impl Parser<Token> for TextToken {
    type Output = String;

    open spec fn wf(&self) -> bool {
        true
    }

    open spec fn consumes(&self) -> bool {
        true
    }

    open spec fn outcome(&self, input: Seq<Token>, offset: usize) -> Outcome<Seq<char>> {
        text_outcome(input, offset)
    }

    proof fn lemma_outcome_bounds(&self, input: Seq<Token>, offset: usize) {
    }

    fn parse(&self, input: &[Token], offset: usize) -> (r: ParseResult<String>) {
        text(input, offset)
    }
}

impl Parser<Token> for PathToken {
    type Output = String;

    open spec fn wf(&self) -> bool {
        true
    }

    open spec fn consumes(&self) -> bool {
        true
    }

    open spec fn outcome(&self, input: Seq<Token>, offset: usize) -> Outcome<Seq<char>> {
        path_outcome(input, offset)
    }

    proof fn lemma_outcome_bounds(&self, input: Seq<Token>, offset: usize) {
    }

    fn parse(&self, input: &[Token], offset: usize) -> (r: ParseResult<String>) {
        path(input, offset)
    }
}

impl Parser<Token> for ListItemToken {
    type Output = u8;

    open spec fn wf(&self) -> bool {
        true
    }

    open spec fn consumes(&self) -> bool {
        true
    }

    open spec fn outcome(&self, input: Seq<Token>, offset: usize) -> Outcome<u8> {
        list_item_outcome(input, offset)
    }

    proof fn lemma_outcome_bounds(&self, input: Seq<Token>, offset: usize) {
    }

    fn parse(&self, input: &[Token], offset: usize) -> (r: ParseResult<u8>) {
        list_item(input, offset)
    }
}

impl Parser<Token> for Punctuation {
    type Output = ();

    open spec fn wf(&self) -> bool {
        true
    }

    open spec fn consumes(&self) -> bool {
        true
    }

    open spec fn outcome(&self, input: Seq<Token>, offset: usize) -> Outcome<()> {
        mark_outcome(input, offset, self.mark)
    }

    proof fn lemma_outcome_bounds(&self, input: Seq<Token>, offset: usize) {
    }

    fn parse(&self, input: &[Token], offset: usize) -> (r: ParseResult<()>) {
        mark(input, offset, self.mark)
    }
}

} // verus!
