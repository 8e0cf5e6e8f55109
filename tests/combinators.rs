use std::cell::Cell;

use slidmk::{
    identifier, list_item, mark, path, text, Eof, IdentifierToken, ListItemToken, Mark,
    ParseError, Parser, PathToken, Punctuation, TextToken, Token,
};

fn t(s: &str) -> Token {
    Token::Text(s.to_string())
}

fn err(expected: &str, actual: &str) -> ParseError {
    ParseError { expected: expected.to_string(), actual: actual.to_string() }
}

#[test]
fn primitive_parsers_take_one_token() {
    let input = [
        Token::Identifier("K".to_string()),
        t("x"),
        Token::Path("p".to_string()),
        Token::ListItemMarker(4),
        Token::SquareBracketOpen,
    ];
    assert_eq!(identifier(&input, 0), Ok((1, "K".to_string())));
    assert_eq!(text(&input, 1), Ok((2, "x".to_string())));
    assert_eq!(path(&input, 2), Ok((3, "p".to_string())));
    assert_eq!(list_item(&input, 3), Ok((4, 4)));
    assert_eq!(mark(&input, 4, Mark::Open), Ok((5, ())));
    assert_eq!(identifier(&input, 1), Err(err("Identifier", "Text(x)")));
    assert_eq!(path(&input, 0), Err(err("Path", "Identifier(K)")));
    assert_eq!(mark(&input, 4, Mark::Close), Err(err("]", "[")));
    assert_eq!(text(&input, 5), Err(err("Text", "EOF")));
}

#[test]
fn sequence_and_affixes() {
    let input = [Token::SquareBracketOpen, t("d"), Token::SquareBracketClose, Token::Path("p".to_string())];
    let open = Punctuation { mark: Mark::Open };
    let close = Punctuation { mark: Mark::Close };
    let p = TextToken.prefix(open).suffix(close).and(PathToken);
    assert_eq!(p.parse(&input, 0), Ok((4, ("d".to_string(), "p".to_string()))));
    assert_eq!(p.parse(&input, 1), Err(err("[", "Text(d)")));
    let q = ListItemToken.and(TextToken);
    assert_eq!(q.parse(&input, 0), Err(err("ListItemMarker", "[")));
}

#[test]
fn choice_retries_at_the_same_offset() {
    let input = [t("a")];
    let p = PathToken.or(TextToken);
    assert_eq!(p.parse(&input, 0), Ok((1, "a".to_string())));
    let q = PathToken.or(IdentifierToken);
    assert_eq!(q.parse(&input, 0), Err(err("Identifier", "Text(a)")));
}

#[test]
fn repetition_optional_and_lookahead() {
    let input = [t("a"), t("b"), Token::Linefeed];
    assert_eq!(TextToken.many().parse(&input, 0), Ok((2, vec!["a".to_string(), "b".to_string()])));
    assert_eq!(TextToken.many().parse(&input, 2), Err(err("Text", "Linefeed")));
    assert_eq!(PathToken.optional().parse(&input, 1), Ok((1, None)));
    assert_eq!(TextToken.optional().parse(&input, 1), Ok((2, Some("b".to_string()))));
    assert_eq!(TextToken.ahead().parse(&input, 0), Ok((0, ())));
    assert_eq!(Eof.parse(&input, 3), Ok((3, ())));
    assert_eq!(Eof.parse(&input, 2), Err(err("EOF", "Linefeed")));
}

#[test]
fn inspect_sees_the_output() {
    let seen = Cell::new(0);
    let input = [t("abc")];
    let p = TextToken.inspect(|s: &String| seen.set(s.len()));
    assert_eq!(p.parse(&input, 0), Ok((1, "abc".to_string())));
    assert_eq!(seen.get(), 3);
}

#[test]
fn offsets_past_the_end_are_end_of_input() {
    let input = [t("a")];
    assert_eq!(TextToken.parse(&input, 10), Err(err("Text", "EOF")));
    assert_eq!(Eof.parse(&input, 10), Ok((10, ())));
    assert_eq!(TextToken.many().parse(&input, 10), Err(err("Text", "EOF")));
}
