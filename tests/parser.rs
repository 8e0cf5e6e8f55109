use slidmk::{
    content_item, eof, p_ok, parse, prepare, text_block, tokenize, Content, Lexer, ParseError,
    Parser, PeekN, Slide, Token,
};

fn all_items(source: &str) -> Vec<Result<Slide, ParseError>> {
    let mut slides = parse(source);
    let mut items = Vec::new();
    while let Some(item) = slides.next() {
        items.push(item);
    }
    items
}

fn text(s: &str) -> Token {
    Token::Text(s.to_string())
}

#[test]
fn title_slide_scenario() {
    let mut slides = parse("---Title\nHello World");
    let first = slides.next();
    assert!(slides.next().is_none());
    assert_eq!(first.map(|r| r.is_ok()), Some(true));
    let items = all_items("---Title\nHello World");
    assert_eq!(
        items,
        vec![Ok(Slide {
            kind: "Title".to_string(),
            contents: vec![Content::Text("Hello World".to_string())],
        })]
    );
}

#[test]
fn image_slide_scenario() {
    let items = all_items("---Title\n[a cat\n] \"cat.png\"");
    assert_eq!(
        items,
        vec![Ok(Slide {
            kind: "Title".to_string(),
            contents: vec![Content::Image("a cat".to_string(), "cat.png".to_string())],
        })]
    );
}

#[test]
fn image_without_closing_bracket_is_an_error() {
    let items = all_items("---Title\n[a cat \"cat.png\"");
    assert_eq!(items.len(), 1);
    assert!(items[0].is_err());
}

#[test]
fn unterminated_path_is_an_error_and_stops() {
    let mut slides = parse("---Title\n\"foo");
    let first = slides.next();
    assert!(matches!(first, Some(Err(_))));
    assert!(slides.next().is_none());
    assert!(slides.next().is_none());
}

#[test]
fn list_depths_are_kept_in_order() {
    let items = all_items("---Items\n- a\n  - b\n");
    assert_eq!(
        items,
        vec![Ok(Slide {
            kind: "Items".to_string(),
            contents: vec![Content::List(vec![(0, "a".to_string()), (2, "b".to_string())])],
        })]
    );
}

#[test]
fn plain_lines_join_into_one_text() {
    let items = all_items("---Kind\nfirst line\nsecond line\nthird\n");
    assert_eq!(
        items,
        vec![Ok(Slide {
            kind: "Kind".to_string(),
            contents: vec![Content::Text("first line second line third".to_string())],
        })]
    );
}

#[test]
fn lexing_twice_gives_the_same_tokens() {
    let source = "; intro\n---A\n[pic] \"a.png\"\n- x\n   * y\nplain text\n\n---B\n\"over.hjson\"\n";
    let first = tokenize(source);
    let second = tokenize(source);
    assert_eq!(first, second);
    let mut lexer = Lexer::new(source);
    let mut pulled = Vec::new();
    while let Some(t) = lexer.next() {
        pulled.push(t);
    }
    assert_eq!(pulled, first);
}

#[test]
fn path_only_line_is_a_config_directive() {
    let items = all_items("---Style\n\"style.hjson\"\nSome text\n");
    assert_eq!(
        items,
        vec![Ok(Slide {
            kind: "Style".to_string(),
            contents: vec![
                Content::ConfigDirective("style.hjson".to_string()),
                Content::Text("Some text".to_string()),
            ],
        })]
    );
}

#[test]
fn slides_iterator_terminates() {
    for source in ["", "---A\nx\n---B\ny\n", "junk ] [ \"", "---A\n]\n", "\n\n\n"] {
        let tokens = tokenize(source).len();
        let mut slides = parse(source);
        let mut calls = 0;
        while slides.next().is_some() {
            calls += 1;
            assert!(calls <= tokens + 1);
        }
        assert!(slides.next().is_none());
    }
}

#[test]
fn empty_source_has_no_slides() {
    assert!(all_items("").is_empty());
    assert!(all_items("   \n\n ; only a comment").is_empty());
}

#[test]
fn slide_body_may_be_empty() {
    let items = all_items("---A\n---B\nx\n");
    assert_eq!(
        items,
        vec![
            Ok(Slide { kind: "A".to_string(), contents: vec![] }),
            Ok(Slide { kind: "B".to_string(), contents: vec![Content::Text("x".to_string())] }),
        ]
    );
}

#[test]
fn blank_lines_between_slides_collapse() {
    let items = all_items("\n\n---A\n\nx\n\n\n---B\ny");
    assert_eq!(
        items,
        vec![
            Ok(Slide { kind: "A".to_string(), contents: vec![Content::Text("x".to_string())] }),
            Ok(Slide { kind: "B".to_string(), contents: vec![Content::Text("y".to_string())] }),
        ]
    );
}

#[test]
fn tokens_of_a_small_source() {
    let tokens = tokenize("---T\n[d\n] \"p\"\n- a\n");
    assert_eq!(
        tokens,
        vec![
            Token::Identifier("T".to_string()),
            Token::Linefeed,
            Token::SquareBracketOpen,
            text("d"),
            Token::SquareBracketClose,
            Token::Path("p".to_string()),
            Token::Linefeed,
            Token::ListItemMarker(0),
            text("a"),
        ]
    );
}

#[test]
fn text_runs_to_the_end_of_the_line() {
    assert_eq!(tokenize("a]b \"q\" [c\nd"), vec![text("a]b \"q\" [c"), text("d")]);
    let items = all_items("---A\nsee a] b\n");
    assert_eq!(
        items,
        vec![Ok(Slide { kind: "A".to_string(), contents: vec![Content::Text("see a] b".to_string())] })]
    );
}

#[test]
fn path_runs_to_the_last_quote_of_the_line() {
    assert_eq!(
        tokenize("\"a\"b\" x\n\"c\""),
        vec![Token::Path("a\"b".to_string()), text("x"), Token::Path("c".to_string())]
    );
    assert_eq!(tokenize("\"\""), vec![Token::Path(String::new())]);
}

#[test]
fn unicode_whitespace_separates_tokens() {
    assert_eq!(tokenize("---A\u{A0}"), vec![Token::Identifier("A".to_string()), text("")]);
    assert_eq!(tokenize("\u{3000}- x"), vec![Token::ListItemMarker(1), text("x")]);
    assert_eq!(tokenize("---\u{2003}Kind\n"), vec![Token::Identifier("Kind".to_string()), Token::Linefeed]);
}

#[test]
fn identifier_may_not_start_with_a_unicode_digit() {
    assert_eq!(
        tokenize("---\u{0663}x"),
        vec![Token::ListItemMarker(0), Token::ListItemMarker(0), Token::ListItemMarker(0), text("\u{0663}x")]
    );
}

#[test]
fn trailing_whitespace_and_comments_give_an_empty_text_run() {
    assert_eq!(tokenize("  "), vec![text("")]);
    assert_eq!(tokenize("; note"), vec![text("")]);
    assert_eq!(tokenize("\"p\"  ; note"), vec![Token::Path("p".to_string()), text("")]);
    assert_eq!(prepare(tokenize("\"p\"  ; note")), vec![Token::Path("p".to_string())]);
    let items = all_items("---S\n\"style.hjson\"   ");
    assert_eq!(
        items,
        vec![Ok(Slide {
            kind: "S".to_string(),
            contents: vec![Content::ConfigDirective("style.hjson".to_string())],
        })]
    );
}

#[test]
fn identifier_may_follow_the_dashes_on_the_next_line() {
    assert_eq!(
        tokenize("---\n  Title\n"),
        vec![Token::Identifier("Title".to_string()), Token::Linefeed]
    );
}

#[test]
fn comments_are_skipped_only_before_a_token() {
    let tokens = tokenize("; heading comment\n---A\nx ; kept\n");
    assert_eq!(
        tokens,
        vec![Token::Identifier("A".to_string()), Token::Linefeed, text("x ; kept")]
    );
}

#[test]
fn list_depth_saturates_at_a_byte() {
    let source = format!("{}- deep\n", " ".repeat(300));
    let tokens = tokenize(&source);
    assert_eq!(tokens, vec![Token::ListItemMarker(255), text("deep")]);
}

#[test]
fn identifier_word_may_not_start_with_a_digit() {
    let tokens = tokenize("--- 5\n");
    assert_eq!(
        tokens,
        vec![
            Token::ListItemMarker(0),
            Token::ListItemMarker(0),
            Token::ListItemMarker(0),
            text("5"),
        ]
    );
    let tokens = tokenize("---  Head_Cont2\n");
    assert_eq!(tokens, vec![Token::Identifier("Head_Cont2".to_string()), Token::Linefeed]);
}

#[test]
fn unterminated_quote_gives_one_invalid_token() {
    assert_eq!(tokenize("\"foo\nbar"), vec![Token::Invalid]);
}

#[test]
fn missing_identifier_is_reported() {
    let items = all_items("hello\n");
    let expected = ParseError { expected: "Identifier".to_string(), actual: "Text(hello)".to_string() };
    assert_eq!(items, vec![Err(expected)]);
    if let Err(e) = &items[0] {
        assert_eq!(e.message(), "Expected token: Identifier, token found Text(hello)");
    }
}

#[test]
fn eof_parser_and_p_ok() {
    let input = [Token::Linefeed];
    assert_eq!(eof(&input, 1), Ok((1, ())));
    assert_eq!(
        eof(&input, 0),
        Err(ParseError { expected: "EOF".to_string(), actual: "Linefeed".to_string() })
    );
    assert_eq!(p_ok(3, "x"), Ok((3, "x")));
}

#[test]
fn text_block_joins_runs_with_spaces() {
    let input = [text("a"), text("b c"), Token::Linefeed];
    assert_eq!(text_block().parse(&input, 0), Ok((2, "a b c".to_string())));
    assert_eq!(
        text_block().parse(&input, 2),
        Err(ParseError { expected: "Text".to_string(), actual: "Linefeed".to_string() })
    );
}

#[test]
fn content_choice_reports_the_last_branch_error() {
    let input = [Token::SquareBracketClose];
    assert_eq!(
        content_item().parse(&input, 0),
        Err(ParseError { expected: "Text".to_string(), actual: "]".to_string() })
    );
    let input = [Token::Path("x".to_string())];
    assert_eq!(content_item().parse(&input, 0), Ok((1, Content::ConfigDirective("x".to_string()))));
}

#[test]
fn prepare_collapses_linefeeds() {
    let tokens = vec![
        Token::Linefeed,
        Token::Linefeed,
        text("a"),
        Token::Linefeed,
        Token::Linefeed,
        Token::Linefeed,
        Token::Identifier("B".to_string()),
        text(""),
    ];
    assert_eq!(
        prepare(tokens),
        vec![text("a"), Token::Linefeed, Token::Identifier("B".to_string())]
    );
}

#[test]
fn peek_n_looks_ahead_and_consumes() {
    let mut p = PeekN::new(vec![1, 2, 3]);
    assert_eq!(p.peek(), Some(&1));
    assert_eq!(p.peek_nth(2), Some(&3));
    assert_eq!(p.peek_nth(3), None);
    assert_eq!(p.next_if(|x: &i32| *x > 1), None);
    assert_eq!(p.next_if(|x: &i32| *x == 1), Some(1));
    assert_eq!(p.next(), Some(2));
    p.advance(1);
    assert_eq!(p.len(), 0);
    assert_eq!(p.peek(), None);
    assert_eq!(p.next(), None);
}
