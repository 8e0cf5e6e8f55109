//! Front end of a slide compiler: a lexer for the line-oriented slide
//! markup, a small verified parser-combinator framework, and the slide
//! grammar built from it.

pub mod combinators;
pub mod config;
pub mod lexer;
pub mod parse_error;
pub mod peek_n;
pub mod primitives;
pub mod slide;
pub mod slides;
pub mod style;
pub mod token_parsers;
pub mod tokens;

pub use combinators::{
    eof, p_ok, Ahead, And, Describe, Eof, Inspect, Many, Mapper, Optional, Or, Outcome, ParseResult,
    Parser, Prefix, Process, Suffix,
};
pub use config::ConfigBuilder;
pub use lexer::{tokenize, Lexer};
pub use parse_error::{ParseError, ParseErrorModel};
pub use peek_n::PeekN;
pub use primitives::{HorOrientation, Orientation, Point, Rectangle, VertOrientation};
pub use slide::{Content, ContentModel, Slide, SlideModel};
pub use slides::{
    content_item, parse, prepare, slide_parser, text_block, JoinRuns, Slides, ToConfig, ToImage,
    ToList, ToSlide, ToText,
};
pub use style::{hex_string_to_rgb, orientation_of_words, parse_orientation, str_to_orientation};
pub use token_parsers::{
    identifier, list_item, mark, path, text, IdentifierToken, ListItemToken, Mark, PathToken,
    Punctuation, TextToken,
};
pub use tokens::{Lexeme, Token};
