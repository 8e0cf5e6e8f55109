use vstd::prelude::*;

use crate::combinators::{
    lemma_many_not_empty, many_outcome, Ahead, And, Eof, Many, Mapper, Optional, Or, Outcome, Parser, Prefix, Process,
    Suffix,
};
use crate::lexer::{
    is_kind_word, is_plain_line, lemma_identifiers_not_empty, lemma_lex_plain_source, lex_all,
    names_not_empty, plain_source, text_lexemes, tokenize,
};
use crate::parse_error::{ParseError, ParseErrorModel};
use crate::peek_n::PeekN;
use crate::slide::{Content, ContentModel, Slide, SlideModel};
use crate::token_parsers::{text_outcome, IdentifierToken, ListItemToken, Mark, PathToken, Punctuation, TextToken};
use crate::tokens::{Lexeme, Token};

verus! {

/// Text runs joined by single spaces.
pub open spec fn join_runs(runs: Seq<Seq<char>>) -> Seq<char>
    decreases runs.len(),
{
    if runs.len() == 0 {
        Seq::empty()
    } else if runs.len() == 1 {
        runs[0]
    } else {
        join_runs(runs.drop_last()) + " "@ + runs.last()
    }
}

/// Joins the runs of a text block with single spaces.
pub struct JoinRuns;

impl Mapper for JoinRuns {
    type In = Vec<String>;

    type Out = String;

    open spec fn spec_apply(&self, runs: Seq<Seq<char>>) -> Seq<char> {
        join_runs(runs)
    }

    fn apply(&self, runs: Vec<String>) -> (r: String) {
        let mut r = String::new();
        let mut i: usize = 0;
        while i < runs.len()
            invariant
                i <= runs@.len(),
                r@ == join_runs(runs.deep_view().take(i as int)),
            decreases runs@.len() - i,
        {
            if i > 0 {
                r.append(" ");
            }
            r.append(runs[i].as_str());
            proof {
                let taken = runs.deep_view().take(i + 1);
                assert(taken.drop_last() =~= runs.deep_view().take(i as int));
                if i == 0 {
                    assert(r@ =~= taken[0]);
                }
            }
            i = i + 1;
        }
        proof {
            assert(runs.deep_view().take(runs@.len() as int) =~= runs.deep_view());
        }
        r
    }
}

/// A text block as [`Content::Text`].
pub struct ToText;

impl Mapper for ToText {
    type In = String;

    type Out = Content;

    open spec fn spec_apply(&self, t: Seq<char>) -> ContentModel {
        ContentModel::Text(t)
    }

    fn apply(&self, t: String) -> (r: Content) {
        Content::Text(t)
    }
}

/// A bare path as [`Content::ConfigDirective`].
pub struct ToConfig;

impl Mapper for ToConfig {
    type In = String;

    type Out = Content;

    open spec fn spec_apply(&self, p: Seq<char>) -> ContentModel {
        ContentModel::ConfigDirective(p)
    }

    fn apply(&self, p: String) -> (r: Content) {
        Content::ConfigDirective(p)
    }
}

/// A description and a path as [`Content::Image`].
pub struct ToImage;

impl Mapper for ToImage {
    type In = (String, String);

    type Out = Content;

    open spec fn spec_apply(&self, i: (Seq<char>, Seq<char>)) -> ContentModel {
        ContentModel::Image(i.0, i.1)
    }

    fn apply(&self, i: (String, String)) -> (r: Content) {
        Content::Image(i.0, i.1)
    }
}

/// List entries as [`Content::List`].
pub struct ToList;

impl Mapper for ToList {
    type In = Vec<(u8, String)>;

    type Out = Content;

    open spec fn spec_apply(&self, entries: Seq<(u8, Seq<char>)>) -> ContentModel {
        ContentModel::List(entries)
    }

    fn apply(&self, entries: Vec<(u8, String)>) -> (r: Content) {
        Content::List(entries)
    }
}

/// A kind and an optional body as a [`Slide`].
pub struct ToSlide;

/// A slide of `kind` whose body, if absent, is empty.
pub open spec fn slide_model(kind: Seq<char>, body: Option<Seq<ContentModel>>) -> SlideModel {
    SlideModel {
        kind,
        contents: match body {
            Some(contents) => contents,
            None => Seq::empty(),
        },
    }
}

impl Mapper for ToSlide {
    type In = (String, Option<Vec<Content>>);

    type Out = Slide;

    open spec fn spec_apply(&self, i: (Seq<char>, Option<Seq<ContentModel>>)) -> SlideModel {
        slide_model(i.0, i.1)
    }

    fn apply(&self, i: (String, Option<Vec<Content>>)) -> (r: Slide) {
        let ghost body_view = i.1.deep_view();
        let (kind, body) = i;
        match body {
            Some(contents) => {
                proof {
                    assert(body_view == Some(contents.deep_view()));
                }
                Slide { kind, contents }
            },
            None => {
                let contents: Vec<Content> = Vec::new();
                proof {
                    assert(contents.deep_view() =~= Seq::<ContentModel>::empty());
                }
                Slide { kind, contents }
            },
        }
    }
}

/// One or more text runs, joined.
pub type TextBlock = Process<Many<TextToken>, JoinRuns>;

/// One or more list entries: a marker and a text block each.
pub type ListContent = Process<Many<And<ListItemToken, TextBlock>>, ToList>;

/// `[`, a text block, `]`, then a path.
pub type ImageContent = Process<
    And<Suffix<Prefix<TextBlock, Punctuation>, Punctuation>, PathToken>,
    ToImage,
>;

/// A bare path.
pub type ConfigContent = Process<PathToken, ToConfig>;

/// One content item and the end of its line (or of the input).
pub type ContentItem = Suffix<
    Or<Or<Or<ConfigContent, ImageContent>, ListContent>, Process<TextBlock, ToText>>,
    Or<Punctuation, Eof>,
>;

/// A slide: its identifier line, then zero or more content items, up to
/// the next slide or the end of the input.
///
/// An empty body is legal. A slide must end where the next one starts or
/// at the end of the input: a body line that is no content item (such as
/// an unterminated quoted path) makes its own slide an error, rather than
/// ending the slide early with the items before it and failing at the next
/// one.
pub type SlideParser = Process<
    Suffix<
        And<Suffix<IdentifierToken, Punctuation>, Optional<Many<ContentItem>>>,
        Or<Ahead<IdentifierToken>, Eof>,
    >,
    ToSlide,
>;

/// The value that [`text_block`] builds.
pub open spec fn spec_text_block() -> TextBlock {
    Process { parser: Many { parser: TextToken }, apply: JoinRuns }
}

/// The value that [`content_item`] builds.
pub open spec fn spec_content_item() -> ContentItem {
    let text = spec_text_block();
    let config = Process { parser: PathToken, apply: ToConfig };
    let image = Process {
        parser: And {
            first: Suffix {
                parser: Prefix { parser: text, prefix: Punctuation { mark: Mark::Open } },
                suffix: Punctuation { mark: Mark::Close },
            },
            second: PathToken,
        },
        apply: ToImage,
    };
    let list = Process {
        parser: Many { parser: And { first: ListItemToken, second: text } },
        apply: ToList,
    };
    Suffix {
        parser: Or {
            this: Or { this: Or { this: config, or_that: image }, or_that: list },
            or_that: Process { parser: text, apply: ToText },
        },
        suffix: Or { this: Punctuation { mark: Mark::Linefeed }, or_that: Eof },
    }
}

/// The value that [`slide_parser`] builds.
pub open spec fn spec_slide_parser() -> SlideParser {
    Process {
        parser: Suffix {
            parser: And {
                first: Suffix {
                    parser: IdentifierToken,
                    suffix: Punctuation { mark: Mark::Linefeed },
                },
                second: Optional { parser: Many { parser: spec_content_item() } },
            },
            suffix: Or { this: Ahead { parser: IdentifierToken }, or_that: Eof },
        },
        apply: ToSlide,
    }
}

/// The text block parser: one or more `Text` tokens, joined by spaces.
pub fn text_block() -> (r: TextBlock)
    ensures
        r == spec_text_block(),
{
    TextToken.many().process(JoinRuns)
}

/// The parser of one content item.
pub fn content_item() -> (r: ContentItem)
    ensures
        r == spec_content_item(),
{
    let config = PathToken.process(ToConfig);
    let image = text_block().prefix(Punctuation { mark: Mark::Open }).suffix(
        Punctuation { mark: Mark::Close },
    ).and(PathToken).process(ToImage);
    let list = ListItemToken.and(text_block()).many().process(ToList);
    config.or(image).or(list).or(text_block().process(ToText)).suffix(
        Punctuation { mark: Mark::Linefeed }.or(Eof),
    )
}

/// The parser of one slide.
pub fn slide_parser() -> (r: SlideParser)
    ensures
        r == spec_slide_parser(),
{
    IdentifierToken.suffix(Punctuation { mark: Mark::Linefeed }).and(
        content_item().many().optional(),
    ).suffix(IdentifierToken.ahead().or(Eof)).process(ToSlide)
}

/// What the slide grammar gives on `tokens` at `offset`.
pub open spec fn slide_outcome(tokens: Seq<Token>, offset: usize) -> Outcome<SlideModel> {
    spec_slide_parser().outcome(tokens, offset)
}

/// The deep view of what [`Slides::next`] returns.
pub open spec fn item_view(r: Option<Result<Slide, ParseError>>) -> Option<
    Result<SlideModel, ParseErrorModel>,
> {
    match r {
        None => None,
        Some(Ok(s)) => Some(Ok(s.deep_view())),
        Some(Err(e)) => Some(Err(e.deep_view())),
    }
}

/// The slides of a token sequence, parsed one at a time.
pub struct Slides {
    tokens: Vec<Token>,
    offset: usize,
    failed: bool,
}

impl Slides {
    /// The tokens being parsed.
    pub closed spec fn tokens(&self) -> Seq<Token> {
        self.tokens@
    }

    /// How many tokens have been consumed.
    pub closed spec fn offset(&self) -> usize {
        self.offset
    }

    /// Whether an error has been yielded.
    pub closed spec fn failed(&self) -> bool {
        self.failed
    }

    /// Whether every further call of `next` gives `None`.
    pub open spec fn done(&self) -> bool {
        self.failed() || self.offset() >= self.tokens().len()
    }

    /// The offset stays within the tokens.
    pub closed spec fn wf(&self) -> bool {
        self.offset <= self.tokens@.len()
    }

    /// A well-formed state has consumed no more tokens than there are.
    pub proof fn lemma_wf(&self)
        requires
            self.wf(),
        ensures
            self.offset() <= self.tokens().len(),
    {
    }

    /// What `next` yields from this state.
    pub open spec fn spec_item(&self) -> Option<Result<SlideModel, ParseErrorModel>> {
        if self.done() {
            None
        } else {
            match slide_outcome(self.tokens(), self.offset()) {
                Ok((_, s)) => Some(Ok(s)),
                Err(e) => Some(Err(e)),
            }
        }
    }

    /// The state after `next`.
    pub closed spec fn spec_after(&self) -> Slides {
        if self.done() {
            *self
        } else {
            match slide_outcome(self.tokens@, self.offset) {
                Ok((next, _)) => Slides { offset: next, ..*self },
                Err(_) => Slides { failed: true, ..*self },
            }
        }
    }

    /// An upper bound on the number of items still to come.
    pub open spec fn budget(&self) -> nat {
        if self.done() {
            0
        } else {
            (self.tokens().len() - self.offset()) as nat
        }
    }

    /// Slides of `tokens`, from the first one.
    pub fn new(tokens: Vec<Token>) -> (r: Slides)
        ensures
            r.wf(),
            r.tokens() == tokens@,
            r.offset() == 0,
            !r.failed(),
    {
        Slides { tokens, offset: 0, failed: false }
    }

    /// Parses the next slide. Once the tokens are used up, or after the
    /// first error, it gives `None`.
    pub fn next(&mut self) -> (r: Option<Result<Slide, ParseError>>)
        requires
            old(self).wf(),
        ensures
            final(self).wf(),
            item_view(r) == old(self).spec_item(),
            *final(self) == old(self).spec_after(),
            final(self).tokens() == old(self).tokens(),
            old(self).done() ==> r is None && *final(self) == *old(self),
            !old(self).done() ==> match slide_outcome(old(self).tokens(), old(self).offset()) {
                Ok((next, _)) => {
                    &&& r matches Some(Ok(_))
                    &&& final(self).offset() == next
                    &&& old(self).offset() < next <= old(self).tokens().len()
                    &&& !final(self).failed()
                },
                Err(_) => {
                    &&& r matches Some(Err(_))
                    &&& final(self).offset() == old(self).offset()
                    &&& final(self).failed()
                },
            },
    {
        if self.failed || self.offset >= self.tokens.len() {
            return None;
        }
        let parser = slide_parser();
        proof {
            parser.lemma_outcome_bounds(self.tokens@, self.offset);
        }
        match parser.parse(self.tokens.as_slice(), self.offset) {
            Ok((next, slide)) => {
                self.offset = next;
                Some(Ok(slide))
            },
            Err(e) => {
                self.failed = true;
                Some(Err(e))
            },
        }
    }
}

/// Whether the token at `i` is dropped before parsing: a linefeed that
/// starts the input or follows another linefeed, or an empty text run (what
/// the lexer gives for whitespace or comments at the end of the input).
pub open spec fn dropped(ts: Seq<Lexeme>, i: int) -> bool {
    ||| ts[i] is Linefeed && (i == 0 || ts[i - 1] is Linefeed)
    ||| ts[i] == Lexeme::Text(Seq::empty())
}

/// `ts` with runs of linefeeds collapsed to one, a leading linefeed
/// removed, and empty text runs removed.
pub open spec fn prepared(ts: Seq<Lexeme>) -> Seq<Lexeme>
    decreases ts.len(),
{
    if ts.len() == 0 {
        Seq::empty()
    } else if dropped(ts, ts.len() - 1) {
        prepared(ts.drop_last())
    } else {
        prepared(ts.drop_last()).push(ts.last())
    }
}

/// Collapses runs of linefeeds, drops a leading one and drops empty text
/// runs; see [`prepared`].
pub fn prepare(tokens: Vec<Token>) -> (r: Vec<Token>)
    ensures
        r.deep_view() == prepared(tokens.deep_view()),
{
    let ghost all = tokens.deep_view();
    let count = tokens.len();
    let ghost n = count;
    let mut rest = PeekN::new(tokens);
    let mut out: Vec<Token> = Vec::new();
    let mut after_linefeed = false;
    let mut i: usize = 0;
    while rest.len() > 0
        invariant
            i + rest@.len() == n,
            n == count,
            all.len() == n,
            forall|m: int| 0 <= m < rest@.len() ==> #[trigger] rest@[m].deep_view() == all[i + m],
            out.deep_view() == prepared(all.take(i as int)),
            after_linefeed == (i > 0 && all[i - 1] is Linefeed),
        decreases rest@.len(),
    {
        let ghost before = rest@;
        let tok = rest.next().unwrap();
        let is_linefeed = match tok {
            Token::Linefeed => true,
            _ => false,
        };
        let is_empty_text = match &tok {
            Token::Text(run) => run.as_str().is_empty(),
            _ => false,
        };
        proof {
            assert(tok.deep_view() == all[i as int]);
            let upto = all.take(i + 1);
            assert(upto.drop_last() =~= all.take(i as int));
            if let Token::Text(run) = &tok {
                if run@.len() == 0 {
                    assert(run@ =~= Seq::<char>::empty());
                }
            }
            assert(dropped(upto, i as int) == ((is_linefeed && (i == 0 || after_linefeed))
                || is_empty_text));
            assert forall|m: int| 0 <= m < rest@.len() implies #[trigger] rest@[m].deep_view()
                == all[i + 1 + m] by {
                assert(rest@[m] == before[m + 1]);
            }
        }
        if !((is_linefeed && (i == 0 || after_linefeed)) || is_empty_text) {
            let ghost prev = out.deep_view();
            out.push(tok);
            proof {
                assert(out.deep_view() =~= prev.push(all[i as int]));
            }
        }
        after_linefeed = is_linefeed;
        i = i + 1;
    }
    proof {
        assert(all.take(n as int) =~= all);
    }
    out
}

/// Lexes `source`, prepares its tokens, and parses them lazily into slides.
pub fn parse(source: &str) -> (r: Slides)
    ensures
        r.wf(),
        r.tokens().map_values(|t: Token| t.deep_view()) == prepared(lex_all(source@)),
        r.offset() == 0,
        !r.failed(),
{
    let tokens = prepare(tokenize(source));
    proof {
        assert(tokens@.map_values(|t: Token| t.deep_view()) =~= tokens.deep_view());
    }
    Slides::new(tokens)
}

} // verus!

verus! {

/// The state after `n` calls of [`Slides::next`].
pub open spec fn run(s: Slides, n: nat) -> Slides
    decreases n,
{
    if n == 0 {
        s
    } else {
        run(s.spec_after(), (n - 1) as nat)
    }
}

proof fn lemma_step_shrinks(s: Slides)
    requires
        s.wf(),
    ensures
        s.spec_after().wf(),
        s.spec_after().tokens() == s.tokens(),
        !s.done() ==> s.spec_after().budget() < s.budget(),
        s.done() ==> s.spec_after() == s,
{
    if !s.done() {
        assert(s.tokens.len() == s.tokens@.len());
        spec_slide_parser().lemma_outcome_bounds(s.tokens@, s.offset);
    }
}

proof fn lemma_run_done(s: Slides, n: nat)
    requires
        s.wf(),
        n >= s.budget(),
    ensures
        run(s, n).done(),
    decreases n,
{
    lemma_step_shrinks(s);
    if n > 0 {
        lemma_run_done(s.spec_after(), (n - 1) as nat);
    } else if !s.done() {
        assert(s.budget() > 0);
    }
}

/// Termination: from any state, the slides iterator is done (and yields
/// `None` from then on) after at most as many calls as there are tokens
/// left to parse.
pub proof fn lemma_slides_terminate(s: Slides)
    requires
        s.wf(),
    ensures
        run(s, s.budget()).done(),
        run(s, s.budget()).spec_item() is None,
{
    lemma_run_done(s, s.budget());
}

/// Ordered choice: a line that holds only a quoted path is a configuration
/// directive, even though a text block could not tell it apart otherwise.
pub proof fn lemma_path_line_is_config(tokens: Seq<Token>, offset: usize, p: String)
    requires
        offset < tokens.len() <= usize::MAX,
        tokens[offset as int] == Token::Path(p),
        offset + 1 == tokens.len() || tokens[offset + 1] is Linefeed,
    ensures
        spec_content_item().outcome(tokens, offset) == Ok::<(usize, ContentModel), ParseErrorModel>(
            (
                if offset + 1 == tokens.len() {
                    (offset + 1) as usize
                } else {
                    (offset + 2) as usize
                },
                ContentModel::ConfigDirective(p@),
            ),
        ),
{
}

} // verus!

verus! {

proof fn lemma_prepared_keeps(ts: Seq<Lexeme>)
    requires
        forall|i: int| 0 <= i < ts.len() ==> !dropped(ts, i),
    ensures
        prepared(ts) == ts,
    decreases ts.len(),
{
    if ts.len() > 0 {
        let d = ts.drop_last();
        assert forall|i: int| 0 <= i < d.len() implies !dropped(d, i) by {
            assert(!dropped(ts, i));
            assert(d[i] == ts[i]);
            if i > 0 {
                assert(d[i - 1] == ts[i - 1]);
            }
        }
        lemma_prepared_keeps(d);
        assert(!dropped(ts, ts.len() - 1));
        assert(d.push(ts.last()) =~= ts);
    }
}

proof fn lemma_many_text(tokens: Seq<Token>, o: usize, runs: Seq<Seq<char>>)
    requires
        o < tokens.len() <= usize::MAX,
        o + runs.len() == tokens.len(),
        forall|i: int| 0 <= i < runs.len() ==> #[trigger] tokens[o + i].deep_view() == Lexeme::Text(
            runs[i],
        ),
    ensures
        many_outcome(TextToken, tokens, o) == Ok::<(usize, Seq<Seq<char>>), ParseErrorModel>(
            (tokens.len() as usize, runs),
        ),
    decreases tokens.len() - o,
{
    assert(tokens[o + 0].deep_view() == Lexeme::Text(runs[0]));
    assert(text_outcome(tokens, o) == Ok::<(usize, Seq<char>), ParseErrorModel>(
        ((o + 1) as usize, runs[0]),
    ));
    let next = (o + 1) as usize;
    if next < tokens.len() {
        let rest = runs.drop_first();
        assert forall|i: int| 0 <= i < rest.len() implies #[trigger] tokens[next + i].deep_view()
            == Lexeme::Text(rest[i]) by {
            assert(tokens[o + (i + 1)].deep_view() == Lexeme::Text(runs[i + 1]));
        }
        lemma_many_text(tokens, next, rest);
        assert(seq![runs[0]] + rest =~= runs);
    } else {
        assert(text_outcome(tokens, next) is Err);
        assert(seq![runs[0]] =~= runs);
    }
}

/// Round trip on plain input: a slide marker line followed by one or more
/// plain text lines gives exactly one slide, of that kind, whose only
/// content is the text of the lines joined by single spaces; the iterator
/// is then done.
pub proof fn lemma_plain_source_round_trip(kind: Seq<char>, lines: Seq<Seq<char>>, s: Slides)
    requires
        is_kind_word(kind),
        lines.len() > 0,
        forall|i: int| 0 <= i < lines.len() ==> is_plain_line(#[trigger] lines[i]),
        s.wf(),
        !s.failed(),
        s.offset() == 0,
        s.tokens().map_values(|t: Token| t.deep_view()) == prepared(
            lex_all(plain_source(kind, lines)),
        ),
    ensures
        s.spec_item() == Some(
            Ok::<SlideModel, ParseErrorModel>(
                SlideModel { kind, contents: seq![ContentModel::Text(join_runs(lines))] },
            ),
        ),
        s.spec_after().spec_item() is None,
{
    lemma_lex_plain_source(kind, lines);
    let ts = seq![Lexeme::Identifier(kind), Lexeme::Linefeed] + text_lexemes(lines);
    assert forall|i: int| 0 <= i < ts.len() implies !dropped(ts, i) by {
        if i >= 2 {
            assert(ts[i] == Lexeme::Text(lines[i - 2]));
        }
    }
    lemma_prepared_keeps(ts);
    let tokens = s.tokens();
    let views = tokens.map_values(|t: Token| t.deep_view());
    assert(views == ts);
    let n = tokens.len();
    assert(s.tokens.len() == s.tokens@.len());
    assert(n == ts.len());
    assert forall|i: int| 0 <= i < n implies #[trigger] tokens[i].deep_view() == ts[i] by {
        assert(views[i] == ts[i]);
    }
    assert(tokens[0].deep_view() == ts[0]);
    assert(tokens[1].deep_view() == ts[1]);
    assert forall|i: int| 0 <= i < lines.len() implies #[trigger] tokens[2 + i].deep_view()
        == Lexeme::Text(lines[i]) by {
        assert(tokens[2 + i].deep_view() == ts[2 + i]);
    }
    lemma_many_text(tokens, 2, lines);
    let joined = join_runs(lines);
    assert(spec_text_block().outcome(tokens, 2) == Ok::<(usize, Seq<char>), ParseErrorModel>(
        (n as usize, joined),
    ));
    assert(tokens[2].deep_view() == Lexeme::Text(lines[0]));
    let item = spec_content_item();
    assert(item.outcome(tokens, 2) == Ok::<(usize, ContentModel), ParseErrorModel>(
        (n as usize, ContentModel::Text(joined)),
    ));
    assert(many_outcome(TextToken, tokens, n as usize) is Err);
    assert(item.outcome(tokens, n as usize) is Err);
    assert(many_outcome(item, tokens, n as usize) is Err);
    assert(many_outcome(item, tokens, 2) == Ok::<(usize, Seq<ContentModel>), ParseErrorModel>(
        (n as usize, seq![ContentModel::Text(joined)]),
    ));
    assert(slide_outcome(tokens, 0) == Ok::<(usize, SlideModel), ParseErrorModel>(
        (n as usize, SlideModel { kind, contents: seq![ContentModel::Text(joined)] }),
    ));
}

} // verus!

verus! {

proof fn lemma_prepared_names(ts: Seq<Lexeme>)
    requires
        names_not_empty(ts),
    ensures
        names_not_empty(prepared(ts)),
    decreases ts.len(),
{
    if ts.len() > 0 {
        let d = ts.drop_last();
        assert forall|i: int| 0 <= i < d.len() && (#[trigger] d[i]) is Identifier implies d[
            i
        ]->Identifier_0.len() > 0 by {
            assert(d[i] == ts[i]);
        }
        lemma_prepared_names(d);
        let p = prepared(d);
        if !dropped(ts, ts.len() - 1) {
            let q = p.push(ts.last());
            assert forall|i: int| 0 <= i < q.len() && (#[trigger] q[i]) is Identifier implies q[
                i
            ]->Identifier_0.len() > 0 by {
                if i < p.len() {
                    assert(q[i] == p[i]);
                } else {
                    assert(q[i] == ts[ts.len() - 1]);
                }
            }
        }
    }
}

/// A slide's kind is never empty: whatever the source, every slide parsed
/// from its prepared tokens has a kind of at least one character.
pub proof fn lemma_slide_kind_not_empty(source: Seq<char>, s: Slides)
    requires
        s.wf(),
        s.tokens().map_values(|t: Token| t.deep_view()) == prepared(lex_all(source)),
    ensures
        s.spec_item() matches Some(Ok(slide)) ==> slide.kind.len() > 0,
{
    lemma_identifiers_not_empty(source);
    lemma_prepared_names(lex_all(source));
    if !s.done() {
        let tokens = s.tokens();
        let o = s.offset() as int;
        if let Ok(_) = slide_outcome(tokens, s.offset()) {
            let views = tokens.map_values(|t: Token| t.deep_view());
            assert(views[o] == tokens[o].deep_view());
            assert(tokens[o] is Identifier);
            assert(views[o] is Identifier);
        }
    }
}

} // verus!

verus! {

/// A list content item always has at least one entry.
pub proof fn lemma_list_not_empty(tokens: Seq<Token>, offset: usize)
    ensures
        spec_content_item().outcome(tokens, offset) matches Ok((_, ContentModel::List(entries)))
            ==> entries.len() > 0,
{
    let list = Many { parser: And { first: ListItemToken, second: spec_text_block() } };
    lemma_many_not_empty(list.parser, tokens, offset);
}

} // verus!

verus! {

/// Ordered choice at slide level: a slide whose body is one line holding only
/// a quoted path parses, as a whole, into a slide with one configuration
/// directive (and never a text item), whether the input ends after that
/// line or the next slide starts there.
pub proof fn lemma_path_line_slide(tokens: Seq<Token>, offset: usize, kind: String, p: String)
    requires
        offset + 3 <= tokens.len() <= usize::MAX,
        tokens[offset as int] == Token::Identifier(kind),
        tokens[offset + 1] is Linefeed,
        tokens[offset + 2] == Token::Path(p),
        offset + 3 == tokens.len() || (tokens[offset + 3] is Linefeed && (offset + 4
            == tokens.len() || tokens[offset + 4] is Identifier)),
    ensures
        slide_outcome(tokens, offset) == Ok::<(usize, SlideModel), ParseErrorModel>(
            (
                if offset + 3 == tokens.len() {
                    (offset + 3) as usize
                } else {
                    (offset + 4) as usize
                },
                SlideModel { kind: kind@, contents: seq![ContentModel::ConfigDirective(p@)] },
            ),
        ),
{
    let body = (offset + 2) as usize;
    lemma_path_line_is_config(tokens, body, p);
    let end: usize = if offset + 3 == tokens.len() {
        (offset + 3) as usize
    } else {
        (offset + 4) as usize
    };
    let item = spec_content_item();
    assert(many_outcome(TextToken, tokens, end) is Err);
    assert(item.outcome(tokens, end) is Err);
    assert(many_outcome(item, tokens, end) is Err);
    assert(many_outcome(item, tokens, body) == Ok::<(usize, Seq<ContentModel>), ParseErrorModel>(
        (end, seq![ContentModel::ConfigDirective(p@)]),
    ));
}

} // verus!
