use vstd::prelude::*;

use vstd::std_specs::iter::IteratorSpec;

use crate::peek_n::PeekN;
use crate::tokens::{Lexeme, Token};

verus! {

/// Unicode whitespace: the characters with the `White_Space` property, the
/// set that `char::is_whitespace` and regex `\s` accept.
pub open spec fn is_space(c: char) -> bool {
    let u = c as u32;
    ||| 0x09 <= u <= 0x0D
    ||| u == 0x20
    ||| u == 0x85
    ||| u == 0xA0
    ||| u == 0x1680
    ||| 0x2000 <= u <= 0x200A
    ||| u == 0x2028
    ||| u == 0x2029
    ||| u == 0x202F
    ||| u == 0x205F
    ||| u == 0x3000
}

/// Whitespace inside a line: any whitespace but the newline.
pub open spec fn is_blank(c: char) -> bool {
    is_space(c) && c != '\n'
}

/// Decides [`is_space`].
pub fn is_whitespace(c: char) -> (r: bool)
    ensures
        r == is_space(c),
{
    let u = c as u32;
    (0x09 <= u && u <= 0x0D) || u == 0x20 || u == 0x85 || u == 0xA0 || u == 0x1680 || (0x2000
        <= u && u <= 0x200A) || u == 0x2028 || u == 0x2029 || u == 0x202F || u == 0x205F || u
        == 0x3000
}

/// What `char::is_numeric` gives for a character.
pub uninterp spec fn numeric_of(c: char) -> bool;

/// Relies on `char::is_numeric`: whether the character is a Unicode number
/// (general categories Nd, Nl and No); it depends on the character alone.
#[verifier::external_body]
fn is_numeric(c: char) -> (r: bool)
    ensures
        r == numeric_of(c),
{
    c.is_numeric()
}

/// The characters at which a scan stops.
#[derive(Clone, Copy, PartialEq, Eq)]
pub enum StopAt {
    /// anything but inline whitespace
    NonBlank,
    /// a newline
    LineEnd,
    /// whitespace, the end of a word
    WordEnd,
    /// anything but whitespace
    NonSpace,
}

/// Whether a scan of `kind` stops at `c`.
pub open spec fn stops(kind: StopAt, c: char) -> bool {
    match kind {
        StopAt::NonBlank => !is_blank(c),
        StopAt::LineEnd => c == '\n',
        StopAt::WordEnd => is_space(c),
        StopAt::NonSpace => !is_space(c),
    }
}

/// The first index from `i` on whose character stops a scan of `kind`, or
/// the length of `s` where there is none.
pub open spec fn first_from(s: Seq<char>, i: int, kind: StopAt) -> int
    decreases s.len() - i,
{
    if 0 <= i < s.len() && !stops(kind, s[i]) {
        first_from(s, i + 1, kind)
    } else {
        i
    }
}

/// A scan stays within `s`, passes only characters it does not stop at,
/// and stops at the character it ends on.
pub proof fn lemma_first_from(s: Seq<char>, i: int, kind: StopAt)
    requires
        0 <= i <= s.len(),
    ensures
        i <= first_from(s, i, kind) <= s.len(),
        forall|m: int| i <= m < first_from(s, i, kind) ==> !stops(kind, #[trigger] s[m]),
        first_from(s, i, kind) < s.len() ==> stops(kind, s[first_from(s, i, kind)]),
    decreases s.len() - i,
{
    if i < s.len() && !stops(kind, s[i]) {
        lemma_first_from(s, i + 1, kind);
    }
}

/// Skips whitespace and comments (`;` through the end of the line) from `i`:
/// the count of whitespace characters right before the next token, and the
/// index where it starts.
pub open spec fn trivia(s: Seq<char>, i: int) -> (int, int)
    decreases s.len() - i,
    when 0 <= i <= s.len()
    via trivia_decreases
{
    let b = first_from(s, i, StopAt::NonBlank);
    if b < s.len() && s[b] == ';' {
        let e = first_from(s, b, StopAt::LineEnd);
        trivia(s, after_line(s, e))
    } else {
        (b - i, b)
    }
}

/// The index after a run that ends at `e`, with the newline that ends it.
pub open spec fn after_line(s: Seq<char>, e: int) -> int {
    if 0 <= e < s.len() && s[e] == '\n' {
        e + 1
    } else {
        e
    }
}

#[via_fn]
proof fn trivia_decreases(s: Seq<char>, i: int) {
    lemma_first_from(s, i, StopAt::NonBlank);
    let b = first_from(s, i, StopAt::NonBlank);
    if b < s.len() && s[b] == ';' {
        lemma_first_from(s, b, StopAt::LineEnd);
    }
}

/// Skipping whitespace and comments ends within `s`, at a character that is
/// neither inline whitespace nor a comment marker.
pub proof fn lemma_trivia(s: Seq<char>, i: int)
    requires
        0 <= i <= s.len(),
    ensures
        0 <= trivia(s, i).0,
        i <= trivia(s, i).1 <= s.len(),
        trivia(s, i).1 < s.len() ==> !is_blank(s[trivia(s, i).1]) && s[trivia(s, i).1] != ';',
    decreases s.len() - i,
{
    lemma_first_from(s, i, StopAt::NonBlank);
    let b = first_from(s, i, StopAt::NonBlank);
    if b < s.len() && s[b] == ';' {
        lemma_first_from(s, b, StopAt::LineEnd);
        lemma_trivia(s, after_line(s, first_from(s, b, StopAt::LineEnd)));
    }
}

/// A list depth: the whitespace count, saturated to fit a byte.
pub open spec fn depth_of(k: int) -> u8 {
    if k > 255 {
        255
    } else {
        k as u8
    }
}

/// Whether a slide identifier starts at `j`: three dashes, any whitespace
/// (newlines included), then a word that does not start with a digit (a
/// Unicode number, as `char::is_numeric` tells).
pub open spec fn is_identifier_at(s: Seq<char>, j: int) -> bool {
    let b = first_from(s, j + 3, StopAt::NonSpace);
    &&& j + 3 <= s.len()
    &&& s[j] == '-' && s[j + 1] == '-' && s[j + 2] == '-'
    &&& b < s.len()
    &&& !numeric_of(s[b])
}

/// The index of the last `"` in `s[lo..hi)`, or `lo - 1` where there is none.
pub open spec fn last_quote(s: Seq<char>, lo: int, hi: int) -> int
    decreases hi - lo,
{
    if hi <= lo {
        lo - 1
    } else if s[hi - 1] == '"' {
        hi - 1
    } else {
        last_quote(s, lo, hi - 1)
    }
}

pub proof fn lemma_last_quote(s: Seq<char>, lo: int, hi: int)
    requires
        0 <= lo <= hi <= s.len(),
    ensures
        lo - 1 <= last_quote(s, lo, hi) < hi,
        last_quote(s, lo, hi) >= lo ==> s[last_quote(s, lo, hi)] == '"',
        forall|m: int| last_quote(s, lo, hi) < m < hi && lo <= m ==> #[trigger] s[m] != '"',
    decreases hi - lo,
{
    if hi > lo && s[hi - 1] != '"' {
        lemma_last_quote(s, lo, hi - 1);
    }
}

/// The next token of `s` and how many characters it takes, with the
/// whitespace and comments before it; `None` only where `s` is empty.
///
/// Where only whitespace and comments are left, the fallback text rule
/// matches the empty rest of the line: an empty text run that takes all of
/// `s`. A text run is the rest of the line, its newline consumed with it; a
/// quoted path runs to the last `"` on its line.
pub open spec fn lex_step(s: Seq<char>) -> Option<(Lexeme, int)> {
    let (k, j) = trivia(s, 0);
    if s.len() == 0 {
        None
    } else if j >= s.len() {
        Some((Lexeme::Text(Seq::empty()), s.len() as int))
    } else {
        let c = s[j];
        if c == '[' {
            Some((Lexeme::SquareBracketOpen, j + 1))
        } else if c == ']' {
            Some((Lexeme::SquareBracketClose, j + 1))
        } else if c == '\n' {
            Some((Lexeme::Linefeed, j + 1))
        } else if is_identifier_at(s, j) {
            let b = first_from(s, j + 3, StopAt::NonSpace);
            let e = first_from(s, b, StopAt::WordEnd);
            Some((Lexeme::Identifier(s.subrange(b, e)), e))
        } else if c == '-' || c == '*' {
            Some((Lexeme::ListItemMarker(depth_of(k)), j + 1))
        } else if c == '"' {
            let e = first_from(s, j + 1, StopAt::LineEnd);
            let q = last_quote(s, j + 1, e);
            if q >= j + 1 {
                Some((Lexeme::Path(s.subrange(j + 1, q)), q + 1))
            } else {
                Some((Lexeme::Invalid, s.len() as int))
            }
        } else {
            let e = first_from(s, j, StopAt::LineEnd);
            Some((Lexeme::Text(s.subrange(j, e)), after_line(s, e)))
        }
    }
}

/// Every token takes at least one character and no more than are left.
pub proof fn lemma_lex_step(s: Seq<char>)
    ensures
        lex_step(s) matches Some((_, n)) ==> 0 < n <= s.len(),
{
    lemma_trivia(s, 0);
    let j = trivia(s, 0).1;
    if j < s.len() {
        lemma_first_from(s, j + 1, StopAt::LineEnd);
        lemma_last_quote(s, j + 1, first_from(s, j + 1, StopAt::LineEnd));
        lemma_first_from(s, j, StopAt::LineEnd);
        if j + 3 <= s.len() {
            lemma_first_from(s, j + 3, StopAt::NonSpace);
            let b = first_from(s, j + 3, StopAt::NonSpace);
            lemma_first_from(s, b, StopAt::WordEnd);
        }
    }
}

/// The tokens of `s`, in order.
pub open spec fn lex_all(s: Seq<char>) -> Seq<Lexeme>
    decreases s.len(),
{
    match lex_step(s) {
        None => Seq::empty(),
        Some((t, n)) => if 0 < n <= s.len() {
            seq![t] + lex_all(s.skip(n))
        } else {
            seq![t]
        },
    }
}

/// Lexing depends on the text alone: two lexers over the same text yield
/// the same next token and the same tokens in all.
pub proof fn lemma_lexing_is_deterministic(a: Lexer, b: Lexer)
    requires
        a@ == b@,
    ensures
        lex_step(a@) == lex_step(b@),
        lex_all(a@) == lex_all(b@),
{
}

/// Relies on `String::push`: appends one character.
#[verifier::external_body]
fn push_char(s: &mut String, c: char)
    ensures
        final(s)@ == old(s)@.push(c),
{
    s.push(c)
}

/// The characters of `s`, in order.
pub fn chars_of(s: &str) -> (r: Vec<char>)
    ensures
        r@ == s@,
{
    let mut chars: Vec<char> = Vec::new();
    let mut it = s.chars();
    proof {
        broadcast use vstd::string::axiom_spec_iter;
    }
    loop
        invariant
            chars@ + it.remaining() == s@,
            it.decrease() is Some,
        ensures
            chars@ == s@,
        decreases it.decrease()->0,
    {
        let ghost before = it.remaining();
        match it.next() {
            None => {
                proof {
                    broadcast use vstd::string::next_postcondition;
                    assert(chars@ =~= s@);
                }
                break;
            },
            Some(c) => {
                proof {
                    broadcast use vstd::string::next_postcondition;
                    assert(before =~= seq![c] + it.remaining());
                }
                chars.push(c);
                proof {
                    assert(chars@ + it.remaining() =~= s@);
                }
            },
        }
    }
    chars
}

/// Pulls tokens one at a time from a source text.
pub struct Lexer {
    chars: PeekN<char>,
}

impl View for Lexer {
    type V = Seq<char>;

    /// The text still to be tokenized.
    closed spec fn view(&self) -> Seq<char> {
        self.chars@
    }
}

impl Lexer {
    /// A lexer at the start of `source`.
    pub fn new(source: &str) -> (r: Lexer)
        ensures
            r@ == source@,
    {
        Lexer { chars: PeekN::new(chars_of(source)) }
    }

    fn char_at(&self, i: usize) -> (r: char)
        requires
            i < self@.len(),
        ensures
            r == self@[i as int],
    {
        *self.chars.peek_nth(i).unwrap()
    }

    fn find_from(&self, from: usize, kind: StopAt) -> (r: usize)
        requires
            from <= self@.len(),
        ensures
            r == first_from(self@, from as int, kind),
    {
        let len = self.chars.len();
        let mut j = from;
        while j < len && !Self::stops_at(kind, self.char_at(j))
            invariant
                from <= j <= len,
                len == self@.len(),
                first_from(self@, from as int, kind) == first_from(self@, j as int, kind),
            decreases len - j,
        {
            j = j + 1;
        }
        j
    }

    pub(crate) fn stops_at(kind: StopAt, c: char) -> (r: bool)
        ensures
            r == stops(kind, c),
    {
        let space = is_whitespace(c);
        match kind {
            StopAt::NonBlank => !(space && c != '\n'),
            StopAt::LineEnd => c == '\n',
            StopAt::WordEnd => space,
            StopAt::NonSpace => !space,
        }
    }

    /// The characters from `a` to `b`, as a string.
    fn slice(&self, a: usize, b: usize) -> (r: String)
        requires
            a <= b <= self@.len(),
        ensures
            r@ == self@.subrange(a as int, b as int),
    {
        let mut r = String::new();
        let mut i = a;
        while i < b
            invariant
                a <= i <= b,
                b <= self@.len(),
                r@ == self@.subrange(a as int, i as int),
            decreases b - i,
        {
            push_char(&mut r, self.char_at(i));
            proof {
                assert(r@ =~= self@.subrange(a as int, i + 1));
            }
            i = i + 1;
        }
        r
    }

    /// Skips whitespace and comments; see [`trivia`].
    fn skip_trivia(&self) -> (r: (usize, usize))
        ensures
            r.0 as int == trivia(self@, 0).0,
            r.1 as int == trivia(self@, 0).1,
    {
        let len = self.chars.len();
        let mut at: usize = 0;
        loop
            invariant
                at <= len,
                len == self@.len(),
                trivia(self@, 0) == trivia(self@, at as int),
            decreases len - at,
        {
            let b = self.find_from(at, StopAt::NonBlank);
            proof {
                lemma_first_from(self@, at as int, StopAt::NonBlank);
            }
            if b < len && self.char_at(b) == ';' {
                let e = self.find_from(b, StopAt::LineEnd);
                proof {
                    lemma_first_from(self@, b as int, StopAt::LineEnd);
                }
                at = if e < len {
                    e + 1
                } else {
                    e
                };
            } else {
                return (b - at, b);
            }
        }
    }

    /// The next token, or `None` once only whitespace and comments are left;
    /// see [`lex_step`].
    pub fn next(&mut self) -> (r: Option<Token>)
        ensures
            match lex_step(old(self)@) {
                None => r is None && old(self)@.len() == 0,
                Some((t, n)) => r matches Some(tok) && tok.deep_view() == t && final(self)@
                    == old(self)@.skip(n),
            },
    {
        let ghost s = self@;
        let len = self.chars.len();
        let (k, j) = self.skip_trivia();
        proof {
            lemma_trivia(s, 0);
            lemma_lex_step(s);
        }
        if len == 0 {
            return None;
        }
        if j >= len {
            self.chars.advance(len);
            let empty = String::new();
            proof {
                assert(empty@ =~= Seq::<char>::empty());
            }
            return Some(Token::Text(empty));
        }
        let c = self.char_at(j);
        let (tok, n) = if c == '[' {
            (Token::SquareBracketOpen, j + 1)
        } else if c == ']' {
            (Token::SquareBracketClose, j + 1)
        } else if c == '\n' {
            (Token::Linefeed, j + 1)
        } else if self.identifier_at(j) {
            let b = self.find_from(j + 3, StopAt::NonSpace);
            proof {
                lemma_first_from(s, j + 3, StopAt::NonSpace);
            }
            let e = self.find_from(b, StopAt::WordEnd);
            proof {
                lemma_first_from(s, b as int, StopAt::WordEnd);
            }
            (Token::Identifier(self.slice(b, e)), e)
        } else if c == '-' || c == '*' {
            let depth: u8 = if k > 255 {
                255
            } else {
                k as u8
            };
            (Token::ListItemMarker(depth), j + 1)
        } else if c == '"' {
            let e = self.find_from(j + 1, StopAt::LineEnd);
            proof {
                lemma_first_from(s, j + 1, StopAt::LineEnd);
            }
            match self.last_quote_before(j + 1, e) {
                Some(q) => (Token::Path(self.slice(j + 1, q)), q + 1),
                None => (Token::Invalid, len),
            }
        } else {
            let e = self.find_from(j, StopAt::LineEnd);
            proof {
                lemma_first_from(s, j as int, StopAt::LineEnd);
            }
            let n = if e < len && self.char_at(e) == '\n' {
                e + 1
            } else {
                e
            };
            (Token::Text(self.slice(j, e)), n)
        };
        self.chars.advance(n);
        Some(tok)
    }

    /// The last `"` from `lo` up to `hi`; see [`last_quote`].
    fn last_quote_before(&self, lo: usize, hi: usize) -> (r: Option<usize>)
        requires
            lo <= hi <= self@.len(),
        ensures
            r matches Some(q) ==> q as int == last_quote(self@, lo as int, hi as int) && q >= lo,
            r is None ==> last_quote(self@, lo as int, hi as int) < lo,
    {
        let mut h = hi;
        while h > lo
            invariant
                lo <= h <= hi,
                hi <= self@.len(),
                last_quote(self@, lo as int, hi as int) == last_quote(self@, lo as int, h as int),
            decreases h - lo,
        {
            if self.char_at(h - 1) == '"' {
                return Some(h - 1);
            }
            h = h - 1;
        }
        None
    }

    fn identifier_at(&self, j: usize) -> (r: bool)
        requires
            j < self@.len(),
        ensures
            r == is_identifier_at(self@, j as int),
    {
        let len = self.chars.len();
        if len - j < 3 {
            return false;
        }
        if !(self.char_at(j) == '-' && self.char_at(j + 1) == '-' && self.char_at(j + 2) == '-') {
            return false;
        }
        let b = self.find_from(j + 3, StopAt::NonSpace);
        if b >= len {
            return false;
        }
        !is_numeric(self.char_at(b))
    }
}

/// All the tokens of `source`, in order.
pub fn tokenize(source: &str) -> (r: Vec<Token>)
    ensures
        r.deep_view() == lex_all(source@),
{
    let mut lexer = Lexer::new(source);
    let mut tokens: Vec<Token> = Vec::new();
    loop
        invariant
            lex_all(source@) == tokens.deep_view() + lex_all(lexer@),
        decreases lexer@.len(),
    {
        let ghost s = lexer@;
        proof {
            lemma_lex_step(s);
        }
        match lexer.next() {
            None => {
                proof {
                    assert(tokens.deep_view() + Seq::<Lexeme>::empty() =~= tokens.deep_view());
                }
                return tokens;
            },
            Some(tok) => {
                let ghost before = tokens.deep_view();
                tokens.push(tok);
                proof {
                    assert(tokens.deep_view() =~= before.push(tok.deep_view()));
                    assert(before + (seq![tok.deep_view()] + lex_all(lexer@)) =~= tokens.deep_view()
                        + lex_all(lexer@));
                }
            },
        }
    }
}

} // verus!

verus! {

/// A slide kind label that lexes as one identifier: a word without
/// whitespace that does not start with a digit.
pub open spec fn is_kind_word(k: Seq<char>) -> bool {
    &&& k.len() > 0
    &&& !numeric_of(k[0])
    &&& forall|i: int| 0 <= i < k.len() ==> !is_space(#[trigger] k[i])
}

/// A line of plain prose: no newline, and a first character that starts no
/// other token (whitespace, `;`, `[`, `]`, `-`, `*`, `"`).
pub open spec fn is_plain_line(l: Seq<char>) -> bool {
    &&& l.len() > 0
    &&& forall|i: int| 0 <= i < l.len() ==> #[trigger] l[i] != '\n'
    &&& !is_blank(l[0])
    &&& l[0] != ';' && l[0] != '[' && l[0] != ']' && l[0] != '-' && l[0] != '*' && l[0] != '"'
}

/// The lines, each ended by a newline.
pub open spec fn lines_text(lines: Seq<Seq<char>>) -> Seq<char>
    decreases lines.len(),
{
    if lines.len() == 0 {
        Seq::empty()
    } else {
        lines[0] + "\n"@ + lines_text(lines.drop_first())
    }
}

/// A slide marker line for `kind` followed by `lines`.
pub open spec fn plain_source(kind: Seq<char>, lines: Seq<Seq<char>>) -> Seq<char> {
    "---"@ + kind + "\n"@ + lines_text(lines)
}

/// Each line as a text token.
pub open spec fn text_lexemes(lines: Seq<Seq<char>>) -> Seq<Lexeme> {
    lines.map_values(|l: Seq<char>| Lexeme::Text(l))
}

proof fn lemma_first_from_run(s: Seq<char>, i: int, j: int, kind: StopAt)
    requires
        0 <= i <= j <= s.len(),
        forall|m: int| i <= m < j ==> !stops(kind, #[trigger] s[m]),
        j < s.len() ==> stops(kind, s[j]),
    ensures
        first_from(s, i, kind) == j,
    decreases j - i,
{
    if i < j {
        lemma_first_from_run(s, i + 1, j, kind);
    }
}

proof fn lemma_lex_lines(lines: Seq<Seq<char>>)
    requires
        forall|i: int| 0 <= i < lines.len() ==> is_plain_line(#[trigger] lines[i]),
    ensures
        lex_all(lines_text(lines)) == text_lexemes(lines),
    decreases lines.len(),
{
    reveal_strlit("\n");
    let s = lines_text(lines);
    if lines.len() == 0 {
        assert(lex_step(s) is None);
        assert(text_lexemes(lines) =~= Seq::<Lexeme>::empty());
    } else {
        let l = lines[0];
        let rest = lines.drop_first();
        assert(is_plain_line(l));
        assert forall|i: int| 0 <= i < rest.len() implies is_plain_line(#[trigger] rest[i]) by {
            assert(rest[i] == lines[i + 1]);
        }
        lemma_lex_lines(rest);
        assert(s =~= l + "\n"@ + lines_text(rest));
        assert(s[0] == l[0]);
        assert(first_from(s, 0, StopAt::NonBlank) == 0);
        assert(trivia(s, 0) == (0int, 0int));
        assert forall|m: int| 0 <= m < l.len() implies !stops(StopAt::LineEnd, #[trigger] s[m]) by {
            assert(s[m] == l[m]);
        }
        assert(s[l.len() as int] == '\n');
        lemma_first_from_run(s, 0, l.len() as int, StopAt::LineEnd);
        assert(s.subrange(0, l.len() as int) =~= l);
        assert(lex_step(s) == Some((Lexeme::Text(l), l.len() + 1int)));
        assert(s.skip(l.len() + 1int) =~= lines_text(rest));
        assert(text_lexemes(lines) =~= seq![Lexeme::Text(l)] + text_lexemes(rest));
    }
}

/// The tokens of a plain source: the identifier, a linefeed, and one text
/// token per line.
pub proof fn lemma_lex_plain_source(kind: Seq<char>, lines: Seq<Seq<char>>)
    requires
        is_kind_word(kind),
        forall|i: int| 0 <= i < lines.len() ==> is_plain_line(#[trigger] lines[i]),
    ensures
        lex_all(plain_source(kind, lines)) == seq![Lexeme::Identifier(kind), Lexeme::Linefeed]
            + text_lexemes(lines),
{
    reveal_strlit("---");
    reveal_strlit("\n");
    let s = plain_source(kind, lines);
    let t = lines_text(lines);
    let k = kind.len() as int;
    assert(s =~= "---"@ + kind + "\n"@ + t);
    assert(s[0] == '-' && s[1] == '-' && s[2] == '-');
    assert(first_from(s, 0, StopAt::NonBlank) == 0);
    assert(trivia(s, 0) == (0int, 0int));
    assert(s[3] == kind[0]);
    assert(first_from(s, 3, StopAt::NonSpace) == 3);
    assert(is_identifier_at(s, 0));
    assert forall|m: int| 3 <= m < 3 + k implies !stops(StopAt::WordEnd, #[trigger] s[m]) by {
        assert(s[m] == kind[m - 3]);
    }
    assert(s[3 + k] == '\n');
    lemma_first_from_run(s, 3, 3 + k, StopAt::WordEnd);
    assert(s.subrange(3, 3 + k) =~= kind);
    assert(lex_step(s) == Some((Lexeme::Identifier(kind), 3 + k)));
    let s1 = s.skip(3 + k);
    assert(s1 =~= "\n"@ + t);
    assert(first_from(s1, 0, StopAt::NonBlank) == 0);
    assert(trivia(s1, 0) == (0int, 0int));
    assert(lex_step(s1) == Some((Lexeme::Linefeed, 1int)));
    assert(s1.skip(1) =~= t);
    lemma_lex_lines(lines);
    assert(lex_all(s1) == seq![Lexeme::Linefeed] + text_lexemes(lines));
    assert(lex_all(s) == seq![Lexeme::Identifier(kind)] + (seq![Lexeme::Linefeed] + text_lexemes(
        lines,
    )));
    assert(seq![Lexeme::Identifier(kind)] + (seq![Lexeme::Linefeed] + text_lexemes(lines))
        =~= seq![Lexeme::Identifier(kind), Lexeme::Linefeed] + text_lexemes(lines));
}

} // verus!

verus! {

/// No token of `ts` is an identifier with an empty name.
pub open spec fn names_not_empty(ts: Seq<Lexeme>) -> bool {
    forall|i: int| 0 <= i < ts.len() && (#[trigger] ts[i]) is Identifier ==> ts[i]->Identifier_0.len()
        > 0
}

/// The lexer never produces an identifier with an empty name.
pub proof fn lemma_identifiers_not_empty(s: Seq<char>)
    ensures
        names_not_empty(lex_all(s)),
    decreases s.len(),
{
    lemma_lex_step(s);
    lemma_trivia(s, 0);
    let j = trivia(s, 0).1;
    if j < s.len() && j + 3 <= s.len() {
        lemma_first_from(s, j + 3, StopAt::NonSpace);
        let b = first_from(s, j + 3, StopAt::NonSpace);
        if b < s.len() {
            lemma_first_from(s, b, StopAt::WordEnd);
            if is_identifier_at(s, j) {
                assert(!stops(StopAt::WordEnd, s[b]));
                assert(first_from(s, b, StopAt::WordEnd) == first_from(s, b + 1, StopAt::WordEnd));
                lemma_first_from(s, b + 1, StopAt::WordEnd);
            }
        }
    }
    if let Some((t, n)) = lex_step(s) {
        lemma_identifiers_not_empty(s.skip(n));
        let all = lex_all(s);
        let rest = lex_all(s.skip(n));
        assert(all == seq![t] + rest);
        assert forall|i: int| 0 <= i < all.len() && (#[trigger] all[i]) is Identifier implies all[
            i
        ]->Identifier_0.len() > 0 by {
            if i > 0 {
                assert(all[i] == rest[i - 1]);
            }
        }
    }
}

} // verus!
