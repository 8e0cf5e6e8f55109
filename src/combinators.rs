use vstd::prelude::*;

use crate::parse_error::{ParseError, ParseErrorModel};

verus! {

/// What a parser hands back: the offset after the consumed input and the
/// parsed value, or the error of the first mismatch.
pub type ParseResult<T> = Result<(usize, T), ParseError>;

/// The mathematical counterpart of a [`ParseResult`].
pub type Outcome<V> = Result<(usize, V), ParseErrorModel>;

/// The deep view of a parse result.
pub open spec fn outcome_of<O: DeepView>(r: &ParseResult<O>) -> Outcome<O::V> {
    match r {
        Ok((offset, value)) => Ok((*offset, value.deep_view())),
        Err(e) => Err(e.deep_view()),
    }
}

/// A successful outcome never moves backwards, and where it moves, it stays
/// within the input.
pub open spec fn within<V>(r: Outcome<V>, offset: usize, len: nat) -> bool {
    match r {
        Ok((next, _)) => offset <= next && (next == offset || next <= len),
        Err(_) => true,
    }
}

/// A successful outcome has consumed at least one item.
pub open spec fn moves_on<V>(r: Outcome<V>, offset: usize) -> bool {
    match r {
        Ok((next, _)) => offset < next,
        Err(_) => true,
    }
}

/// Wraps a successful parse.
pub fn p_ok<T>(offset: usize, result: T) -> (r: ParseResult<T>)
    ensures
        r == Ok::<(usize, T), ParseError>((offset, result)),
{
    Ok((offset, result))
}

/// An item of the input that can describe itself in an error message.
pub trait Describe {
    spec fn spec_describe(&self) -> Seq<char>;

    fn describe(&self) -> (r: String)
        ensures
            r@ == self.spec_describe(),
    ;
}

/// A pure transformation of a parser's output, used by [`Process`].
pub trait Mapper {
    type In: DeepView;

    type Out: DeepView;

    spec fn spec_apply(&self, input: <Self::In as DeepView>::V) -> <Self::Out as DeepView>::V;

    fn apply(&self, input: Self::In) -> (r: Self::Out)
        ensures
            r.deep_view() == self.spec_apply(input.deep_view()),
    ;
}

/// A parser over a slice of `T`: given the input and an offset into it, it
/// either succeeds with the offset after what it consumed and an output, or
/// fails with a [`ParseError`]. Parsing has no effect besides its result.
pub trait Parser<T>: Sized {
    type Output: DeepView;

    /// Whether the parser (and every parser inside it) can be run.
    spec fn wf(&self) -> bool;

    /// Whether every success consumes at least one item.
    spec fn consumes(&self) -> bool;

    /// What the parser gives on `input` at `offset`.
    spec fn outcome(&self, input: Seq<T>, offset: usize) -> Outcome<
        <Self::Output as DeepView>::V,
    >;

    proof fn lemma_outcome_bounds(&self, input: Seq<T>, offset: usize)
        requires
            self.wf(),
            input.len() <= usize::MAX,
        ensures
            within(self.outcome(input, offset), offset, input.len()),
            self.consumes() ==> moves_on(self.outcome(input, offset), offset),
    ;

    /// Runs the parser on `input` at `offset`.
    fn parse(&self, input: &[T], offset: usize) -> (r: ParseResult<Self::Output>)
        requires
            self.wf(),
        ensures
            outcome_of(&r) == self.outcome(input@, offset),
    ;

    /// Changes the output of the parser with `apply`.
    fn process<M: Mapper<In = Self::Output>>(self, apply: M) -> (r: Process<Self, M>)
        ensures
            r.parser == self,
            r.apply == apply,
    {
        Process { parser: self, apply }
    }

    /// Looks at the output of the parser without changing it.
    fn inspect<F: Fn(&Self::Output)>(self, inspector: F) -> (r: Inspect<Self, F>)
        ensures
            r.parser == self,
            r.inspector == inspector,
    {
        Inspect { parser: self, inspector }
    }

    /// Parses this, then `other` behind it; the output is the pair of both.
    fn and<P>(self, other: P) -> (r: And<Self, P>)
        ensures
            r.first == self,
            r.second == other,
    {
        And { first: self, second: other }
    }

    /// Requires `after` behind this parser's input; the output is this one's.
    fn suffix<P>(self, after: P) -> (r: Suffix<Self, P>)
        ensures
            r.parser == self,
            r.suffix == after,
    {
        Suffix { parser: self, suffix: after }
    }

    /// Requires `before` ahead of this parser's input; the output is this one's.
    fn prefix<P>(self, before: P) -> (r: Prefix<Self, P>)
        ensures
            r.parser == self,
            r.prefix == before,
    {
        Prefix { parser: self, prefix: before }
    }

    /// Ordered choice: this parser, or else `other` at the same offset.
    fn or<P>(self, other: P) -> (r: Or<Self, P>)
        ensures
            r.this == self,
            r.or_that == other,
    {
        Or { this: self, or_that: other }
    }

    /// Repeats this parser greedily, one or more times.
    fn many(self) -> (r: Many<Self>)
        ensures
            r.parser == self,
    {
        Many { parser: self }
    }

    /// Looks ahead: succeeds where this parser does, but consumes nothing.
    fn ahead(self) -> (r: Ahead<Self>)
        ensures
            r.parser == self,
    {
        Ahead { parser: self }
    }

    /// Makes this parser optional: where it fails, nothing is consumed and
    /// the output is `None`.
    fn optional(self) -> (r: Optional<Self>)
        ensures
            r.parser == self,
    {
        Optional { parser: self }
    }
}

/// Sequence of two parsers.
pub struct And<P, Q> {
    pub first: P,
    pub second: Q,
}

impl<T, P: Parser<T>, Q: Parser<T>> Parser<T> for And<P, Q> {
    type Output = (P::Output, Q::Output);

    open spec fn wf(&self) -> bool {
        self.first.wf() && self.second.wf()
    }

    open spec fn consumes(&self) -> bool {
        self.first.consumes() || self.second.consumes()
    }

    open spec fn outcome(&self, input: Seq<T>, offset: usize) -> Outcome<
        (<P::Output as DeepView>::V, <Q::Output as DeepView>::V),
    > {
        match self.first.outcome(input, offset) {
            Err(e) => Err(e),
            Ok((mid, a)) => match self.second.outcome(input, mid) {
                Err(e) => Err(e),
                Ok((next, b)) => Ok((next, (a, b))),
            },
        }
    }

    proof fn lemma_outcome_bounds(&self, input: Seq<T>, offset: usize) {
        self.first.lemma_outcome_bounds(input, offset);
        if let Ok((mid, _)) = self.first.outcome(input, offset) {
            self.second.lemma_outcome_bounds(input, mid);
        }
    }

    fn parse(&self, input: &[T], offset: usize) -> (r: ParseResult<Self::Output>) {
        proof {
            assert(input.len() == input@.len());
            self.first.lemma_outcome_bounds(input@, offset);
        }
        match self.first.parse(input, offset) {
            Err(e) => Err(e),
            Ok((mid, a)) => match self.second.parse(input, mid) {
                Err(e) => Err(e),
                Ok((next, b)) => p_ok(next, (a, b)),
            },
        }
    }
}

/// A parser followed by a suffix whose output is dropped.
pub struct Suffix<P, Q> {
    pub parser: P,
    pub suffix: Q,
}

impl<T, P: Parser<T>, Q: Parser<T>> Parser<T> for Suffix<P, Q> {
    type Output = P::Output;

    open spec fn wf(&self) -> bool {
        self.parser.wf() && self.suffix.wf()
    }

    open spec fn consumes(&self) -> bool {
        self.parser.consumes() || self.suffix.consumes()
    }

    open spec fn outcome(&self, input: Seq<T>, offset: usize) -> Outcome<
        <P::Output as DeepView>::V,
    > {
        match self.parser.outcome(input, offset) {
            Err(e) => Err(e),
            Ok((mid, a)) => match self.suffix.outcome(input, mid) {
                Err(e) => Err(e),
                Ok((next, _)) => Ok((next, a)),
            },
        }
    }

    proof fn lemma_outcome_bounds(&self, input: Seq<T>, offset: usize) {
        self.parser.lemma_outcome_bounds(input, offset);
        if let Ok((mid, _)) = self.parser.outcome(input, offset) {
            self.suffix.lemma_outcome_bounds(input, mid);
        }
    }

    fn parse(&self, input: &[T], offset: usize) -> (r: ParseResult<Self::Output>) {
        proof {
            assert(input.len() == input@.len());
            self.parser.lemma_outcome_bounds(input@, offset);
        }
        match self.parser.parse(input, offset) {
            Err(e) => Err(e),
            Ok((mid, out)) => match self.suffix.parse(input, mid) {
                Err(e) => Err(e),
                Ok((next, _)) => p_ok(next, out),
            },
        }
    }
}

/// A parser preceded by a prefix whose output is dropped.
pub struct Prefix<P, Q> {
    pub parser: P,
    pub prefix: Q,
}

impl<T, P: Parser<T>, Q: Parser<T>> Parser<T> for Prefix<P, Q> {
    type Output = P::Output;

    open spec fn wf(&self) -> bool {
        self.parser.wf() && self.prefix.wf()
    }

    open spec fn consumes(&self) -> bool {
        self.parser.consumes() || self.prefix.consumes()
    }

    open spec fn outcome(&self, input: Seq<T>, offset: usize) -> Outcome<
        <P::Output as DeepView>::V,
    > {
        match self.prefix.outcome(input, offset) {
            Err(e) => Err(e),
            Ok((mid, _)) => self.parser.outcome(input, mid),
        }
    }

    proof fn lemma_outcome_bounds(&self, input: Seq<T>, offset: usize) {
        self.prefix.lemma_outcome_bounds(input, offset);
        if let Ok((mid, _)) = self.prefix.outcome(input, offset) {
            self.parser.lemma_outcome_bounds(input, mid);
        }
    }

    fn parse(&self, input: &[T], offset: usize) -> (r: ParseResult<Self::Output>) {
        proof {
            assert(input.len() == input@.len());
            self.prefix.lemma_outcome_bounds(input@, offset);
        }
        match self.prefix.parse(input, offset) {
            Err(e) => Err(e),
            Ok((mid, _)) => self.parser.parse(input, mid),
        }
    }
}

/// Ordered choice between two parsers with the same output.
pub struct Or<P, Q> {
    pub this: P,
    pub or_that: Q,
}

impl<T, P: Parser<T>, Q: Parser<T, Output = P::Output>> Parser<T> for Or<P, Q> {
    type Output = P::Output;

    open spec fn wf(&self) -> bool {
        self.this.wf() && self.or_that.wf()
    }

    open spec fn consumes(&self) -> bool {
        self.this.consumes() && self.or_that.consumes()
    }

    open spec fn outcome(&self, input: Seq<T>, offset: usize) -> Outcome<
        <P::Output as DeepView>::V,
    > {
        match self.this.outcome(input, offset) {
            Ok(found) => Ok(found),
            Err(_) => self.or_that.outcome(input, offset),
        }
    }

    proof fn lemma_outcome_bounds(&self, input: Seq<T>, offset: usize) {
        self.this.lemma_outcome_bounds(input, offset);
        self.or_that.lemma_outcome_bounds(input, offset);
    }

    fn parse(&self, input: &[T], offset: usize) -> (r: ParseResult<Self::Output>) {
        match self.this.parse(input, offset) {
            Ok(found) => Ok(found),
            Err(_) => self.or_that.parse(input, offset),
        }
    }
}

/// A parser whose output is changed by a [`Mapper`].
pub struct Process<P, M> {
    pub parser: P,
    pub apply: M,
}

impl<T, P: Parser<T>, M: Mapper<In = P::Output>> Parser<T> for Process<P, M> {
    type Output = M::Out;

    open spec fn wf(&self) -> bool {
        self.parser.wf()
    }

    open spec fn consumes(&self) -> bool {
        self.parser.consumes()
    }

    open spec fn outcome(&self, input: Seq<T>, offset: usize) -> Outcome<
        <M::Out as DeepView>::V,
    > {
        match self.parser.outcome(input, offset) {
            Err(e) => Err(e),
            Ok((next, a)) => Ok((next, self.apply.spec_apply(a))),
        }
    }

    proof fn lemma_outcome_bounds(&self, input: Seq<T>, offset: usize) {
        self.parser.lemma_outcome_bounds(input, offset);
    }

    fn parse(&self, input: &[T], offset: usize) -> (r: ParseResult<Self::Output>) {
        match self.parser.parse(input, offset) {
            Err(e) => Err(e),
            Ok((next, out)) => p_ok(next, self.apply.apply(out)),
        }
    }
}

/// A parser whose output is handed to an observer, for diagnostics.
pub struct Inspect<P, F> {
    pub parser: P,
    pub inspector: F,
}

impl<T, P: Parser<T>, F: Fn(&P::Output)> Parser<T> for Inspect<P, F> {
    type Output = P::Output;

    open spec fn wf(&self) -> bool {
        &&& self.parser.wf()
        &&& forall|o: &P::Output| call_requires(self.inspector, (o,))
    }

    open spec fn consumes(&self) -> bool {
        self.parser.consumes()
    }

    open spec fn outcome(&self, input: Seq<T>, offset: usize) -> Outcome<
        <P::Output as DeepView>::V,
    > {
        self.parser.outcome(input, offset)
    }

    proof fn lemma_outcome_bounds(&self, input: Seq<T>, offset: usize) {
        self.parser.lemma_outcome_bounds(input, offset);
    }

    fn parse(&self, input: &[T], offset: usize) -> (r: ParseResult<Self::Output>) {
        let result = self.parser.parse(input, offset);
        if let Ok((_, out)) = &result {
            (self.inspector)(out);
        }
        result
    }
}

/// What `p` gives when repeated greedily from `offset`, one or more times.
/// A success that consumes nothing would repeat forever: it is kept once
/// and ends the repetition.
pub open spec fn many_outcome<T, P: Parser<T>>(p: P, input: Seq<T>, offset: usize) -> Outcome<
    Seq<<P::Output as DeepView>::V>,
>
    decreases input.len() - offset,
{
    match p.outcome(input, offset) {
        Err(e) => Err(e),
        Ok((next, v)) => if offset < next && next <= input.len() {
            match many_outcome(p, input, next) {
                Ok((end, rest)) => Ok((end, seq![v] + rest)),
                Err(_) => Ok((next, seq![v])),
            }
        } else {
            Ok((next, seq![v]))
        },
    }
}

/// The outcome of a repetition whose first items are `done`, resumed at `at`
/// with `rest` as the outcome of the remaining repetitions.
pub open spec fn resume<V>(done: Seq<V>, at: usize, rest: Outcome<Seq<V>>) -> Outcome<Seq<V>> {
    match rest {
        Ok((end, more)) => Ok((end, done + more)),
        Err(_) => Ok((at, done)),
    }
}

/// A repetition stays within the input, and moves on where its parser does.
pub proof fn lemma_many_bounds<T, P: Parser<T>>(p: P, input: Seq<T>, offset: usize)
    requires
        p.wf(),
        input.len() <= usize::MAX,
    ensures
        within(many_outcome(p, input, offset), offset, input.len()),
        p.consumes() ==> moves_on(many_outcome(p, input, offset), offset),
    decreases input.len() - offset,
{
    p.lemma_outcome_bounds(input, offset);
    if let Ok((next, _)) = p.outcome(input, offset) {
        if offset < next && next <= input.len() {
            lemma_many_bounds(p, input, next);
        }
    }
}

/// Greedy repetition, one or more times.
pub struct Many<P> {
    pub parser: P,
}

impl<T, P: Parser<T>> Parser<T> for Many<P> {
    type Output = Vec<P::Output>;

    open spec fn wf(&self) -> bool {
        self.parser.wf()
    }

    open spec fn consumes(&self) -> bool {
        self.parser.consumes()
    }

    open spec fn outcome(&self, input: Seq<T>, offset: usize) -> Outcome<
        Seq<<P::Output as DeepView>::V>,
    > {
        many_outcome(self.parser, input, offset)
    }

    proof fn lemma_outcome_bounds(&self, input: Seq<T>, offset: usize) {
        lemma_many_bounds(self.parser, input, offset);
    }

    fn parse(&self, input: &[T], offset: usize) -> (r: ParseResult<Self::Output>) {
        proof {
            assert(input.len() == input@.len());
            self.parser.lemma_outcome_bounds(input@, offset);
        }
        let (mut at, first) = match self.parser.parse(input, offset) {
            Err(e) => return Err(e),
            Ok(found) => found,
        };
        let mut items: Vec<P::Output> = Vec::new();
        items.push(first);
        proof {
            assert(items.deep_view() =~= seq![first.deep_view()]);
        }
        if at == offset {
            return p_ok(at, items);
        }
        loop
            invariant
                self.wf(),
                offset < at <= input@.len(),
                many_outcome(self.parser, input@, offset) == resume(
                    items.deep_view(),
                    at,
                    many_outcome(self.parser, input@, at),
                ),
            decreases input@.len() - at,
        {
            proof {
                assert(input.len() == input@.len());
                self.parser.lemma_outcome_bounds(input@, at);
            }
            match self.parser.parse(input, at) {
                Err(_) => {
                    proof {
                        assert(many_outcome(self.parser, input@, at) is Err);
                        assert(items.deep_view() + seq![] =~= items.deep_view());
                    }
                    return p_ok(at, items);
                },
                Ok((next, item)) => {
                    let ghost before = items.deep_view();
                    let ghost v = item.deep_view();
                    items.push(item);
                    proof {
                        assert(items.deep_view() =~= before.push(v));
                        assert(before + seq![v] =~= before.push(v));
                        assert(self.parser.outcome(input@, at) == Ok::<(usize, <P::Output as DeepView>::V), ParseErrorModel>((next, v)));
                        if let Ok((end, more)) = many_outcome(self.parser, input@, next) {
                            assert(before + (seq![v] + more) =~= before.push(v) + more);
                        }
                    }
                    if next == at {
                        return p_ok(at, items);
                    }
                    at = next;
                },
            }
        }
    }
}

/// A parser that may be absent.
pub struct Optional<P> {
    pub parser: P,
}

impl<T, P: Parser<T>> Parser<T> for Optional<P> {
    type Output = Option<P::Output>;

    open spec fn wf(&self) -> bool {
        self.parser.wf()
    }

    open spec fn consumes(&self) -> bool {
        false
    }

    open spec fn outcome(&self, input: Seq<T>, offset: usize) -> Outcome<
        Option<<P::Output as DeepView>::V>,
    > {
        match self.parser.outcome(input, offset) {
            Ok((next, v)) => Ok((next, Some(v))),
            Err(_) => Ok((offset, None)),
        }
    }

    proof fn lemma_outcome_bounds(&self, input: Seq<T>, offset: usize) {
        self.parser.lemma_outcome_bounds(input, offset);
    }

    fn parse(&self, input: &[T], offset: usize) -> (r: ParseResult<Self::Output>) {
        match self.parser.parse(input, offset) {
            Ok((next, v)) => p_ok(next, Some(v)),
            Err(_) => p_ok(offset, None),
        }
    }
}

/// A parser that looks ahead: it succeeds where its parser does, but
/// consumes nothing and drops the output.
pub struct Ahead<P> {
    pub parser: P,
}

impl<T, P: Parser<T>> Parser<T> for Ahead<P> {
    type Output = ();

    open spec fn wf(&self) -> bool {
        self.parser.wf()
    }

    open spec fn consumes(&self) -> bool {
        false
    }

    open spec fn outcome(&self, input: Seq<T>, offset: usize) -> Outcome<()> {
        match self.parser.outcome(input, offset) {
            Ok(_) => Ok((offset, ())),
            Err(e) => Err(e),
        }
    }

    proof fn lemma_outcome_bounds(&self, input: Seq<T>, offset: usize) {
    }

    fn parse(&self, input: &[T], offset: usize) -> (r: ParseResult<()>) {
        match self.parser.parse(input, offset) {
            Ok(_) => p_ok(offset, ()),
            Err(e) => Err(e),
        }
    }
}

/// The description of what stands at `offset`, "EOF" past the end.
pub open spec fn spec_found<T: Describe>(input: Seq<T>, offset: usize) -> Seq<char> {
    if offset < input.len() {
        input[offset as int].spec_describe()
    } else {
        "EOF"@
    }
}

/// Describes what stands at `offset` of `input`, "EOF" past the end.
pub fn found<T: Describe>(input: &[T], offset: usize) -> (r: String)
    ensures
        r@ == spec_found(input@, offset),
{
    if offset < input.len() {
        input[offset].describe()
    } else {
        String::from_str("EOF")
    }
}

/// What [`eof`] gives.
pub open spec fn eof_outcome<T: Describe>(input: Seq<T>, offset: usize) -> Outcome<()> {
    if offset >= input.len() {
        Ok((offset, ()))
    } else {
        Err(ParseErrorModel { expected: "EOF"@, actual: spec_found(input, offset) })
    }
}

/// Succeeds, consuming nothing, exactly at the end of the input.
pub fn eof<T: Describe>(input: &[T], offset: usize) -> (r: ParseResult<()>)
    ensures
        outcome_of(&r) == eof_outcome(input@, offset),
{
    if offset >= input.len() {
        p_ok(offset, ())
    } else {
        Err(ParseError::new("EOF", found(input, offset)))
    }
}

/// [`eof`] as a parser.
pub struct Eof;

impl<T: Describe> Parser<T> for Eof {
    type Output = ();

    open spec fn wf(&self) -> bool {
        true
    }

    open spec fn consumes(&self) -> bool {
        false
    }

    open spec fn outcome(&self, input: Seq<T>, offset: usize) -> Outcome<()> {
        eof_outcome(input, offset)
    }

    proof fn lemma_outcome_bounds(&self, input: Seq<T>, offset: usize) {
    }

    fn parse(&self, input: &[T], offset: usize) -> (r: ParseResult<()>) {
        eof(input, offset)
    }
}

} // verus!

verus! {

/// A repetition that succeeds has at least one item.
pub proof fn lemma_many_not_empty<T, P: Parser<T>>(p: P, input: Seq<T>, offset: usize)
    ensures
        many_outcome(p, input, offset) matches Ok((_, items)) ==> items.len() > 0,
{
    if let Ok((next, v)) = p.outcome(input, offset) {
        if offset < next && next <= input.len() {
            if let Ok((_, more)) = many_outcome(p, input, next) {
                assert((seq![v] + more).len() > 0);
            }
        }
    }
}

} // verus!
