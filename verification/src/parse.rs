//! The parsing engine: a cursor over the positioned tokens of the source
//! text, with lookahead, backtracking, a stack of rule-entry positions from
//! which the spans of syntax nodes are computed, and the generator of node
//! identities.
use crate::ast::N;
use crate::chars::Chars;
use crate::node_id::{id_at, lemma_ids_increase, IdGen};
use crate::span::{Extent, Span, S};
use vstd::prelude::*;

verus! {

/// `r` may be the outcome of comparing `a` with `b` by `==`.
pub open spec fn eq_gives<T: PartialEq>(a: T, b: T, r: bool) -> bool {
    call_ensures(<T as PartialEq>::eq, (&a, &b), r)
}

/// What a lookahead gate returns when the rule behind it ran and returned
/// `inner`.
pub open spec fn ran<T, E>(inner: Result<T, E>) -> Result<Option<T>, E> {
    match inner {
        Ok(t) => Ok(Some(t)),
        Err(e) => Err(e),
    }
}

/// What a lookahead gate returns when it stays shut.
pub open spec fn shut<T, E>() -> Result<Option<T>, E> {
    Ok(None)
}

/// The mathematical content of a [`ParseCtx`].
pub struct ParseState<T> {
    /// The source text.
    pub chars: Seq<char>,
    /// The tokens of the source text, in order.
    pub tokens: Seq<S<T>>,
    /// Index of the next unread token.
    pub cursor: nat,
    /// The cursor positions at which the enclosing rules were entered,
    /// outermost first.
    pub stack: Seq<usize>,
    /// How many node identities have been handed out.
    pub issued: nat,
}

impl<T> ParseState<T> {
    /// The cursor is within the tokens, and no enclosing rule was entered
    /// past the cursor.
    pub open spec fn wf(self) -> bool {
        &&& self.cursor <= self.tokens.len() <= usize::MAX
        &&& forall|i: int| 0 <= i < self.stack.len() ==> #[trigger] self.stack[i] <= self.cursor
    }

    /// No token is left to read.
    pub open spec fn eof(self) -> bool {
        self.cursor >= self.tokens.len()
    }

    /// The token under the cursor, if any.
    pub open spec fn current(self) -> Option<S<T>> {
        if self.cursor < self.tokens.len() {
            Some(self.tokens[self.cursor as int])
        } else {
            None
        }
    }

    /// `r` may be what a look at the token under the cursor returns: nothing
    /// at the end of the tokens, and a clone of the token otherwise.
    pub open spec fn shows(self, r: Option<S<T>>) -> bool where T: Clone {
        match self.current() {
            None => r is None,
            Some(t) => r matches Some(s) && t.cloned_to(s),
        }
    }

    /// `r` may be the outcome of testing the token under the cursor against
    /// `tok`: `false` at the end of the tokens, and the outcome of comparing
    /// the token with `tok` otherwise.
    pub open spec fn current_is(self, tok: T, r: bool) -> bool where T: PartialEq {
        match self.current() {
            None => !r,
            Some(t) => eq_gives(t.tok, tok, r),
        }
    }

    /// `r` may be the outcome of putting the token under the cursor to the
    /// predicate `cond`: `false` at the end of the tokens, and what `cond`
    /// returns for a clone of the token otherwise.
    pub open spec fn passes<C: Fn(&T) -> bool>(self, cond: C, r: bool) -> bool where T: Clone {
        match self.current() {
            None => !r,
            Some(t) => exists|c: T|
                cloned::<T>(t.tok, c) && #[trigger] call_ensures(cond, (&c,), r),
        }
    }

    /// The same parse with the cursor at `cursor`.
    pub open spec fn at(self, cursor: nat) -> ParseState<T> {
        ParseState { cursor, ..self }
    }

    /// The same parse with the cursor one token further on; at the end of
    /// the tokens, the same parse.
    pub open spec fn advanced(self) -> ParseState<T> {
        if self.eof() {
            self
        } else {
            self.at(self.cursor + 1)
        }
    }

    /// The same parse inside one more rule, entered at the cursor.
    pub open spec fn pushed(self) -> ParseState<T> {
        ParseState { stack: self.stack.push(self.cursor as usize), ..self }
    }

    /// The same parse with the innermost rule left.
    pub open spec fn popped(self) -> ParseState<T> {
        if self.stack.len() > 0 {
            ParseState { stack: self.stack.drop_last(), ..self }
        } else {
            self
        }
    }

    /// The same parse after one more node identity has been handed out.
    pub open spec fn allocated(self) -> ParseState<T> {
        ParseState { issued: self.issued + 1, ..self }
    }

    /// `self` is a later state of the parse `prev`: the text, the tokens and
    /// the enclosing rules are the same, the cursor has not moved back, and
    /// no node identity has been taken back.
    pub open spec fn follows(self, prev: ParseState<T>) -> bool {
        &&& self.wf()
        &&& self.chars == prev.chars
        &&& self.tokens == prev.tokens
        &&& self.stack == prev.stack
        &&& self.cursor >= prev.cursor
        &&& self.issued >= prev.issued
    }

    /// Where in the text the token at index `i` begins; for the index past
    /// the last token, where the last token ends.
    pub open spec fn offset(self, i: nat) -> nat {
        if i < self.tokens.len() {
            self.tokens[i as int].span@.start
        } else if self.tokens.len() > 0 {
            self.tokens.last().span@.end
        } else {
            0
        }
    }

    /// The part of the text that the tokens from index `from` up to the
    /// cursor cover: the merge of the spans of the first and the last of
    /// them.  When there is no such token, the empty range at the place in
    /// the text where the token at `from` begins.
    pub open spec fn covered(self, from: nat) -> Extent {
        if from < self.cursor {
            self.tokens[from as int].span@.merge(self.tokens[self.cursor - 1].span@)
        } else {
            Extent { start: self.offset(from), end: self.offset(from) }
        }
    }

    /// The part of the text that the innermost enclosing rule has consumed
    /// so far.
    pub open spec fn scope_extent(self) -> Extent
        recommends
            self.stack.len() > 0,
    {
        self.covered(self.stack.last() as nat)
    }
}

/// Nodes get greater identities the later they are built, whatever was
/// rolled back in between.  Let a node be built by a call of
/// [`Parse::parse_n`] that leaves the parse in the state `first`, let a
/// later call begin in the state `between` and build a node too, and let it
/// leave the parse in the state `second`.  Then the identity of the later
/// node, which is `id_at(second.issued - 1)`, is greater than that of the
/// earlier one, which is `id_at(first.issued - 1)`, as long as the count of
/// identities handed out fits in a machine word.
pub proof fn lemma_later_node_greater_id<T>(
    first: ParseState<T>,
    between: ParseState<T>,
    second: ParseState<T>,
)
    requires
        0 < first.issued <= between.issued < second.issued,
        second.issued - 1 <= usize::MAX,
    ensures
        id_at((first.issued - 1) as nat) < id_at((second.issued - 1) as nat),
        id_at((first.issued - 1) as nat) != id_at((second.issued - 1) as nat),
{
    lemma_ids_increase((first.issued - 1) as nat, (second.issued - 1) as nat);
}

/// The state of a parse: the text, its tokens, a cursor on the next unread
/// token, the stack of rule-entry positions, and the source of node
/// identities.
pub struct ParseCtx<T> {
    chars: Chars,
    tokens: Vec<S<T>>,
    id_gen: IdGen,
    call_stack: Vec<usize>,
    cursor: usize,
}

impl<T> View for ParseCtx<T> {
    type V = ParseState<T>;

    closed spec fn view(&self) -> ParseState<T> {
        ParseState {
            chars: self.chars@,
            tokens: self.tokens@,
            cursor: self.cursor as nat,
            stack: self.call_stack@,
            issued: self.id_gen@,
        }
    }
}

impl<T> ParseCtx<T> {
    #[verifier::type_invariant]
    spec fn inv(&self) -> bool {
        self@.wf()
    }

    /// A parse of `tokens`, the tokens of the text `chars`, with nothing read
    /// yet, outside any rule, and with a fresh source of node identities.
    pub fn new(chars: Chars, tokens: Vec<S<T>>) -> (ctx: Self)
        ensures
            ctx@ == (ParseState {
                chars: chars@,
                tokens: tokens@,
                cursor: 0,
                stack: Seq::<usize>::empty(),
                issued: 0,
            }),
    {
        Self::with_id_gen(chars, tokens, IdGen::new())
    }

    /// A parse of `tokens`, the tokens of the text `chars`, with nothing read
    /// yet and outside any rule, that draws its node identities from
    /// `id_gen`: the nodes of this parse continue the numbering of whatever
    /// `id_gen` has numbered before.
    pub fn with_id_gen(chars: Chars, tokens: Vec<S<T>>, id_gen: IdGen) -> (ctx: Self)
        ensures
            ctx@ == (ParseState {
                chars: chars@,
                tokens: tokens@,
                cursor: 0,
                stack: Seq::<usize>::empty(),
                issued: id_gen@,
            }),
    {
        // The number of tokens fits a machine word.
        let _ = tokens.len();
        ParseCtx { chars, tokens, id_gen, call_stack: Vec::new(), cursor: 0 }
    }

    /// Ends the parse and hands back its source of node identities, for the
    /// next parse to continue the numbering.
    pub fn into_id_gen(self) -> (id_gen: IdGen)
        ensures
            id_gen@ == self@.issued,
    {
        self.id_gen
    }

    /// Whether the cursor is at the end of the tokens.
    pub fn eof(&self) -> (r: bool)
        ensures
            r == self@.eof(),
            self@.wf(),
    {
        proof {
            use_type_invariant(self);
        }
        self.cursor == self.tokens.len()
    }

    /// Index of the next unread token.
    pub fn cursor(&self) -> (r: usize)
        ensures
            r == self@.cursor,
            self@.wf(),
    {
        proof {
            use_type_invariant(self);
        }
        self.cursor
    }

    /// The text that the tokens were read from.
    pub fn chars(&self) -> (r: &Chars)
        ensures
            r@ == self@.chars,
    {
        &self.chars
    }

    /// Whether the token under the cursor equals `tok`; `false` at the end of
    /// the tokens.  Nothing is consumed.
    pub fn at(&self, tok: &T) -> (r: bool) where T: PartialEq
        ensures
            self@.current_is(*tok, r),
            self@.wf(),
    {
        if self.eof() {
            false
        } else {
            self.tokens[self.cursor].tok == *tok
        }
    }

    /// Consumes the token under the cursor if it equals `tok`, and says
    /// whether it did.
    pub fn advance_at(&mut self, tok: &T) -> (r: bool) where T: PartialEq
        ensures
            old(self)@.current_is(*tok, r),
            final(self)@ == (if r { old(self)@.advanced() } else { old(self)@ }),
            final(self)@.follows(old(self)@),
    {
        if self.at(tok) {
            assert(self@.at(self@.cursor + 1).wf());
            self.cursor = self.cursor + 1;
            true
        } else {
            false
        }
    }

    /// The token under the cursor, without consuming it: a clone of it, or
    /// `None` at the end of the tokens.
    pub fn peek(&self) -> (r: Option<S<T>>) where T: Clone
        ensures
            self@.shows(r),
            self@.wf(),
    {
        if self.eof() {
            None
        } else {
            Some(self.tokens[self.cursor].clone())
        }
    }

    /// Consumes the token under the cursor and returns a clone of it.  At
    /// the end of the tokens nothing is consumed.
    pub fn advance(&mut self) -> (r: Option<S<T>>) where T: Clone
        ensures
            old(self)@.shows(r),
            final(self)@ == old(self)@.advanced(),
            final(self)@.follows(old(self)@),
    {
        if self.eof() {
            None
        } else {
            let c = self.tokens[self.cursor].clone();
            assert(self@.at(self@.cursor + 1).wf());
            self.cursor = self.cursor + 1;
            Some(c)
        }
    }

    /// Consumes the token under the cursor if `p` accepts a clone of it, and
    /// says whether it did.  At the end of the tokens `p` is not consulted.
    pub fn advance_if<P: Fn(T) -> bool>(&mut self, p: P) -> (r: bool) where T: Clone
        requires
            old(self)@.current() matches Some(t) ==> forall|c: T|
                cloned::<T>(t.tok, c) ==> call_requires(p, (c,)),
        ensures
            match old(self)@.current() {
                None => !r,
                Some(t) => exists|c: T|
                    cloned::<T>(t.tok, c) && #[trigger] call_ensures(p, (c,), r),
            },
            final(self)@ == (if r { old(self)@.advanced() } else { old(self)@ }),
            final(self)@.follows(old(self)@),
    {
        if let Some(c) = self.peek() {
            if p(c.tok) {
                assert(self@.at(self@.cursor + 1).wf());
                self.cursor = self.cursor + 1;
                return true;
            }
        }
        false
    }

    /// Consumes the token under the cursor if it equals `tok`, and says
    /// whether it did.
    pub fn advance_cmp(&mut self, tok: T) -> (r: bool) where T: PartialEq
        ensures
            old(self)@.current_is(tok, r),
            final(self)@ == (if r { old(self)@.advanced() } else { old(self)@ }),
            final(self)@.follows(old(self)@),
    {
        self.advance_at(&tok)
    }

    /// The span of the innermost enclosing rule so far: the merge of the
    /// spans of the first and the last token it has consumed.  `None`
    /// outside any rule, and when the rule has consumed nothing.
    pub fn span(&self) -> (r: Option<Span>)
        ensures
            self@.wf(),
            r is Some <==> self@.stack.len() > 0 && self@.stack.last() < self@.cursor,
            r matches Some(s) ==> s@ == self@.scope_extent(),
    {
        proof {
            use_type_invariant(self);
        }
        let depth: usize = self.call_stack.len();
        if depth == 0 {
            return None;
        }
        let start: usize = self.call_stack[depth - 1];
        assert(self@.stack[depth - 1] <= self@.cursor);
        if start == self.cursor {
            None
        } else {
            let first = self.tokens[start].span;
            let last = self.tokens[self.cursor - 1].span;
            Some(first.merge(last))
        }
    }

    /// The span that a node built now would get: the span of the innermost
    /// enclosing rule so far, which is empty, at the place in the text where
    /// the rule was entered, when the rule has consumed nothing.
    pub fn scope_span(&self) -> (s: Span)
        requires
            self@.stack.len() > 0,
        ensures
            self@.wf(),
            s@ == self@.scope_extent(),
    {
        proof {
            use_type_invariant(self);
        }
        let start: usize = self.call_stack[self.call_stack.len() - 1];
        let len: usize = self.tokens.len();
        if start < self.cursor {
            let first = self.tokens[start].span;
            let last = self.tokens[self.cursor - 1].span;
            first.merge(last)
        } else if start < len {
            let at: usize = self.tokens[start].span.start();
            Span::new(at, at)
        } else if len > 0 {
            let at: usize = self.tokens[len - 1].span.end();
            Span::new(at, at)
        } else {
            Span::new(0, 0)
        }
    }

    /// Wraps `data` into a syntax node: draws a fresh identity and gives the
    /// node the span of the innermost enclosing rule so far.
    pub fn make_node<A>(&mut self, data: A) -> (n: N<A>)
        requires
            old(self)@.stack.len() > 0,
        ensures
            n.data == data,
            n.span@ == old(self)@.scope_extent(),
            n.id@ == id_at(old(self)@.issued),
            final(self)@ == old(self)@.allocated(),
            final(self)@.follows(old(self)@),
    {
        let span = self.scope_span();
        let id = self.id_gen.next();
        N { id, span, data }
    }

    /// The text that the innermost enclosing rule has consumed so far.
    /// `None` outside any rule, when the rule has consumed nothing, and when
    /// the tokens it has consumed reach past the end of the text.
    pub fn get_string(&self) -> (r: Option<String>)
        ensures
            r is Some <==> self@.stack.len() > 0 && self@.stack.last() < self@.cursor
                && self@.scope_extent().end <= self@.chars.len(),
            r matches Some(s) ==> s@ == self@.chars.subrange(
                self@.scope_extent().start as int,
                self@.scope_extent().end as int,
            ),
    {
        match self.span() {
            None => None,
            Some(span) => self.chars.get_string(span),
        }
    }

    /// Enters a rule: records the cursor as the place where the rule begins.
    fn push_stack(&mut self)
        ensures
            final(self)@ == old(self)@.pushed(),
            final(self)@.wf(),
    {
        proof {
            use_type_invariant(&*self);
        }
        let ghost before = self@;
        // The stack is taken out while it changes, so that the context is
        // well-formed at every step.
        let mut stack: Vec<usize> = Vec::new();
        core::mem::swap(&mut self.call_stack, &mut stack);
        stack.push(self.cursor);
        assert(stack@ == before.pushed().stack);
        core::mem::swap(&mut self.call_stack, &mut stack);
    }

    /// Leaves the innermost rule, and returns where it began; `None` outside
    /// any rule.
    fn pop_stack(&mut self) -> (r: Option<usize>)
        ensures
            final(self)@ == old(self)@.popped(),
            final(self)@.wf(),
            r == (if old(self)@.stack.len() > 0 {
                Some(old(self)@.stack.last())
            } else {
                None
            }),
    {
        proof {
            use_type_invariant(&*self);
        }
        let ghost before = self@;
        let mut stack: Vec<usize> = Vec::new();
        core::mem::swap(&mut self.call_stack, &mut stack);
        let r = stack.pop();
        core::mem::swap(&mut self.call_stack, &mut stack);
        assert(self@.stack =~= before.popped().stack);
        r
    }

    /// Puts the cursor back to `cursor`, a position that it has been at
    /// since the innermost rule was entered.
    pub(crate) fn rewind(&mut self, cursor: usize)
        requires
            old(self)@.at(cursor as nat).wf(),
        ensures
            final(self)@ == old(self)@.at(cursor as nat),
    {
        self.cursor = cursor;
    }
}

/// A parser: the errors of a grammar, supplied by the user, on top of a parse
/// that this module drives.
///
/// The implementor supplies the parse (`ctx`, `ctx_mut`) and the two error
/// constructors; everything else is provided.  Grammar rules are ordinary
/// functions from `&mut Self` to a `Result`, composed with the operations
/// below.
pub trait Parse: Sized {
    type Error;

    type Token;

    /// The state of the parse that this parser holds.  A parser that is to
    /// be verified defines it as the view of the parse that `ctx` returns.
    open spec fn state(&self) -> ParseState<Self::Token> {
        arbitrary()
    }

    /// The parse that this parser holds.
    fn ctx(&self) -> (ctx: &ParseCtx<Self::Token>)
        ensures
            ctx@ == self.state(),
    ;

    /// The parse that this parser holds, for the engine to move.
    fn ctx_mut(&mut self) -> (ctx: &mut ParseCtx<Self::Token>)
        ensures
            ctx@ == old(self).state(),
            final(self).state() == final(ctx)@,
    ;

    /// The error for a token that was expected and not found: `found` is
    /// the token that stood in its place, or `None` at the end of the tokens.
    fn expect_err(&self, expected: Self::Token, found: Option<S<Self::Token>>) -> Self::Error;

    /// The error for a place where one of several tokens was expected and
    /// none of them found: `found` is the token that stood there, or `None`
    /// at the end of the tokens.
    fn expect_one_of_err(
        &self,
        expected: &[Self::Token],
        found: Option<S<Self::Token>>,
    ) -> Self::Error;

    /// Whether the cursor is at the end of the tokens.
    fn eof(&self) -> (r: bool)
        ensures
            r == self.state().eof(),
            self.state().wf(),
    {
        self.ctx().eof()
    }

    /// The token under the cursor, without consuming it.
    fn peek(&self) -> (r: Option<S<Self::Token>>) where Self::Token: Clone
        ensures
            self.state().shows(r),
            self.state().wf(),
    {
        self.ctx().peek()
    }

    /// Consumes and returns the token under the cursor.  At the end of the
    /// tokens nothing is consumed.
    fn advance(&mut self) -> (r: Option<S<Self::Token>>) where Self::Token: Clone
        ensures
            old(self).state().shows(r),
            final(self).state() == old(self).state().advanced(),
            final(self).state().follows(old(self).state()),
    {
        self.ctx_mut().advance()
    }

    /// Consumes the token under the cursor if it equals `tok`, and says
    /// whether it did.
    fn advance_cmp(&mut self, tok: Self::Token) -> (r: bool) where Self::Token: Clone + Eq
        ensures
            old(self).state().current_is(tok, r),
            final(self).state() == (if r {
                old(self).state().advanced()
            } else {
                old(self).state()
            }),
            final(self).state().follows(old(self).state()),
    {
        self.ctx_mut().advance_cmp(tok)
    }

    /// Index of the next unread token.
    fn cursor(&self) -> (r: usize)
        ensures
            r == self.state().cursor,
            self.state().wf(),
    {
        self.ctx().cursor()
    }

    /// The text that the tokens were read from.
    fn chars(&self) -> (r: &Chars)
        ensures
            r@ == self.state().chars,
    {
        self.ctx().chars()
    }

    /// The span of the innermost enclosing rule so far: the merge of the
    /// spans of the first and the last token it has consumed.  `None`
    /// outside any rule, and when the rule has consumed nothing.
    fn span(&self) -> (r: Option<Span>)
        ensures
            self.state().wf(),
            r is Some <==> self.state().stack.len() > 0 && self.state().stack.last()
                < self.state().cursor,
            r matches Some(s) ==> s@ == self.state().scope_extent(),
    {
        self.ctx().span()
    }

    /// Wraps `data` into a syntax node: draws a fresh identity and gives the
    /// node the span of the innermost enclosing rule so far, which is empty
    /// when the rule has consumed nothing.
    fn make_node<A>(&mut self, data: A) -> (n: N<A>)
        requires
            old(self).state().stack.len() > 0,
        ensures
            n.data == data,
            n.span@ == old(self).state().scope_extent(),
            n.id@ == id_at(old(self).state().issued),
            final(self).state() == old(self).state().allocated(),
            final(self).state().follows(old(self).state()),
    {
        self.ctx_mut().make_node(data)
    }

    /// The text that the innermost enclosing rule has consumed so far.
    /// `None` outside any rule, when the rule has consumed nothing, and when
    /// the tokens it has consumed reach past the end of the text.
    fn get_string(&self) -> (r: Option<String>)
        ensures
            r is Some <==> self.state().stack.len() > 0 && self.state().stack.last()
                < self.state().cursor && self.state().scope_extent().end
                <= self.state().chars.len(),
            r matches Some(s) ==> s@ == self.state().chars.subrange(
                self.state().scope_extent().start as int,
                self.state().scope_extent().end as int,
            ),
    {
        self.ctx().get_string()
    }

    /// Checks that the token under the cursor equals `expected`, without
    /// consuming it, and returns the token.  Otherwise the error is the one
    /// that `expect_err` makes of `expected` and of what was found: the
    /// token under the cursor, or `None` at the end of the tokens.
    fn sat(&self, expected: Self::Token) -> (r: Result<S<Self::Token>, Self::Error>) where
        Self::Token: Eq + Clone,

        ensures
            self.state().wf(),
            r matches Ok(s) ==> self.state().shows(Some(s)) && eq_gives(s.tok, expected, true),
            r matches Err(e) ==> exists|found: Option<S<Self::Token>>|
                {
                    &&& #[trigger] self.state().shows(found)
                    &&& found matches Some(d) ==> eq_gives(d.tok, expected, false)
                    &&& call_ensures(Self::expect_err, (self, expected, found), e)
                },
    {
        let d = match self.peek() {
            Some(d) => d,
            None => {
                return Err(self.expect_err(expected, None));
            },
        };
        if d.tok == expected {
            Ok(d)
        } else {
            Err(self.expect_err(expected, Some(d)))
        }
    }

    /// Like [`Parse::sat`], and consumes the token when it is the expected
    /// one.  On an error nothing is consumed.
    fn expect(&mut self, expected: Self::Token) -> (r: Result<S<Self::Token>, Self::Error>) where
        Self::Token: Eq + Clone,

        ensures
            r matches Ok(s) ==> {
                &&& old(self).state().shows(Some(s))
                &&& eq_gives(s.tok, expected, true)
                &&& final(self).state() == old(self).state().advanced()
            },
            r matches Err(e) ==> *final(self) == *old(self),
            r matches Err(e) ==> exists|found: Option<S<Self::Token>>|
                {
                    &&& #[trigger] old(self).state().shows(found)
                    &&& found matches Some(d) ==> eq_gives(d.tok, expected, false)
                    &&& call_ensures(Self::expect_err, (&*old(self), expected, found), e)
                },
            final(self).state().follows(old(self).state()),
    {
        match self.sat(expected) {
            Ok(ret) => {
                self.advance();
                Ok(ret)
            },
            Err(e) => Err(e),
        }
    }

    /// Checks that the token under the cursor equals one of `expected`,
    /// without consuming it, and returns the token.  Otherwise the error is
    /// the one that `expect_one_of_err` makes of `expected` and of what was
    /// found: the token under the cursor, or `None` at the end of the tokens.
    fn sat_one_of(&self, expected: &[Self::Token]) -> (r: Result<
        S<Self::Token>,
        Self::Error,
    >) where Self::Token: Eq + Clone
        ensures
            self.state().wf(),
            r matches Ok(s) ==> {
                &&& self.state().shows(Some(s))
                &&& exists|i: int|
                    0 <= i < expected@.len() && eq_gives(#[trigger] expected@[i], s.tok, true)
            },
            r matches Err(e) ==> exists|found: Option<S<Self::Token>>|
                {
                    &&& #[trigger] self.state().shows(found)
                    &&& found matches Some(d) ==> forall|i: int|
                        0 <= i < expected@.len() ==> eq_gives(#[trigger] expected@[i], d.tok, false)
                    &&& call_ensures(Self::expect_one_of_err, (self, expected, found), e)
                },
    {
        let d = match self.peek() {
            Some(d) => d,
            None => {
                return Err(self.expect_one_of_err(expected, None));
            },
        };
        let n: usize = expected.len();
        let mut i: usize = 0;
        while i < n
            invariant
                n == expected@.len(),
                i <= n,
                self.state().wf(),
                self.state().shows(Some(d)),
                forall|j: int| 0 <= j < i ==> eq_gives(#[trigger] expected@[j], d.tok, false),
            decreases n - i,
        {
            if expected[i] == d.tok {
                return Ok(d);
            }
            i = i + 1;
        }
        Err(self.expect_one_of_err(expected, Some(d)))
    }

    /// Like [`Parse::sat_one_of`], and consumes the token when it is one of
    /// the expected ones.  On an error nothing is consumed.
    fn expect_one_of(&mut self, expected: &[Self::Token]) -> (r: Result<
        S<Self::Token>,
        Self::Error,
    >) where Self::Token: Eq + Clone
        ensures
            r matches Ok(s) ==> {
                &&& old(self).state().shows(Some(s))
                &&& exists|i: int|
                    0 <= i < expected@.len() && eq_gives(#[trigger] expected@[i], s.tok, true)
                &&& final(self).state() == old(self).state().advanced()
            },
            r matches Err(e) ==> *final(self) == *old(self),
            r matches Err(e) ==> exists|found: Option<S<Self::Token>>|
                {
                    &&& #[trigger] old(self).state().shows(found)
                    &&& found matches Some(d) ==> forall|i: int|
                        0 <= i < expected@.len() ==> eq_gives(#[trigger] expected@[i], d.tok, false)
                    &&& call_ensures(Self::expect_one_of_err, (&*old(self), expected, found), e)
                },
            final(self).state().follows(old(self).state()),
    {
        match self.sat_one_of(expected) {
            Ok(ret) => {
                self.advance();
                Ok(ret)
            },
            Err(e) => Err(e),
        }
    }

    /// Runs the rule `f` and undoes what it consumed if it fails: after an
    /// error the cursor is where it was before the call.
    fn parse_roll_back<T, F: Fn(&mut Self) -> Result<T, Self::Error>>(&mut self, f: F) -> (r:
        Result<T, Self::Error>)
        requires
            forall|q: &mut Self| *q == *old(self) ==> call_requires(f, (q,)),
            forall|q: &mut Self, res: Result<T, Self::Error>|
                *q == *old(self) && call_ensures(f, (q,), res) ==> final(q).state().follows(
                    q.state(),
                ),
        ensures
            exists|q: &mut Self|
                {
                    &&& *q == *old(self)
                    &&& #[trigger] call_ensures(f, (q,), r)
                    &&& final(self).state() == (if r is Ok {
                        final(q).state()
                    } else {
                        final(q).state().at(old(self).state().cursor)
                    })
                },
            final(self).state().follows(old(self).state()),
            r is Err ==> final(self).state().cursor == old(self).state().cursor,
    {
        let cursor: usize = self.cursor();
        match f(self) {
            Ok(d) => Ok(d),
            Err(e) => {
                self.ctx_mut().rewind(cursor);
                Err(e)
            },
        }
    }

    /// Runs the rule `f` and undoes what it consumed unless it returns
    /// `Ok(Some(_))`: after `Ok(None)` and after an error the cursor is
    /// where it was before the call.
    fn parse_roll_back_opt<T, F: Fn(&mut Self) -> Result<Option<T>, Self::Error>>(
        &mut self,
        f: F,
    ) -> (r: Result<Option<T>, Self::Error>)
        requires
            forall|q: &mut Self| *q == *old(self) ==> call_requires(f, (q,)),
            forall|q: &mut Self, res: Result<Option<T>, Self::Error>|
                *q == *old(self) && call_ensures(f, (q,), res) ==> final(q).state().follows(
                    q.state(),
                ),
        ensures
            exists|q: &mut Self|
                {
                    &&& *q == *old(self)
                    &&& #[trigger] call_ensures(f, (q,), r)
                    &&& final(self).state() == (if r matches Ok(Some(_)) {
                        final(q).state()
                    } else {
                        final(q).state().at(old(self).state().cursor)
                    })
                },
            final(self).state().follows(old(self).state()),
            !(r matches Ok(Some(_))) ==> final(self).state().cursor == old(self).state().cursor,
    {
        let cursor: usize = self.cursor();
        match f(self) {
            Ok(Some(d)) => Ok(Some(d)),
            d => {
                self.ctx_mut().rewind(cursor);
                d
            },
        }
    }

    /// Runs the rule `f` as a rule of its own: inside `f` the spans and
    /// texts asked for are those of what `f` has consumed.  What `f`
    /// consumed is undone if it fails: after an error the cursor is where it
    /// was before the call.
    fn parse<T, F: Fn(&mut Self) -> Result<T, Self::Error>>(&mut self, f: F) -> (r: Result<
        T,
        Self::Error,
    >)
        requires
            forall|q: &mut Self|
                q.state() == old(self).state().pushed() ==> call_requires(f, (q,)),
            forall|q: &mut Self, res: Result<T, Self::Error>|
                q.state() == old(self).state().pushed() && call_ensures(f, (q,), res)
                    ==> final(q).state().follows(q.state()),
        ensures
            exists|q: &mut Self|
                {
                    &&& q.state() == old(self).state().pushed()
                    &&& #[trigger] call_ensures(f, (q,), r)
                    &&& final(self).state() == (if r is Ok {
                        final(q).state().popped()
                    } else {
                        final(q).state().popped().at(old(self).state().cursor)
                    })
                },
            final(self).state().follows(old(self).state()),
            r is Err ==> final(self).state().cursor == old(self).state().cursor,
    {
        let cursor: usize = self.cursor();
        self.ctx_mut().push_stack();
        let ret = f(self);
        self.ctx_mut().pop_stack();
        assert(self.state().stack =~= old(self).state().stack);
        match ret {
            Ok(d) => Ok(d),
            Err(e) => {
                self.ctx_mut().rewind(cursor);
                Err(e)
            },
        }
    }

    /// Runs the rule `f` as [`Parse::parse`] does and wraps what it returns
    /// into a syntax node.  The node gets a fresh identity, drawn after `f`
    /// has run, and the span of the tokens that `f` consumed: the merge of
    /// the spans of the first and the last of them, or, when `f` consumed
    /// nothing, the empty span at the place in the text where the cursor
    /// stood.  Identities drawn by `f` stay drawn when `f` fails.
    fn parse_n<T, F: Fn(&mut Self) -> Result<T, Self::Error>>(&mut self, f: F) -> (r: Result<
        N<T>,
        Self::Error,
    >)
        requires
            forall|q: &mut Self|
                q.state() == old(self).state().pushed() ==> call_requires(f, (q,)),
            forall|q: &mut Self, res: Result<T, Self::Error>|
                q.state() == old(self).state().pushed() && call_ensures(f, (q,), res)
                    ==> final(q).state().follows(q.state()),
        ensures
            exists|q: &mut Self, inner: Result<T, Self::Error>|
                {
                    &&& q.state() == old(self).state().pushed()
                    &&& #[trigger] call_ensures(f, (q,), inner)
                    &&& match inner {
                        Ok(d) => {
                            &&& r matches Ok(n)
                            &&& n.data == d
                            &&& n.span@ == final(q).state().scope_extent()
                            &&& n.id@ == id_at(final(q).state().issued)
                            &&& final(self).state() == final(q).state().allocated().popped()
                        },
                        Err(e) => {
                            &&& r matches Err(e2)
                            &&& e2 == e
                            &&& final(self).state() == final(q).state().popped().at(
                                old(self).state().cursor,
                            )
                        },
                    }
                },
            final(self).state().follows(old(self).state()),
            r is Err ==> final(self).state().cursor == old(self).state().cursor,
            r matches Ok(n) ==> {
                &&& n.span@ == final(self).state().covered(old(self).state().cursor)
                &&& old(self).state().issued < final(self).state().issued
                &&& n.id@ == id_at((final(self).state().issued - 1) as nat)
            },
    {
        let cursor: usize = self.cursor();
        self.ctx_mut().push_stack();
        let ret = match f(self) {
            Ok(d) => Ok(self.ctx_mut().make_node(d)),
            Err(e) => Err(e),
        };
        self.ctx_mut().pop_stack();
        assert(self.state().stack =~= old(self).state().stack);
        match ret {
            Ok(n) => Ok(n),
            Err(e) => {
                self.ctx_mut().rewind(cursor);
                Err(e)
            },
        }
    }

    /// A lookahead gate on a predicate.  At the end of the tokens, and when
    /// `cond` rejects the token under the cursor, returns `Ok(None)` and
    /// consumes nothing; `f` is not run.  When `cond` accepts the token, runs
    /// the rule `f`, which is left to consume the token itself, and returns
    /// what it returns; nothing is undone if `f` fails.
    fn parse_l1_if<T, C: Fn(&Self::Token) -> bool, F: Fn(&mut Self) -> Result<T, Self::Error>>(
        &mut self,
        cond: C,
        f: F,
    ) -> (r: Result<Option<T>, Self::Error>) where Self::Token: Clone
        requires
            old(self).state().current() matches Some(t) ==> forall|c: Self::Token|
                cloned::<Self::Token>(t.tok, c) ==> call_requires(cond, (&c,)),
            forall|q: &mut Self| *q == *old(self) ==> call_requires(f, (q,)),
            forall|q: &mut Self, res: Result<T, Self::Error>|
                *q == *old(self) && call_ensures(f, (q,), res) ==> final(q).state().follows(
                    q.state(),
                ),
        ensures
            old(self).state().current() is None ==> r == shut::<T, Self::Error>() && *final(self)
                == *old(self),
            old(self).state().current() matches Some(t) ==> exists|c: Self::Token, open: bool|
                {
                    &&& cloned::<Self::Token>(t.tok, c)
                    &&& #[trigger] call_ensures(cond, (&c,), open)
                    &&& !open ==> r == shut::<T, Self::Error>() && *final(self) == *old(self)
                    &&& open ==> exists|q: &mut Self, inner: Result<T, Self::Error>|
                        {
                            &&& *q == *old(self)
                            &&& #[trigger] call_ensures(f, (q,), inner)
                            &&& r == ran(inner)
                            &&& *final(self) == *final(q)
                        }
                },
            final(self).state().follows(old(self).state()),
    {
        let current = match self.peek() {
            Some(d) => d.tok,
            None => {
                return Ok(None);
            },
        };
        if cond(&current) {
            match f(self) {
                Ok(t) => Ok(Some(t)),
                Err(e) => Err(e),
            }
        } else {
            Ok(None)
        }
    }

    /// A lookahead gate on a token.  At the end of the tokens, and when the
    /// token under the cursor does not equal `tok`, returns `Ok(None)` and
    /// consumes nothing; `f` is not run.  When it equals `tok`, runs the rule
    /// `f`, which is left to consume the token itself, and returns what it
    /// returns; nothing is undone if `f` fails.
    fn parse_l1<T, F: Fn(&mut Self) -> Result<T, Self::Error>>(
        &mut self,
        tok: Self::Token,
        f: F,
    ) -> (r: Result<Option<T>, Self::Error>) where Self::Token: Clone + Eq
        requires
            forall|q: &mut Self| *q == *old(self) ==> call_requires(f, (q,)),
            forall|q: &mut Self, res: Result<T, Self::Error>|
                *q == *old(self) && call_ensures(f, (q,), res) ==> final(q).state().follows(
                    q.state(),
                ),
        ensures
            old(self).state().current() is None ==> r == shut::<T, Self::Error>() && *final(self)
                == *old(self),
            old(self).state().current() matches Some(t) ==> exists|c: Self::Token, open: bool|
                {
                    &&& cloned::<Self::Token>(t.tok, c)
                    &&& #[trigger] eq_gives(c, tok, open)
                    &&& !open ==> r == shut::<T, Self::Error>() && *final(self) == *old(self)
                    &&& open ==> exists|q: &mut Self, inner: Result<T, Self::Error>|
                        {
                            &&& *q == *old(self)
                            &&& #[trigger] call_ensures(f, (q,), inner)
                            &&& r == ran(inner)
                            &&& *final(self) == *final(q)
                        }
                },
            final(self).state().follows(old(self).state()),
    {
        let expected = &tok;
        let cond = |t: &Self::Token| -> (b: bool)
            ensures
                eq_gives(*t, *expected, b),
            { *t == *expected };
        self.parse_l1_if(cond, f)
    }

    /// The inverse of [`Parse::parse_l1`]: runs the rule `f` when the token
    /// under the cursor does not equal `tok`.  At the end of the tokens, and
    /// when the token equals `tok`, returns `Ok(None)` and consumes nothing.
    fn parse_l1_not<T, F: Fn(&mut Self) -> Result<T, Self::Error>>(
        &mut self,
        tok: Self::Token,
        f: F,
    ) -> (r: Result<Option<T>, Self::Error>) where Self::Token: Clone + Eq
        requires
            forall|q: &mut Self| *q == *old(self) ==> call_requires(f, (q,)),
            forall|q: &mut Self, res: Result<T, Self::Error>|
                *q == *old(self) && call_ensures(f, (q,), res) ==> final(q).state().follows(
                    q.state(),
                ),
        ensures
            old(self).state().current() is None ==> r == shut::<T, Self::Error>() && *final(self)
                == *old(self),
            old(self).state().current() matches Some(t) ==> exists|c: Self::Token, same: bool|
                {
                    &&& cloned::<Self::Token>(t.tok, c)
                    &&& #[trigger] eq_gives(c, tok, same)
                    &&& same ==> r == shut::<T, Self::Error>() && *final(self) == *old(self)
                    &&& !same ==> exists|q: &mut Self, inner: Result<T, Self::Error>|
                        {
                            &&& *q == *old(self)
                            &&& #[trigger] call_ensures(f, (q,), inner)
                            &&& r == ran(inner)
                            &&& *final(self) == *final(q)
                        }
                },
            final(self).state().follows(old(self).state()),
    {
        let excluded = &tok;
        let cond = |t: &Self::Token| -> (b: bool)
            ensures
                eq_gives(*t, *excluded, !b),
            { !(*t == *excluded) };
        self.parse_l1_if(cond, f)
    }

    /// A lookahead gate on a token that consumes the token.  At the end of
    /// the tokens, and when the token under the cursor does not equal `tok`,
    /// returns `Ok(None)` and consumes nothing; `f` is not run.  When it
    /// equals `tok`, consumes it, runs the rule `f` and returns what it
    /// returns; if `f` fails the cursor is put back before the token.
    fn parse_l1_adv<T, F: Fn(&mut Self) -> Result<T, Self::Error>>(
        &mut self,
        tok: Self::Token,
        f: F,
    ) -> (r: Result<Option<T>, Self::Error>) where Self::Token: Clone + Eq
        requires
            forall|q: &mut Self|
                q.state() == old(self).state().advanced() ==> call_requires(f, (q,)),
            forall|q: &mut Self, res: Result<T, Self::Error>|
                q.state() == old(self).state().advanced() && call_ensures(f, (q,), res)
                    ==> final(q).state().follows(q.state()),
        ensures
            old(self).state().current() is None ==> r == shut::<T, Self::Error>() && *final(self)
                == *old(self),
            old(self).state().current() matches Some(t) ==> exists|c: Self::Token, open: bool|
                {
                    &&& cloned::<Self::Token>(t.tok, c)
                    &&& #[trigger] eq_gives(c, tok, open)
                    &&& !open ==> r == shut::<T, Self::Error>() && *final(self) == *old(self)
                    &&& open ==> exists|q: &mut Self, inner: Result<T, Self::Error>|
                        {
                            &&& q.state() == old(self).state().advanced()
                            &&& #[trigger] call_ensures(f, (q,), inner)
                            &&& r == ran(inner)
                            &&& final(self).state() == (if inner is Ok {
                                final(q).state()
                            } else {
                                final(q).state().at(old(self).state().cursor)
                            })
                        }
                },
            final(self).state().follows(old(self).state()),
            r is Err ==> final(self).state().cursor == old(self).state().cursor,
    {
        let current = match self.peek() {
            Some(d) => d.tok,
            None => {
                return Ok(None);
            },
        };
        let open: bool = current == tok;
        assert(eq_gives(current, tok, open));
        if open {
            let cursor: usize = self.cursor();
            self.advance();
            match f(self) {
                Ok(t) => Ok(Some(t)),
                Err(e) => {
                    self.ctx_mut().rewind(cursor);
                    Err(e)
                },
            }
        } else {
            Ok(None)
        }
    }
}

} // verus!
