//! The scanning engine: a cursor over the code points of the source text, and
//! the driver that turns a user-supplied tokenizer into a sequence of
//! positioned tokens.
use crate::chars::Chars;
use crate::span::{Extent, Span, S};
use vstd::prelude::*;

verus! {

/// The mathematical content of a [`LexCtx`]: the text, the index of the next
/// unread code point, and the index at which the token in progress began.
pub struct LexState {
    pub chars: Seq<char>,
    pub cursor: nat,
    pub mark: nat,
}

impl LexState {
    /// The mark never passes the cursor, and the cursor never passes the end
    /// of the text.
    pub open spec fn wf(self) -> bool {
        self.mark <= self.cursor <= self.chars.len() <= usize::MAX
    }

    /// Nothing is left to read.
    pub open spec fn eof(self) -> bool {
        self.cursor >= self.chars.len()
    }

    /// The code point `k` places after the cursor, if the text reaches that far.
    pub open spec fn ahead(self, k: nat) -> Option<char> {
        if self.cursor + k < self.chars.len() {
            Some(self.chars[(self.cursor + k) as int])
        } else {
            None
        }
    }

    /// The code point under the cursor, if any.
    pub open spec fn peek(self) -> Option<char> {
        self.ahead(0)
    }

    /// The same scan with the cursor at `cursor`.
    pub open spec fn at(self, cursor: nat) -> LexState {
        LexState { cursor, ..self }
    }

    /// The same scan with the cursor `n` code points further on.
    pub open spec fn skip(self, n: nat) -> LexState {
        self.at(self.cursor + n)
    }

    /// The same scan after the token in progress has been emitted: the next
    /// token begins at the cursor.
    pub open spec fn synced(self) -> LexState {
        LexState { mark: self.cursor, ..self }
    }

    /// The range of the token in progress, from the mark to the cursor.
    pub open spec fn extent(self) -> Extent {
        Extent { start: self.mark, end: self.cursor }
    }

    /// `pos` is where a scan for `c` from the cursor stops: at the first `c`
    /// at or after the cursor, or at the end of the text when there is none.
    pub open spec fn stops_at(self, c: char, pos: nat) -> bool {
        &&& self.cursor <= pos <= self.chars.len()
        &&& forall|i: int| self.cursor <= i < pos ==> self.chars[i] != c
        &&& pos < self.chars.len() ==> self.chars[pos as int] == c
    }

    /// `self` is a later state of the scan `prev`, within the same token: the
    /// text and the mark are the same and the cursor has not moved back.
    pub open spec fn follows(self, prev: LexState) -> bool {
        &&& self.wf()
        &&& self.chars == prev.chars
        &&& self.mark == prev.mark
        &&& self.cursor >= prev.cursor
    }
}

/// The state of a scan: the text, a cursor on the next unread code point, and
/// a mark on the first code point of the token in progress.
#[derive(Debug)]
pub struct LexCtx {
    chars: Chars,
    cursor: usize,
    start: usize,
}

impl View for LexCtx {
    type V = LexState;

    closed spec fn view(&self) -> LexState {
        LexState { chars: self.chars@, cursor: self.cursor as nat, mark: self.start as nat }
    }
}

impl Clone for LexCtx {
    fn clone(&self) -> (r: Self)
        ensures
            r@ == self@,
    {
        proof {
            use_type_invariant(self);
        }
        LexCtx { chars: self.chars.clone(), cursor: self.cursor, start: self.start }
    }
}

impl LexCtx {
    #[verifier::type_invariant]
    spec fn inv(&self) -> bool {
        self@.wf()
    }

    /// A scan of `input`, with nothing read yet.
    pub fn new(input: &str) -> (ctx: LexCtx)
        ensures
            ctx@ == (LexState { chars: input@, cursor: 0, mark: 0 }),
    {
        let chars = Chars::new(input);
        // The length of the text fits a machine word.
        let _ = chars.len();
        LexCtx { chars, cursor: 0, start: 0 }
    }

    /// Whether the cursor is at the end of the text.
    pub fn eof(&self) -> (r: bool)
        ensures
            r == self@.eof(),
            self@.wf(),
    {
        proof {
            use_type_invariant(self);
        }
        self.cursor == self.chars.len()
    }

    /// The code point under the cursor, without consuming it.
    pub fn peek(&self) -> (r: Option<char>)
        ensures
            r == self@.peek(),
            self@.wf(),
    {
        if self.eof() {
            None
        } else {
            Some(self.chars.get(self.cursor))
        }
    }

    /// The code point under the cursor and the one after it, without
    /// consuming either.
    pub fn peek2(&self) -> (r: (Option<char>, Option<char>))
        ensures
            r.0 == self@.ahead(0),
            r.1 == self@.ahead(1),
            self@.wf(),
    {
        let a = self.peek();
        let len: usize = self.chars.len();
        let b = if self.cursor < len && self.cursor + 1 < len {
            Some(self.chars.get(self.cursor + 1))
        } else {
            None
        };
        (a, b)
    }

    /// Consumes and returns the code point under the cursor.  At the end of
    /// the text nothing is consumed.
    pub fn advance(&mut self) -> (r: Option<char>)
        ensures
            r == old(self)@.peek(),
            final(self)@ == (if r is Some { old(self)@.skip(1) } else { old(self)@ }),
            final(self)@.follows(old(self)@),
    {
        if self.eof() {
            None
        } else {
            let c = self.chars.get(self.cursor);
            self.cursor = self.cursor + 1;
            Some(c)
        }
    }

    /// Consumes the code point under the cursor if it is `c`, and says
    /// whether it did.
    pub fn advance_cmp(&mut self, c: char) -> (r: bool)
        ensures
            r == (old(self)@.peek() == Some(c)),
            final(self)@ == (if r { old(self)@.skip(1) } else { old(self)@ }),
            final(self)@.follows(old(self)@),
    {
        self.advance_if(|x: char| -> (b: bool)
            ensures
                b == (x == c),
            { x == c })
    }

    /// Consumes the two code points at the cursor if they are `c1` then `c2`,
    /// and says whether it did.  Nothing is consumed otherwise.
    pub fn advance_cmp2(&mut self, c1: char, c2: char) -> (r: bool)
        ensures
            r == (old(self)@.ahead(0) == Some(c1) && old(self)@.ahead(1) == Some(c2)),
            final(self)@ == (if r { old(self)@.skip(2) } else { old(self)@ }),
            final(self)@.follows(old(self)@),
    {
        let (a1, a2) = self.peek2();
        if a1 == Some(c1) && a2 == Some(c2) {
            self.advance();
            self.advance();
            true
        } else {
            false
        }
    }

    /// Consumes code points up to, but not including, the next `c`, and says
    /// whether there was one.  When there is none the cursor is left at the
    /// end of the text.
    pub fn advance_to(&mut self, c: char) -> (r: bool)
        ensures
            old(self)@.stops_at(c, final(self)@.cursor),
            final(self)@ == old(self)@.at(final(self)@.cursor),
            r == !final(self)@.eof(),
            final(self)@.follows(old(self)@),
    {
        proof {
            use_type_invariant(&*self);
        }
        let mut found: bool = false;
        loop
            invariant
                self@.follows(old(self)@),
                forall|i: int| old(self)@.cursor <= i < self@.cursor ==> self@.chars[i] != c,
            ensures
                self@.follows(old(self)@),
                old(self)@.stops_at(c, self@.cursor),
                found == !self@.eof(),
            decreases self@.chars.len() - self@.cursor,
        {
            match self.peek() {
                None => {
                    found = false;
                    break;
                },
                Some(x) => {
                    if x == c {
                        found = true;
                        break;
                    }
                    self.advance();
                },
            }
        }
        found
    }

    /// Consumes code points up to and including the next `c`, and says
    /// whether there was one.  When there is none the cursor is left at the
    /// end of the text.
    pub fn advance_after(&mut self, c: char) -> (r: bool)
        ensures
            exists|pos: nat|
                {
                    &&& #[trigger] old(self)@.stops_at(c, pos)
                    &&& r == (pos < old(self)@.chars.len())
                    &&& final(self)@ == old(self)@.at(if r { pos + 1 } else { pos })
                },
            final(self)@.follows(old(self)@),
    {
        if self.advance_to(c) {
            self.advance();
            true
        } else {
            false
        }
    }

    /// Consumes the code point under the cursor if `p` accepts it, and says
    /// whether it did.  At the end of the text `p` is not consulted.
    pub fn advance_if<P: Fn(char) -> bool>(&mut self, p: P) -> (r: bool)
        requires
            old(self)@.peek() matches Some(c) ==> call_requires(p, (c,)),
        ensures
            old(self)@.peek() is None ==> !r,
            old(self)@.peek() matches Some(c) ==> call_ensures(p, (c,), r),
            final(self)@ == (if r { old(self)@.skip(1) } else { old(self)@ }),
            final(self)@.follows(old(self)@),
    {
        if let Some(c) = self.peek() {
            if p(c) {
                self.cursor = self.cursor + 1;
                return true;
            }
        }
        false
    }

    /// Consumes code points for as long as `p` accepts them, and returns how
    /// many were consumed.
    pub fn advance_while<P: Fn(char) -> bool>(&mut self, p: P) -> (n: usize)
        requires
            forall|i: int|
                old(self)@.cursor <= i < old(self)@.chars.len() ==> call_requires(
                    p,
                    (#[trigger] old(self)@.chars[i],),
                ),
        ensures
            final(self)@ == old(self)@.skip(n as nat),
            final(self)@.follows(old(self)@),
            forall|i: int|
                old(self)@.cursor <= i < final(self)@.cursor ==> call_ensures(
                    p,
                    (#[trigger] old(self)@.chars[i],),
                    true,
                ),
            final(self)@.peek() matches Some(c) ==> call_ensures(p, (c,), false),
    {
        proof {
            use_type_invariant(&*self);
        }
        let mut num: usize = 0;
        loop
            invariant
                self@ == old(self)@.skip(num as nat),
                self@.follows(old(self)@),
                forall|i: int|
                    old(self)@.cursor <= i < old(self)@.chars.len() ==> call_requires(
                        p,
                        (#[trigger] old(self)@.chars[i],),
                    ),
                forall|i: int|
                    old(self)@.cursor <= i < self@.cursor ==> call_ensures(
                        p,
                        (#[trigger] old(self)@.chars[i],),
                        true,
                    ),
            ensures
                self@.peek() matches Some(c) ==> call_ensures(p, (c,), false),
            decreases self@.chars.len() - self@.cursor,
        {
            match self.peek() {
                None => {
                    break;
                },
                Some(c) => {
                    if !p(c) {
                        break;
                    }
                    self.cursor = self.cursor + 1;
                    num = num + 1;
                },
            }
        }
        num
    }

    /// The span of the token in progress, or `None` when nothing has been
    /// consumed since the mark.
    pub fn span(&self) -> (r: Option<Span>)
        ensures
            self@.wf(),
            r is None <==> self@.mark == self@.cursor,
            r matches Some(s) ==> s@ == self@.extent(),
    {
        proof {
            use_type_invariant(self);
        }
        if self.start == self.cursor {
            None
        } else {
            Some(Span::new(self.start, self.cursor))
        }
    }

    /// The span from the mark to the cursor; it is empty when nothing has
    /// been consumed since the mark.
    pub fn current_span(&self) -> (s: Span)
        ensures
            self@.wf(),
            s@ == self@.extent(),
    {
        proof {
            use_type_invariant(self);
        }
        Span::new(self.start, self.cursor)
    }

    /// Closes the token in progress: pairs `tok` with the span from the mark
    /// to the cursor, and moves the mark up to the cursor.
    pub fn emit<T>(&mut self, tok: T) -> (s: S<T>)
        ensures
            s.tok == tok,
            s.span@ == old(self)@.extent(),
            final(self)@ == old(self)@.synced(),
            final(self)@.wf(),
    {
        let span = self.current_span();
        self.sync();
        S { span, tok }
    }

    /// Moves the mark up to the cursor: the next token begins here.
    fn sync(&mut self)
        ensures
            final(self)@ == old(self)@.synced(),
            final(self)@.wf(),
    {
        proof {
            use_type_invariant(&*self);
        }
        self.start = self.cursor;
    }

    /// The text being scanned.
    pub fn chars(&self) -> (r: &Chars)
        ensures
            r@ == self@.chars,
    {
        &self.chars
    }

    /// Index of the next unread code point.
    pub fn cursor(&self) -> (r: usize)
        ensures
            r == self@.cursor,
            self@.wf(),
    {
        proof {
            use_type_invariant(self);
        }
        self.cursor
    }
}

/// The spans of `toks` tile the text from `from` to `to`: there are cuts in
/// the text, the first at `from`, the last at `to` and each behind the one
/// before it, such that every token reaches from one cut to the next.
pub open spec fn tiles<T>(toks: Seq<S<T>>, from: nat, to: nat) -> bool {
    exists|cuts: Seq<nat>| #[trigger] tiles_at(toks, cuts) && cuts[0] == from && cuts.last() == to
}

/// The spans of `toks` tile the text at `cuts`: the token at index `i`
/// reaches from `cuts[i]` to `cuts[i + 1]`, and is not empty.
pub open spec fn tiles_at<T>(toks: Seq<S<T>>, cuts: Seq<nat>) -> bool {
    &&& cuts.len() == toks.len() + 1
    &&& forall|i: int|
        #![trigger is_index(toks, i)]
        #![trigger toks[i]]
        is_index(toks, i) ==> {
            &&& toks[i].span@ == (Extent { start: cuts[i], end: cuts[i + 1] })
            &&& toks[i].span@.start < toks[i].span@.end
        }
}

/// `i` is the index of one of `toks`.
pub open spec fn is_index<T>(toks: Seq<S<T>>, i: int) -> bool {
    0 <= i < toks.len()
}

/// The state in which the tokenizer is started for a token that begins at
/// `start`, in a run over the text `chars` that began with the cursor at
/// `entry`: the mark is where the token begins, and so is the cursor, but
/// for the first token of the run, for which the cursor is where the run
/// found it.
pub open spec fn started(chars: Seq<char>, entry: nat, first: bool, start: nat) -> LexState {
    LexState { chars, cursor: if first { entry } else { start }, mark: start }
}

/// A lexer: a tokenizer supplied by the user, on top of a scan that this
/// module drives.
///
/// The implementor supplies the scan (`ctx`, `ctx_mut`) and the tokenizer
/// (`next`); everything else is provided.
pub trait Lex: Sized {
    type Token;

    type Error;

    /// The state of the scan that this lexer holds.  A lexer that is to be
    /// verified defines it as the view of the scan that `ctx` returns.
    open spec fn state(&self) -> LexState {
        arbitrary()
    }

    /// The scan that this lexer holds.
    fn ctx(&self) -> (ctx: &LexCtx)
        ensures
            ctx@ == self.state(),
    ;

    /// The scan that this lexer holds, for the engine to move.
    fn ctx_mut(&mut self) -> (ctx: &mut LexCtx)
        ensures
            ctx@ == old(self).state(),
            final(self).state() == final(ctx)@,
    ;

    /// Reads one token: `Ok(Some(token))`, or `Ok(None)` at the logical end
    /// of the input, or an error.  The tokenizer works on the scan through
    /// the operations below: it leaves the text and the mark alone and never
    /// moves the cursor back, and a token it returns covers at least one
    /// code point.
    fn next(&mut self) -> (r: Result<Option<Self::Token>, Self::Error>)
        ensures
            final(self).state().follows(old(self).state()),
            r matches Ok(Some(_)) ==> final(self).state().cursor > old(self).state().cursor,
    ;

    /// Reads one token and pairs it with the span it occupies: the range
    /// from the mark to the cursor as the tokenizer left it.  After a token
    /// the mark is moved up to the cursor; after `Ok(None)` or an error the
    /// scan is as the tokenizer left it.
    fn next_s(&mut self) -> (r: Result<Option<S<Self::Token>>, Self::Error>)
        ensures
            final(self).state().wf(),
            final(self).state().chars == old(self).state().chars,
            exists|q: &mut Self, inner: Result<Option<Self::Token>, Self::Error>|
                {
                    &&& *q == *old(self)
                    &&& #[trigger] call_ensures(Self::next, (q,), inner)
                    &&& match r {
                        Ok(Some(s)) => {
                            &&& inner == Ok::<Option<Self::Token>, Self::Error>(Some(s.tok))
                            &&& s.span@ == final(q).state().extent()
                            &&& final(self).state() == final(q).state().synced()
                        },
                        Ok(None) => {
                            &&& inner == Ok::<Option<Self::Token>, Self::Error>(None)
                            &&& *final(self) == *final(q)
                        },
                        Err(e) => {
                            &&& inner == Err::<Option<Self::Token>, Self::Error>(e)
                            &&& *final(self) == *final(q)
                        },
                    }
                },
    {
        match self.next() {
            Ok(Some(tok)) => {
                let s = self.ctx_mut().emit(tok);
                Ok(Some(s))
            },
            Ok(None) => Ok(None),
            Err(e) => Err(e),
        }
    }

    /// Runs the tokenizer until it reports the end of the input, and returns
    /// the tokens it produced, each with its span.  The tokenizer is started
    /// where the scan stands, and after each token where that token ends;
    /// the span of a token reaches from the mark to the cursor as the
    /// tokenizer left it, so that the spans tile the text from the mark as it
    /// was to the mark as it is left.  The first error of the tokenizer ends
    /// the run and is returned in place of the tokens read so far, `toks`.
    fn tokens(&mut self) -> (r: Result<Vec<S<Self::Token>>, Self::Error>)
        ensures
            final(self).state().wf(),
            final(self).state().chars == old(self).state().chars,
            final(self).state().cursor >= old(self).state().cursor,
            exists|toks: Seq<S<Self::Token>>|
                {
                    &&& #[trigger] tiles(toks, old(self).state().mark, final(self).state().mark)
                    &&& r matches Ok(v) ==> v@ == toks
                    &&& forall|i: int|
                        #![trigger is_index(toks, i)]
                        #![trigger toks[i]]
                        is_index(toks, i) ==> exists|
                            q: &mut Self,
                            inner: Result<Option<Self::Token>, Self::Error>,
                        |
                            {
                                &&& #[trigger] call_ensures(Self::next, (q,), inner)
                                &&& inner == Ok::<Option<Self::Token>, Self::Error>(
                                    Some(toks[i].tok),
                                )
                                &&& q.state() == started(
                                    old(self).state().chars,
                                    old(self).state().cursor,
                                    i == 0,
                                    toks[i].span@.start,
                                )
                                &&& final(q).state() == q.state().at(toks[i].span@.end)
                            }
                    &&& exists|q: &mut Self, inner: Result<Option<Self::Token>, Self::Error>|
                        {
                            &&& #[trigger] call_ensures(Self::next, (q,), inner)
                            &&& q.state() == started(
                                old(self).state().chars,
                                old(self).state().cursor,
                                toks.len() == 0,
                                final(self).state().mark,
                            )
                            &&& final(q).state() == final(self).state()
                            &&& match r {
                                Ok(_) => inner == Ok::<Option<Self::Token>, Self::Error>(None),
                                Err(e) => inner == Err::<Option<Self::Token>, Self::Error>(e),
                            }
                        }
                },
    {
        let mut ret: Vec<S<Self::Token>> = Vec::new();
        let c = self.ctx();
        proof {
            use_type_invariant(c);
        }
        let ghost mut cuts: Seq<nat> = Seq::empty().push(self.state().mark);
        loop
            invariant_except_break
                self.state() == started(
                    old(self).state().chars,
                    old(self).state().cursor,
                    ret@.len() == 0,
                    self.state().mark,
                ),
            invariant
                self.state().wf(),
                self.state().chars == old(self).state().chars,
                self.state().cursor >= old(self).state().cursor,
                tiles_at(ret@, cuts),
                cuts[0] == old(self).state().mark,
                cuts.last() == self.state().mark,
                forall|i: int|
                    #![trigger is_index(ret@, i)]
                    #![trigger ret@[i]]
                    is_index(ret@, i) ==> exists|
                        q: &mut Self,
                        inner: Result<Option<Self::Token>, Self::Error>,
                    |
                        {
                            &&& #[trigger] call_ensures(Self::next, (q,), inner)
                            &&& inner == Ok::<Option<Self::Token>, Self::Error>(Some(ret@[i].tok))
                            &&& q.state() == started(
                                old(self).state().chars,
                                old(self).state().cursor,
                                i == 0,
                                ret@[i].span@.start,
                            )
                            &&& final(q).state() == q.state().at(ret@[i].span@.end)
                        },
            ensures
                exists|q: &mut Self, inner: Result<Option<Self::Token>, Self::Error>|
                    {
                        &&& #[trigger] call_ensures(Self::next, (q,), inner)
                        &&& inner == Ok::<Option<Self::Token>, Self::Error>(None)
                        &&& q.state() == started(
                            old(self).state().chars,
                            old(self).state().cursor,
                            ret@.len() == 0,
                            self.state().mark,
                        )
                        &&& final(q).state() == self.state()
                    },
            decreases self.state().chars.len() - self.state().cursor,
        {
            match self.next_s() {
                Ok(Some(tok)) => {
                    ret.push(tok);
                    proof {
                        cuts = cuts.push(self.state().mark);
                    }
                },
                Ok(None) => {
                    break ;
                },
                Err(e) => {
                    proof {
                        assert(tiles(ret@, old(self).state().mark, self.state().mark));
                    }
                    return Err(e);
                },
            }
        }
        proof {
            assert(tiles(ret@, old(self).state().mark, self.state().mark));
        }
        Ok(ret)
    }

    /// Whether the cursor is at the end of the text.
    fn eof(&self) -> (r: bool)
        ensures
            r == self.state().eof(),
            self.state().wf(),
    {
        self.ctx().eof()
    }

    /// The code point under the cursor, without consuming it.
    fn peek(&self) -> (r: Option<char>)
        ensures
            r == self.state().peek(),
            self.state().wf(),
    {
        self.ctx().peek()
    }

    /// The code point under the cursor and the one after it, without
    /// consuming either.
    fn peek2(&self) -> (r: (Option<char>, Option<char>))
        ensures
            r.0 == self.state().ahead(0),
            r.1 == self.state().ahead(1),
            self.state().wf(),
    {
        self.ctx().peek2()
    }

    /// Consumes and returns the code point under the cursor.  At the end of
    /// the text nothing is consumed.
    fn advance(&mut self) -> (r: Option<char>)
        ensures
            r == old(self).state().peek(),
            final(self).state() == (if r is Some {
                old(self).state().skip(1)
            } else {
                old(self).state()
            }),
            final(self).state().follows(old(self).state()),
    {
        self.ctx_mut().advance()
    }

    /// Consumes the code point under the cursor if it is `c`, and says
    /// whether it did.
    fn advance_cmp(&mut self, c: char) -> (r: bool)
        ensures
            r == (old(self).state().peek() == Some(c)),
            final(self).state() == (if r {
                old(self).state().skip(1)
            } else {
                old(self).state()
            }),
            final(self).state().follows(old(self).state()),
    {
        self.ctx_mut().advance_cmp(c)
    }

    /// Consumes the two code points at the cursor if they are `c1` then `c2`,
    /// and says whether it did.  Nothing is consumed otherwise.
    fn advance_cmp2(&mut self, c1: char, c2: char) -> (r: bool)
        ensures
            r == (old(self).state().ahead(0) == Some(c1) && old(self).state().ahead(1) == Some(
                c2,
            )),
            final(self).state() == (if r {
                old(self).state().skip(2)
            } else {
                old(self).state()
            }),
            final(self).state().follows(old(self).state()),
    {
        self.ctx_mut().advance_cmp2(c1, c2)
    }

    /// Consumes code points up to, but not including, the next `c`, and says
    /// whether there was one.  When there is none the cursor is left at the
    /// end of the text.
    fn advance_to(&mut self, c: char) -> (r: bool)
        ensures
            old(self).state().stops_at(c, final(self).state().cursor),
            final(self).state() == old(self).state().at(final(self).state().cursor),
            r == !final(self).state().eof(),
            final(self).state().follows(old(self).state()),
    {
        self.ctx_mut().advance_to(c)
    }

    /// Consumes code points up to and including the next `c`, and says
    /// whether there was one.  When there is none the cursor is left at the
    /// end of the text.
    fn advance_after(&mut self, c: char) -> (r: bool)
        ensures
            exists|pos: nat|
                {
                    &&& #[trigger] old(self).state().stops_at(c, pos)
                    &&& r == (pos < old(self).state().chars.len())
                    &&& final(self).state() == old(self).state().at(
                        if r {
                            pos + 1
                        } else {
                            pos
                        },
                    )
                },
            final(self).state().follows(old(self).state()),
    {
        self.ctx_mut().advance_after(c)
    }

    /// Consumes the code point under the cursor if `p` accepts it, and says
    /// whether it did.  At the end of the text `p` is not consulted.
    fn advance_if<P: Fn(char) -> bool>(&mut self, p: P) -> (r: bool)
        requires
            old(self).state().peek() matches Some(c) ==> call_requires(p, (c,)),
        ensures
            old(self).state().peek() is None ==> !r,
            old(self).state().peek() matches Some(c) ==> call_ensures(p, (c,), r),
            final(self).state() == (if r {
                old(self).state().skip(1)
            } else {
                old(self).state()
            }),
            final(self).state().follows(old(self).state()),
    {
        self.ctx_mut().advance_if(p)
    }

    /// Consumes code points for as long as `p` accepts them, and returns how
    /// many were consumed.
    fn advance_while<P: Fn(char) -> bool>(&mut self, p: P) -> (n: usize)
        requires
            forall|i: int|
                old(self).state().cursor <= i < old(self).state().chars.len() ==> call_requires(
                    p,
                    (#[trigger] old(self).state().chars[i],),
                ),
        ensures
            final(self).state() == old(self).state().skip(n as nat),
            final(self).state().follows(old(self).state()),
            forall|i: int|
                old(self).state().cursor <= i < final(self).state().cursor ==> call_ensures(
                    p,
                    (#[trigger] old(self).state().chars[i],),
                    true,
                ),
            final(self).state().peek() matches Some(c) ==> call_ensures(p, (c,), false),
    {
        self.ctx_mut().advance_while(p)
    }

    /// The span of the token in progress, or `None` when nothing has been
    /// consumed since the mark.
    fn span(&self) -> (r: Option<Span>)
        ensures
            self.state().wf(),
            r is None <==> self.state().mark == self.state().cursor,
            r matches Some(s) ==> s@ == self.state().extent(),
    {
        self.ctx().span()
    }

    /// The span from the mark to the cursor; it is empty when nothing has
    /// been consumed since the mark.
    fn current_span(&self) -> (s: Span)
        ensures
            self.state().wf(),
            s@ == self.state().extent(),
    {
        self.ctx().current_span()
    }

    /// The text being scanned.
    fn chars(&self) -> (r: &Chars)
        ensures
            r@ == self.state().chars,
    {
        self.ctx().chars()
    }
}

} // verus!
