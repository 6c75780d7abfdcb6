//! Repetition: lists of items read by a rule, delimited by separators,
//! announced by lookahead tokens, or closed by a terminator.
//!
//! Every list is accounted for by the [`Runs`] of the rule that returned its
//! items, so that what a repetition returns and where it leaves the parse
//! follow from what the rule does.
use crate::parse::{eq_gives, Parse, ParseState};
use crate::span::S;
use vstd::prelude::*;

verus! {

/// The runs of a rule inside a repetition that returned an item: `items[i]`
/// is the item at index `i`, `before[i]` the state in which the rule was
/// started for it, and `after[i]` the state in which the rule left the parse.
pub struct Runs<T, A> {
    pub items: Seq<A>,
    pub before: Seq<ParseState<T>>,
    pub after: Seq<ParseState<T>>,
}

impl<T, A> Runs<T, A> {
    /// There is a state before and a state after for every item.
    pub open spec fn lined_up(self) -> bool {
        self.before.len() == self.items.len() && self.after.len() == self.items.len()
    }

    /// `i` is the index of an item.
    pub open spec fn has(self, i: int) -> bool {
        0 <= i < self.items.len()
    }

    /// The state behind the last run, of a repetition that began in the
    /// state `from`: `from` itself when there was no run.
    pub open spec fn end(self, from: ParseState<T>) -> ParseState<T> {
        if self.items.len() == 0 {
            from
        } else {
            self.after.last()
        }
    }
}

/// The repetitions, provided for every parser.
pub trait Repeat: Parse {
    /// One or more items, delimited by a separator.  Runs the rule `f` once;
    /// then, for as long as the token under the cursor equals `sep`, consumes
    /// it and runs `f` again.  The repetition ends at a token that is not a
    /// separator, and at a separator behind which `f` fails: that separator
    /// and what `f` consumed are put back.  Only a failure of the first item
    /// is a failure of the whole, and then nothing is put back.
    ///
    /// The items are accounted for by the runs of `f` that returned them:
    /// the first began where the parse stood, and each of the others one
    /// token, a separator, behind the end of the run before it.
    fn parse_some<T, F: Fn(&mut Self) -> Result<T, Self::Error>>(
        &mut self,
        f: F,
        sep: Self::Token,
    ) -> (r: Result<Vec<T>, Self::Error>) where Self::Token: Clone + Eq
        requires
            forall|q: &mut Self|
                q.state().follows(old(self).state()) ==> call_requires(f, (q,)),
            forall|q: &mut Self, res: Result<T, Self::Error>|
                q.state().follows(old(self).state()) && call_ensures(f, (q,), res)
                    ==> final(q).state().follows(q.state()),
        ensures
            final(self).state().follows(old(self).state()),
            exists|runs: Runs<Self::Token, T>|
                {
                    &&& #[trigger] runs.lined_up()
                    &&& runs.items.len() > 0 ==> runs.before[0] == old(self).state()
                    &&& forall|i: int|
                        #![trigger runs.has(i)]
                        #![trigger runs.after[i]]
                        runs.has(i) ==> {
                            &&& runs.after[i].follows(old(self).state())
                            &&& exists|q: &mut Self, inner: Result<T, Self::Error>|
                                {
                                    &&& #[trigger] call_ensures(f, (q,), inner)
                                    &&& inner == Ok::<T, Self::Error>(runs.items[i])
                                    &&& q.state() == runs.before[i]
                                    &&& final(q).state() == runs.after[i]
                                }
                            &&& i + 1 < runs.items.len() ==> {
                                &&& runs.after[i].current_is(sep, true)
                                &&& runs.before[i + 1] == runs.after[i].advanced()
                            }
                        }
                    &&& match r {
                        Ok(v) => {
                            &&& v@ == runs.items
                            &&& v@.len() >= 1
                            &&& {
                                ||| {
                                    &&& final(self).state() == runs.after.last()
                                    &&& final(self).state().current_is(sep, false)
                                }
                                ||| {
                                    &&& runs.after.last().current_is(sep, true)
                                    &&& exists|q: &mut Self, inner: Result<T, Self::Error>|
                                        {
                                            &&& #[trigger] call_ensures(f, (q,), inner)
                                            &&& inner is Err
                                            &&& q.state() == runs.after.last().advanced()
                                            &&& final(self).state() == final(q).state().at(
                                                runs.after.last().cursor,
                                            )
                                        }
                                }
                            }
                        },
                        Err(e) => {
                            &&& runs.items.len() == 0
                            &&& exists|q: &mut Self, inner: Result<T, Self::Error>|
                                {
                                    &&& #[trigger] call_ensures(f, (q,), inner)
                                    &&& inner == Err::<T, Self::Error>(e)
                                    &&& *q == *old(self)
                                    &&& *final(self) == *final(q)
                                }
                        },
                    }
                },
    {
        // Every parse is well-formed, and `cursor` says so.
        let _ = self.cursor();
        let mut ret: Vec<T> = Vec::new();
        let ghost mut runs = Runs::<Self::Token, T> {
            items: Seq::empty(),
            before: Seq::empty(),
            after: Seq::empty(),
        };
        match f(self) {
            Ok(d) => {
                ret.push(d);
                proof {
                    runs =
                    Runs {
                        items: Seq::empty().push(d),
                        before: Seq::empty().push(old(self).state()),
                        after: Seq::empty().push(self.state()),
                    };
                }
            },
            Err(e) => {
                assert(runs.lined_up());
                return Err(e);
            },
        }
        loop
            invariant_except_break
                self.state() == runs.after.last(),
            invariant
                ret@.len() >= 1,
                self.state().follows(old(self).state()),
                forall|q: &mut Self|
                    q.state().follows(old(self).state()) ==> call_requires(f, (q,)),
                forall|q: &mut Self, res: Result<T, Self::Error>|
                    q.state().follows(old(self).state()) && call_ensures(f, (q,), res)
                        ==> final(q).state().follows(q.state()),
                runs.lined_up(),
                runs.items == ret@,
                runs.items.len() > 0 ==> runs.before[0] == old(self).state(),
                forall|i: int|
                    #![trigger runs.has(i)]
                    #![trigger runs.after[i]]
                    runs.has(i) ==> {
                        &&& runs.after[i].follows(old(self).state())
                        &&& exists|q: &mut Self, inner: Result<T, Self::Error>|
                            {
                                &&& #[trigger] call_ensures(f, (q,), inner)
                                &&& inner == Ok::<T, Self::Error>(runs.items[i])
                                &&& q.state() == runs.before[i]
                                &&& final(q).state() == runs.after[i]
                            }
                        &&& i + 1 < runs.items.len() ==> {
                            &&& runs.after[i].current_is(sep, true)
                            &&& runs.before[i + 1] == runs.after[i].advanced()
                        }
                    },
            ensures
                ({
                    ||| {
                        &&& self.state() == runs.after.last()
                        &&& self.state().current_is(sep, false)
                    }
                    ||| {
                        &&& runs.after.last().current_is(sep, true)
                        &&& exists|q: &mut Self, inner: Result<T, Self::Error>|
                            {
                                &&& #[trigger] call_ensures(f, (q,), inner)
                                &&& inner is Err
                                &&& q.state() == runs.after.last().advanced()
                                &&& self.state() == final(q).state().at(runs.after.last().cursor)
                            }
                    }
                }),
            decreases self.state().tokens.len() - self.state().cursor,
        {
            let ghost trace = runs;
            let ghost before = self.state();
            let cursor: usize = self.cursor();
            if !self.ctx_mut().advance_at(&sep) {
                break ;
            }
            match f(self) {
                Ok(d) => {
                    ret.push(d);
                    proof {
                        runs =
                        Runs {
                            items: trace.items.push(d),
                            before: trace.before.push(before.advanced()),
                            after: trace.after.push(self.state()),
                        };
                        assert forall|i: int|
                            #![trigger runs.has(i)]
                            #![trigger runs.after[i]]
                            runs.has(i) implies {
                            &&& runs.after[i].follows(old(self).state())
                            &&& exists|q: &mut Self, inner: Result<T, Self::Error>|
                                {
                                    &&& #[trigger] call_ensures(f, (q,), inner)
                                    &&& inner == Ok::<T, Self::Error>(runs.items[i])
                                    &&& q.state() == runs.before[i]
                                    &&& final(q).state() == runs.after[i]
                                }
                            &&& i + 1 < runs.items.len() ==> {
                                &&& runs.after[i].current_is(sep, true)
                                &&& runs.before[i + 1] == runs.after[i].advanced()
                            }
                        } by {
                            if i < trace.items.len() {
                                assert(runs.after[i] == trace.after[i]);
                            }
                        }
                    }
                },
                Err(_) => {
                    self.ctx_mut().rewind(cursor);
                    break ;
                },
            }
        }
        Ok(ret)
    }

    /// One or more items, each of the later ones announced by a token.  Runs
    /// the rule `f` once; then, for as long as the token under the cursor
    /// equals `tok`, runs `f` again, which is left to consume the token.  A
    /// failure of `f` is the failure of the whole, and nothing is put back.
    /// Every run of `f` has to consume at least one token.
    ///
    /// The items are accounted for by the runs of `f` that returned them:
    /// the first began where the parse stood, and each of the others where
    /// the run before it ended.
    fn parse_some_l1<T, F: Fn(&mut Self) -> Result<T, Self::Error>>(
        &mut self,
        f: F,
        tok: Self::Token,
    ) -> (r: Result<Vec<T>, Self::Error>) where Self::Token: Clone + Eq
        requires
            forall|q: &mut Self|
                q.state().follows(old(self).state()) ==> call_requires(f, (q,)),
            forall|q: &mut Self, res: Result<T, Self::Error>|
                q.state().follows(old(self).state()) && call_ensures(f, (q,), res)
                    ==> final(q).state().follows(q.state()),
            forall|q: &mut Self, res: Result<T, Self::Error>|
                q.state().follows(old(self).state()) && call_ensures(f, (q,), res) && res is Ok
                    ==> final(q).state().cursor > q.state().cursor,
        ensures
            final(self).state().follows(old(self).state()),
            exists|runs: Runs<Self::Token, T>|
                {
                    &&& #[trigger] runs.lined_up()
                    &&& runs.items.len() > 0 ==> runs.before[0] == old(self).state()
                    &&& forall|i: int|
                        #![trigger runs.has(i)]
                        #![trigger runs.after[i]]
                        runs.has(i) ==> {
                            &&& runs.after[i].follows(old(self).state())
                            &&& exists|q: &mut Self, inner: Result<T, Self::Error>|
                                {
                                    &&& #[trigger] call_ensures(f, (q,), inner)
                                    &&& inner == Ok::<T, Self::Error>(runs.items[i])
                                    &&& q.state() == runs.before[i]
                                    &&& final(q).state() == runs.after[i]
                                }
                            &&& i + 1 < runs.items.len() ==> {
                                &&& runs.after[i].current_is(tok, true)
                                &&& runs.before[i + 1] == runs.after[i]
                            }
                        }
                    &&& match r {
                        Ok(v) => {
                            &&& v@ == runs.items
                            &&& v@.len() >= 1
                            &&& final(self).state() == runs.end(old(self).state())
                            &&& final(self).state().current_is(tok, false)
                        },
                        Err(e) => {
                            &&& runs.items.len() > 0 ==> runs.after.last().current_is(tok, true)
                            &&& exists|q: &mut Self, inner: Result<T, Self::Error>|
                                {
                                    &&& #[trigger] call_ensures(f, (q,), inner)
                                    &&& inner == Err::<T, Self::Error>(e)
                                    &&& q.state() == runs.end(old(self).state())
                                    &&& *final(self) == *final(q)
                                }
                        },
                    }
                },
    {
        // Every parse is well-formed, and `cursor` says so.
        let _ = self.cursor();
        let mut ret: Vec<T> = Vec::new();
        let ghost mut runs = Runs::<Self::Token, T> {
            items: Seq::empty(),
            before: Seq::empty(),
            after: Seq::empty(),
        };
        match f(self) {
            Ok(d) => {
                ret.push(d);
                proof {
                    runs =
                    Runs {
                        items: Seq::empty().push(d),
                        before: Seq::empty().push(old(self).state()),
                        after: Seq::empty().push(self.state()),
                    };
                }
            },
            Err(e) => {
                assert(runs.lined_up());
                return Err(e);
            },
        }
        while self.ctx().at(&tok)
            invariant
                ret@.len() >= 1,
                self.state() == runs.end(old(self).state()),
                self.state().follows(old(self).state()),
                forall|q: &mut Self|
                    q.state().follows(old(self).state()) ==> call_requires(f, (q,)),
                forall|q: &mut Self, res: Result<T, Self::Error>|
                    q.state().follows(old(self).state()) && call_ensures(f, (q,), res)
                        ==> final(q).state().follows(q.state()),
                forall|q: &mut Self, res: Result<T, Self::Error>|
                    q.state().follows(old(self).state()) && call_ensures(f, (q,), res) && res is Ok
                        ==> final(q).state().cursor > q.state().cursor,
                runs.lined_up(),
                runs.items == ret@,
                runs.items.len() > 0 ==> runs.before[0] == old(self).state(),
                forall|i: int|
                    #![trigger runs.has(i)]
                    #![trigger runs.after[i]]
                    runs.has(i) ==> {
                        &&& runs.after[i].follows(old(self).state())
                        &&& exists|q: &mut Self, inner: Result<T, Self::Error>|
                            {
                                &&& #[trigger] call_ensures(f, (q,), inner)
                                &&& inner == Ok::<T, Self::Error>(runs.items[i])
                                &&& q.state() == runs.before[i]
                                &&& final(q).state() == runs.after[i]
                            }
                        &&& i + 1 < runs.items.len() ==> {
                            &&& runs.after[i].current_is(tok, true)
                            &&& runs.before[i + 1] == runs.after[i]
                        }
                    },
            decreases self.state().tokens.len() - self.state().cursor,
        {
            let ghost trace = runs;
            let ghost before = self.state();
            match f(self) {
                Ok(d) => {
                    ret.push(d);
                    proof {
                        runs =
                        Runs {
                            items: trace.items.push(d),
                            before: trace.before.push(before),
                            after: trace.after.push(self.state()),
                        };
                        assert forall|i: int|
                            #![trigger runs.has(i)]
                            #![trigger runs.after[i]]
                            runs.has(i) implies {
                            &&& runs.after[i].follows(old(self).state())
                            &&& exists|q: &mut Self, inner: Result<T, Self::Error>|
                                {
                                    &&& #[trigger] call_ensures(f, (q,), inner)
                                    &&& inner == Ok::<T, Self::Error>(runs.items[i])
                                    &&& q.state() == runs.before[i]
                                    &&& final(q).state() == runs.after[i]
                                }
                            &&& i + 1 < runs.items.len() ==> {
                                &&& runs.after[i].current_is(tok, true)
                                &&& runs.before[i + 1] == runs.after[i]
                            }
                        } by {
                            if i < trace.items.len() {
                                assert(runs.after[i] == trace.after[i]);
                            }
                        }
                    }
                },
                Err(e) => {
                    return Err(e);
                },
            }
        }
        Ok(ret)
    }

    /// Zero or more items, each announced by a token.  For as long as the
    /// token under the cursor equals `tok`, runs the rule `f`, which is left
    /// to consume the token.  A failure of `f` is the failure of the whole,
    /// and nothing is put back.  Every run of `f` has to consume at least one
    /// token.
    ///
    /// The items are accounted for by the runs of `f` that returned them:
    /// the first began where the parse stood, and each of the others where
    /// the run before it ended.
    fn parse_many_l1<T, F: Fn(&mut Self) -> Result<T, Self::Error>>(
        &mut self,
        f: F,
        tok: Self::Token,
    ) -> (r: Result<Vec<T>, Self::Error>) where Self::Token: Clone + Eq
        requires
            forall|q: &mut Self|
                q.state().follows(old(self).state()) ==> call_requires(f, (q,)),
            forall|q: &mut Self, res: Result<T, Self::Error>|
                q.state().follows(old(self).state()) && call_ensures(f, (q,), res)
                    ==> final(q).state().follows(q.state()),
            forall|q: &mut Self, res: Result<T, Self::Error>|
                q.state().follows(old(self).state()) && call_ensures(f, (q,), res) && res is Ok
                    ==> final(q).state().cursor > q.state().cursor,
        ensures
            final(self).state().follows(old(self).state()),
            exists|runs: Runs<Self::Token, T>|
                {
                    &&& #[trigger] runs.lined_up()
                    &&& runs.items.len() > 0 ==> runs.before[0] == old(self).state()
                    &&& forall|i: int|
                        #![trigger runs.has(i)]
                        #![trigger runs.after[i]]
                        runs.has(i) ==> {
                            &&& runs.after[i].follows(old(self).state())
                            &&& runs.before[i].current_is(tok, true)
                            &&& exists|q: &mut Self, inner: Result<T, Self::Error>|
                                {
                                    &&& #[trigger] call_ensures(f, (q,), inner)
                                    &&& inner == Ok::<T, Self::Error>(runs.items[i])
                                    &&& q.state() == runs.before[i]
                                    &&& final(q).state() == runs.after[i]
                                }
                            &&& i + 1 < runs.items.len() ==> {
                                &&& runs.before[i + 1] == runs.after[i]
                            }
                        }
                    &&& match r {
                        Ok(v) => {
                            &&& v@ == runs.items
                            &&& final(self).state() == runs.end(old(self).state())
                            &&& final(self).state().current_is(tok, false)
                        },
                        Err(e) => {
                            &&& runs.end(old(self).state()).current_is(tok, true)
                            &&& exists|q: &mut Self, inner: Result<T, Self::Error>|
                                {
                                    &&& #[trigger] call_ensures(f, (q,), inner)
                                    &&& inner == Err::<T, Self::Error>(e)
                                    &&& q.state() == runs.end(old(self).state())
                                    &&& *final(self) == *final(q)
                                }
                        },
                    }
                },
    {
        // Every parse is well-formed, and `cursor` says so.
        let _ = self.cursor();
        let mut ret: Vec<T> = Vec::new();
        let ghost mut runs = Runs::<Self::Token, T> {
            items: Seq::empty(),
            before: Seq::empty(),
            after: Seq::empty(),
        };
        while self.ctx().at(&tok)
            invariant
                self.state() == runs.end(old(self).state()),
                self.state().follows(old(self).state()),
                forall|q: &mut Self|
                    q.state().follows(old(self).state()) ==> call_requires(f, (q,)),
                forall|q: &mut Self, res: Result<T, Self::Error>|
                    q.state().follows(old(self).state()) && call_ensures(f, (q,), res)
                        ==> final(q).state().follows(q.state()),
                forall|q: &mut Self, res: Result<T, Self::Error>|
                    q.state().follows(old(self).state()) && call_ensures(f, (q,), res) && res is Ok
                        ==> final(q).state().cursor > q.state().cursor,
                runs.lined_up(),
                runs.items == ret@,
                runs.items.len() > 0 ==> runs.before[0] == old(self).state(),
                forall|i: int|
                    #![trigger runs.has(i)]
                    #![trigger runs.after[i]]
                    runs.has(i) ==> {
                        &&& runs.after[i].follows(old(self).state())
                        &&& runs.before[i].current_is(tok, true)
                        &&& exists|q: &mut Self, inner: Result<T, Self::Error>|
                            {
                                &&& #[trigger] call_ensures(f, (q,), inner)
                                &&& inner == Ok::<T, Self::Error>(runs.items[i])
                                &&& q.state() == runs.before[i]
                                &&& final(q).state() == runs.after[i]
                            }
                        &&& i + 1 < runs.items.len() ==> {
                            &&& runs.before[i + 1] == runs.after[i]
                        }
                    },
            decreases self.state().tokens.len() - self.state().cursor,
        {
            let ghost trace = runs;
            let ghost before = self.state();
            match f(self) {
                Ok(d) => {
                    ret.push(d);
                    proof {
                        runs =
                        Runs {
                            items: trace.items.push(d),
                            before: trace.before.push(before),
                            after: trace.after.push(self.state()),
                        };
                        assert forall|i: int|
                            #![trigger runs.has(i)]
                            #![trigger runs.after[i]]
                            runs.has(i) implies {
                            &&& runs.after[i].follows(old(self).state())
                            &&& runs.before[i].current_is(tok, true)
                            &&& exists|q: &mut Self, inner: Result<T, Self::Error>|
                                {
                                    &&& #[trigger] call_ensures(f, (q,), inner)
                                    &&& inner == Ok::<T, Self::Error>(runs.items[i])
                                    &&& q.state() == runs.before[i]
                                    &&& final(q).state() == runs.after[i]
                                }
                            &&& i + 1 < runs.items.len() ==> {
                                &&& runs.before[i + 1] == runs.after[i]
                            }
                        } by {
                            if i < trace.items.len() {
                                assert(runs.after[i] == trace.after[i]);
                            }
                        }
                    }
                },
                Err(e) => {
                    return Err(e);
                },
            }
        }
        Ok(ret)
    }

    /// Zero or more items, each announced by a token that a predicate
    /// accepts.  For as long as `cond` accepts the token under the cursor,
    /// runs the rule `f`, which is left to consume the token.  A failure of
    /// `f` is the failure of the whole, and nothing is put back.  Every run
    /// of `f` has to consume at least one token.
    ///
    /// The items are accounted for by the runs of `f` that returned them:
    /// the first began where the parse stood, and each of the others where
    /// the run before it ended.
    fn parse_many_l1_if<
        T,
        C: Fn(&Self::Token) -> bool,
        F: Fn(&mut Self) -> Result<T, Self::Error>,
    >(&mut self, cond: C, f: F) -> (r: Result<Vec<T>, Self::Error>) where Self::Token: Clone
        requires
            forall|i: int, c: Self::Token|
                old(self).state().cursor <= i < old(self).state().tokens.len()
                    && #[trigger] cloned::<Self::Token>(old(self).state().tokens[i].tok, c)
                    ==> call_requires(cond, (&c,)),
            forall|q: &mut Self|
                q.state().follows(old(self).state()) ==> call_requires(f, (q,)),
            forall|q: &mut Self, res: Result<T, Self::Error>|
                q.state().follows(old(self).state()) && call_ensures(f, (q,), res)
                    ==> final(q).state().follows(q.state()),
            forall|q: &mut Self, res: Result<T, Self::Error>|
                q.state().follows(old(self).state()) && call_ensures(f, (q,), res) && res is Ok
                    ==> final(q).state().cursor > q.state().cursor,
        ensures
            final(self).state().follows(old(self).state()),
            exists|runs: Runs<Self::Token, T>|
                {
                    &&& #[trigger] runs.lined_up()
                    &&& runs.items.len() > 0 ==> runs.before[0] == old(self).state()
                    &&& forall|i: int|
                        #![trigger runs.has(i)]
                        #![trigger runs.after[i]]
                        runs.has(i) ==> {
                            &&& runs.after[i].follows(old(self).state())
                            &&& runs.before[i].passes(cond, true)
                            &&& exists|q: &mut Self, inner: Result<T, Self::Error>|
                                {
                                    &&& #[trigger] call_ensures(f, (q,), inner)
                                    &&& inner == Ok::<T, Self::Error>(runs.items[i])
                                    &&& q.state() == runs.before[i]
                                    &&& final(q).state() == runs.after[i]
                                }
                            &&& i + 1 < runs.items.len() ==> {
                                &&& runs.before[i + 1] == runs.after[i]
                            }
                        }
                    &&& match r {
                        Ok(v) => {
                            &&& v@ == runs.items
                            &&& final(self).state() == runs.end(old(self).state())
                            &&& final(self).state().passes(cond, false)
                        },
                        Err(e) => {
                            &&& runs.end(old(self).state()).passes(cond, true)
                            &&& exists|q: &mut Self, inner: Result<T, Self::Error>|
                                {
                                    &&& #[trigger] call_ensures(f, (q,), inner)
                                    &&& inner == Err::<T, Self::Error>(e)
                                    &&& q.state() == runs.end(old(self).state())
                                    &&& *final(self) == *final(q)
                                }
                        },
                    }
                },
    {
        // Every parse is well-formed, and `cursor` says so.
        let _ = self.cursor();
        let mut ret: Vec<T> = Vec::new();
        let ghost mut runs = Runs::<Self::Token, T> {
            items: Seq::empty(),
            before: Seq::empty(),
            after: Seq::empty(),
        };
        loop
            invariant
                forall|i: int, c: Self::Token|
                    old(self).state().cursor <= i < old(self).state().tokens.len()
                        && #[trigger] cloned::<Self::Token>(old(self).state().tokens[i].tok, c)
                        ==> call_requires(cond, (&c,)),
                self.state() == runs.end(old(self).state()),
                self.state().follows(old(self).state()),
                forall|q: &mut Self|
                    q.state().follows(old(self).state()) ==> call_requires(f, (q,)),
                forall|q: &mut Self, res: Result<T, Self::Error>|
                    q.state().follows(old(self).state()) && call_ensures(f, (q,), res)
                        ==> final(q).state().follows(q.state()),
                forall|q: &mut Self, res: Result<T, Self::Error>|
                    q.state().follows(old(self).state()) && call_ensures(f, (q,), res) && res is Ok
                        ==> final(q).state().cursor > q.state().cursor,
                runs.lined_up(),
                runs.items == ret@,
                runs.items.len() > 0 ==> runs.before[0] == old(self).state(),
                forall|i: int|
                    #![trigger runs.has(i)]
                    #![trigger runs.after[i]]
                    runs.has(i) ==> {
                        &&& runs.after[i].follows(old(self).state())
                        &&& runs.before[i].passes(cond, true)
                        &&& exists|q: &mut Self, inner: Result<T, Self::Error>|
                            {
                                &&& #[trigger] call_ensures(f, (q,), inner)
                                &&& inner == Ok::<T, Self::Error>(runs.items[i])
                                &&& q.state() == runs.before[i]
                                &&& final(q).state() == runs.after[i]
                            }
                        &&& i + 1 < runs.items.len() ==> {
                            &&& runs.before[i + 1] == runs.after[i]
                        }
                    },
            ensures
                self.state().passes(cond, false),
            decreases self.state().tokens.len() - self.state().cursor,
        {
            let ghost trace = runs;
            let ghost before = self.state();
            let current = match self.peek() {
                Some(d) => d.tok,
                None => {
                    break ;
                },
            };
            if !cond(&current) {
                break ;
            }
            match f(self) {
                Ok(d) => {
                    ret.push(d);
                    proof {
                        runs =
                        Runs {
                            items: trace.items.push(d),
                            before: trace.before.push(before),
                            after: trace.after.push(self.state()),
                        };
                        assert forall|i: int|
                            #![trigger runs.has(i)]
                            #![trigger runs.after[i]]
                            runs.has(i) implies {
                            &&& runs.after[i].follows(old(self).state())
                            &&& runs.before[i].passes(cond, true)
                            &&& exists|q: &mut Self, inner: Result<T, Self::Error>|
                                {
                                    &&& #[trigger] call_ensures(f, (q,), inner)
                                    &&& inner == Ok::<T, Self::Error>(runs.items[i])
                                    &&& q.state() == runs.before[i]
                                    &&& final(q).state() == runs.after[i]
                                }
                            &&& i + 1 < runs.items.len() ==> {
                                &&& runs.before[i + 1] == runs.after[i]
                            }
                        } by {
                            if i < trace.items.len() {
                                assert(runs.after[i] == trace.after[i]);
                            }
                        }
                    }
                },
                Err(e) => {
                    return Err(e);
                },
            }
        }
        Ok(ret)
    }

    /// Zero or more items, delimited by a separator, up to a terminator.
    /// When the token under the cursor equals `to`, returns the empty list.
    /// Otherwise runs the rule `f`; then, until the token under the cursor
    /// equals `to`, consumes a separator and runs `f` again.  The terminator
    /// is left unconsumed.  A failure of `f` is the failure of the whole, and
    /// so is a token that is neither the terminator nor a separator, or the
    /// end of the tokens, where a separator is due: that error is the one
    /// that `expect_err` makes of `sep`.  Nothing is put back on an error:
    /// when the tokens run out before the terminator, the cursor is left at
    /// their end.
    ///
    /// The items are accounted for by the runs of `f` that returned them:
    /// the first began where the parse stood, each of the others one token,
    /// a separator, behind the end of the run before it, and the last ended
    /// where the parse is left, before the terminator.
    fn parse_many_to<T, F: Fn(&mut Self) -> Result<T, Self::Error>>(
        &mut self,
        f: F,
        sep: Self::Token,
        to: Self::Token,
    ) -> (r: Result<Vec<T>, Self::Error>) where Self::Token: Clone + Eq
        requires
            forall|q: &mut Self|
                q.state().follows(old(self).state()) ==> call_requires(f, (q,)),
            forall|q: &mut Self, res: Result<T, Self::Error>|
                q.state().follows(old(self).state()) && call_ensures(f, (q,), res)
                    ==> final(q).state().follows(q.state()),
        ensures
            final(self).state().follows(old(self).state()),
            exists|runs: Runs<Self::Token, T>|
                {
                    &&& #[trigger] runs.lined_up()
                    &&& runs.items.len() > 0 ==> {
                        &&& runs.before[0] == old(self).state()
                        &&& old(self).state().current_is(to, false)
                    }
                    &&& forall|i: int|
                        #![trigger runs.has(i)]
                        #![trigger runs.after[i]]
                        runs.has(i) ==> {
                            &&& runs.after[i].follows(old(self).state())
                            &&& exists|q: &mut Self, inner: Result<T, Self::Error>|
                                {
                                    &&& #[trigger] call_ensures(f, (q,), inner)
                                    &&& inner == Ok::<T, Self::Error>(runs.items[i])
                                    &&& q.state() == runs.before[i]
                                    &&& final(q).state() == runs.after[i]
                                }
                            &&& i + 1 < runs.items.len() ==> {
                                &&& runs.after[i].current_is(to, false)
                                &&& runs.after[i].current_is(sep, true)
                                &&& runs.before[i + 1] == runs.after[i].advanced()
                            }
                        }
                    &&& match r {
                        Ok(v) => {
                            &&& v@ == runs.items
                            &&& final(self).state() == runs.end(old(self).state())
                            &&& final(self).state().current_is(to, true)
                            &&& v@.len() == 0 ==> *final(self) == *old(self)
                        },
                        Err(e) => {
                            &&& runs.end(old(self).state()).current_is(to, false)
                            &&& {
                                ||| exists|q: &mut Self, inner: Result<T, Self::Error>|
                                    {
                                        &&& #[trigger] call_ensures(f, (q,), inner)
                                        &&& inner == Err::<T, Self::Error>(e)
                                        &&& q.state() == (if runs.items.len() == 0 {
                                            old(self).state()
                                        } else {
                                            runs.after.last().advanced()
                                        })
                                        &&& runs.items.len() > 0 ==> runs.after.last().current_is(
                                            sep,
                                            true,
                                        )
                                        &&& *final(self) == *final(q)
                                    }
                                ||| exists|p: Self, found: Option<S<Self::Token>>|
                                    {
                                        &&& #[trigger] p.state().shows(found)
                                        &&& runs.items.len() > 0
                                        &&& p.state() == runs.after.last()
                                        &&& p.state() == final(self).state()
                                        &&& p.state().current_is(sep, false)
                                        &&& call_ensures(Self::expect_err, (&p, sep, found), e)
                                    }
                            }
                        },
                    }
                },
            !old(self).state().current_is(to, false) ==> (r matches Ok(v) && v@.len() == 0
                && *final(self) == *old(self)),
            r is Ok ==> final(self).state().current_is(to, true),
            final(self).state().eof() ==> r is Err,
            (forall|i: int|
                old(self).state().cursor <= i < old(self).state().tokens.len() ==> !eq_gives(
                    #[trigger] old(self).state().tokens[i].tok,
                    to,
                    true,
                )) ==> r is Err,
    {
        // Every parse is well-formed, and `cursor` says so.
        let _ = self.cursor();
        let mut ret: Vec<T> = Vec::new();
        let ghost mut runs = Runs::<Self::Token, T> {
            items: Seq::empty(),
            before: Seq::empty(),
            after: Seq::empty(),
        };
        if self.ctx().at(&to) {
            assert(runs.lined_up());
            return Ok(ret);
        }
        match f(self) {
            Ok(d) => {
                ret.push(d);
                proof {
                    runs =
                    Runs {
                        items: Seq::empty().push(d),
                        before: Seq::empty().push(old(self).state()),
                        after: Seq::empty().push(self.state()),
                    };
                }
            },
            Err(e) => {
                assert(runs.lined_up());
                return Err(e);
            },
        }
        while !self.ctx().at(&to)
            invariant
                ret@.len() >= 1,
                old(self).state().current_is(to, false),
                self.state() == runs.after.last(),
                self.state().follows(old(self).state()),
                forall|q: &mut Self|
                    q.state().follows(old(self).state()) ==> call_requires(f, (q,)),
                forall|q: &mut Self, res: Result<T, Self::Error>|
                    q.state().follows(old(self).state()) && call_ensures(f, (q,), res)
                        ==> final(q).state().follows(q.state()),
                runs.lined_up(),
                runs.items == ret@,
                runs.items.len() > 0 ==> runs.before[0] == old(self).state(),
                forall|i: int|
                    #![trigger runs.has(i)]
                    #![trigger runs.after[i]]
                    runs.has(i) ==> {
                        &&& runs.after[i].follows(old(self).state())
                        &&& exists|q: &mut Self, inner: Result<T, Self::Error>|
                            {
                                &&& #[trigger] call_ensures(f, (q,), inner)
                                &&& inner == Ok::<T, Self::Error>(runs.items[i])
                                &&& q.state() == runs.before[i]
                                &&& final(q).state() == runs.after[i]
                            }
                        &&& i + 1 < runs.items.len() ==> {
                            &&& runs.after[i].current_is(to, false)
                            &&& runs.after[i].current_is(sep, true)
                            &&& runs.before[i + 1] == runs.after[i].advanced()
                        }
                    },
            decreases self.state().tokens.len() - self.state().cursor,
        {
            let ghost trace = runs;
            let ghost before = self.state();
            if !self.ctx_mut().advance_at(&sep) {
                let found = self.peek();
                return Err(self.expect_err(sep, found));
            }
            match f(self) {
                Ok(d) => {
                    ret.push(d);
                    proof {
                        runs =
                        Runs {
                            items: trace.items.push(d),
                            before: trace.before.push(before.advanced()),
                            after: trace.after.push(self.state()),
                        };
                        assert forall|i: int|
                            #![trigger runs.has(i)]
                            #![trigger runs.after[i]]
                            runs.has(i) implies {
                            &&& runs.after[i].follows(old(self).state())
                            &&& exists|q: &mut Self, inner: Result<T, Self::Error>|
                                {
                                    &&& #[trigger] call_ensures(f, (q,), inner)
                                    &&& inner == Ok::<T, Self::Error>(runs.items[i])
                                    &&& q.state() == runs.before[i]
                                    &&& final(q).state() == runs.after[i]
                                }
                            &&& i + 1 < runs.items.len() ==> {
                                &&& runs.after[i].current_is(to, false)
                                &&& runs.after[i].current_is(sep, true)
                                &&& runs.before[i + 1] == runs.after[i].advanced()
                            }
                        } by {
                            if i < trace.items.len() {
                                assert(runs.after[i] == trace.after[i]);
                            }
                        }
                    }
                },
                Err(e) => {
                    return Err(e);
                },
            }
        }
        Ok(ret)
    }

    /// Like [`Repeat::parse_many_to`], and consumes the terminator when the
    /// items were read.  Nothing more is consumed on an error.
    fn parse_many_after<T, F: Fn(&mut Self) -> Result<T, Self::Error>>(
        &mut self,
        f: F,
        sep: Self::Token,
        to: Self::Token,
    ) -> (r: Result<Vec<T>, Self::Error>) where Self::Token: Clone + Eq
        requires
            forall|q: &mut Self|
                q.state().follows(old(self).state()) ==> call_requires(f, (q,)),
            forall|q: &mut Self, res: Result<T, Self::Error>|
                q.state().follows(old(self).state()) && call_ensures(f, (q,), res)
                    ==> final(q).state().follows(q.state()),
        ensures
            final(self).state().follows(old(self).state()),
            exists|runs: Runs<Self::Token, T>|
                {
                    &&& #[trigger] runs.lined_up()
                    &&& runs.items.len() > 0 ==> {
                        &&& runs.before[0] == old(self).state()
                        &&& old(self).state().current_is(to, false)
                    }
                    &&& forall|i: int|
                        #![trigger runs.has(i)]
                        #![trigger runs.after[i]]
                        runs.has(i) ==> {
                            &&& runs.after[i].follows(old(self).state())
                            &&& exists|q: &mut Self, inner: Result<T, Self::Error>|
                                {
                                    &&& #[trigger] call_ensures(f, (q,), inner)
                                    &&& inner == Ok::<T, Self::Error>(runs.items[i])
                                    &&& q.state() == runs.before[i]
                                    &&& final(q).state() == runs.after[i]
                                }
                            &&& i + 1 < runs.items.len() ==> {
                                &&& runs.after[i].current_is(to, false)
                                &&& runs.after[i].current_is(sep, true)
                                &&& runs.before[i + 1] == runs.after[i].advanced()
                            }
                        }
                    &&& match r {
                        Ok(v) => {
                            &&& v@ == runs.items
                            &&& runs.end(old(self).state()).current_is(to, true)
                            &&& final(self).state() == runs.end(old(self).state()).advanced()
                        },
                        Err(e) => {
                            &&& runs.end(old(self).state()).current_is(to, false)
                            &&& {
                                ||| exists|q: &mut Self, inner: Result<T, Self::Error>|
                                    {
                                        &&& #[trigger] call_ensures(f, (q,), inner)
                                        &&& inner == Err::<T, Self::Error>(e)
                                        &&& q.state() == (if runs.items.len() == 0 {
                                            old(self).state()
                                        } else {
                                            runs.after.last().advanced()
                                        })
                                        &&& runs.items.len() > 0 ==> runs.after.last().current_is(
                                            sep,
                                            true,
                                        )
                                        &&& *final(self) == *final(q)
                                    }
                                ||| exists|p: Self, found: Option<S<Self::Token>>|
                                    {
                                        &&& #[trigger] p.state().shows(found)
                                        &&& runs.items.len() > 0
                                        &&& p.state() == runs.after.last()
                                        &&& p.state() == final(self).state()
                                        &&& p.state().current_is(sep, false)
                                        &&& call_ensures(Self::expect_err, (&p, sep, found), e)
                                    }
                            }
                        },
                    }
                },
            !old(self).state().current_is(to, false) ==> (r matches Ok(v) && v@.len() == 0
                && final(self).state() == old(self).state().advanced()),
            (forall|i: int|
                old(self).state().cursor <= i < old(self).state().tokens.len() ==> !eq_gives(
                    #[trigger] old(self).state().tokens[i].tok,
                    to,
                    true,
                )) ==> r is Err,
            r is Ok ==> {
                &&& final(self).state().cursor > old(self).state().cursor
                &&& final(self).state().at((final(self).state().cursor - 1) as nat).current_is(
                    to,
                    true,
                )
            },
    {
        match self.parse_many_to(f, sep, to) {
            Ok(v) => {
                self.ctx_mut().advance();
                Ok(v)
            },
            Err(e) => Err(e),
        }
    }
}

impl<P: Parse> Repeat for P {
}

} // verus!
