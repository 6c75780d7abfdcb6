use reacto::chars::Chars;
use reacto::lex::{Lex, LexCtx};
use reacto::node_id::IdGen;
use reacto::parse::{Parse, ParseCtx};
use reacto::repeat::Repeat;
use reacto::span::{Span, S};

#[derive(Clone, Debug)]
pub struct Lexer {
    ctx: LexCtx,
}

#[derive(Clone, Debug, Copy, Eq, PartialEq)]
pub enum Token {
    Plus,
    Whitespace,
    Ident,
    LitString,
}

impl Lex for Lexer {
    type Token = Token;
    type Error = String;

    fn ctx(&self) -> &LexCtx {
        &self.ctx
    }

    fn ctx_mut(&mut self) -> &mut LexCtx {
        &mut self.ctx
    }

    fn next(&mut self) -> Result<Option<Token>, String> {
        let c = match self.advance() {
            Some(d) => d,
            None => return Ok(None),
        };

        let ty = match c {
            '+' => Token::Plus,
            ' ' => Token::Whitespace,
            '"' => {
                self.advance_while(|c| c != '"');
                if !self.advance_cmp('"') {
                    return Err("sting not closed".to_string());
                }
                Token::LitString
            }
            c if is_letter(c) => {
                self.advance_while(is_digit_letter);
                Token::Ident
            }
            _ => return Err("unknown char".to_string()),
        };
        Ok(Some(ty))
    }
}

pub fn new_lexer(s: &str) -> Lexer {
    let ctx = LexCtx::new(s);
    Lexer { ctx }
}

pub fn is_digit(c: char) -> bool {
    c >= '0' && c <= '9'
}

pub fn is_letter(c: char) -> bool {
    (c >= 'a' && c <= 'z') || (c >= 'A' && c <= 'Z') || (c == '_')
}

pub fn is_digit_letter(c: char) -> bool {
    is_digit(c) || is_letter(c)
}

pub fn new_parser(s: &str) -> Parser {
    let lexer = new_lexer(s);
    Parser::new(lexer)
}

pub fn new_parser_wo_sp(s: &str) -> Parser {
    let lexer = new_lexer(s);
    Parser::new_wo_sp(lexer)
}

#[derive(Clone, Debug, PartialEq)]
pub enum ParseError {
    Expect(Token, Option<Token>),
    ExpectMulti(Vec<Token>, Option<Token>),
}

pub struct Parser {
    ctx: ParseCtx<Token>,
}

impl Parser {
    pub fn new(mut lexer: Lexer) -> Self {
        let tokens = lexer.tokens().unwrap();
        let chars = lexer.chars();
        let ctx = ParseCtx::new(chars.clone(), tokens);
        Parser { ctx }
    }

    pub fn new_wo_sp(mut lexer: Lexer) -> Self {
        let tokens = lexer
            .tokens()
            .unwrap()
            .into_iter()
            .filter(|tok| tok.tok != Token::Whitespace)
            .collect();
        let chars = lexer.chars();
        let ctx = ParseCtx::new(chars.clone(), tokens);
        Parser { ctx }
    }

    pub fn parse_ident(&mut self) -> Result<(), ParseError> {
        self.expect(Token::Ident)?;
        Ok(())
    }

    pub fn ident_plus_ident(&mut self) -> Result<(), ParseError> {
        self.expect(Token::Ident)?;
        self.expect(Token::Plus)?;
        self.expect(Token::Ident)?;
        Ok(())
    }
}

impl Parse for Parser {
    type Error = ParseError;
    type Token = Token;

    fn ctx(&self) -> &ParseCtx<Self::Token> {
        &self.ctx
    }

    fn ctx_mut(&mut self) -> &mut ParseCtx<Self::Token> {
        &mut self.ctx
    }

    fn expect_err(&self, expected: Self::Token, found: Option<S<Self::Token>>) -> Self::Error {
        ParseError::Expect(expected, found.map(|s| s.tok))
    }

    fn expect_one_of_err(
        &self,
        expected: &[Self::Token],
        found: Option<S<Self::Token>>,
    ) -> Self::Error {
        let expected = expected.iter().map(|t| t.clone()).collect();
        ParseError::ExpectMulti(expected, found.map(|s| s.tok))
    }
}

fn spans(tokens: &[S<Token>]) -> Vec<(Token, usize, usize)> {
    tokens.iter().map(|t| (t.tok, t.span.start(), t.span.end())).collect()
}

// ---------------------------------------------------------------- scanning

#[test]
fn new_scan_starts_at_zero() {
    let ctx = LexCtx::new("ab");
    assert_eq!(ctx.cursor(), 0);
    assert_eq!(ctx.eof(), false);
    assert_eq!(ctx.current_span(), Span::new(0, 0));
    assert_eq!(ctx.span(), None);
    assert_eq!(ctx.chars(), "ab");
    assert!(LexCtx::new("").eof());
}

#[test]
fn peek2_on_short_input() {
    let a = new_lexer("");
    assert_eq!(a.peek2(), (None, None));
    let a = new_lexer("x");
    assert_eq!(a.peek2(), (Some('x'), None));
}

#[test]
fn peek_does_not_consume() {
    let a = LexCtx::new("ab");
    assert_eq!(a.peek(), Some('a'));
    assert_eq!(a.peek(), Some('a'));
    assert_eq!(a.peek2(), (Some('a'), Some('b')));
    assert_eq!(a.cursor(), 0);
}

#[test]
fn advance_at_eof_leaves_cursor() {
    let mut a = LexCtx::new("a");
    assert_eq!(a.advance(), Some('a'));
    assert_eq!(a.cursor(), 1);
    assert_eq!(a.advance(), None);
    assert_eq!(a.cursor(), 1);
}

#[test]
fn advance_cmp2_consumes_nothing_on_a_partial_match() {
    let mut a = LexCtx::new("abc");
    assert_eq!(a.advance_cmp2('a', 'c'), false);
    assert_eq!(a.cursor(), 0);
    assert_eq!(a.advance_cmp2('a', 'b'), true);
    assert_eq!(a.cursor(), 2);
    assert_eq!(a.advance_cmp2('c', 'c'), false);
    assert_eq!(a.cursor(), 2);
}

#[test]
fn advance_to_stops_before_the_first_match() {
    let mut a = LexCtx::new("abcabc");
    assert_eq!(a.advance_to('c'), true);
    assert_eq!(a.cursor(), 2);
    assert_eq!(a.advance_to('c'), true);
    assert_eq!(a.cursor(), 2);
    a.advance();
    assert_eq!(a.advance_to('c'), true);
    assert_eq!(a.cursor(), 5);
}

#[test]
fn advance_to_and_after_leave_the_cursor_at_eof_when_not_found() {
    let mut a = LexCtx::new("abc");
    assert_eq!(a.advance_to('x'), false);
    assert_eq!(a.cursor(), 3);
    assert!(a.eof());

    let mut a = LexCtx::new("abc");
    a.advance();
    assert_eq!(a.advance_after('a'), false);
    assert_eq!(a.cursor(), 3);
    assert!(a.eof());
}

#[test]
fn advance_after_stops_behind_the_first_match() {
    let mut a = LexCtx::new("abcabc");
    assert_eq!(a.advance_after('b'), true);
    assert_eq!(a.cursor(), 2);
    assert_eq!(a.advance_after('b'), true);
    assert_eq!(a.cursor(), 5);
    assert_eq!(a.advance_after('b'), false);
    assert_eq!(a.cursor(), 6);
}

#[test]
fn advance_while_counts_what_it_consumed() {
    let mut a = LexCtx::new("aaab");
    assert_eq!(a.advance_while(|c| c == 'a'), 3);
    assert_eq!(a.cursor(), 3);
    assert_eq!(a.advance_while(|c| c == 'a'), 0);
    assert_eq!(a.cursor(), 3);
    assert_eq!(a.advance_while(|_| true), 1);
    assert!(a.eof());
    assert_eq!(a.advance_while(|_| true), 0);
}

#[test]
fn span_runs_from_mark_to_cursor() {
    let mut a = LexCtx::new("abcd");
    a.advance();
    a.advance();
    assert_eq!(a.span(), Some(Span::new(0, 2)));
    assert_eq!(a.current_span(), Span::new(0, 2));
    let t = a.emit(7u8);
    assert_eq!(t.span, Span::new(0, 2));
    assert_eq!(t.tok, 7);
    assert_eq!(a.span(), None);
    assert_eq!(a.current_span(), Span::new(2, 2));
    a.advance();
    assert_eq!(a.current_span(), Span::new(2, 3));
    assert_eq!(a.cursor(), 3);
}

#[test]
fn scan_clone_is_independent() {
    let mut a = LexCtx::new("ab");
    a.advance();
    let mut b = a.clone();
    b.advance();
    assert_eq!(a.cursor(), 1);
    assert_eq!(b.cursor(), 2);
    assert_eq!(b.chars(), "ab");
}

// ------------------------------------------------------------------ driver

#[test]
fn tokens_of_ident_plus() {
    let mut a = new_lexer("a+");
    let toks = a.tokens().unwrap();
    assert_eq!(spans(&toks), vec![(Token::Ident, 0, 1), (Token::Plus, 1, 2)]);
    assert!(a.eof());
}

#[test]
fn tokens_tile_the_text() {
    let mut a = new_lexer("ab \"x y\"+c1");
    let toks = a.tokens().unwrap();
    assert_eq!(
        spans(&toks),
        vec![
            (Token::Ident, 0, 2),
            (Token::Whitespace, 2, 3),
            (Token::LitString, 3, 8),
            (Token::Plus, 8, 9),
            (Token::Ident, 9, 11),
        ]
    );
    assert_eq!(a.span(), None);
}

#[test]
fn tokens_of_empty_input() {
    let mut a = new_lexer("");
    assert!(a.tokens().unwrap().is_empty());
}

#[test]
fn tokens_fail_fast() {
    let mut a = new_lexer("a+1+b");
    assert_eq!(a.tokens().unwrap_err(), "unknown char");
    let mut a = new_lexer("a \"bc");
    assert_eq!(a.tokens().unwrap_err(), "sting not closed");
}

#[test]
fn next_s_reports_end_and_errors() {
    let mut a = new_lexer("a?");
    let t = a.next_s().unwrap().unwrap();
    assert_eq!((t.tok, t.span), (Token::Ident, Span::new(0, 1)));
    assert_eq!(a.next_s().unwrap_err(), "unknown char");
    let mut a = new_lexer("");
    assert!(a.next_s().unwrap().is_none());
}

// ----------------------------------------------------------------- parsing

#[test]
fn end_to_end_ident_plus() {
    let mut a = new_parser("a+");
    assert!(a.expect(Token::Ident).is_ok());
    assert!(a.expect(Token::Plus).is_ok());
    assert_eq!(a.eof(), true);
    assert_eq!(a.expect(Token::Ident).unwrap_err(), ParseError::Expect(Token::Ident, None));
    assert_eq!(a.expect(Token::Plus).unwrap_err(), ParseError::Expect(Token::Plus, None));
    assert_eq!(
        a.expect(Token::Whitespace).unwrap_err(),
        ParseError::Expect(Token::Whitespace, None)
    );
    assert_eq!(a.cursor(), 2);
}

#[test]
fn sat_does_not_move_the_cursor() {
    let a = new_parser("a+");
    assert!(a.sat(Token::Ident).is_ok());
    assert_eq!(a.sat(Token::Plus).unwrap_err(), ParseError::Expect(Token::Plus, Some(Token::Ident)));
    assert!(a.sat_one_of(&[Token::Plus, Token::Ident]).is_ok());
    assert_eq!(
        a.sat_one_of(&[]).unwrap_err(),
        ParseError::ExpectMulti(vec![], Some(Token::Ident))
    );
    assert_eq!(a.cursor(), 0);
}

#[test]
fn expect_consumes_nothing_on_an_error() {
    let mut a = new_parser("a+");
    assert!(a.expect(Token::Plus).is_err());
    assert_eq!(a.cursor(), 0);
    assert!(a.expect_one_of(&[Token::Plus, Token::Whitespace]).is_err());
    assert_eq!(a.cursor(), 0);
}

#[test]
fn context_primitives() {
    let chars = Chars::new("a+");
    let tokens = vec![
        S { span: Span::new(0, 1), tok: Token::Ident },
        S { span: Span::new(1, 2), tok: Token::Plus },
    ];
    let mut ctx = ParseCtx::new(chars, tokens);
    assert_eq!(ctx.cursor(), 0);
    assert_eq!(ctx.eof(), false);
    assert_eq!(ctx.chars(), "a+");
    assert_eq!(ctx.span(), None);
    assert_eq!(ctx.get_string(), None);
    assert_eq!(ctx.at(&Token::Ident), true);
    assert_eq!(ctx.at(&Token::Plus), false);
    assert_eq!(ctx.advance_at(&Token::Plus), false);
    assert_eq!(ctx.cursor(), 0);
    assert_eq!(ctx.advance_if(|t| t == Token::Plus), false);
    assert_eq!(ctx.cursor(), 0);
    assert_eq!(ctx.advance_if(|t| t == Token::Ident), true);
    assert_eq!(ctx.cursor(), 1);
    assert_eq!(ctx.peek().unwrap().tok, Token::Plus);
    assert_eq!(ctx.advance_cmp(Token::Plus), true);
    assert_eq!(ctx.eof(), true);
    assert_eq!(ctx.at(&Token::Plus), false);
    assert_eq!(ctx.advance_if(|_| true), false);
    assert!(ctx.advance().is_none());
    assert_eq!(ctx.cursor(), 2);
}

#[test]
fn rollback_undoes_a_partial_match() {
    let mut a = new_parser("a+ b");
    let res = a.parse_roll_back(|p| p.ident_plus_ident());
    assert_eq!(res.unwrap_err(), ParseError::Expect(Token::Ident, Some(Token::Whitespace)));
    assert_eq!(a.cursor(), 0);

    let res = a.parse(|p| p.ident_plus_ident());
    assert!(res.is_err());
    assert_eq!(a.cursor(), 0);

    let res = a.parse_n(|p| p.ident_plus_ident());
    assert!(res.is_err());
    assert_eq!(a.cursor(), 0);

    let mut a = new_parser("a+b");
    assert!(a.parse(|p| p.ident_plus_ident()).is_ok());
    assert_eq!(a.cursor(), 3);
}

#[test]
fn rollback_opt_undoes_on_none_and_on_error() {
    let mut a = new_parser("a+b");
    let res: Result<Option<()>, ParseError> =
        a.parse_roll_back_opt(|p| p.ident_plus_ident().map(|_| None));
    assert_eq!(res.unwrap(), None);
    assert_eq!(a.cursor(), 0);

    let res = a.parse_roll_back_opt(|p| {
        p.expect(Token::Ident)?;
        p.expect(Token::Ident).map(Some)
    });
    assert!(res.is_err());
    assert_eq!(a.cursor(), 0);

    let res = a.parse_roll_back_opt(|p| p.ident_plus_ident().map(Some));
    assert_eq!(res.unwrap(), Some(()));
    assert_eq!(a.cursor(), 3);
}

#[test]
fn no_scope_is_left_open() {
    let mut a = new_parser("a+");
    assert!(a.parse(|p| p.expect(Token::Ident)).is_ok());
    assert_eq!(a.span(), None);
    assert!(a.parse(|p| p.expect(Token::Ident)).is_err());
    assert_eq!(a.span(), None);
    assert!(a.parse_n(|p| p.expect(Token::Plus)).is_ok());
    assert_eq!(a.span(), None);
    assert_eq!(a.get_string(), None);
}

#[test]
fn span_and_text_inside_a_scope() {
    let mut a = new_parser("ab + cd");
    let res = a
        .parse(|p| {
            assert_eq!(p.span(), None);
            assert_eq!(p.get_string(), None);
            p.expect(Token::Ident)?;
            assert_eq!(p.span(), Some(Span::new(0, 2)));
            assert_eq!(p.get_string().unwrap(), "ab");
            p.expect(Token::Whitespace)?;
            p.expect(Token::Plus)?;
            assert_eq!(p.span(), Some(Span::new(0, 4)));
            assert_eq!(p.get_string().unwrap(), "ab +");
            let inner = p.parse(|p| {
                assert_eq!(p.span(), None);
                p.expect(Token::Whitespace)?;
                p.expect(Token::Ident)?;
                Ok((p.span(), p.get_string()))
            })?;
            assert_eq!(inner, (Some(Span::new(4, 7)), Some(" cd".to_string())));
            Ok((p.span(), p.get_string()))
        })
        .unwrap();
    assert_eq!(res, (Some(Span::new(0, 7)), Some("ab + cd".to_string())));
}

#[test]
fn node_span_merges_first_and_last_token() {
    let mut a = new_parser("ab + cd");
    let n = a.parse_n(|p| p.ident_plus_ident_ws()).unwrap();
    assert_eq!(n.span, Span::new(0, 7));
    assert_eq!(n.span, Span::new(0, 2).merge(Span::new(5, 7)));
    assert_eq!(n.id.get(), 0);
}

impl Parser {
    pub fn ident_plus_ident_ws(&mut self) -> Result<(), ParseError> {
        self.expect(Token::Ident)?;
        self.expect(Token::Whitespace)?;
        self.expect(Token::Plus)?;
        self.expect(Token::Whitespace)?;
        self.expect(Token::Ident)?;
        Ok(())
    }
}

#[test]
fn node_of_nothing_has_an_empty_span_where_it_stands() {
    let mut a = new_parser("ab+");
    let n = a.parse_n(|_| Ok(5u8)).unwrap();
    assert_eq!(n.data, 5);
    assert_eq!(n.span, Span::new(0, 0));
    assert_eq!(a.cursor(), 0);

    a.advance();
    let n = a.parse_n(|_| Ok(())).unwrap();
    assert_eq!(n.span, Span::new(2, 2));
    assert_eq!(n.id.get(), 1);

    a.advance();
    assert!(a.eof());
    let n = a.parse_n(|_| Ok(())).unwrap();
    assert_eq!(n.span, Span::new(3, 3));
    assert_eq!(n.id.get(), 2);

    let mut e = new_parser("");
    let n = e.parse_n(|_| Ok(())).unwrap();
    assert_eq!(n.span, Span::new(0, 0));
}

#[test]
fn make_node_inside_a_scope() {
    let mut a = new_parser("a+b");
    let nodes = a
        .parse(|p| {
            p.expect(Token::Ident)?;
            let first = p.make_node('x');
            p.expect(Token::Plus)?;
            let second = p.make_node('y');
            Ok((first, second))
        })
        .unwrap();
    assert_eq!(nodes.0.span, Span::new(0, 1));
    assert_eq!(nodes.0.id.get(), 0);
    assert_eq!(nodes.0.data, 'x');
    assert_eq!(nodes.1.span, Span::new(0, 2));
    assert_eq!(nodes.1.id.get(), 1);
}

#[test]
fn ids_are_not_reused_after_a_rollback() {
    let mut a = new_parser("a+b");
    let first = a.parse_n(|p| p.expect(Token::Ident)).unwrap();
    assert_eq!(first.id.get(), 0);

    // the inner node is built, then the outer rule fails and is rolled back
    let res = a.parse_n(|p| {
        let inner = p.parse_n(|p| p.expect(Token::Plus))?;
        assert_eq!(inner.id.get(), 1);
        p.expect(Token::Plus)
    });
    assert!(res.is_err());
    assert_eq!(a.cursor(), 1);

    let third = a.parse_n(|p| p.expect(Token::Plus)).unwrap();
    assert_eq!(third.id.get(), 2);

    let nested = a
        .parse_n(|p| p.parse_n(|p| p.expect(Token::Ident)))
        .unwrap();
    assert_eq!(nested.data.id.get(), 3);
    assert_eq!(nested.id.get(), 4);
    assert_eq!(nested.span, Span::new(2, 3));
}

#[test]
fn ids_continue_across_parses() {
    let mut lexer = new_lexer("a");
    let tokens = lexer.tokens().unwrap();
    let mut gen = IdGen::new();
    assert_eq!(gen.next().get(), 0);
    let mut first = Parser { ctx: ParseCtx::with_id_gen(lexer.chars().clone(), tokens, gen) };
    assert_eq!(first.parse_n(|p| p.expect(Token::Ident)).unwrap().id.get(), 1);
    let gen = first.ctx.into_id_gen();

    let mut lexer = new_lexer("+");
    let tokens = lexer.tokens().unwrap();
    let mut second = Parser { ctx: ParseCtx::with_id_gen(lexer.chars().clone(), tokens, gen) };
    assert_eq!(second.cursor(), 0);
    assert_eq!(second.parse_n(|p| p.expect(Token::Plus)).unwrap().id.get(), 2);
}

#[test]
fn lookahead_gates_do_not_roll_back() {
    let mut a = new_parser("a+b");
    let res = a.parse_l1(Token::Ident, |p| p.ident_plus_plus());
    assert!(res.is_err());
    assert_eq!(a.cursor(), 2);

    let mut a = new_parser("a+b");
    let res = a.parse_l1_not(Token::Plus, |p| p.ident_plus_plus());
    assert!(res.is_err());
    assert_eq!(a.cursor(), 2);

    let mut a = new_parser("a+b");
    let res = a.parse_l1_if(|t| *t == Token::Ident, |p| p.ident_plus_plus());
    assert!(res.is_err());
    assert_eq!(a.cursor(), 2);
}

impl Parser {
    pub fn ident_plus_plus(&mut self) -> Result<(), ParseError> {
        self.expect(Token::Ident)?;
        self.expect(Token::Plus)?;
        self.expect(Token::Plus)?;
        Ok(())
    }

    pub fn plus_plus(&mut self) -> Result<(), ParseError> {
        self.expect(Token::Plus)?;
        self.expect(Token::Plus)?;
        Ok(())
    }
}

#[test]
fn lookahead_gate_with_advance_rolls_back() {
    let mut a = new_parser("a+b");
    let res = a.parse_l1_adv(Token::Ident, |p| p.plus_plus());
    assert_eq!(res.unwrap_err(), ParseError::Expect(Token::Plus, Some(Token::Ident)));
    assert_eq!(a.cursor(), 0);

    let res = a.parse_l1_adv(Token::Ident, |p| p.expect(Token::Plus));
    assert_eq!(res.unwrap().unwrap().tok, Token::Plus);
    assert_eq!(a.cursor(), 2);
}

#[test]
fn one_or_more_with_separator() {
    let mut a = new_parser("a b c+");
    let v = a.parse_some(|p| p.parse_ident(), Token::Whitespace).unwrap();
    assert_eq!(v.len(), 3);
    assert_eq!(a.cursor(), 5);
    assert!(a.sat(Token::Plus).is_ok());

    let mut a = new_parser("a");
    let v = a.parse_some(|p| p.parse_ident(), Token::Whitespace).unwrap();
    assert_eq!(v.len(), 1);
    assert!(a.eof());
}

#[test]
fn one_or_more_fails_only_on_the_first_item() {
    let mut a = new_parser("+a");
    let res = a.parse_some(|p| p.parse_ident(), Token::Whitespace);
    assert_eq!(res.unwrap_err(), ParseError::Expect(Token::Ident, Some(Token::Plus)));
    assert_eq!(a.cursor(), 0);

    let mut a = new_parser("");
    let res = a.parse_some(|p| p.parse_ident(), Token::Whitespace);
    assert_eq!(res.unwrap_err(), ParseError::Expect(Token::Ident, None));

    // a separator with no item behind it ends the list and is put back
    let mut a = new_parser("a b +");
    let v = a.parse_some(|p| p.parse_ident(), Token::Whitespace).unwrap();
    assert_eq!(v.len(), 2);
    assert_eq!(a.cursor(), 3);
    assert!(a.sat(Token::Whitespace).is_ok());

    let mut a = new_parser("a ");
    let v = a.parse_some(|p| p.parse_ident(), Token::Whitespace).unwrap();
    assert_eq!(v.len(), 1);
    assert_eq!(a.cursor(), 1);
}

#[test]
fn one_or_more_with_lookahead() {
    let mut a = new_parser_wo_sp("a b c+");
    let v = a.parse_some_l1(|p| p.parse_ident(), Token::Ident).unwrap();
    assert_eq!(v.len(), 3);
    assert!(a.sat(Token::Plus).is_ok());

    let mut a = new_parser_wo_sp("+ a");
    let res = a.parse_some_l1(|p| p.parse_ident(), Token::Ident);
    assert_eq!(res.unwrap_err(), ParseError::Expect(Token::Ident, Some(Token::Plus)));
    assert_eq!(a.cursor(), 0);

    let mut a = new_parser("a++b++ c");
    let res = a.parse_some_l1(
        |p| {
            p.expect(Token::Ident)?;
            p.plus_plus()
        },
        Token::Ident,
    );
    assert_eq!(res.unwrap().len(), 2);
    assert_eq!(a.cursor(), 6);

    let mut a = new_parser("a++a+b");
    let res = a.parse_some_l1(
        |p| {
            p.expect(Token::Ident)?;
            p.plus_plus()
        },
        Token::Ident,
    );
    assert_eq!(res.unwrap_err(), ParseError::Expect(Token::Plus, Some(Token::Ident)));
    assert_eq!(a.cursor(), 5);
}

#[test]
fn zero_or_more_with_lookahead() {
    let mut a = new_parser_wo_sp("a b c+");
    let v = a.parse_many_l1(|p| p.parse_ident(), Token::Ident).unwrap();
    assert_eq!(v.len(), 3);
    assert!(a.sat(Token::Plus).is_ok());

    let v = a.parse_many_l1(|p| p.parse_ident(), Token::Ident).unwrap();
    assert_eq!(v.len(), 0);
    assert_eq!(a.cursor(), 3);

    let mut a = new_parser("");
    let v = a.parse_many_l1(|p| p.parse_ident(), Token::Ident).unwrap();
    assert!(v.is_empty());

    let mut a = new_parser("++++a");
    let v = a.parse_many_l1(|p| p.plus_plus(), Token::Plus).unwrap();
    assert_eq!(v.len(), 2);
    assert_eq!(a.cursor(), 4);

    let mut a = new_parser("+++a");
    let res = a.parse_many_l1(|p| p.plus_plus(), Token::Plus);
    assert_eq!(res.unwrap_err(), ParseError::Expect(Token::Plus, Some(Token::Ident)));
    assert_eq!(a.cursor(), 3);
}

#[test]
fn zero_or_more_with_predicate() {
    let mut a = new_parser("a+b +");
    let v = a
        .parse_many_l1_if(|t| *t != Token::Whitespace, |p| p.advance().map(|s| s.tok).ok_or(ParseError::Expect(Token::Ident, None)))
        .unwrap();
    assert_eq!(v, vec![Token::Ident, Token::Plus, Token::Ident]);
    assert_eq!(a.cursor(), 3);

    let v = a
        .parse_many_l1_if(|t| *t != Token::Whitespace, |p| p.parse_ident())
        .unwrap();
    assert!(v.is_empty());
    assert_eq!(a.cursor(), 3);

    let mut a = new_parser("a+");
    let res = a.parse_many_l1_if(|_| true, |p| p.parse_ident());
    assert_eq!(res.unwrap_err(), ParseError::Expect(Token::Ident, Some(Token::Plus)));
    assert_eq!(a.cursor(), 1);

    let mut a = new_parser("aa bb");
    let v = a.parse_many_l1_if(|_| true, |p| p.advance().map(|s| s.span).ok_or(ParseError::Expect(Token::Ident, None))).unwrap();
    assert_eq!(v, vec![Span::new(0, 2), Span::new(2, 3), Span::new(3, 5)]);
    assert!(a.eof());
}

#[test]
fn until_terminator_edge_cases() {
    // the terminator is the first token
    let mut a = new_parser("+a");
    let v = a.parse_many_to(|p| p.parse_ident(), Token::Whitespace, Token::Plus).unwrap();
    assert!(v.is_empty());
    assert_eq!(a.cursor(), 0);

    // the tokens run out behind an item
    let mut a = new_parser("a b");
    let res = a.parse_many_to(|p| p.parse_ident(), Token::Whitespace, Token::Plus);
    assert_eq!(res.unwrap_err(), ParseError::Expect(Token::Whitespace, None));
    assert!(a.eof());

    // the tokens run out behind a separator
    let mut a = new_parser("a ");
    let res = a.parse_many_to(|p| p.parse_ident(), Token::Whitespace, Token::Plus);
    assert_eq!(res.unwrap_err(), ParseError::Expect(Token::Ident, None));
    assert!(a.eof());

    // no tokens at all
    let mut a = new_parser("");
    let res = a.parse_many_to(|p| p.parse_ident(), Token::Whitespace, Token::Plus);
    assert_eq!(res.unwrap_err(), ParseError::Expect(Token::Ident, None));
    assert!(a.eof());

    // neither a separator nor the terminator behind an item
    let mut a = new_parser("a\"x\"+");
    let res = a.parse_many_to(|p| p.parse_ident(), Token::Whitespace, Token::Plus);
    assert_eq!(res.unwrap_err(), ParseError::Expect(Token::Whitespace, Some(Token::LitString)));
    assert_eq!(a.cursor(), 1);

    // an item fails before the tokens run out: nothing is put back
    let mut a = new_parser("a \"x\"");
    let res = a.parse_many_to(|p| p.parse_ident(), Token::Whitespace, Token::Plus);
    assert_eq!(res.unwrap_err(), ParseError::Expect(Token::Ident, Some(Token::LitString)));
    assert_eq!(a.cursor(), 2);
    assert!(!a.eof());
}

#[test]
fn until_and_past_terminator() {
    let mut a = new_parser("a b+c");
    let v = a.parse_many_after(|p| p.parse_ident(), Token::Whitespace, Token::Plus).unwrap();
    assert_eq!(v.len(), 2);
    assert_eq!(a.cursor(), 4);

    let mut a = new_parser("+");
    let v = a.parse_many_after(|p| p.parse_ident(), Token::Whitespace, Token::Plus).unwrap();
    assert!(v.is_empty());
    assert!(a.eof());

    let mut a = new_parser("a b");
    let res = a.parse_many_after(|p| p.parse_ident(), Token::Whitespace, Token::Plus);
    assert_eq!(res.unwrap_err(), ParseError::Expect(Token::Whitespace, None));
    assert!(a.eof());
}
