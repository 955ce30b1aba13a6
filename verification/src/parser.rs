//! The parser: from tokens to the syntax tree, by recursive descent.
use vstd::prelude::*;
use crate::ast::{
    exprs_model, lemma_exprs_model_push, lemma_rows_model_push, rows_model, statements_model,
    BinaryOp, Expr, Program, SpecExpr, SpecStatement, Statement, TypeAnnotation,
};
use crate::chars::{push_char, text_is};
use crate::lexer::{tokens_model, SpecToken, Token};
use crate::numbers::literal_to_usize;
use crate::parser_spec::{
    additive_op, additive_rest, call_arguments, element_list, expect, lemma_additive_advances,
    lemma_element_list_advances, lemma_expression_advances, lemma_multiplicative_advances,
    lemma_primary_advances, lemma_statement_advances, matrix_rows, multiplicative_op,
    multiplicative_rest, parse_additive, parse_array_literal, parse_expression,
    parse_let_statement, parse_multiplicative, parse_pipeline, parse_primary, parse_statement,
    parse_statements, parse_type_annotation, pipeline_rest, slice_suffix, spec_parse_program, tok,
    Parsed, SpecParseError,
};

verus! {

/// Why parsing stopped.
#[derive(Debug)]
pub enum ParseError {
    Expected { expected: Token, found: Token },
    ExpectedIdentifier,
    UnknownTypeAnnotation(String),
    ExpectedTypeAnnotation,
    UnexpectedToken(Token),
    ExpectedSliceEnd,
    ExpectedColumnSliceEnd,
}

impl View for ParseError {
    type V = SpecParseError;

    open spec fn view(&self) -> SpecParseError {
        match self {
            ParseError::Expected { expected, found } => SpecParseError::Expected {
                expected: expected@,
                found: found@,
            },
            ParseError::ExpectedIdentifier => SpecParseError::ExpectedIdentifier,
            ParseError::UnknownTypeAnnotation(s) => SpecParseError::UnknownTypeAnnotation(s@),
            ParseError::ExpectedTypeAnnotation => SpecParseError::ExpectedTypeAnnotation,
            ParseError::UnexpectedToken(t) => SpecParseError::UnexpectedToken(t@),
            ParseError::ExpectedSliceEnd => SpecParseError::ExpectedSliceEnd,
            ParseError::ExpectedColumnSliceEnd => SpecParseError::ExpectedColumnSliceEnd,
        }
    }
}

/// The token sequences the parser takes: they end with `Eof`, as the
/// lexer's output does.
pub open spec fn ends_with_eof(ts: Seq<SpecToken>) -> bool {
    ts.len() > 0 && ts.last() == SpecToken::Eof
}

/// An `Eof` occurs at `p` or after it.
pub open spec fn eof_from(ts: Seq<SpecToken>, p: int) -> bool {
    exists|e: int| p <= e < ts.len() && #[trigger] ts[e] == SpecToken::Eof
}

/// An exec parse result `r`, with the parser at `pos`, agrees with the spec result `s`.
pub open spec fn outcome<A: View>(r: Result<A, ParseError>, pos: int, s: Parsed<A::V>) -> bool {
    match (r, s) {
        (Ok(x), Ok((v, q))) => x@ == v && pos == q,
        (Err(x), Err(e)) => x@ == e,
        _ => false,
    }
}

/// An exec result holding a list of expressions agrees with the spec result `s`.
pub open spec fn outcome_list(
    r: Result<Vec<Expr>, ParseError>,
    pos: int,
    s: Parsed<Seq<SpecExpr>>,
) -> bool {
    match (r, s) {
        (Ok(x), Ok((v, q))) => exprs_model(x@) == v && pos == q,
        (Err(x), Err(e)) => x@ == e,
        _ => false,
    }
}

/// A copy of a token.
fn copy_token(t: &Token) -> (r: Token)
    ensures
        r@ == t@,
{
    match t {
        Token::Let => Token::Let,
        Token::Ident(s) => Token::Ident(s.clone()),
        Token::Colon => Token::Colon,
        Token::Assign => Token::Assign,
        Token::Semicolon => Token::Semicolon,
        Token::Number(s) => Token::Number(s.clone()),
        Token::Decimal(s) => Token::Decimal(s.clone()),
        Token::Plus => Token::Plus,
        Token::Minus => Token::Minus,
        Token::Star => Token::Star,
        Token::Slash => Token::Slash,
        Token::At => Token::At,
        Token::PipeGreater => Token::PipeGreater,
        Token::DotPlus => Token::DotPlus,
        Token::DotMinus => Token::DotMinus,
        Token::DotStar => Token::DotStar,
        Token::DotSlash => Token::DotSlash,
        Token::LParen => Token::LParen,
        Token::RParen => Token::RParen,
        Token::LBracket => Token::LBracket,
        Token::RBracket => Token::RBracket,
        Token::Comma => Token::Comma,
        Token::DotDot => Token::DotDot,
        Token::Eof => Token::Eof,
    }
}

/// Whether two tokens are the same.
fn same_token(a: &Token, b: &Token) -> (r: bool)
    ensures
        r == (a@ == b@),
{
    match a {
        Token::Ident(x) => match b {
            Token::Ident(y) => *x == *y,
            _ => false,
        },
        Token::Number(x) => match b {
            Token::Number(y) => *x == *y,
            _ => false,
        },
        Token::Decimal(x) => match b {
            Token::Decimal(y) => *x == *y,
            _ => false,
        },
        Token::Let => matches!(b, Token::Let),
        Token::Colon => matches!(b, Token::Colon),
        Token::Assign => matches!(b, Token::Assign),
        Token::Semicolon => matches!(b, Token::Semicolon),
        Token::Plus => matches!(b, Token::Plus),
        Token::Minus => matches!(b, Token::Minus),
        Token::Star => matches!(b, Token::Star),
        Token::Slash => matches!(b, Token::Slash),
        Token::At => matches!(b, Token::At),
        Token::PipeGreater => matches!(b, Token::PipeGreater),
        Token::DotPlus => matches!(b, Token::DotPlus),
        Token::DotMinus => matches!(b, Token::DotMinus),
        Token::DotStar => matches!(b, Token::DotStar),
        Token::DotSlash => matches!(b, Token::DotSlash),
        Token::LParen => matches!(b, Token::LParen),
        Token::RParen => matches!(b, Token::RParen),
        Token::LBracket => matches!(b, Token::LBracket),
        Token::RBracket => matches!(b, Token::RBracket),
        Token::Comma => matches!(b, Token::Comma),
        Token::DotDot => matches!(b, Token::DotDot),
        Token::Eof => matches!(b, Token::Eof),
    }
}

fn additive_token_op(t: &Token) -> (r: Option<BinaryOp>)
    ensures
        r == additive_op(t@),
{
    match t {
        Token::Plus => Some(BinaryOp::Add),
        Token::Minus => Some(BinaryOp::Sub),
        Token::DotPlus => Some(BinaryOp::ElementAdd),
        Token::DotMinus => Some(BinaryOp::ElementSub),
        _ => None,
    }
}

fn multiplicative_token_op(t: &Token) -> (r: Option<BinaryOp>)
    ensures
        r == multiplicative_op(t@),
{
    match t {
        Token::Star => Some(BinaryOp::Mul),
        Token::Slash => Some(BinaryOp::Div),
        Token::At => Some(BinaryOp::MatMul),
        Token::DotStar => Some(BinaryOp::ElementMul),
        Token::DotSlash => Some(BinaryOp::ElementDiv),
        _ => None,
    }
}

/// The parser: the tokens, and the position reached.
pub struct Parser {
    tokens: Vec<Token>,
    pos: usize,
}

impl Parser {
    /// The tokens, as models.
    pub closed spec fn token_models(&self) -> Seq<SpecToken> {
        tokens_model(self.tokens@)
    }

    /// The position reached.
    pub closed spec fn position(&self) -> int {
        self.pos as int
    }

    #[verifier::type_invariant]
    closed spec fn wf(&self) -> bool {
        &&& eof_from(tokens_model(self.tokens@), self.pos as int)
        &&& self.pos < self.tokens@.len()
    }

    /// A parser at the start of `tokens`, in which an `Eof` occurs; parsing
    /// stops at the first one.
    pub fn new(tokens: Vec<Token>) -> (p: Self)
        requires
            tokens_model(tokens@).contains(SpecToken::Eof),
        ensures
            p.token_models() == tokens_model(tokens@),
            p.position() == 0,
    {
        proof {
            let t = tokens_model(tokens@);
            let e = choose|e: int| 0 <= e < t.len() && t[e] == SpecToken::Eof;
            assert(t[e] == SpecToken::Eof);
        }
        Parser { tokens, pos: 0 }
    }

    fn current(&self) -> (r: &Token)
        ensures
            r@ == tok(self.token_models(), self.position()),
            0 <= self.position() < self.token_models().len(),
    {
        proof {
            use_type_invariant(self);
        }
        &self.tokens[self.pos]
    }

    /// Moves past the current token, which is not `Eof`; past the last
    /// token the parser never moves.
    fn advance(&mut self)
        requires
            tok(old(self).token_models(), old(self).position()) != SpecToken::Eof,
        ensures
            final(self).token_models() == old(self).token_models(),
            final(self).position() == old(self).position() + 1,
            final(self).position() < final(self).token_models().len(),
    {
        proof {
            use_type_invariant(&*self);
            let t = tokens_model(self.tokens@);
            let e = choose|e: int| self.pos <= e < t.len() && t[e] == SpecToken::Eof;
            assert(t[e] == SpecToken::Eof);
            assert(e != self.pos);
        }
        if self.pos < self.tokens.len() - 1 {
            self.pos = self.pos + 1;
        }
    }

    /// Takes the token `expected` (never `Eof`).
    fn expect(&mut self, expected: Token) -> (r: Result<(), ParseError>)
        requires
            expected@ != SpecToken::Eof,
        ensures
            final(self).token_models() == old(self).token_models(),
            match expect(old(self).token_models(), old(self).position(), expected@) {
                Ok(q) => r is Ok && final(self).position() == q,
                Err(e) => r matches Err(x) && x@ == e,
            },
    {
        if same_token(self.current(), &expected) {
            self.advance();
            Ok(())
        } else {
            Err(ParseError::Expected { expected, found: copy_token(self.current()) })
        }
    }

    fn parse_expression(&mut self) -> (r: Result<Expr, ParseError>)
        ensures
            final(self).token_models() == old(self).token_models(),
            outcome(r, final(self).position(), parse_expression(old(self).token_models(), old(self).position())),
        decreases old(self).token_models().len() - old(self).position(), 20int,
    {
        proof {
            use_type_invariant(&*self);
        }
        self.parse_pipeline()
    }

    fn parse_pipeline(&mut self) -> (r: Result<Expr, ParseError>)
        ensures
            final(self).token_models() == old(self).token_models(),
            outcome(r, final(self).position(), parse_pipeline(old(self).token_models(), old(self).position())),
        decreases old(self).token_models().len() - old(self).position(), 19int,
    {
        proof {
            use_type_invariant(&*self);
        }
        let ghost t = self.token_models();
        let ghost p = self.position();
        proof {
            lemma_additive_advances(t, p);
        }
        let mut left = match self.parse_additive() {
            Ok(e) => e,
            Err(e) => return Err(e),
        };
        loop
            invariant
                self.token_models() == t,
                t == old(self).token_models(),
                p == old(self).position(),
                p < self.position() <= t.len(),
                pipeline_rest(t, left@, self.position()) == parse_pipeline(t, p),
            decreases t.len() - self.position(),
        {
            proof {
                use_type_invariant(&*self);
            }
            if !matches!(self.current(), Token::PipeGreater) {
                return Ok(left);
            }
            let ghost q = self.position();
            self.advance();
            proof {
                lemma_additive_advances(t, q + 1);
            }
            let right = match self.parse_additive() {
                Ok(e) => e,
                Err(e) => return Err(e),
            };
            left = Expr::Binary { op: BinaryOp::Pipe, left: Box::new(left), right: Box::new(right) };
        }
    }

    fn parse_additive(&mut self) -> (r: Result<Expr, ParseError>)
        ensures
            final(self).token_models() == old(self).token_models(),
            outcome(r, final(self).position(), parse_additive(old(self).token_models(), old(self).position())),
        decreases old(self).token_models().len() - old(self).position(), 17int,
    {
        proof {
            use_type_invariant(&*self);
        }
        let ghost t = self.token_models();
        let ghost p = self.position();
        proof {
            lemma_multiplicative_advances(t, p);
        }
        let mut left = match self.parse_multiplicative() {
            Ok(e) => e,
            Err(e) => return Err(e),
        };
        loop
            invariant
                self.token_models() == t,
                t == old(self).token_models(),
                p == old(self).position(),
                p < self.position() <= t.len(),
                additive_rest(t, left@, self.position()) == parse_additive(t, p),
            decreases t.len() - self.position(),
        {
            proof {
                use_type_invariant(&*self);
            }
            let op = match additive_token_op(self.current()) {
                Some(op) => op,
                None => return Ok(left),
            };
            let ghost q = self.position();
            self.advance();
            proof {
                lemma_multiplicative_advances(t, q + 1);
            }
            let right = match self.parse_multiplicative() {
                Ok(e) => e,
                Err(e) => return Err(e),
            };
            left = Expr::Binary { op, left: Box::new(left), right: Box::new(right) };
        }
    }

    fn parse_multiplicative(&mut self) -> (r: Result<Expr, ParseError>)
        ensures
            final(self).token_models() == old(self).token_models(),
            outcome(r, final(self).position(), parse_multiplicative(old(self).token_models(), old(self).position())),
        decreases old(self).token_models().len() - old(self).position(), 15int,
    {
        proof {
            use_type_invariant(&*self);
        }
        let ghost t = self.token_models();
        let ghost p = self.position();
        proof {
            lemma_primary_advances(t, p);
        }
        let mut left = match self.parse_primary() {
            Ok(e) => e,
            Err(e) => return Err(e),
        };
        loop
            invariant
                self.token_models() == t,
                t == old(self).token_models(),
                p == old(self).position(),
                p < self.position() <= t.len(),
                multiplicative_rest(t, left@, self.position()) == parse_multiplicative(t, p),
            decreases t.len() - self.position(),
        {
            proof {
                use_type_invariant(&*self);
            }
            let op = match multiplicative_token_op(self.current()) {
                Some(op) => op,
                None => return Ok(left),
            };
            let ghost q = self.position();
            self.advance();
            proof {
                lemma_primary_advances(t, q + 1);
            }
            let right = match self.parse_primary() {
                Ok(e) => e,
                Err(e) => return Err(e),
            };
            left = Expr::Binary { op, left: Box::new(left), right: Box::new(right) };
        }
    }

    /// The number at the current token, taken, or `None`.
    fn take_number(&mut self) -> (r: Option<usize>)
        ensures
            final(self).token_models() == old(self).token_models(),
            match tok(old(self).token_models(), old(self).position()) {
                SpecToken::Number(n) => r == Some(crate::numbers::literal_count(n))
                    && final(self).position() == old(self).position() + 1,
                _ => r is None && final(self).position() == old(self).position(),
            },
    {
        let v = match self.current() {
            Token::Number(n) => Some(literal_to_usize(n)),
            _ => None,
        };
        if v.is_some() {
            self.advance();
        }
        v
    }

    /// The slice that may follow a primary expression.
    fn parse_slice_suffix(&mut self, expr: Expr) -> (r: Result<Expr, ParseError>)
        ensures
            final(self).token_models() == old(self).token_models(),
            outcome(r, final(self).position(), slice_suffix(old(self).token_models(), expr@, old(self).position())),
    {
        if !matches!(self.current(), Token::LBracket) {
            return Ok(expr);
        }
        self.advance();
        let r_start = match self.take_number() {
            Some(n) => n,
            None => 0,
        };
        match self.expect(Token::DotDot) {
            Ok(()) => {},
            Err(e) => return Err(e),
        }
        let r_end = match self.take_number() {
            Some(n) => n,
            None => return Err(ParseError::ExpectedSliceEnd),
        };
        if matches!(self.current(), Token::Comma) {
            self.advance();
            let c_start = match self.take_number() {
                Some(n) => n,
                None => 0,
            };
            match self.expect(Token::DotDot) {
                Ok(()) => {},
                Err(e) => return Err(e),
            }
            let c_end = match self.take_number() {
                Some(n) => n,
                None => return Err(ParseError::ExpectedColumnSliceEnd),
            };
            match self.expect(Token::RBracket) {
                Ok(()) => {},
                Err(e) => return Err(e),
            }
            Ok(Expr::MatrixSlice { target: Box::new(expr), r_start, r_end, c_start, c_end })
        } else {
            match self.expect(Token::RBracket) {
                Ok(()) => {},
                Err(e) => return Err(e),
            }
            Ok(Expr::Slice { target: Box::new(expr), start: r_start, end: r_end })
        }
    }

    /// The arguments of a call, at the first one.
    fn parse_call_arguments(&mut self) -> (r: Result<Vec<Expr>, ParseError>)
        ensures
            final(self).token_models() == old(self).token_models(),
            outcome_list(r, final(self).position(), call_arguments(old(self).token_models(), old(self).position(), seq![])),
        decreases old(self).token_models().len() - old(self).position(), 21int,
    {
        proof {
            use_type_invariant(&*self);
        }
        let ghost t = self.token_models();
        let ghost p = self.position();
        let mut args: Vec<Expr> = Vec::new();
        assert(exprs_model(args@) =~= seq![]);
        loop
            invariant_except_break
                self.token_models() == t,
                t == old(self).token_models(),
                p == old(self).position(),
                p <= self.position() < t.len(),
                call_arguments(t, self.position(), exprs_model(args@)) == call_arguments(t, p, seq![]),
            ensures
                self.token_models() == t,
                call_arguments(t, p, seq![]) == Ok::<(Seq<SpecExpr>, int), SpecParseError>(
                    (exprs_model(args@), self.position()),
                ),
            decreases t.len() - self.position(),
        {
            proof {
                use_type_invariant(&*self);
            }
            let ghost q0 = self.position();
            proof {
                lemma_expression_advances(t, q0);
            }
            let e = match self.parse_expression() {
                Ok(e) => e,
                Err(err) => return Err(err),
            };
            proof {
                lemma_exprs_model_push(args@, e);
            }
            args.push(e);
            if matches!(self.current(), Token::Comma) {
                self.advance();
            } else {
                break;
            }
        }
        Ok(args)
    }

    /// The elements of a row or vector, up to the `]` (not taken).
    fn parse_element_list(&mut self) -> (r: Result<Vec<Expr>, ParseError>)
        ensures
            final(self).token_models() == old(self).token_models(),
            outcome_list(r, final(self).position(), element_list(old(self).token_models(), old(self).position(), seq![])),
        decreases old(self).token_models().len() - old(self).position(), 21int,
    {
        proof {
            use_type_invariant(&*self);
        }
        let ghost t = self.token_models();
        let ghost p = self.position();
        let mut elems: Vec<Expr> = Vec::new();
        assert(exprs_model(elems@) =~= seq![]);
        while !matches!(self.current(), Token::RBracket)
            invariant
                self.token_models() == t,
                t == old(self).token_models(),
                p == old(self).position(),
                p <= self.position() < t.len(),
                element_list(t, self.position(), exprs_model(elems@)) == element_list(t, p, seq![]),
            decreases t.len() - self.position(),
        {
            proof {
                use_type_invariant(&*self);
            }
            let ghost q0 = self.position();
            proof {
                lemma_expression_advances(t, q0);
            }
            let ghost acc = exprs_model(elems@);
            let e = match self.parse_expression() {
                Ok(e) => e,
                Err(err) => return Err(err),
            };
            proof {
                lemma_exprs_model_push(elems@, e);
            }
            elems.push(e);
            let ghost q = self.position();
            if matches!(self.current(), Token::Comma) {
                self.advance();
            }
            assert(element_list(t, q0, acc) == element_list(t, self.position(), exprs_model(elems@)));
        }
        Ok(elems)
    }

    /// An array literal, at its `[`.
    fn parse_array_literal(&mut self) -> (r: Result<Expr, ParseError>)
        requires
            tok(old(self).token_models(), old(self).position()) == SpecToken::LBracket,
        ensures
            final(self).token_models() == old(self).token_models(),
            outcome(r, final(self).position(), parse_array_literal(old(self).token_models(), old(self).position() + 1)),
        decreases old(self).token_models().len() - old(self).position(), 12int,
    {
        proof {
            use_type_invariant(&*self);
        }
        let ghost t = self.token_models();
        self.advance();
        let ghost p = self.position();
        if matches!(self.current(), Token::LBracket) {
            let mut rows: Vec<Vec<Expr>> = Vec::new();
            assert(rows_model(rows@) =~= seq![]);
            while matches!(self.current(), Token::LBracket)
                invariant
                    self.token_models() == t,
                    t == old(self).token_models(),
                    p == old(self).position() + 1,
                    p <= self.position() < t.len(),
                    matrix_rows(t, self.position(), rows_model(rows@)) == matrix_rows(t, p, seq![]),
                decreases t.len() - self.position(),
            {
                proof {
                    use_type_invariant(&*self);
                }
                let ghost q0 = self.position();
                self.advance();
                proof {
                    lemma_element_list_advances(t, q0 + 1, seq![]);
                }
                let row = match self.parse_element_list() {
                    Ok(row) => row,
                    Err(e) => return Err(e),
                };
                match self.expect(Token::RBracket) {
                    Ok(()) => {},
                    Err(e) => return Err(e),
                }
                proof {
                    lemma_rows_model_push(rows@, row);
                }
                rows.push(row);
                if matches!(self.current(), Token::Comma) {
                    self.advance();
                }
            }
            match self.expect(Token::RBracket) {
                Ok(()) => {},
                Err(e) => return Err(e),
            }
            Ok(Expr::Matrix(rows))
        } else {
            let elems = match self.parse_element_list() {
                Ok(elems) => elems,
                Err(e) => return Err(e),
            };
            match self.expect(Token::RBracket) {
                Ok(()) => {},
                Err(e) => return Err(e),
            }
            Ok(Expr::Vector(elems))
        }
    }

    fn parse_primary(&mut self) -> (r: Result<Expr, ParseError>)
        ensures
            final(self).token_models() == old(self).token_models(),
            outcome(r, final(self).position(), parse_primary(old(self).token_models(), old(self).position())),
        decreases old(self).token_models().len() - old(self).position(), 13int,
    {
        proof {
            use_type_invariant(&*self);
        }
        let ghost t = self.token_models();
        let ghost p = self.position();
        let cur = copy_token(self.current());
        let expr = match cur {
            Token::Number(n) => {
                self.advance();
                Expr::Number(n)
            },
            Token::Decimal(d) => {
                self.advance();
                Expr::Decimal(d)
            },
            Token::Minus => {
                self.advance();
                let next = copy_token(self.current());
                match next {
                    Token::Number(n) => {
                        self.advance();
                        let mut neg = String::new();
                        push_char(&mut neg, '-');
                        neg.append(n.as_str());
                        Expr::Number(neg)
                    },
                    _ => return Err(ParseError::UnexpectedToken(Token::Minus)),
                }
            },
            Token::Ident(id) => {
                self.advance();
                if matches!(self.current(), Token::LParen) {
                    self.advance();
                    let args = if matches!(self.current(), Token::RParen) {
                        let v: Vec<Expr> = Vec::new();
                        assert(exprs_model(v@) =~= seq![]);
                        v
                    } else {
                        match self.parse_call_arguments() {
                            Ok(args) => args,
                            Err(e) => return Err(e),
                        }
                    };
                    match self.expect(Token::RParen) {
                        Ok(()) => {},
                        Err(e) => return Err(e),
                    }
                    Expr::Call { callee: id, args }
                } else {
                    Expr::Variable(id)
                }
            },
            Token::LBracket => {
                match self.parse_array_literal() {
                    Ok(e) => e,
                    Err(e) => return Err(e),
                }
            },
            Token::LParen => {
                self.advance();
                let inner = match self.parse_expression() {
                    Ok(e) => e,
                    Err(e) => return Err(e),
                };
                match self.expect(Token::RParen) {
                    Ok(()) => {},
                    Err(e) => return Err(e),
                }
                inner
            },
            other => return Err(ParseError::UnexpectedToken(other)),
        };
        self.parse_slice_suffix(expr)
    }

    /// A type annotation, at its name.
    fn parse_type_annotation(&mut self) -> (r: Result<TypeAnnotation, ParseError>)
        ensures
            final(self).token_models() == old(self).token_models(),
            match parse_type_annotation(old(self).token_models(), old(self).position()) {
                Ok((a, q)) => r == Ok::<TypeAnnotation, ParseError>(a) && final(self).position() == q,
                Err(e) => r matches Err(x) && x@ == e,
            },
    {
        proof {
            reveal_strlit("dec");
            reveal_strlit("f64");
        }
        let cur = copy_token(self.current());
        match cur {
            Token::Ident(id) => {
                self.advance();
                if text_is(&id, "dec") {
                    Ok(TypeAnnotation::Dec)
                } else if text_is(&id, "f64") {
                    Ok(TypeAnnotation::F64)
                } else {
                    Err(ParseError::UnknownTypeAnnotation(id))
                }
            },
            _ => Err(ParseError::ExpectedTypeAnnotation),
        }
    }

    /// A `let` statement, at the `let`.
    fn parse_let_statement(&mut self) -> (r: Result<Statement, ParseError>)
        requires
            tok(old(self).token_models(), old(self).position()) == SpecToken::Let,
        ensures
            final(self).token_models() == old(self).token_models(),
            outcome(r, final(self).position(), parse_let_statement(old(self).token_models(), old(self).position())),
    {
        self.advance();
        let cur = copy_token(self.current());
        let name = match cur {
            Token::Ident(id) => {
                self.advance();
                id
            },
            _ => return Err(ParseError::ExpectedIdentifier),
        };
        let mut ty = None;
        if matches!(self.current(), Token::Colon) {
            self.advance();
            ty = match self.parse_type_annotation() {
                Ok(a) => Some(a),
                Err(e) => return Err(e),
            };
        }
        match self.expect(Token::Assign) {
            Ok(()) => {},
            Err(e) => return Err(e),
        }
        let value = match self.parse_expression() {
            Ok(e) => e,
            Err(e) => return Err(e),
        };
        match self.expect(Token::Semicolon) {
            Ok(()) => {},
            Err(e) => return Err(e),
        }
        Ok(Statement::Let { name, ty, value })
    }

    fn parse_statement(&mut self) -> (r: Result<Statement, ParseError>)
        ensures
            final(self).token_models() == old(self).token_models(),
            outcome(r, final(self).position(), parse_statement(old(self).token_models(), old(self).position())),
    {
        proof {
            reveal(parse_statement);
        }
        if matches!(self.current(), Token::Let) {
            self.parse_let_statement()
        } else {
            let expr = match self.parse_expression() {
                Ok(e) => e,
                Err(e) => return Err(e),
            };
            match self.expect(Token::Semicolon) {
                Ok(()) => {},
                Err(e) => return Err(e),
            }
            Ok(Statement::Expression(expr))
        }
    }

    /// Parses the statements from the current position up to `Eof`, or
    /// gives the error at which parsing stops.
    pub fn try_parse_program(&mut self) -> (r: Result<Program, ParseError>)
        ensures
            final(self).token_models() == old(self).token_models(),
            match spec_parse_program(old(self).token_models(), old(self).position()) {
                Ok(stmts) => r matches Ok(prog) && prog@ == stmts,
                Err(e) => r matches Err(x) && x@ == e,
            },
    {
        proof {
            use_type_invariant(&*self);
        }
        let ghost t = self.token_models();
        let ghost p = self.position();
        let mut statements: Vec<Statement> = Vec::new();
        assert(statements_model(statements@) =~= seq![]);
        while !matches!(self.current(), Token::Eof)
            invariant
                self.token_models() == t,
                t == old(self).token_models(),
                p == old(self).position(),
                0 <= self.position() < t.len(),
                parse_statements(t, self.position(), statements_model(statements@))
                    == spec_parse_program(t, p),
            decreases t.len() - self.position(),
        {
            proof {
                use_type_invariant(&*self);
            }
            let ghost q0 = self.position();
            proof {
                lemma_statement_advances(t, q0);
            }
            let ghost acc = statements_model(statements@);
            let stmt = match self.parse_statement() {
                Ok(s) => s,
                Err(e) => return Err(e),
            };
            let ghost before = statements@;
            statements.push(stmt);
            assert(statements_model(statements@) =~= statements_model(before).push(stmt@));
            proof {
                use_type_invariant(&*self);
            }
            assert(parse_statements(t, q0, acc) == parse_statements(
                t,
                self.position(),
                statements_model(statements@),
            ));
        }
        Ok(Program { statements })
    }

    /// Parses the statements from the current position up to `Eof`, on
    /// tokens that parse.
    pub fn parse_program(&mut self) -> (prog: Program)
        requires
            spec_parse_program(old(self).token_models(), old(self).position()) is Ok,
        ensures
            final(self).token_models() == old(self).token_models(),
            spec_parse_program(old(self).token_models(), old(self).position()) == Ok::<
                Seq<SpecStatement>,
                SpecParseError,
            >(prog@),
    {
        match self.try_parse_program() {
            Ok(prog) => prog,
            Err(_) => {
                proof {
                    assert(false);
                }
                Program { statements: Vec::new() }
            },
        }
    }
}

} // verus!
