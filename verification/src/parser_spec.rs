//! What parsing a token sequence gives: a recursive-descent grammar over
//! token positions. Each function gives the parsed value and the position
//! after it, or the error at which the parser stops.
use vstd::prelude::*;
use crate::ast::{BinaryOp, SpecExpr, SpecStatement, TypeAnnotation};
use crate::lexer::SpecToken;
use crate::numbers::literal_count;

verus! {

/// Why parsing stopped.
pub enum SpecParseError {
    Expected { expected: SpecToken, found: SpecToken },
    ExpectedIdentifier,
    UnknownTypeAnnotation(Seq<char>),
    ExpectedTypeAnnotation,
    UnexpectedToken(SpecToken),
    ExpectedSliceEnd,
    ExpectedColumnSliceEnd,
}

/// A parsed value and the position after it, or the error.
pub type Parsed<A> = Result<(A, int), SpecParseError>;

/// The token at `p`; past either end, `Eof`.
pub open spec fn tok(t: Seq<SpecToken>, p: int) -> SpecToken {
    if 0 <= p < t.len() {
        t[p]
    } else {
        SpecToken::Eof
    }
}

/// Takes the token `k` at `p`.
pub open spec fn expect(t: Seq<SpecToken>, p: int, k: SpecToken) -> Result<int, SpecParseError> {
    if tok(t, p) == k {
        Ok(p + 1)
    } else {
        Err(SpecParseError::Expected { expected: k, found: tok(t, p) })
    }
}

/// A loop may go on from `q` after starting at `p`: it has not moved back,
/// nor past the end (every parse moves forward, so this always holds).
pub open spec fn advances(t: Seq<SpecToken>, p: int, q: int) -> bool {
    p <= q <= t.len()
}

/// The operator of an additive token.
pub open spec fn additive_op(k: SpecToken) -> Option<BinaryOp> {
    match k {
        SpecToken::Plus => Some(BinaryOp::Add),
        SpecToken::Minus => Some(BinaryOp::Sub),
        SpecToken::DotPlus => Some(BinaryOp::ElementAdd),
        SpecToken::DotMinus => Some(BinaryOp::ElementSub),
        _ => None,
    }
}

/// The operator of a multiplicative token.
pub open spec fn multiplicative_op(k: SpecToken) -> Option<BinaryOp> {
    match k {
        SpecToken::Star => Some(BinaryOp::Mul),
        SpecToken::Slash => Some(BinaryOp::Div),
        SpecToken::At => Some(BinaryOp::MatMul),
        SpecToken::DotStar => Some(BinaryOp::ElementMul),
        SpecToken::DotSlash => Some(BinaryOp::ElementDiv),
        _ => None,
    }
}

pub open spec fn binary(op: BinaryOp, l: SpecExpr, r: SpecExpr) -> SpecExpr {
    SpecExpr::Binary { op, left: Box::new(l), right: Box::new(r) }
}

/// expression := pipeline
pub open spec fn parse_expression(t: Seq<SpecToken>, p: int) -> Parsed<SpecExpr>
    decreases t.len() - p, 20int,
{
    parse_pipeline(t, p)
}

/// pipeline := additive ( `|>` additive )*
pub open spec fn parse_pipeline(t: Seq<SpecToken>, p: int) -> Parsed<SpecExpr>
    decreases t.len() - p, 19int,
{
    match parse_additive(t, p) {
        Ok((l, q)) => if advances(t, p, q) {
            pipeline_rest(t, l, q)
        } else {
            Ok((l, q))
        },
        Err(e) => Err(e),
    }
}

pub open spec fn pipeline_rest(t: Seq<SpecToken>, l: SpecExpr, q: int) -> Parsed<SpecExpr>
    decreases t.len() - q, 18int,
{
    if tok(t, q) == SpecToken::PipeGreater {
        match parse_additive(t, q + 1) {
            Ok((r, q2)) => if advances(t, q + 1, q2) {
                pipeline_rest(t, binary(BinaryOp::Pipe, l, r), q2)
            } else {
                Ok((binary(BinaryOp::Pipe, l, r), q2))
            },
            Err(e) => Err(e),
        }
    } else {
        Ok((l, q))
    }
}

/// additive := multiplicative ( (`+` | `-` | `.+` | `.-`) multiplicative )*
pub open spec fn parse_additive(t: Seq<SpecToken>, p: int) -> Parsed<SpecExpr>
    decreases t.len() - p, 17int,
{
    match parse_multiplicative(t, p) {
        Ok((l, q)) => if advances(t, p, q) {
            additive_rest(t, l, q)
        } else {
            Ok((l, q))
        },
        Err(e) => Err(e),
    }
}

pub open spec fn additive_rest(t: Seq<SpecToken>, l: SpecExpr, q: int) -> Parsed<SpecExpr>
    decreases t.len() - q, 16int,
{
    match additive_op(tok(t, q)) {
        Some(op) => match parse_multiplicative(t, q + 1) {
            Ok((r, q2)) => if advances(t, q + 1, q2) {
                additive_rest(t, binary(op, l, r), q2)
            } else {
                Ok((binary(op, l, r), q2))
            },
            Err(e) => Err(e),
        },
        None => Ok((l, q)),
    }
}

/// multiplicative := primary ( (`*` | `/` | `@` | `.*` | `./`) primary )*
pub open spec fn parse_multiplicative(t: Seq<SpecToken>, p: int) -> Parsed<SpecExpr>
    decreases t.len() - p, 15int,
{
    match parse_primary(t, p) {
        Ok((l, q)) => if advances(t, p, q) {
            multiplicative_rest(t, l, q)
        } else {
            Ok((l, q))
        },
        Err(e) => Err(e),
    }
}

pub open spec fn multiplicative_rest(t: Seq<SpecToken>, l: SpecExpr, q: int) -> Parsed<SpecExpr>
    decreases t.len() - q, 14int,
{
    match multiplicative_op(tok(t, q)) {
        Some(op) => match parse_primary(t, q + 1) {
            Ok((r, q2)) => if advances(t, q + 1, q2) {
                multiplicative_rest(t, binary(op, l, r), q2)
            } else {
                Ok((binary(op, l, r), q2))
            },
            Err(e) => Err(e),
        },
        None => Ok((l, q)),
    }
}

/// primary := number | `-` number | decimal | name | name `(` arguments `)`
///          | array | `(` expression `)`,   each followed by an optional slice.
pub open spec fn parse_primary(t: Seq<SpecToken>, p: int) -> Parsed<SpecExpr>
    decreases t.len() - p, 13int,
{
    match tok(t, p) {
        SpecToken::Number(n) => slice_suffix(t, SpecExpr::Number(n), p + 1),
        SpecToken::Decimal(d) => slice_suffix(t, SpecExpr::Decimal(d), p + 1),
        SpecToken::Minus => match tok(t, p + 1) {
            SpecToken::Number(n) => slice_suffix(t, SpecExpr::Number(seq!['-'] + n), p + 2),
            _ => Err(SpecParseError::UnexpectedToken(SpecToken::Minus)),
        },
        SpecToken::Ident(id) => if tok(t, p + 1) == SpecToken::LParen {
            if tok(t, p + 2) == SpecToken::RParen {
                slice_suffix(t, SpecExpr::Call { callee: id, args: seq![] }, p + 3)
            } else {
                match call_arguments(t, p + 2, seq![]) {
                    Ok((args, q)) => match expect(t, q, SpecToken::RParen) {
                        Ok(q2) => slice_suffix(t, SpecExpr::Call { callee: id, args }, q2),
                        Err(e) => Err(e),
                    },
                    Err(e) => Err(e),
                }
            }
        } else {
            slice_suffix(t, SpecExpr::Variable(id), p + 1)
        },
        SpecToken::LBracket => match parse_array_literal(t, p + 1) {
            Ok((e, q)) => slice_suffix(t, e, q),
            Err(e) => Err(e),
        },
        SpecToken::LParen => match parse_expression(t, p + 1) {
            Ok((e, q)) => match expect(t, q, SpecToken::RParen) {
                Ok(q2) => slice_suffix(t, e, q2),
                Err(err) => Err(err),
            },
            Err(e) => Err(e),
        },
        other => Err(SpecParseError::UnexpectedToken(other)),
    }
}

/// arguments := expression ( `,` expression )*   (appended to `acc`)
pub open spec fn call_arguments(t: Seq<SpecToken>, p: int, acc: Seq<SpecExpr>) -> Parsed<
    Seq<SpecExpr>,
>
    decreases t.len() - p, 21int,
{
    match parse_expression(t, p) {
        Ok((e, q)) => if tok(t, q) == SpecToken::Comma {
            if advances(t, p, q) {
                call_arguments(t, q + 1, acc.push(e))
            } else {
                Ok((acc.push(e), q))
            }
        } else {
            Ok((acc.push(e), q))
        },
        Err(e) => Err(e),
    }
}

/// The elements of a row or vector up to `]` (not taken), each optionally
/// followed by `,`; appended to `acc`.
pub open spec fn element_list(t: Seq<SpecToken>, p: int, acc: Seq<SpecExpr>) -> Parsed<
    Seq<SpecExpr>,
>
    decreases t.len() - p, 21int,
{
    if tok(t, p) == SpecToken::RBracket {
        Ok((acc, p))
    } else {
        match parse_expression(t, p) {
            Ok((e, q)) => {
                let q2 = if tok(t, q) == SpecToken::Comma {
                    q + 1
                } else {
                    q
                };
                if p < q2 && advances(t, p, q2) {
                    element_list(t, q2, acc.push(e))
                } else {
                    Ok((acc.push(e), q2))
                }
            },
            Err(e) => Err(e),
        }
    }
}

/// The rows `[ elements ]` of a matrix literal, each optionally followed by
/// `,`; appended to `acc`.
pub open spec fn matrix_rows(t: Seq<SpecToken>, p: int, acc: Seq<Seq<SpecExpr>>) -> Parsed<
    Seq<Seq<SpecExpr>>,
>
    decreases t.len() - p, 22int,
{
    if tok(t, p) == SpecToken::LBracket {
        match element_list(t, p + 1, seq![]) {
            Ok((row, q)) => match expect(t, q, SpecToken::RBracket) {
                Ok(q2) => {
                    let q3 = if tok(t, q2) == SpecToken::Comma {
                        q2 + 1
                    } else {
                        q2
                    };
                    if p < q3 && advances(t, p, q3) {
                        matrix_rows(t, q3, acc.push(row))
                    } else {
                        Ok((acc.push(row), q3))
                    }
                },
                Err(e) => Err(e),
            },
            Err(e) => Err(e),
        }
    } else {
        Ok((acc, p))
    }
}

/// An array literal after its `[`: a matrix if a `[` follows, else a vector.
pub open spec fn parse_array_literal(t: Seq<SpecToken>, p: int) -> Parsed<SpecExpr>
    decreases t.len() - p, 23int,
{
    if tok(t, p) == SpecToken::LBracket {
        match matrix_rows(t, p, seq![]) {
            Ok((rows, q)) => match expect(t, q, SpecToken::RBracket) {
                Ok(q2) => Ok((SpecExpr::Matrix(rows), q2)),
                Err(e) => Err(e),
            },
            Err(e) => Err(e),
        }
    } else {
        match element_list(t, p, seq![]) {
            Ok((elems, q)) => match expect(t, q, SpecToken::RBracket) {
                Ok(q2) => Ok((SpecExpr::Vector(elems), q2)),
                Err(e) => Err(e),
            },
            Err(e) => Err(e),
        }
    }
}

/// An optional slice bound: a number, or 0 when none is written.
pub open spec fn slice_start(t: Seq<SpecToken>, p: int) -> (usize, int) {
    match tok(t, p) {
        SpecToken::Number(n) => (literal_count(n), p + 1),
        _ => (0, p),
    }
}

/// The slice `[a..b]` or `[a..b, c..d]` that may follow a primary `e` at `p`.
pub open spec fn slice_suffix(t: Seq<SpecToken>, e: SpecExpr, p: int) -> Parsed<SpecExpr> {
    if tok(t, p) == SpecToken::LBracket {
        let (r_start, p2) = slice_start(t, p + 1);
        match expect(t, p2, SpecToken::DotDot) {
            Ok(p3) => match tok(t, p3) {
                SpecToken::Number(n) => {
                    let r_end = literal_count(n);
                    let p4 = p3 + 1;
                    if tok(t, p4) == SpecToken::Comma {
                        let (c_start, p5) = slice_start(t, p4 + 1);
                        match expect(t, p5, SpecToken::DotDot) {
                            Ok(p6) => match tok(t, p6) {
                                SpecToken::Number(m) => match expect(
                                    t,
                                    p6 + 1,
                                    SpecToken::RBracket,
                                ) {
                                    Ok(p7) => Ok(
                                        (
                                            SpecExpr::MatrixSlice {
                                                target: Box::new(e),
                                                r_start,
                                                r_end,
                                                c_start,
                                                c_end: literal_count(m),
                                            },
                                            p7,
                                        ),
                                    ),
                                    Err(err) => Err(err),
                                },
                                _ => Err(SpecParseError::ExpectedColumnSliceEnd),
                            },
                            Err(err) => Err(err),
                        }
                    } else {
                        match expect(t, p4, SpecToken::RBracket) {
                            Ok(p5) => Ok(
                                (SpecExpr::Slice { target: Box::new(e), start: r_start, end: r_end }, p5),
                            ),
                            Err(err) => Err(err),
                        }
                    }
                },
                _ => Err(SpecParseError::ExpectedSliceEnd),
            },
            Err(err) => Err(err),
        }
    } else {
        Ok((e, p))
    }
}

/// type := `dec` | `f64`
pub open spec fn parse_type_annotation(t: Seq<SpecToken>, p: int) -> Parsed<TypeAnnotation> {
    match tok(t, p) {
        SpecToken::Ident(id) => if id == "dec"@ {
            Ok((TypeAnnotation::Dec, p + 1))
        } else if id == "f64"@ {
            Ok((TypeAnnotation::F64, p + 1))
        } else {
            Err(SpecParseError::UnknownTypeAnnotation(id))
        },
        _ => Err(SpecParseError::ExpectedTypeAnnotation),
    }
}

/// let := `let` name ( `:` type )? `=` expression `;`   (at the `let`)
pub open spec fn parse_let_statement(t: Seq<SpecToken>, p: int) -> Parsed<SpecStatement> {
    match tok(t, p + 1) {
        SpecToken::Ident(name) => {
            let ty: Parsed<Option<TypeAnnotation>> = if tok(t, p + 2) == SpecToken::Colon {
                match parse_type_annotation(t, p + 3) {
                    Ok((a, q)) => Ok((Some(a), q)),
                    Err(e) => Err(e),
                }
            } else {
                Ok((None, p + 2))
            };
            match ty {
                Ok((ty, q)) => match expect(t, q, SpecToken::Assign) {
                    Ok(q2) => match parse_expression(t, q2) {
                        Ok((value, q3)) => match expect(t, q3, SpecToken::Semicolon) {
                            Ok(q4) => Ok((SpecStatement::Let { name, ty, value }, q4)),
                            Err(e) => Err(e),
                        },
                        Err(e) => Err(e),
                    },
                    Err(e) => Err(e),
                },
                Err(e) => Err(e),
            }
        },
        _ => Err(SpecParseError::ExpectedIdentifier),
    }
}

/// statement := let | expression `;`
#[verifier::opaque]
pub open spec fn parse_statement(t: Seq<SpecToken>, p: int) -> Parsed<SpecStatement> {
    if tok(t, p) == SpecToken::Let {
        parse_let_statement(t, p)
    } else {
        match parse_expression(t, p) {
            Ok((e, q)) => match expect(t, q, SpecToken::Semicolon) {
                Ok(q2) => Ok((SpecStatement::Expression(e), q2)),
                Err(err) => Err(err),
            },
            Err(err) => Err(err),
        }
    }
}

/// The statements from `p` up to `Eof`, appended to `acc`.
pub open spec fn parse_statements(t: Seq<SpecToken>, p: int, acc: Seq<SpecStatement>) -> Result<
    Seq<SpecStatement>,
    SpecParseError,
>
    decreases t.len() - p,
{
    if tok(t, p) == SpecToken::Eof {
        Ok(acc)
    } else {
        match parse_statement(t, p) {
            Ok((s, q)) => if p < q && advances(t, p, q) {
                parse_statements(t, q, acc.push(s))
            } else {
                Ok(acc.push(s))
            },
            Err(e) => Err(e),
        }
    }
}

/// What parsing a whole program from position `p` gives.
pub open spec fn spec_parse_program(t: Seq<SpecToken>, p: int) -> Result<
    Seq<SpecStatement>,
    SpecParseError,
> {
    parse_statements(t, p, seq![])
}

pub proof fn lemma_expect(t: Seq<SpecToken>, p: int, k: SpecToken)
    requires
        0 <= p,
        k != SpecToken::Eof,
    ensures
        expect(t, p, k) matches Ok(q) ==> q == p + 1 && q <= t.len(),
{
}

pub proof fn lemma_slice_suffix(t: Seq<SpecToken>, e: SpecExpr, p: int)
    requires
        0 <= p <= t.len(),
    ensures
        slice_suffix(t, e, p) matches Ok((_, q)) ==> p <= q <= t.len(),
{
}

/// Every expression takes at least one token, and none past the end.
pub proof fn lemma_expression_advances(t: Seq<SpecToken>, p: int)
    requires
        0 <= p <= t.len(),
    ensures
        parse_expression(t, p) matches Ok((_, q)) ==> p < q <= t.len(),
    decreases t.len() - p, 20int,
{
    lemma_pipeline_advances(t, p);
}

pub proof fn lemma_pipeline_advances(t: Seq<SpecToken>, p: int)
    requires
        0 <= p <= t.len(),
    ensures
        parse_pipeline(t, p) matches Ok((_, q)) ==> p < q <= t.len(),
    decreases t.len() - p, 19int,
{
    lemma_additive_advances(t, p);
    if let Ok((l, q)) = parse_additive(t, p) {
        lemma_pipeline_rest_advances(t, l, q);
    }
}

pub proof fn lemma_pipeline_rest_advances(t: Seq<SpecToken>, l: SpecExpr, q: int)
    requires
        0 <= q <= t.len(),
    ensures
        pipeline_rest(t, l, q) matches Ok((_, q2)) ==> q <= q2 <= t.len(),
    decreases t.len() - q, 18int,
{
    if tok(t, q) == SpecToken::PipeGreater {
        lemma_additive_advances(t, q + 1);
        if let Ok((r, q2)) = parse_additive(t, q + 1) {
            lemma_pipeline_rest_advances(t, binary(BinaryOp::Pipe, l, r), q2);
        }
    }
}

/// `k` is the token of the additive operator `op`: `+ - .+ .-`.
pub open spec fn is_sum_token(k: SpecToken, op: BinaryOp) -> bool {
    ||| k == SpecToken::Plus && op == BinaryOp::Add
    ||| k == SpecToken::Minus && op == BinaryOp::Sub
    ||| k == SpecToken::DotPlus && op == BinaryOp::ElementAdd
    ||| k == SpecToken::DotMinus && op == BinaryOp::ElementSub
}

/// `k` is the token of the multiplicative operator `op`: `* / @ .* ./`.
pub open spec fn is_product_token(k: SpecToken, op: BinaryOp) -> bool {
    ||| k == SpecToken::Star && op == BinaryOp::Mul
    ||| k == SpecToken::Slash && op == BinaryOp::Div
    ||| k == SpecToken::At && op == BinaryOp::MatMul
    ||| k == SpecToken::DotStar && op == BinaryOp::ElementMul
    ||| k == SpecToken::DotSlash && op == BinaryOp::ElementDiv
}

/// `k` is one of the nine arithmetic operator tokens.
pub open spec fn is_operator_token(k: SpecToken) -> bool {
    ||| k is Plus
    ||| k is Minus
    ||| k is DotPlus
    ||| k is DotMinus
    ||| k is Star
    ||| k is Slash
    ||| k is At
    ||| k is DotStar
    ||| k is DotSlash
}

/// Operators of one level group to the left: `a - b - c` parses as
/// `(a - b) - c`, and `a / b @ c` as `(a / b) @ c`.
#[verifier::spinoff_prover]
pub proof fn law_operators_group_left(
    t: Seq<SpecToken>,
    p: int,
    a: SpecExpr,
    p1: int,
    op1: BinaryOp,
    b: SpecExpr,
    p2: int,
    op2: BinaryOp,
    c: SpecExpr,
    p3: int,
)
    requires
        0 <= p <= t.len(),
        parse_primary(t, p) == Ok::<(SpecExpr, int), SpecParseError>((a, p1)),
        parse_primary(t, p1 + 1) == Ok::<(SpecExpr, int), SpecParseError>((b, p2)),
        parse_primary(t, p2 + 1) == Ok::<(SpecExpr, int), SpecParseError>((c, p3)),
        !is_operator_token(tok(t, p3)),
        (is_sum_token(tok(t, p1), op1) && is_sum_token(tok(t, p2), op2)) || (is_product_token(
            tok(t, p1),
            op1,
        ) && is_product_token(tok(t, p2), op2)),
    ensures
        parse_additive(t, p) == Ok::<(SpecExpr, int), SpecParseError>(
            (binary(op2, binary(op1, a, b), c), p3),
        ),
{
    lemma_primary_advances(t, p);
    assert(p1 < t.len());
    lemma_primary_advances(t, p1 + 1);
    assert(p2 < t.len());
    lemma_primary_advances(t, p2 + 1);
    let ab = binary(op1, a, b);
    let abc = binary(op2, ab, c);
    if is_sum_token(tok(t, p1), op1) {
        assert(multiplicative_rest(t, a, p1) == Ok::<(SpecExpr, int), SpecParseError>((a, p1)));
        assert(parse_multiplicative(t, p) == Ok::<(SpecExpr, int), SpecParseError>((a, p1)));
        assert(multiplicative_rest(t, b, p2) == Ok::<(SpecExpr, int), SpecParseError>((b, p2)));
        assert(parse_multiplicative(t, p1 + 1) == Ok::<(SpecExpr, int), SpecParseError>((b, p2)));
        assert(multiplicative_rest(t, c, p3) == Ok::<(SpecExpr, int), SpecParseError>((c, p3)));
        assert(parse_multiplicative(t, p2 + 1) == Ok::<(SpecExpr, int), SpecParseError>((c, p3)));
        assert(additive_rest(t, abc, p3) == Ok::<(SpecExpr, int), SpecParseError>((abc, p3)));
        assert(additive_rest(t, ab, p2) == Ok::<(SpecExpr, int), SpecParseError>((abc, p3)));
        assert(additive_rest(t, a, p1) == Ok::<(SpecExpr, int), SpecParseError>((abc, p3)));
    } else {
        assert(multiplicative_rest(t, abc, p3) == Ok::<(SpecExpr, int), SpecParseError>((abc, p3)));
        assert(multiplicative_rest(t, ab, p2) == Ok::<(SpecExpr, int), SpecParseError>((abc, p3)));
        assert(multiplicative_rest(t, a, p1) == Ok::<(SpecExpr, int), SpecParseError>((abc, p3)));
        assert(parse_multiplicative(t, p) == Ok::<(SpecExpr, int), SpecParseError>((abc, p3)));
        assert(additive_rest(t, abc, p3) == Ok::<(SpecExpr, int), SpecParseError>((abc, p3)));
    }
}

/// `@`, `*`, `/`, `.*` and `./` bind tighter than `+`, `-`, `.+` and `.-`:
/// three operands joined as `a + b @ c` (with any of these operators) parse
/// as `a + (b @ c)`, and the parse ends after `c` when no further operator
/// follows.
#[verifier::spinoff_prover]
pub proof fn law_product_binds_tighter_than_sum(
    t: Seq<SpecToken>,
    p: int,
    a: SpecExpr,
    p1: int,
    add: BinaryOp,
    b: SpecExpr,
    p2: int,
    mul: BinaryOp,
    c: SpecExpr,
    p3: int,
)
    requires
        0 <= p <= t.len(),
        parse_primary(t, p) == Ok::<(SpecExpr, int), SpecParseError>((a, p1)),
        is_sum_token(tok(t, p1), add),
        parse_primary(t, p1 + 1) == Ok::<(SpecExpr, int), SpecParseError>((b, p2)),
        is_product_token(tok(t, p2), mul),
        parse_primary(t, p2 + 1) == Ok::<(SpecExpr, int), SpecParseError>((c, p3)),
        !is_operator_token(tok(t, p3)),
    ensures
        parse_additive(t, p) == Ok::<(SpecExpr, int), SpecParseError>(
            (binary(add, a, binary(mul, b, c)), p3),
        ),
{
    lemma_primary_advances(t, p);
    assert(p1 < t.len());
    lemma_primary_advances(t, p1 + 1);
    assert(p2 < t.len());
    lemma_primary_advances(t, p2 + 1);
    assert(multiplicative_rest(t, a, p1) == Ok::<(SpecExpr, int), SpecParseError>((a, p1)));
    assert(parse_multiplicative(t, p) == Ok::<(SpecExpr, int), SpecParseError>((a, p1)));
    let bc = binary(mul, b, c);
    assert(multiplicative_rest(t, bc, p3) == Ok::<(SpecExpr, int), SpecParseError>((bc, p3)));
    assert(multiplicative_rest(t, b, p2) == Ok::<(SpecExpr, int), SpecParseError>((bc, p3)));
    assert(parse_multiplicative(t, p1 + 1) == Ok::<(SpecExpr, int), SpecParseError>((bc, p3)));
    let abc = binary(add, a, bc);
    assert(additive_rest(t, abc, p3) == Ok::<(SpecExpr, int), SpecParseError>((abc, p3)));
    assert(additive_rest(t, a, p1) == Ok::<(SpecExpr, int), SpecParseError>((abc, p3)));
}

pub proof fn lemma_additive_advances(t: Seq<SpecToken>, p: int)
    requires
        0 <= p <= t.len(),
    ensures
        parse_additive(t, p) matches Ok((_, q)) ==> p < q <= t.len(),
    decreases t.len() - p, 17int,
{
    lemma_multiplicative_advances(t, p);
    if let Ok((l, q)) = parse_multiplicative(t, p) {
        lemma_additive_rest_advances(t, l, q);
    }
}

pub proof fn lemma_additive_rest_advances(t: Seq<SpecToken>, l: SpecExpr, q: int)
    requires
        0 <= q <= t.len(),
    ensures
        additive_rest(t, l, q) matches Ok((_, q2)) ==> q <= q2 <= t.len(),
    decreases t.len() - q, 16int,
{
    if let Some(op) = additive_op(tok(t, q)) {
        lemma_multiplicative_advances(t, q + 1);
        if let Ok((r, q2)) = parse_multiplicative(t, q + 1) {
            lemma_additive_rest_advances(t, binary(op, l, r), q2);
        }
    }
}

pub proof fn lemma_multiplicative_advances(t: Seq<SpecToken>, p: int)
    requires
        0 <= p <= t.len(),
    ensures
        parse_multiplicative(t, p) matches Ok((_, q)) ==> p < q <= t.len(),
    decreases t.len() - p, 15int,
{
    lemma_primary_advances(t, p);
    if let Ok((l, q)) = parse_primary(t, p) {
        lemma_multiplicative_rest_advances(t, l, q);
    }
}

pub proof fn lemma_multiplicative_rest_advances(t: Seq<SpecToken>, l: SpecExpr, q: int)
    requires
        0 <= q <= t.len(),
    ensures
        multiplicative_rest(t, l, q) matches Ok((_, q2)) ==> q <= q2 <= t.len(),
    decreases t.len() - q, 14int,
{
    if let Some(op) = multiplicative_op(tok(t, q)) {
        lemma_primary_advances(t, q + 1);
        if let Ok((r, q2)) = parse_primary(t, q + 1) {
            lemma_multiplicative_rest_advances(t, binary(op, l, r), q2);
        }
    }
}

pub proof fn lemma_primary_advances(t: Seq<SpecToken>, p: int)
    requires
        0 <= p <= t.len(),
    ensures
        parse_primary(t, p) matches Ok((_, q)) ==> p < q <= t.len(),
    decreases t.len() - p, 13int,
{
    match tok(t, p) {
        SpecToken::Number(n) => {
            lemma_slice_suffix(t, SpecExpr::Number(n), p + 1);
        },
        SpecToken::Decimal(d) => {
            lemma_slice_suffix(t, SpecExpr::Decimal(d), p + 1);
        },
        SpecToken::Minus => {
            if let SpecToken::Number(n) = tok(t, p + 1) {
                lemma_slice_suffix(t, SpecExpr::Number(seq!['-'] + n), p + 2);
            }
        },
        SpecToken::Ident(id) => {
            if tok(t, p + 1) == SpecToken::LParen {
                if tok(t, p + 2) == SpecToken::RParen {
                    lemma_slice_suffix(t, SpecExpr::Call { callee: id, args: seq![] }, p + 3);
                } else {
                    lemma_call_arguments_advances(t, p + 2, seq![]);
                    if let Ok((args, q)) = call_arguments(t, p + 2, seq![]) {
                        lemma_expect(t, q, SpecToken::RParen);
                        if let Ok(q2) = expect(t, q, SpecToken::RParen) {
                            lemma_slice_suffix(t, SpecExpr::Call { callee: id, args }, q2);
                        }
                    }
                }
            } else {
                lemma_slice_suffix(t, SpecExpr::Variable(id), p + 1);
            }
        },
        SpecToken::LBracket => {
            lemma_array_literal_advances(t, p + 1);
            if let Ok((e, q)) = parse_array_literal(t, p + 1) {
                lemma_slice_suffix(t, e, q);
            }
        },
        SpecToken::LParen => {
            lemma_expression_advances(t, p + 1);
            if let Ok((e, q)) = parse_expression(t, p + 1) {
                lemma_expect(t, q, SpecToken::RParen);
                if let Ok(q2) = expect(t, q, SpecToken::RParen) {
                    lemma_slice_suffix(t, e, q2);
                }
            }
        },
        _ => {},
    }
}

pub proof fn lemma_call_arguments_advances(t: Seq<SpecToken>, p: int, acc: Seq<SpecExpr>)
    requires
        0 <= p <= t.len(),
    ensures
        call_arguments(t, p, acc) matches Ok((_, q)) ==> p < q <= t.len(),
    decreases t.len() - p, 21int,
{
    lemma_expression_advances(t, p);
    if let Ok((e, q)) = parse_expression(t, p) {
        if tok(t, q) == SpecToken::Comma && advances(t, p, q) {
            lemma_call_arguments_advances(t, q + 1, acc.push(e));
        }
    }
}

pub proof fn lemma_element_list_advances(t: Seq<SpecToken>, p: int, acc: Seq<SpecExpr>)
    requires
        0 <= p <= t.len(),
    ensures
        element_list(t, p, acc) matches Ok((_, q)) ==> p <= q <= t.len(),
    decreases t.len() - p, 21int,
{
    if tok(t, p) != SpecToken::RBracket {
        lemma_expression_advances(t, p);
        if let Ok((e, q)) = parse_expression(t, p) {
            let q2 = if tok(t, q) == SpecToken::Comma {
                q + 1
            } else {
                q
            };
            if p < q2 && advances(t, p, q2) {
                lemma_element_list_advances(t, q2, acc.push(e));
            }
        }
    }
}

pub proof fn lemma_matrix_rows_advances(t: Seq<SpecToken>, p: int, acc: Seq<Seq<SpecExpr>>)
    requires
        0 <= p <= t.len(),
    ensures
        matrix_rows(t, p, acc) matches Ok((_, q)) ==> p <= q <= t.len(),
    decreases t.len() - p, 22int,
{
    if tok(t, p) == SpecToken::LBracket {
        lemma_element_list_advances(t, p + 1, seq![]);
        if let Ok((row, q)) = element_list(t, p + 1, seq![]) {
            lemma_expect(t, q, SpecToken::RBracket);
            if let Ok(q2) = expect(t, q, SpecToken::RBracket) {
                let q3 = if tok(t, q2) == SpecToken::Comma {
                    q2 + 1
                } else {
                    q2
                };
                if p < q3 && advances(t, p, q3) {
                    lemma_matrix_rows_advances(t, q3, acc.push(row));
                }
            }
        }
    }
}

pub proof fn lemma_array_literal_advances(t: Seq<SpecToken>, p: int)
    requires
        0 <= p <= t.len(),
    ensures
        parse_array_literal(t, p) matches Ok((_, q)) ==> p < q <= t.len(),
    decreases t.len() - p, 23int,
{
    if tok(t, p) == SpecToken::LBracket {
        lemma_matrix_rows_advances(t, p, seq![]);
        if let Ok((rows, q)) = matrix_rows(t, p, seq![]) {
            lemma_expect(t, q, SpecToken::RBracket);
        }
    } else {
        lemma_element_list_advances(t, p, seq![]);
        if let Ok((elems, q)) = element_list(t, p, seq![]) {
            lemma_expect(t, q, SpecToken::RBracket);
        }
    }
}

/// Every statement takes at least one token, and none past the end.
pub proof fn lemma_statement_advances(t: Seq<SpecToken>, p: int)
    requires
        0 <= p <= t.len(),
    ensures
        parse_statement(t, p) matches Ok((_, q)) ==> p < q <= t.len(),
{
    reveal(parse_statement);
    if tok(t, p) == SpecToken::Let {
        if let SpecToken::Ident(name) = tok(t, p + 1) {
            let ty: Parsed<Option<TypeAnnotation>> = if tok(t, p + 2) == SpecToken::Colon {
                match parse_type_annotation(t, p + 3) {
                    Ok((a, q)) => Ok((Some(a), q)),
                    Err(e) => Err(e),
                }
            } else {
                Ok((None, p + 2))
            };
            if let Ok((ty, q)) = ty {
                lemma_expect(t, q, SpecToken::Assign);
                if let Ok(q2) = expect(t, q, SpecToken::Assign) {
                    lemma_expression_advances(t, q2);
                    if let Ok((value, q3)) = parse_expression(t, q2) {
                        lemma_expect(t, q3, SpecToken::Semicolon);
                    }
                }
            }
        }
    } else {
        lemma_expression_advances(t, p);
        if let Ok((e, q)) = parse_expression(t, p) {
            lemma_expect(t, q, SpecToken::Semicolon);
        }
    }
}

} // verus!
